use glazewm::composition::{
    build_visual_tree, ring_geometry, Backdrop, BlurOverlayParams, BlurVisual, Brush, KnobAction,
    Layer, Pipeline, PropertyValue, Resized, Ring, RootVisual, ScalarEffect,
};
use glazewm::effects::BackdropStyle;
use glazewm::geometry::{Color, Rect};
use glazewm::image_finder::{images_of, FinderStep, FoundImage, ImageFinder, MAX_IMAGE_RECTS};
use glazewm::image_tracking::{Fingerprint, Levels, Region, Sample};
use glazewm::wallpaper::{
    desktop_settings, desktop_signature, from_colorref, monitor_index, text_length,
    DesktopSettings, MonitorWallpaper, ServiceAnswers, WallpaperFit,
};
use glazewm::wallpaper_layout::{place, Placement, Ratio};
use glazewm::wallpaper_surface::{
    crop_offset, draw_result, draw_stages, monitor_bounds, BakeKnobs, DesktopWatch, DrawStage,
    SurfaceCache, WallpaperKey, WallpaperMemo,
};

/// Thousandths of a pixel.
fn px(v: f64) -> i64 {
    (v * 1000.0) as i64
}

/// Pixels of a length in halves of thousandths.
fn pixels(v: i64) -> f64 {
    v as f64 / 2000.0
}

fn ring(x: f64, y: f64, width: f64, corner_radius: f64) -> Ring {
    Ring { size_x: px(x), size_y: px(y), width: px(width), corner_radius: px(corner_radius) }
}

#[test]
fn geometry_is_inset_by_half_the_stroke() {
    let g = ring_geometry(&ring(800.0, 600.0, 4.0, 10.0));
    assert_eq!(pixels(g.inset), 2.0);
    assert_eq!((pixels(g.size_x), pixels(g.size_y)), (796.0, 596.0));
    assert!((pixels(g.corner_radius) - 8.0).abs() < f64::EPSILON);
}

#[test]
fn zero_width_leaves_geometry_at_full_size() {
    let g = ring_geometry(&ring(800.0, 600.0, 0.0, 10.0));
    assert_eq!(pixels(g.inset), 0.0);
    assert_eq!((pixels(g.size_x), pixels(g.size_y)), (800.0, 600.0));
    assert!((pixels(g.corner_radius) - 10.0).abs() < f64::EPSILON);
}

#[test]
fn oversized_width_clamps_instead_of_going_negative() {
    let g = ring_geometry(&ring(20.0, 10.0, 40.0, 2.0));
    assert_eq!((pixels(g.size_x), pixels(g.size_y)), (0.0, 0.0));
    assert!(pixels(g.corner_radius).abs() < f64::EPSILON);
}

#[test]
fn negative_width_behaves_like_zero() {
    let g = ring_geometry(&ring(100.0, 50.0, -8.0, 4.0));
    assert_eq!(pixels(g.inset), 0.0);
    assert_eq!((pixels(g.size_x), pixels(g.size_y)), (100.0, 50.0));
}

#[test]
fn borders_of_any_size_that_fits_are_drawn() {
    let size = i64::MAX / 2;
    let wide = Ring { size_x: size, size_y: 0, width: i64::MAX, corner_radius: i64::MAX };
    let g = ring_geometry(&wide);
    assert_eq!((g.inset, g.size_x, g.size_y, g.corner_radius), (i64::MAX, 0, 0, i64::MAX));
    let bare = Ring { size_x: size, size_y: i64::MIN, width: i64::MIN, corner_radius: i64::MIN };
    let g = ring_geometry(&bare);
    assert_eq!((g.inset, g.size_x, g.size_y, g.corner_radius), (0, i64::MAX - 1, 0, 0));
}

fn levels(c: [f64; 3]) -> Levels {
    let level = |v: f64| (v * 1_000_000.0).round() as u32;
    Levels { r: level(c[0]), g: level(c[1]), b: level(c[2]) }
}

/// A `width` x `height` region at the origin whose color at `(x, y)` is
/// `color(x, y)`.
fn region(width: i32, height: i32, color: impl Fn(i32, i32) -> [f64; 3]) -> Region {
    let mut pixels = Vec::new();
    for y in 0..height {
        for x in 0..width {
            pixels.push(Some(levels(color(x, y))));
        }
    }
    Region { rect: Rect::from_ltrb(0, 0, width, height), pixels }
}

/// A varied "picture" filling rows `top..top + 40` of a white page.
fn page_with_picture(top: i32) -> Region {
    region(60, 200, move |x, y| {
        if (top..top + 40).contains(&y) && (10..50).contains(&x) {
            let t = ((x * 7 + (y - top) * 13) % 40) as f64 / 40.0;
            [t, 1.0 - t, (t * 3.0) % 1.0]
        } else {
            [1.0; 3]
        }
    })
}

#[test]
fn finds_a_picture_that_scrolled() {
    let picture = Rect::from_ltrb(10, 60, 50, 100);
    let fingerprint = Fingerprint::sample(&picture, &page_with_picture(60));

    // Scrolled up by 25 px.
    let region = page_with_picture(35);
    let rect = region.rect;
    assert_eq!(fingerprint.find_shift(&picture, &rect, &region, 64), Some(-25));
}

#[test]
fn loses_a_picture_that_is_gone() {
    let picture = Rect::from_ltrb(10, 60, 50, 100);
    let fingerprint = Fingerprint::sample(&picture, &page_with_picture(60));

    // Only page and text-like stripes where it was.
    let region = region(60, 200, |_, y| if y % 4 == 0 { [0.1; 3] } else { [1.0; 3] });
    let rect = region.rect;
    assert_eq!(fingerprint.find_shift(&picture, &rect, &region, 64), None);
}

#[test]
fn loses_a_picture_scrolled_out_of_its_view() {
    let picture = Rect::from_ltrb(10, 60, 50, 100);
    let fingerprint = Fingerprint::sample(&picture, &page_with_picture(60));

    // Scrolled up by 35 px in a list whose view starts at y = 50: only its
    // bottom quarter still shows.
    let region = page_with_picture(25);
    let view = Rect::from_ltrb(0, 50, 60, 200);
    assert_eq!(fingerprint.find_shift(&picture, &view, &region, 64), None);
}

#[test]
fn keeps_an_unmoved_picture_in_place() {
    let picture = Rect::from_ltrb(10, 60, 50, 100);
    let region = page_with_picture(60);
    let fingerprint = Fingerprint::sample(&picture, &region);
    let rect = region.rect;
    assert_eq!(fingerprint.find_shift(&picture, &rect, &region, 64), Some(0));
}

#[test]
fn unmoved_pictures_stay_however_far_is_searched() {
    let picture = Rect::from_ltrb(10, 60, 50, 100);
    let region = page_with_picture(60);
    let fingerprint = Fingerprint::sample(&picture, &region);
    let rect = region.rect;
    for max_shift in [i32::MIN, -1, 0, 1, i32::MAX] {
        assert_eq!(fingerprint.find_shift(&picture, &rect, &region, max_shift), Some(0));
    }
}

#[test]
fn pictures_at_the_edge_of_the_plane_are_searched_for() {
    // Below the last row there is nothing to look at.
    let bottom = i32::MAX - 1;
    let rect = Rect::from_ltrb(0, bottom - 3, 1, bottom);
    let colors = [[0.0; 3], [1.0; 3], [1.0; 3]];
    let region = Region { rect, pixels: colors.iter().map(|c| Some(levels(*c))).collect() };
    let picture = Rect::from_ltrb(0, bottom - 1, 1, bottom);
    let samples = vec![Sample { x: 0, y: 0, color: levels([0.0; 3]) }];
    let fingerprint = Fingerprint { samples };
    assert_eq!(fingerprint.find_shift(&picture, &rect, &region, 8), Some(-2));
}

#[test]
fn of_equal_shifts_the_nearest_wins() {
    // The picture is dark; so are three places of the page, equally far off
    // its color, and none of them is where it was.
    let dark = |y| matches!(y, 2 | 7 | 9);
    let region = region(1, 12, |_, y| if dark(y) { [0.01; 3] } else { [1.0; 3] });
    let picture = Rect::from_ltrb(0, 5, 1, 6);
    let samples = vec![Sample { x: 0, y: 0, color: levels([0.0; 3]) }];
    let fingerprint = Fingerprint { samples };
    let rect = region.rect;
    assert_eq!(fingerprint.find_shift(&picture, &rect, &region, 6), Some(2));
    assert_eq!(fingerprint.find_shift(&picture, &rect, &region, 1), None);
}

#[test]
fn samples_are_in_the_middle_of_their_cells() {
    let picture = Rect::from_ltrb(0, 0, 2, 1);
    let region = region(2, 1, |x, _| if x == 0 { [0.0; 3] } else { [1.0; 3] });
    let fingerprint = Fingerprint::sample(&picture, &region);
    let at: Vec<(i32, i32)> = fingerprint.samples.iter().map(|s| (s.x, s.y)).collect();
    assert_eq!(at, vec![(0, 0), (1, 0)]);
    assert_eq!(region.at(1, 0), Some(levels([1.0; 3])));
    assert_eq!(region.at(2, 0), None);
    let empty = Fingerprint { samples: vec![] };
    assert_eq!(empty.find_shift(&picture, &picture, &region, 4), None);
}

#[test]
fn fit_maps_every_position() {
    assert_eq!(WallpaperFit::from(0), WallpaperFit::Center);
    assert_eq!(WallpaperFit::from(1), WallpaperFit::Tile);
    assert_eq!(WallpaperFit::from(2), WallpaperFit::Stretch);
    assert_eq!(WallpaperFit::from(3), WallpaperFit::Fit);
    assert_eq!(WallpaperFit::from(4), WallpaperFit::Fill);
    assert_eq!(WallpaperFit::from(5), WallpaperFit::Span);

    assert_eq!(WallpaperFit::from(99), WallpaperFit::Fill);
}

/// A wallpaper on one of two monitors side by side.
fn wallpaper(fit: WallpaperFit, monitor: Rect) -> MonitorWallpaper {
    MonitorWallpaper {
        image: None,
        modified: None,
        fit,
        background: Color { r: 0, g: 0, b: 0, a: 255 },
        monitor,
        virtual_screen: Rect::from_xy(0, 0, 3840, 1080),
    }
}

fn primary() -> Rect {
    Rect::from_xy(0, 0, 1920, 1080)
}

fn secondary() -> Rect {
    Rect::from_xy(1920, 0, 1920, 1080)
}

fn value(r: Ratio) -> f64 {
    r.num as f64 / r.den as f64
}

#[test]
fn fill_covers_and_centers() {
    let placed = place((1920, 1200), &wallpaper(WallpaperFit::Fill, primary()));

    assert!((value(placed.scale_x) - 1.0).abs() < f64::EPSILON);
    assert!((value(placed.scale_y) - 1.0).abs() < f64::EPSILON);
    assert!((value(placed.offset_x) - 0.0).abs() < f64::EPSILON);
    assert!((value(placed.offset_y) - (1080.0 - 1200.0) / 2.0).abs() < 0.01);
    assert!(!placed.tiled);
}

#[test]
fn fit_letterboxes() {
    let placed = place((3840, 1080), &wallpaper(WallpaperFit::Fit, primary()));

    assert!((value(placed.scale_x) - 0.5).abs() < 0.001);
    assert!((value(placed.offset_x) - 0.0).abs() < f64::EPSILON);
    assert!((value(placed.offset_y) - (1080.0 - 540.0) / 2.0).abs() < 0.01);
}

#[test]
fn stretch_matches_monitor() {
    let placed = place((960, 2160), &wallpaper(WallpaperFit::Stretch, primary()));

    assert!((value(placed.scale_x) - 2.0).abs() < 0.001);
    assert!((value(placed.scale_y) - 0.5).abs() < 0.001);
    assert!((value(placed.offset_x) - 0.0).abs() < f64::EPSILON);
    assert!((value(placed.offset_y) - 0.0).abs() < f64::EPSILON);
}

#[test]
fn span_offsets_by_monitor_origin() {
    let on_primary = place((3840, 1080), &wallpaper(WallpaperFit::Span, primary()));
    let on_secondary = place((3840, 1080), &wallpaper(WallpaperFit::Span, secondary()));

    assert!((value(on_primary.scale_x) - value(on_secondary.scale_x)).abs() < f64::EPSILON);
    assert!((value(on_primary.offset_x) - 0.0).abs() < f64::EPSILON);
    assert!((value(on_secondary.offset_x) - -1920.0).abs() < 0.01);
}

#[test]
fn tile_anchors_at_virtual_origin() {
    let placed = place((512, 512), &wallpaper(WallpaperFit::Tile, secondary()));

    assert!(placed.tiled);
    assert!((value(placed.scale_x) - 1.0).abs() < f64::EPSILON);
    // 1920 mod 512 == 384.
    assert!((value(placed.offset_x) - -384.0).abs() < 0.01);
    assert!((value(placed.offset_y) - 0.0).abs() < f64::EPSILON);

    let left = place((512, 512), &wallpaper(WallpaperFit::Tile, Rect::from_xy(-100, 0, 10, 10)));
    assert!((value(left.offset_x) - -412.0).abs() < 0.01);
}

#[test]
fn degenerate_image_is_inert() {
    let placed = place((0, 0), &wallpaper(WallpaperFit::Fill, primary()));

    assert_eq!(
        placed,
        Placement {
            scale_x: Ratio { num: 1, den: 1 },
            scale_y: Ratio { num: 1, den: 1 },
            offset_x: Ratio { num: 0, den: 1 },
            offset_y: Ratio { num: 0, den: 1 },
            tiled: false,
        }
    );
}

fn knobs() -> BakeKnobs {
    BakeKnobs {
        blur_amount: 30_000_000,
        saturation: 1_000_000,
        exposure: 0,
        contrast: 0,
        highlights: 0,
        shadows: 0,
        grain: 0,
    }
}

fn key(left: i32, blur_amount: i64) -> WallpaperKey {
    WallpaperKey {
        wallpaper: wallpaper(WallpaperFit::Fill, Rect::from_xy(left, 0, 100, 100)),
        knobs: BakeKnobs { blur_amount, ..knobs() },
    }
}

#[test]
fn drawn_pictures_are_reused() {
    let mut cache = SurfaceCache::new();
    let first = cache.look_up(&key(0, 1));
    assert_eq!(first.surface, None);
    cache.insert(key(0, 1), 10, first.now);
    assert_eq!(cache.look_up(&key(0, 1)).surface, Some(10));
    // Other numbers make another picture.
    assert_eq!(cache.look_up(&key(0, 2)).surface, None);
    // Another wallpaper takes the place of the old one.
    let mut changed = key(0, 1);
    changed.wallpaper.modified = Some(5);
    let now = cache.look_up(&changed).now;
    cache.insert(changed, 11, now);
    assert_eq!(cache.entries.len(), 1);
    assert_eq!(cache.look_up(&key(0, 1)).surface, None);
}

#[test]
fn least_used_picture_goes() {
    let mut cache = SurfaceCache::new();
    for i in 0..4 {
        let now = cache.look_up(&key(i, 1)).now;
        cache.insert(key(i, 1), i as u64, now);
    }
    assert_eq!(cache.look_up(&key(0, 1)).surface, Some(0));
    let now = cache.look_up(&key(4, 1)).now;
    cache.insert(key(4, 1), 4, now);
    assert_eq!(cache.entries.len(), 4);
    assert_eq!(cache.look_up(&key(1, 1)).surface, None);
    assert_eq!(cache.look_up(&key(0, 1)).surface, Some(0));
    assert_eq!(cache.look_up(&key(4, 1)).surface, Some(4));
}

#[test]
fn readings_are_kept_until_the_desktop_changes() {
    let mut memo = WallpaperMemo::new();
    assert!(memo.get(&primary(), 0).is_none());
    memo.put(&primary(), 0, wallpaper(WallpaperFit::Fill, primary()));
    assert_eq!(memo.get(&primary(), 0).map(|w| w.fit), Some(WallpaperFit::Fill));
    assert!(memo.get(&primary(), 1).is_none());
    memo.put(&primary(), 1, wallpaper(WallpaperFit::Tile, primary()));
    assert_eq!(memo.entries.len(), 1);
    assert_eq!(memo.get(&primary(), 1).map(|w| w.fit), Some(WallpaperFit::Tile));
}

fn settings(image: Option<&str>) -> DesktopSettings {
    DesktopSettings {
        image: image.map(|s| s.to_string()),
        fit: WallpaperFit::Fill,
        background: from_colorref(0),
    }
}

#[test]
fn first_look_is_no_change() {
    let mut watch = DesktopWatch::new();
    assert!(!watch.claim_poll(1999));
    assert!(watch.claim_poll(2000));
    assert!(!watch.claim_poll(3999));
    watch.observe(desktop_signature(settings(Some("a")), Some(1)));
    assert_eq!(watch.generation, 0);
    watch.observe(desktop_signature(settings(Some("a")), Some(1)));
    assert_eq!(watch.generation, 0);
    watch.observe(desktop_signature(settings(Some("a")), Some(2)));
    assert_eq!(watch.generation, 1);
    watch.invalidate();
    assert_eq!(watch.generation, 2);
}

#[test]
fn grading_is_left_out_where_it_changes_nothing() {
    let plain = draw_stages(true, true, false, &knobs()).expect("an image");
    assert_eq!(
        plain,
        vec![
            DrawStage::Transform,
            DrawStage::OverBackground,
            DrawStage::Clamp,
            DrawStage::Blur(30_000_000),
            DrawStage::Crop,
            DrawStage::Crop,
            DrawStage::Draw,
        ]
    );
    let all = BakeKnobs {
        saturation: 1_400_000,
        exposure: -300_000,
        contrast: 200_000,
        highlights: -500_000,
        shadows: 300_000,
        grain: 100_000,
        ..knobs()
    };
    let full = draw_stages(true, true, true, &all).expect("an image");
    assert_eq!(full.len(), 11);
    assert_eq!(full[1], DrawStage::Wrap);
    assert_eq!(full[4], DrawStage::Exposure(-300_000));
    assert_eq!(full[8], DrawStage::Grain(100_000));
    assert!(draw_stages(false, true, false, &knobs()).is_none());
    assert!(draw_stages(true, false, false, &knobs()).is_none());
    assert_eq!(draw_result(true, Some(true)), Some(true));
    assert_eq!(draw_result(false, Some(true)), None);
    assert_eq!(draw_result(true, None), None);
}

#[test]
fn desktop_settings_fall_back() {
    let service = Some(ServiceAnswers {
        position: Some(1),
        background: Some(0x0003_0201),
        monitor_image: Some("own".to_string()),
        desktop_image: Some("all".to_string()),
    });
    let own = desktop_settings(&service, true, &None, 0);
    assert_eq!(own.image.as_deref(), Some("own"));
    assert_eq!(own.fit, WallpaperFit::Tile);
    assert_eq!(own.background, Color { r: 1, g: 2, b: 3, a: 255 });
    let all = desktop_settings(&service, false, &None, 0);
    assert_eq!(all.image.as_deref(), Some("all"));
    let none = Some(ServiceAnswers {
        position: None,
        background: None,
        monitor_image: Some(String::new()),
        desktop_image: None,
    });
    let bare = desktop_settings(&none, true, &None, 0x00ff_0000);
    assert_eq!(bare.image, None);
    assert_eq!(bare.fit, WallpaperFit::Fill);
    assert_eq!(bare.background, Color { r: 0, g: 0, b: 255, a: 255 });
    let legacy = desktop_settings(&None, true, &Some("old".to_string()), 0);
    assert_eq!(legacy.image.as_deref(), Some("old"));

    let seen = MonitorWallpaper::query(settings(None), Some(3), &primary(), &primary());
    assert_eq!(seen.modified, None);
    let seen = MonitorWallpaper::query(settings(Some("a")), Some(3), &primary(), &primary());
    assert_eq!(seen.modified, Some(3));
    assert!(seen.same(&seen.copy()));
    assert_eq!(monitor_index(&vec![None, Some(primary())], &primary()), Some(1));
    assert_eq!(monitor_index(&vec![Some(secondary())], &primary()), None);
    assert_eq!(text_length(&vec![65, 66, 0, 67]), 2);
    assert_eq!(text_length(&vec![65]), 1);
    assert_eq!(monitor_bounds(None, &primary()), primary());
    assert_eq!(monitor_bounds(Some(secondary()), &primary()), secondary());
    assert_eq!(crop_offset(&Rect::from_xy(2000, 10, 5, 5), &secondary()), (-80, -10));
}

#[test]
fn effects_answer_for_their_values() {
    let blur = ScalarEffect {
        property_name: "BlurAmount".to_string(),
        initial_value: 5,
        extra_properties: vec![2, 0],
    };
    assert_eq!(blur.named_property(&"BlurAmount".to_string()), Ok(0));
    assert_eq!(blur.named_property(&"Blur.BlurAmount".to_string()), Ok(0));
    assert!(blur.named_property(&"BlurAmount.".to_string()).is_err());
    assert!(blur.named_property(&"Saturation".to_string()).is_err());
    assert_eq!(blur.property_count(), 3);
    assert_eq!(blur.property(0), Ok(PropertyValue::Scalar(5)));
    assert_eq!(blur.property(1), Ok(PropertyValue::Fixed(2)));
    assert!(blur.property(3).is_err());
    assert!(blur.has_source(0).is_ok());
    assert!(blur.has_source(1).is_err());
}

fn overlay(style: BackdropStyle) -> BlurOverlayParams {
    BlurOverlayParams {
        style,
        tint: Color { r: 1, g: 2, b: 3, a: 128 },
        corner_radius: 8_000_000,
        opacity: 900_000,
        vignette: 250_000,
        knobs: knobs(),
        parallax: 1_000_000,
    }
}

#[test]
fn layers_are_stacked_in_order() {
    let rect = Rect::from_xy(0, 0, 30, 20);
    let built = build_visual_tree(&rect, &overlay(BackdropStyle::Mica), &primary(), 4);
    let (mut visual, layers) = (built.visual, built.layers);
    assert_eq!(visual.backdrop, Backdrop::Acrylic);
    assert_eq!((visual.knobs, visual.parallax), (knobs(), 1_000_000));
    let root = RootVisual { width: 30, height: 20, corner_radius: 8_000_000, opacity: 900_000 };
    assert_eq!(built.root, root);
    let order: Vec<Layer> = layers.iter().map(|l| l.layer).collect();
    assert_eq!(
        order,
        vec![Layer::Blur, Layer::Tint, Layer::Vignette, Layer::GapRight, Layer::GapBottom]
    );
    assert_eq!((layers[0].width, layers[0].height), (30, 20));
    assert_eq!((layers[4].width, layers[4].height), (0, 0));
    let (resized, crop) = visual.set_rect(&Rect::from_xy(0, 0, 5, 6), 4, &primary());
    let parts: Vec<Resized> = resized.iter().map(|r| r.part).collect();
    assert_eq!(
        parts,
        vec![
            Resized::Root,
            Resized::Layer(Layer::Blur),
            Resized::Layer(Layer::Tint),
            Resized::Layer(Layer::Vignette),
            Resized::Clip,
        ]
    );
    assert!(resized.iter().all(|r| (r.width, r.height) == (5, 6)));
    assert!(crop.is_none());
}

#[test]
fn layers_have_the_tint_where_it_shows() {
    let rect = Rect::from_xy(0, 0, 30, 20);
    let tint = Brush::Color(overlay(BackdropStyle::Solid).tint);
    let brushes = |style: BackdropStyle| -> Vec<Brush> {
        let built = build_visual_tree(&rect, &overlay(style), &primary(), 4);
        built.layers.iter().map(|l| l.brush).collect()
    };
    let vignette = Brush::Vignette { strength: 250_000 };
    assert_eq!(brushes(BackdropStyle::Solid), vec![tint, tint, vignette, tint, tint]);
    let live = Brush::LiveBlur {
        blur_amount: knobs().blur_amount,
        saturation: knobs().saturation,
    };
    assert_eq!(brushes(BackdropStyle::Acrylic), vec![live, tint, vignette, tint, tint]);
    assert_eq!(brushes(BackdropStyle::MicaAlt), vec![live, tint, vignette, tint, tint]);
    let picture = Brush::Picture { monitor: primary(), picture_knobs: knobs() };
    assert_eq!(brushes(BackdropStyle::Wallpaper), vec![picture, tint, vignette, tint, tint]);
}

#[test]
fn pictures_are_taken_up_anew_when_stale() {
    let rect = Rect::from_xy(10, 10, 30, 20);
    let mut visual =
        build_visual_tree(&rect, &overlay(BackdropStyle::Wallpaper), &primary(), 4).visual;
    let plan = visual.sync_crop(&rect, 4, &secondary()).expect("a wallpaper");
    assert_eq!((plan.rebinds, plan.monitor), (None, primary()));
    assert!(!visual.needs_backdrop_sync(4));
    assert!(visual.needs_backdrop_sync(5));
    let plan = visual.sync_crop(&rect, 5, &primary()).expect("a wallpaper");
    assert_eq!(plan.rebinds, Some(primary()));
    let moved = Rect::from_xy(2000, 10, 30, 20);
    let plan = visual.sync_crop(&moved, 5, &secondary()).expect("a wallpaper");
    assert_eq!((plan.rebinds, plan.monitor), (Some(secondary()), secondary()));
    assert_eq!(visual.set_exposure(3), KnobAction::Rebake(secondary()));
    assert_eq!(visual.knobs.exposure, 3);
    assert_eq!(visual.set_parallax(2), Some(secondary()));

    let mut acrylic =
        build_visual_tree(&rect, &overlay(BackdropStyle::Acrylic), &primary(), 4).visual;
    assert_eq!(acrylic.set_blur_amount(1), KnobAction::RebuildBrush);
    assert_eq!(acrylic.set_grain(1), KnobAction::Nothing);
    assert!(acrylic.sync_crop(&rect, 9, &primary()).is_none());
    let mut solid =
        build_visual_tree(&rect, &overlay(BackdropStyle::Solid), &primary(), 4).visual;
    assert_eq!(solid.set_saturation(1), KnobAction::Nothing);
    let color = Color { r: 4, g: 5, b: 6, a: 7 };
    assert_eq!(solid.set_tint(color), vec![(Layer::Tint, color), (Layer::Blur, color)]);
    assert_eq!(acrylic.set_tint(color), vec![(Layer::Tint, color)]);
}

#[test]
fn gaps_are_filled_without_overlap() {
    let color = Color { r: 1, g: 2, b: 3, a: 255 };
    let fill = BlurVisual::gap_fill(Some(color), (60, 40), (100, 50)).expect("gaps");
    assert_eq!(fill.right, Rect::from_ltrb(60, 0, 100, 50));
    assert_eq!(fill.bottom, Rect::from_ltrb(0, 40, 60, 50));
    assert!(BlurVisual::gap_fill(Some(color), (100, 50), (100, 50)).is_none());
    assert!(BlurVisual::gap_fill(None, (60, 40), (100, 50)).is_none());
}

#[test]
fn failure_to_start_is_remembered() {
    let mut pipeline = Pipeline::new();
    assert!(pipeline.needs_start());
    assert!(!pipeline.started(false));
    assert!(!pipeline.needs_start());
    assert!(!pipeline.started(true));
}

#[test]
fn largest_images_come_first() {
    let image = |l, t, r, b| FoundImage { offscreen: false, bounds: Rect::from_ltrb(l, t, r, b) };
    let frame = Rect::from_ltrb(10, 10, 110, 110);
    let found = vec![
        image(20, 20, 30, 30),
        image(0, 0, 60, 60),
        FoundImage { offscreen: true, bounds: frame },
        image(200, 200, 300, 300),
        image(40, 40, 50, 50),
    ];
    assert_eq!(
        images_of(&found, &frame),
        vec![
            Rect::from_ltrb(0, 0, 50, 50),
            Rect::from_ltrb(10, 10, 20, 20),
            Rect::from_ltrb(30, 30, 40, 40),
        ]
    );
    let many: Vec<FoundImage> =
        (0..30).map(|i| image(20, 20, 30 + i, 30 + i)).collect();
    let kept = images_of(&many, &frame);
    assert_eq!(kept.len(), MAX_IMAGE_RECTS);
    assert_eq!(kept[0], Rect::from_ltrb(10, 10, 49, 49));
}

#[test]
fn searches_wait_for_changes() {
    let mut finder = ImageFinder::start();
    assert_eq!(finder.next_step(1000), FinderStep::Query);
    assert_eq!(finder.next_step(1001), FinderStep::Wait);
    finder.content_changed();
    assert_eq!(finder.next_step(1199), FinderStep::WaitUntil(1200));
    assert_eq!(finder.next_step(1200), FinderStep::Query);
    finder.stop();
    finder.content_changed();
    assert_eq!(finder.next_step(9999), FinderStep::Stop);
}
