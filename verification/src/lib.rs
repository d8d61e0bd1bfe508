//! The decision-making core of a tiling window manager: the container tree,
//! the configuration rules and every choice made between reading the desktop
//! and writing to it.
//!
//! Nothing here talks to the operating system. Functions take what was
//! observed as plain values and return what has to be done.

pub mod color_capture;
pub mod color_theme_sync;
pub mod color_themes;
pub mod composition;
pub mod config_types;
pub mod container;
pub mod effects;
pub mod element_watch;
pub mod event_loop;
pub mod fade;
pub mod geometry;
pub mod graphics_device;
pub mod ids;
pub mod image_finder;
pub mod image_tracking;
pub mod manage;
pub mod overlays;
pub mod pip;
pub mod placement;
pub mod platform_sync;
pub mod position;
pub mod redraw;
pub mod redraw_cycle;
pub mod reposition;
pub mod resize_session;
pub mod scratchpad;
pub mod scratchpad_overlay;
pub mod sorting;
pub mod split;
pub mod stack;
pub mod stack_laws;
pub mod system_accent_color;
pub mod text;
pub mod theme_layout;
pub mod tree;
pub mod tree_laws;
pub mod tree_moves;
pub mod tree_walks;
pub mod urgency;
pub mod user_config;
pub mod wallpaper;
pub mod wallpaper_layout;
pub mod wallpaper_surface;
pub mod window_events;
pub mod window_laws;
pub mod window_listener;
pub mod window_lists;
pub mod window_model;
pub mod window_state;
pub mod workspace_order;
pub mod workspace_surrogate;
pub mod workspace_switch;
pub mod z_order;
