//! The accent color of the system, read no more often than needed.

use vstd::prelude::*;

use crate::geometry::Color;

verus! {

/// How long a color that was read is used, in milliseconds.
pub const CACHE_TTL: u64 = 250;

/// Why there is no accent color.
#[derive(Clone, Copy, Debug, PartialEq, Eq, Structural)]
pub enum AccentError {
    /// The system could not be asked.
    ReadFailed,
    /// The platform has none.
    Unsupported,
}

/// A color and when it was read.
#[derive(Clone, Copy, Debug, PartialEq, Eq, Structural)]
pub struct CachedColor {
    pub at: u64,
    pub color: Color,
}

/// The color that was read last, if any.
#[derive(Clone, Copy, Debug, PartialEq, Eq, Structural)]
pub struct AccentCache {
    pub cached: Option<CachedColor>,
}

impl AccentCache {
    pub fn new() -> (cache: AccentCache)
        ensures
            cache.cached is None,
    {
        AccentCache { cached: None }
    }

    /// The color to use at `now` without asking the system.
    pub open spec fn fresh(self, now: u64) -> Option<Color> {
        match self.cached {
            Some(c) => if now - c.at < CACHE_TTL {
                Some(c.color)
            } else {
                None
            },
            None => None,
        }
    }

    /// Whether the system has to be asked at `now`.
    pub fn needs_read(&self, now: u64) -> (result: bool)
        ensures
            result == self.fresh(now) is None,
    {
        match self.cached {
            Some(c) => now >= c.at && now - c.at >= CACHE_TTL,
            None => true,
        }
    }
}

/// The accent color at `now`: the one read last, while it is fresh; else
/// `read`, which is what the system says. A failed read is not remembered.
pub fn system_accent_color(cache: &mut AccentCache, now: u64, read: Option<Color>) -> (result: Result<
    Color,
    AccentError,
>)
    ensures
        *final(cache) == after_asking(*old(cache), now, read),
        result == (match (old(cache).fresh(now), read) {
            (Some(color), _) => Ok::<Color, AccentError>(color),
            (None, Some(color)) => Ok::<Color, AccentError>(color),
            (None, None) => Err::<Color, AccentError>(AccentError::ReadFailed),
        }),
{
    if !cache.needs_read(now) {
        if let Some(c) = cache.cached {
            return Ok(c.color);
        }
    }
    match read {
        Some(color) => {
            cache.cached = Some(CachedColor { at: now, color });
            Ok(color)
        },
        None => Err(AccentError::ReadFailed),
    }
}

/// The cache after the accent color was asked for at `now`.
pub open spec fn after_asking(cache: AccentCache, now: u64, read: Option<Color>) -> AccentCache {
    match (cache.fresh(now), read) {
        (None, Some(color)) => AccentCache { cached: Some(CachedColor { at: now, color }) },
        _ => cache,
    }
}

/// After a failed read the system is asked again at once.
pub proof fn failures_are_not_remembered(cache: AccentCache, now: u64, later: u64)
    requires
        cache.fresh(now) is None,
        now <= later,
    ensures
        after_asking(cache, now, None).fresh(later) is None,
{
}

/// A color that was read is used for as long as it is fresh, and not longer.
pub proof fn reads_are_remembered(cache: AccentCache, now: u64, later: u64, color: Color)
    requires
        cache.fresh(now) is None,
        now <= later,
    ensures
        after_asking(cache, now, Some(color)).fresh(later) == (if later - now < CACHE_TTL {
            Some(color)
        } else {
            None
        }),
{
}

/// A color is fresh for a quarter of a second.
pub proof fn colors_are_fresh_for_a_quarter_of_a_second(at: u64, now: u64, color: Color)
    ensures
        now - at < 250 ==> (AccentCache { cached: Some(CachedColor { at, color }) }).fresh(now)
            == Some(color),
        now - at >= 250 ==> (AccentCache { cached: Some(CachedColor { at, color }) }).fresh(
            now,
        ) is None,
        (AccentCache { cached: None }).fresh(now) is None,
{
}

/// A color that is fresh is not asked for again, whatever the system would say.
pub proof fn fresh_colors_are_kept(cache: AccentCache, now: u64, read: Option<Color>)
    ensures
        cache.fresh(now) is Some ==> after_asking(cache, now, read) == cache,
        read is None ==> after_asking(cache, now, read) == cache,
        cache.fresh(now) is None && read is Some ==> after_asking(cache, now, read).cached == Some(
            CachedColor { at: now, color: read->0 },
        ),
{
}

} // verus!
