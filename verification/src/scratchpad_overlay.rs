//! The dimming of the monitor behind the windows of the scratchpad.

use vstd::prelude::*;

use crate::geometry::Rect;

verus! {

/// A window that dims a monitor.
#[derive(Clone, Copy, Debug, PartialEq, Eq, Structural)]
pub struct NativeScratchpadOverlay {
    pub hwnd: isize,
}

/// The system made no window.
#[derive(Clone, Copy, Debug, PartialEq, Eq, Structural)]
pub struct OverlayCreationFailed;

/// Where and how big a window is made.
#[derive(Clone, Copy, Debug, PartialEq, Eq, Structural)]
pub struct WindowArea {
    pub x: i32,
    pub y: i32,
    pub width: i32,
    pub height: i32,
}

/// The area of the window that dims `monitor`: all of it.
pub fn overlay_area(monitor: &Rect) -> (result: WindowArea)
    requires
        monitor.measurable(),
    ensures
        result.x == monitor.left,
        result.y == monitor.top,
        result.width == monitor.spec_width(),
        result.height == monitor.spec_height(),
{
    WindowArea {
        x: monitor.x(),
        y: monitor.y(),
        width: monitor.width(),
        height: monitor.height(),
    }
}

impl NativeScratchpadOverlay {
    /// Takes up the window that the system made, unless it made none.
    pub fn new(hwnd: isize) -> (result: Result<NativeScratchpadOverlay, OverlayCreationFailed>)
        ensures
            result == (if hwnd == 0 {
                Err(OverlayCreationFailed)
            } else {
                Ok(NativeScratchpadOverlay { hwnd })
            }),
    {
        if hwnd == 0 {
            Err(OverlayCreationFailed)
        } else {
            Ok(NativeScratchpadOverlay { hwnd })
        }
    }

    pub fn hwnd(&self) -> (result: isize)
        ensures
            result == self.hwnd,
    {
        self.hwnd
    }
}

} // verus!
