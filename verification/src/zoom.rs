//! The zoom level of the view: how many screen pixels a cell is drawn with.

use vstd::prelude::*;

verus! {

/// The smallest zoom level.
pub const MIN_ZOOM: i8 = 4;

/// The largest zoom level.
pub const MAX_ZOOM: i8 = 64;

/// A zoom level brought into the range from `MIN_ZOOM` to `MAX_ZOOM`.
pub open spec fn clamp_zoom(level: int) -> int {
    if level < MIN_ZOOM {
        MIN_ZOOM as int
    } else if level > MAX_ZOOM {
        MAX_ZOOM as int
    } else {
        level
    }
}

/// The zoom level after `delta` steps of the wheel: the sum, kept within
/// the range.
pub fn zoom_step(zoom: i8, delta: i8) -> (r: i8)
    ensures
        MIN_ZOOM <= r <= MAX_ZOOM,
        r == clamp_zoom(zoom + delta),
{
    let level: i16 = zoom as i16 + delta as i16;
    if level < MIN_ZOOM as i16 {
        MIN_ZOOM
    } else if level > MAX_ZOOM as i16 {
        MAX_ZOOM
    } else {
        level as i8
    }
}

} // verus!
