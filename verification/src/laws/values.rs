//! What the plain values of the driver stand for.

use crate::builder;
use crate::color::Rgb565;
use crate::display;
use crate::geometry::Rectangle;
use vstd::prelude::*;

verus! {

/// A packed colour has its red channel in the top five bits, its green channel in
/// the six below and its blue channel in the lowest five, each cut to that many
/// bits.
pub proof fn a_packed_color_holds_its_channels(color: Rgb565)
    ensures
        color.packed() / 2048 == color.r % 32,
        (color.packed() / 32) % 64 == color.g % 64,
        color.packed() % 32 == color.b % 32,
{
}

/// The panel's area starts at the origin and is 480 columns wide and 320 rows high.
pub proof fn the_panel_is_480_by_320()
    ensures
        ({
            let area = display::panel_area();
            &&& area.top_left.x == 0
            &&& area.top_left.y == 0
            &&& area.size.width == 480
            &&& area.size.height == 320
        }),
{
}

/// A rectangle has a far corner to compute unless it is empty, and it can be
/// computed exactly if width, height and the point past the corner are `i32` values.
pub proof fn a_far_corner_fits_if_its_coordinates_do(area: Rectangle)
    ensures
        area.corners_fit() <==> {
            ||| area.size.width == 0
            ||| area.size.height == 0
            ||| {
                &&& area.size.width <= 0x7FFF_FFFF
                &&& area.size.height <= 0x7FFF_FFFF
                &&& area.top_left.x + area.size.width <= 0x7FFF_FFFF
                &&& area.top_left.y + area.size.height <= 0x7FFF_FFFF
            }
        },
{
}

/// A wait never ends early, and one more millisecond or a faster clock never makes
/// it shorter.
pub proof fn waits_grow_with_time_and_clock(hclk_hz: u32, ms: nat, faster_hz: u32, longer: nat)
    requires
        hclk_hz <= faster_hz,
        ms <= longer,
    ensures
        1000 * builder::wait_cycles(ms, hclk_hz) >= ms * hclk_hz,
        builder::wait_cycles(ms, hclk_hz) <= builder::wait_cycles(longer, faster_hz),
{
    assert(ms * hclk_hz <= longer * faster_hz) by (nonlinear_arith)
        requires
            ms <= longer,
            hclk_hz <= faster_hz,
    ;
}

} // verus!
