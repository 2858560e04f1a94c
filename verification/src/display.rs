//! The display handle and everything that draws.

use crate::bus;
use crate::bus::FmcBus;
use crate::color::Rgb565;
use crate::geometry::{Pixel, Point, Rectangle, Size};
use crate::geometry;
use crate::ops::{Action, Op};
use crate::queue::{OpQueue, QueueState};
use crate::{PANEL_H, PANEL_W};
use core::convert::Infallible;
use vstd::prelude::*;

verus! {

/// Column address set: the next four bytes are the first and the last column.
pub const CASET: u8 = 0x2A;

/// Page address set: the next four bytes are the first and the last row.
pub const PASET: u8 = 0x2B;

/// Memory write: the bytes that follow are pixels.
pub const RAMWR: u8 = 0x2C;

/// The four bytes of an address window: first, then last, high byte first.
pub open spec fn span_bytes(first: u16, last: u16) -> Seq<u8> {
    seq![
        bus::high_byte(first),
        bus::low_byte(first),
        bus::high_byte(last),
        bus::low_byte(last),
    ]
}

/// The operations that select columns `x0..=x1` of rows `y0..=y1` and start a
/// pixel write there.
pub open spec fn window_ops(x0: u16, y0: u16, x1: u16, y1: u16) -> Seq<Op> {
    bus::cmd_ops(CASET) + bus::slice_ops(span_bytes(x0, x1)) + bus::cmd_ops(PASET)
        + bus::slice_ops(span_bytes(y0, y1)) + bus::cmd_ops(RAMWR)
}

/// Number of pixels in columns `x0..=x1` of rows `y0..=y1`.
pub open spec fn window_area(x0: u16, y0: u16, x1: u16, y1: u16) -> nat {
    ((x1 - x0 + 1) * (y1 - y0 + 1)) as nat
}

/// The operations that paint columns `x0..=x1` of rows `y0..=y1` in `color`:
/// select the window, then send one pixel for each of its cells.
pub open spec fn window_fill_ops(x0: u16, y0: u16, x1: u16, y1: u16, color: Rgb565) -> Seq<Op> {
    window_ops(x0, y0, x1, y1) + bus::fill_ops(color.packed(), window_area(x0, y0, x1, y1))
}

/// The operations that paint the whole panel.
pub open spec fn clear_ops(color: Rgb565) -> Seq<Op> {
    window_fill_ops(0, 0, (PANEL_W - 1) as u16, (PANEL_H - 1) as u16, color)
}

/// The operations that paint the part on the panel of the `w` by `h` rectangle
/// at `(x, y)`: none if there is no such part.
pub open spec fn rect_ops(x: u16, y: u16, w: u16, h: u16, color: Rgb565) -> Seq<Op> {
    if w == 0 || h == 0 || x >= PANEL_W || y >= PANEL_H {
        Seq::empty()
    } else {
        window_fill_ops(
            x,
            y,
            (geometry::smaller(x + w, PANEL_W as int) - 1) as u16,
            (geometry::smaller(y + h, PANEL_H as int) - 1) as u16,
            color,
        )
    }
}

/// The rectangle that the panel fills.
pub open spec fn panel_area() -> Rectangle {
    Rectangle {
        top_left: Point { x: 0, y: 0 },
        size: Size { width: PANEL_W as u32, height: PANEL_H as u32 },
    }
}

/// The operations that paint the part on the panel of `area`: none if there is
/// no such part.
pub open spec fn solid_ops(area: Rectangle, color: Rgb565) -> Seq<Op> {
    if area.meets(panel_area()) {
        window_fill_ops(
            geometry::larger(area.top_left.x as int, 0) as u16,
            geometry::larger(area.top_left.y as int, 0) as u16,
            geometry::smaller(area.right(), PANEL_W - 1) as u16,
            geometry::smaller(area.bottom(), PANEL_H - 1) as u16,
            color,
        )
    } else {
        Seq::empty()
    }
}

/// The operations that paint one pixel: none if it is off the panel.
pub open spec fn point_ops(pixel: Pixel) -> Seq<Op> {
    if panel_area().covers(pixel.0.x as int, pixel.0.y as int) {
        let x = pixel.0.x as u16;
        let y = pixel.0.y as u16;
        window_ops(x, y, x, y) + bus::pixel_ops(pixel.1.packed())
    } else {
        Seq::empty()
    }
}

/// The operations that paint `pixels` one after the other.
pub open spec fn draw_ops(pixels: Seq<Pixel>) -> Seq<Op>
    decreases pixels.len(),
{
    if pixels.len() == 0 {
        Seq::empty()
    } else {
        draw_ops(pixels.drop_last()) + point_ops(pixels.last())
    }
}

/// Display handle.
///
/// It collects the operations that its methods ask for; [`Display::resume`]
/// hands them out one by one.
pub struct Display {
    bus: FmcBus,
    ops: OpQueue,
}

impl View for Display {
    type V = QueueState;

    closed spec fn view(&self) -> QueueState {
        self.ops@
    }
}

impl Display {
    /// A handle that has `ops` to perform first.
    pub(crate) fn starting_with(bus: FmcBus, ops: OpQueue) -> (display: Display)
        ensures
            display@ == ops@,
    {
        Display { bus, ops }
    }

    /// Takes one step through the collected operations: see
    /// [`OpQueue::resume`].
    pub fn resume(&mut self, word: u32) -> (action: Option<Action>)
        ensures
            final(self)@ == old(self)@.resumed(word),
            action == old(self)@.next_action(word),
    {
        self.ops.resume(word)
    }

    /// Fills the entire panel with one colour.
    pub fn clear(&mut self, color: Rgb565)
        ensures
            final(self)@ == old(self)@.followed_by(clear_ops(color)),
    {
        self.fill_rect_unchecked(0, 0, PANEL_W - 1, PANEL_H - 1, color);
    }

    /// Fills an axis-aligned rectangle with one colour.
    ///
    /// Out-of-range coordinates are clamped to the panel; the call is a no-op if
    /// the rectangle is empty or fully off-screen.
    pub fn fill_rect(&mut self, x: u16, y: u16, w: u16, h: u16, color: Rgb565)
        ensures
            final(self)@ == old(self)@.followed_by(rect_ops(x, y, w, h, color)),
    {
        assert(old(self)@.ops + Seq::<Op>::empty() =~= old(self)@.ops);
        if w == 0 || h == 0 {
            return ;
        }
        let x1 = last_index(x, w, PANEL_W);
        let y1 = last_index(y, h, PANEL_H);
        if x > x1 || y > y1 {
            return ;
        }
        self.fill_rect_unchecked(x, y, x1, y1, color);
    }

    /// The size of the panel.
    pub fn size(&self) -> (size: Size)
        ensures
            size == panel_area().size,
    {
        Size { width: PANEL_W as u32, height: PANEL_H as u32 }
    }

    /// The rectangle that the panel fills, its top left corner at the origin.
    pub fn bounding_box(&self) -> (area: Rectangle)
        ensures
            area == panel_area(),
    {
        Rectangle { top_left: Point { x: 0, y: 0 }, size: self.size() }
    }

    /// Draws `pixels` in order. Those off the panel are passed over.
    pub fn draw_iter(&mut self, pixels: &[Pixel]) -> (result: Result<(), Infallible>)
        ensures
            result is Ok,
            final(self)@ == old(self)@.followed_by(draw_ops(pixels@)),
    {
        let mut i: usize = 0;
        assert(self@.ops =~= old(self)@.ops + draw_ops(pixels@.take(0)));
        while i < pixels.len()
            invariant
                i <= pixels.len(),
                self@ == old(self)@.followed_by(draw_ops(pixels@.take(i as int))),
            decreases pixels.len() - i,
        {
            self.draw_pixel(pixels[i]);
            i += 1;
            proof {
                let drawn = pixels@.take(i as int);
                assert(drawn.drop_last() =~= pixels@.take(i - 1));
                assert(self@.ops =~= old(self)@.ops + draw_ops(drawn));
            }
        }
        assert(pixels@.take(pixels@.len() as int) =~= pixels@);
        Ok(())
    }

    /// Draws one pixel, or nothing if it is off the panel.
    fn draw_pixel(&mut self, pixel: Pixel)
        ensures
            final(self)@ == old(self)@.followed_by(point_ops(pixel)),
    {
        let Pixel(p, color) = pixel;
        assert(old(self)@.ops + Seq::<Op>::empty() =~= old(self)@.ops);
        if p.x < 0 || p.y < 0 {
            return ;
        }
        let x = p.x as u32;
        let y = p.y as u32;
        if x >= PANEL_W as u32 || y >= PANEL_H as u32 {
            return ;
        }
        let x = x as u16;
        let y = y as u16;
        self.set_window(x, y, x, y);
        let (high, low) = bus::split(color.raw());
        self.bus.data(&mut self.ops, high);
        self.bus.data(&mut self.ops, low);
        assert(self@.ops =~= old(self)@.ops + point_ops(pixel));
    }

    /// Fills the part of `area` that is on the panel with one colour.
    pub fn fill_solid(&mut self, area: &Rectangle, color: Rgb565) -> (result: Result<(), Infallible>)
        requires
            area.corners_fit(),
        ensures
            result is Ok,
            final(self)@ == old(self)@.followed_by(solid_ops(*area, color)),
    {
        assert(old(self)@.ops + Seq::<Op>::empty() =~= old(self)@.ops);
        let common = area.intersection(&self.bounding_box());
        let clipped = match common.bottom_right() {
            Some(corner) => corner,
            None => {
                return Ok(());
            },
        };
        let tl = area.top_left.component_max(&Point { x: 0, y: 0 });
        self.fill_rect_unchecked(
            tl.x as u16,
            tl.y as u16,
            clipped.x as u16,
            clipped.y as u16,
            color,
        );
        Ok(())
    }

    /// Selects columns `x0..=x1` of rows `y0..=y1` and starts a pixel write.
    fn set_window(&mut self, x0: u16, y0: u16, x1: u16, y1: u16)
        ensures
            final(self)@ == old(self)@.followed_by(window_ops(x0, y0, x1, y1)),
    {
        self.bus.cmd(&mut self.ops, CASET);
        self.send_span(x0, x1);
        self.bus.cmd(&mut self.ops, PASET);
        self.send_span(y0, y1);
        self.bus.cmd(&mut self.ops, RAMWR);
        assert(self@.ops =~= old(self)@.ops + window_ops(x0, y0, x1, y1));
    }

    /// Sends the four bytes of an address window.
    fn send_span(&mut self, first: u16, last: u16)
        ensures
            final(self)@ == old(self)@.followed_by(bus::slice_ops(span_bytes(first, last))),
    {
        let (first_high, first_low) = bus::split(first);
        let (last_high, last_low) = bus::split(last);
        let bytes = [first_high, first_low, last_high, last_low];
        assert(bytes@ =~= span_bytes(first, last));
        self.bus.data_slice(&mut self.ops, &bytes);
    }

    /// Paints columns `x0..=x1` of rows `y0..=y1`.
    fn fill_rect_unchecked(&mut self, x0: u16, y0: u16, x1: u16, y1: u16, color: Rgb565)
        requires
            x0 <= x1,
            y0 <= y1,
            x1 - x0 < u16::MAX,
            y1 - y0 < u16::MAX,
        ensures
            final(self)@ == old(self)@.followed_by(window_fill_ops(x0, y0, x1, y1, color)),
    {
        self.set_window(x0, y0, x1, y1);
        let raw = color.raw();
        let width = (x1 - x0 + 1) as u32;
        let height = (y1 - y0 + 1) as u32;
        assert(0 <= width * height <= 65535 * 65535) by (nonlinear_arith)
            requires
                0 <= width <= 65535,
                0 <= height <= 65535,
        ;
        self.bus.fill_pixels(&mut self.ops, raw, width * height);
        assert(self@.ops =~= old(self)@.ops + window_fill_ops(x0, y0, x1, y1, color));
    }
}

/// Index of the last of `len` cells from `start` on, but at most that of the
/// last of `limit` cells.
fn last_index(start: u16, len: u16, limit: u16) -> (last: u16)
    requires
        len > 0,
        limit > 0,
    ensures
        last == geometry::smaller(start + len, limit as int) - 1,
{
    let end = start as u32 + len as u32;
    if end <= limit as u32 {
        (end - 1) as u16
    } else {
        limit - 1
    }
}

} // verus!
