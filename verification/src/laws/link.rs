//! What goes over the 8080 link.

use crate::bus;
use crate::bus::{FMC_CMD, FMC_DATA};
use crate::color::Rgb565;
use crate::display;
use crate::geometry::{Pixel, Rectangle};
use crate::ops::Op;
use vstd::prelude::*;

verus! {

/// The command and the data register are 2 MiB apart in the bank, and with 16 bits
/// a bus address they differ in the address line `A20` alone, low for commands.
pub proof fn a20_tells_commands_from_data()
    ensures
        FMC_DATA - FMC_CMD == 2 * 1024 * 1024,
        ((FMC_CMD >> 1) >> 20) & 1 == 0,
        ((FMC_DATA >> 1) >> 20) & 1 == 1,
        (FMC_CMD ^ FMC_DATA) >> 1 == 1u32 << 20,
        0x6000_0000 <= FMC_CMD <= 0x6FFF_FFFF,
        0x6000_0000 <= FMC_DATA <= 0x6FFF_FFFF,
{
    assert(((0x6000_0000u32 >> 1) >> 20) & 1 == 0 && ((0x6020_0000u32 >> 1) >> 20) & 1 == 1 && (
    0x6000_0000u32 ^ 0x6020_0000u32) >> 1 == 1u32 << 20) by (bit_vector);
}

/// Whether `ops` only sends bytes over the link: each store goes to the command or
/// the data register, holds a byte in its low half, and is completed by a barrier
/// before anything else.
pub open spec fn only_sends_bytes(ops: Seq<Op>) -> bool {
    forall|i: int|
        0 <= i < ops.len() ==> match #[trigger] ops[i] {
            Op::Halfword { addr, value } => {
                &&& addr == FMC_CMD || addr == FMC_DATA
                &&& value < 256
                &&& i + 1 < ops.len()
                &&& ops[i + 1] == Op::Dsb
            },
            Op::Dsb => true,
            _ => false,
        }
}

proof fn lemma_concat(first: Seq<Op>, second: Seq<Op>)
    requires
        only_sends_bytes(first),
        only_sends_bytes(second),
    ensures
        only_sends_bytes(first + second),
{
    let both = first + second;
    assert forall|i: int| 0 <= i < both.len() implies match #[trigger] both[i] {
        Op::Halfword { addr, value } => {
            &&& addr == FMC_CMD || addr == FMC_DATA
            &&& value < 256
            &&& i + 1 < both.len()
            &&& both[i + 1] == Op::Dsb
        },
        Op::Dsb => true,
        _ => false,
    } by {
        if i < first.len() {
            assert(both[i] == first[i]);
        } else {
            assert(both[i] == second[i - first.len()]);
        }
    }
}

proof fn lemma_slice(bytes: Seq<u8>)
    ensures
        only_sends_bytes(bus::slice_ops(bytes)),
    decreases bytes.len(),
{
    if bytes.len() > 0 {
        lemma_slice(bytes.drop_last());
        lemma_concat(bus::slice_ops(bytes.drop_last()), bus::data_ops(bytes.last()));
    }
}

proof fn lemma_fill(color: u16, count: nat)
    ensures
        only_sends_bytes(bus::pixel_ops(color)),
        only_sends_bytes(bus::fill_ops(color, count)),
    decreases count,
{
    lemma_concat(bus::data_ops(bus::high_byte(color)), bus::data_ops(bus::low_byte(color)));
    if count > 0 {
        lemma_fill(color, (count - 1) as nat);
        lemma_concat(bus::fill_ops(color, (count - 1) as nat), bus::pixel_ops(color));
    }
}

proof fn lemma_window(x0: u16, y0: u16, x1: u16, y1: u16)
    ensures
        only_sends_bytes(display::window_ops(x0, y0, x1, y1)),
{
    let columns = bus::slice_ops(display::span_bytes(x0, x1));
    let rows = bus::slice_ops(display::span_bytes(y0, y1));
    let caset = bus::cmd_ops(display::CASET);
    let paset = bus::cmd_ops(display::PASET);
    let ramwr = bus::cmd_ops(display::RAMWR);
    lemma_slice(display::span_bytes(x0, x1));
    lemma_slice(display::span_bytes(y0, y1));
    lemma_concat(caset, columns);
    lemma_concat(caset + columns, paset);
    lemma_concat(caset + columns + paset, rows);
    lemma_concat(caset + columns + paset + rows, ramwr);
}

proof fn lemma_window_fill(x0: u16, y0: u16, x1: u16, y1: u16, color: Rgb565)
    ensures
        only_sends_bytes(display::window_fill_ops(x0, y0, x1, y1, color)),
{
    let area = display::window_area(x0, y0, x1, y1);
    lemma_window(x0, y0, x1, y1);
    lemma_fill(color.packed(), area);
    lemma_concat(display::window_ops(x0, y0, x1, y1), bus::fill_ops(color.packed(), area));
}

/// `clear`, `fill_rect` and `fill_solid` only send bytes over the link.
pub proof fn fills_only_send_bytes(
    x: u16,
    y: u16,
    w: u16,
    h: u16,
    area: Rectangle,
    color: Rgb565,
)
    ensures
        only_sends_bytes(display::clear_ops(color)),
        only_sends_bytes(display::rect_ops(x, y, w, h, color)),
        only_sends_bytes(display::solid_ops(area, color)),
{
    assert forall|x0: u16, y0: u16, x1: u16, y1: u16|
        only_sends_bytes(#[trigger] display::window_fill_ops(x0, y0, x1, y1, color)) by {
        lemma_window_fill(x0, y0, x1, y1, color);
    }
}

/// `draw_iter` only sends bytes over the link.
pub proof fn draw_iter_only_sends_bytes(pixels: Seq<Pixel>)
    ensures
        only_sends_bytes(display::draw_ops(pixels)),
    decreases pixels.len(),
{
    if pixels.len() > 0 {
        let most = pixels.drop_last();
        let last = pixels.last();
        let x = last.0.x as u16;
        let y = last.0.y as u16;
        draw_iter_only_sends_bytes(most);
        lemma_window(x, y, x, y);
        lemma_fill(last.1.packed(), 0);
        lemma_concat(display::window_ops(x, y, x, y), bus::pixel_ops(last.1.packed()));
        lemma_concat(display::draw_ops(most), display::point_ops(last));
    }
}

} // verus!
