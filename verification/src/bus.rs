//! 8-bit 8080 link to the panel over FMC bank 1.
//!
//! The FMC runs 16 bits wide but the panel only reads `DB[7:0]`, so a byte goes
//! in the low half of each halfword store. `FMC_A20` is the panel's
//! data/command select, so a command and its data are told apart by the address
//! alone.

use crate::ops::Op;
use crate::queue::OpQueue;
use vstd::prelude::*;

verus! {

/// Address of the panel's command register: `FMC_A20` is low.
pub const FMC_CMD: u32 = 0x6000_0000;

/// Address of the panel's data register: `FMC_A20` is high.
pub const FMC_DATA: u32 = 0x6020_0000;

/// High byte of a halfword.
pub open spec fn high_byte(value: u16) -> u8 {
    (value / 256) as u8
}

/// Low byte of a halfword.
pub open spec fn low_byte(value: u16) -> u8 {
    (value % 256) as u8
}

/// The operations that send the command `code`.
pub open spec fn cmd_ops(code: u8) -> Seq<Op> {
    seq![Op::Halfword { addr: FMC_CMD, value: code as u16 }, Op::Dsb]
}

/// The operations that send the data byte `byte`.
pub open spec fn data_ops(byte: u8) -> Seq<Op> {
    seq![Op::Halfword { addr: FMC_DATA, value: byte as u16 }, Op::Dsb]
}

/// The operations that send `bytes` as data, in order.
pub open spec fn slice_ops(bytes: Seq<u8>) -> Seq<Op>
    decreases bytes.len(),
{
    if bytes.len() == 0 {
        Seq::empty()
    } else {
        slice_ops(bytes.drop_last()) + data_ops(bytes.last())
    }
}

/// The operations that send one RGB565 pixel: its high byte, then its low byte.
pub open spec fn pixel_ops(color: u16) -> Seq<Op> {
    data_ops(high_byte(color)) + data_ops(low_byte(color))
}

/// The operations that send `count` pixels of `color`.
pub open spec fn fill_ops(color: u16, count: nat) -> Seq<Op>
    decreases count,
{
    if count == 0 {
        Seq::empty()
    } else {
        fill_ops(color, (count - 1) as nat) + pixel_ops(color)
    }
}

/// A fill starts with a pixel as well as it ends with one.
pub proof fn lemma_fill_first(color: u16, count: nat)
    requires
        count > 0,
    ensures
        fill_ops(color, count) == pixel_ops(color) + fill_ops(color, (count - 1) as nat),
    decreases count,
{
    if count == 1 {
        assert(fill_ops(color, 0) == Seq::<Op>::empty());
        assert(fill_ops(color, 1) =~= pixel_ops(color) + fill_ops(color, 0));
    } else {
        let less = (count - 1) as nat;
        let least = (count - 2) as nat;
        lemma_fill_first(color, less);
        assert(fill_ops(color, count) =~= pixel_ops(color) + (fill_ops(color, least) + pixel_ops(
            color,
        )));
    }
}

/// Bytes of a halfword by shifting and truncating.
pub(crate) fn split(value: u16) -> (bytes: (u8, u8))
    ensures
        bytes.0 == high_byte(value),
        bytes.1 == low_byte(value),
{
    assert((value >> 8) as u8 == (value / 256) as u8) by (bit_vector);
    assert(value as u8 == (value % 256) as u8) by (bit_vector);
    ((value >> 8) as u8, value as u8)
}

/// The link itself. It holds nothing: what it sends goes to an [`OpQueue`].
#[derive(Clone, Copy, PartialEq, Eq, Debug, Structural)]
pub struct FmcBus;

impl FmcBus {
    /// Sends the command `code`.
    pub fn cmd(&self, ops: &mut OpQueue, code: u8)
        ensures
            final(ops)@ == old(ops)@.followed_by(cmd_ops(code)),
    {
        ops.push(Op::Halfword { addr: FMC_CMD, value: code as u16 });
        ops.push(Op::Dsb);
        assert(ops@.ops =~= old(ops)@.ops + cmd_ops(code));
    }

    /// Sends the data byte `byte`.
    pub fn data(&self, ops: &mut OpQueue, byte: u8)
        ensures
            final(ops)@ == old(ops)@.followed_by(data_ops(byte)),
    {
        ops.push(Op::Halfword { addr: FMC_DATA, value: byte as u16 });
        ops.push(Op::Dsb);
        assert(ops@.ops =~= old(ops)@.ops + data_ops(byte));
    }

    /// Sends `bytes` as data, in order.
    pub fn data_slice(&self, ops: &mut OpQueue, bytes: &[u8])
        ensures
            final(ops)@ == old(ops)@.followed_by(slice_ops(bytes@)),
    {
        let mut i: usize = 0;
        assert(ops@.ops =~= old(ops)@.ops + slice_ops(bytes@.take(0)));
        while i < bytes.len()
            invariant
                i <= bytes.len(),
                ops@ == old(ops)@.followed_by(slice_ops(bytes@.take(i as int))),
            decreases bytes.len() - i,
        {
            self.data(ops, bytes[i]);
            i += 1;
            proof {
                let sent = bytes@.take(i as int);
                assert(sent.drop_last() =~= bytes@.take(i - 1));
                assert(ops@.ops =~= old(ops)@.ops + slice_ops(sent));
            }
        }
        assert(bytes@.take(bytes@.len() as int) =~= bytes@);
    }

    /// Sends `count` RGB565 pixels of `color`. The panel must be in the
    /// pixel-data state, that is `RAMWR` was the last command.
    pub fn fill_pixels(&self, ops: &mut OpQueue, color: u16, count: u32)
        ensures
            final(ops)@ == old(ops)@.followed_by(fill_ops(color, count as nat)),
    {
        ops.push_pixels(color, count);
    }
}

} // verus!
