//! Pin multiplexing: routing GPIO pins to the FMC.

use crate::ops::{Latch, Op};
use crate::queue::OpQueue;
use vstd::prelude::*;

verus! {

/// The GPIO ports that carry FMC signals.
#[derive(Clone, Copy, PartialEq, Eq, Debug, Structural)]
pub enum GpioPort {
    /// Port D.
    D,
    /// Port E.
    E,
}

/// Offset of the mode register, two bits a pin.
pub const MODER: u32 = 0x00;

/// Offset of the output type register, one bit a pin.
pub const OTYPER: u32 = 0x04;

/// Offset of the output speed register, two bits a pin.
pub const OSPEEDR: u32 = 0x08;

/// Offset of the pull-up/pull-down register, two bits a pin.
pub const PUPDR: u32 = 0x0C;

/// Offset of the output data register, one bit a pin.
pub const ODR: u32 = 0x14;

/// Offset of the alternate function register of pins 0 to 7, four bits a pin.
pub const AFRL: u32 = 0x20;

/// Offset of the alternate function register of pins 8 to 15, four bits a pin.
pub const AFRH: u32 = 0x24;

impl GpioPort {
    /// Address of the port's register block.
    pub open spec fn base_addr(self) -> u32 {
        match self {
            GpioPort::D => 0x4202_0C00,
            GpioPort::E => 0x4202_1000,
        }
    }

    /// Address of the port's register at `offset`.
    pub open spec fn reg(self, offset: u32) -> u32 {
        (self.base_addr() + offset) as u32
    }

    /// Address of the alternate function register of `pin`.
    pub open spec fn af_reg(self, pin: u8) -> u32 {
        if pin < 8 {
            self.reg(AFRL)
        } else {
            self.reg(AFRH)
        }
    }

    /// Computes [`GpioPort::base_addr`].
    pub fn base(&self) -> (addr: u32)
        ensures
            addr == self.base_addr(),
    {
        match *self {
            GpioPort::D => 0x4202_0C00,
            GpioPort::E => 0x4202_1000,
        }
    }
}

/// The two bits `value` in the field of `pin` of a register with two bits a pin.
pub open spec fn pair(pin: u8, value: u32) -> u32 {
    value << (pin * 2)
}

/// The four bits `value` in the field of `pin` of an alternate function register.
pub open spec fn nibble(pin: u8, value: u32) -> u32 {
    value << ((pin % 8) * 4)
}

/// The operations of a read-modify-write: at `addr`, clear the bits of
/// `clear_mask`, then set those of `set`.
pub open spec fn rmw_ops(addr: u32, clear_mask: u32, set: u32) -> Seq<Op> {
    seq![
        Op::Load { addr, latch: Latch::Work },
        Op::Store { addr, latch: Latch::Work, keep: !clear_mask, set },
    ]
}

/// The operations that route `pin` to alternate function `af`: mode "alternate
/// function", very high speed, no pull, function number.
pub open spec fn pin_ops(port: GpioPort, pin: u8, af: u8) -> Seq<Op> {
    rmw_ops(port.reg(MODER), pair(pin, 0b11), pair(pin, 0b10)) + rmw_ops(
        port.reg(OSPEEDR),
        pair(pin, 0b11),
        pair(pin, 0b11),
    ) + rmw_ops(port.reg(PUPDR), pair(pin, 0b11), 0) + rmw_ops(
        port.af_reg(pin),
        nibble(pin, 0xF),
        nibble(pin, (af % 16) as u32),
    )
}

/// The operations that route `pins` to alternate function `af`, in order.
pub open spec fn af_ops(port: GpioPort, pins: Seq<u8>, af: u8) -> Seq<Op>
    decreases pins.len(),
{
    if pins.len() == 0 {
        Seq::empty()
    } else {
        af_ops(port, pins.drop_last(), af) + pin_ops(port, pins.last(), af)
    }
}

/// Clears the bits of `clear_mask` at `addr`, then sets those of `set`.
pub fn rmw(ops: &mut OpQueue, addr: u32, clear_mask: u32, set: u32)
    ensures
        final(ops)@ == old(ops)@.followed_by(rmw_ops(addr, clear_mask, set)),
{
    ops.push(Op::Load { addr, latch: Latch::Work });
    ops.push(Op::Store { addr, latch: Latch::Work, keep: !clear_mask, set });
    assert(ops@.ops =~= old(ops)@.ops + rmw_ops(addr, clear_mask, set));
}

/// Routes `pins` of `port` to alternate function `af`, at very high speed and
/// without pull resistors. Only the low four bits of `af` count.
pub fn set_gpio_af(ops: &mut OpQueue, port: GpioPort, pins: &[u8], af: u8)
    requires
        forall|i: int| 0 <= i < pins@.len() ==> pins@[i] < 16,
    ensures
        final(ops)@ == old(ops)@.followed_by(af_ops(port, pins@, af)),
{
    let mut i: usize = 0;
    assert(ops@.ops =~= old(ops)@.ops + af_ops(port, pins@.take(0), af));
    while i < pins.len()
        invariant
            i <= pins.len(),
            forall|k: int| 0 <= k < pins@.len() ==> pins@[k] < 16,
            ops@ == old(ops)@.followed_by(af_ops(port, pins@.take(i as int), af)),
        decreases pins.len() - i,
    {
        set_pin_af(ops, port, pins[i], af);
        i += 1;
        proof {
            let routed = pins@.take(i as int);
            assert(routed.drop_last() =~= pins@.take(i - 1));
            assert(ops@.ops =~= old(ops)@.ops + af_ops(port, routed, af));
        }
    }
    assert(pins@.take(pins@.len() as int) =~= pins@);
}

/// Routes one pin.
fn set_pin_af(ops: &mut OpQueue, port: GpioPort, pin: u8, af: u8)
    requires
        pin < 16,
    ensures
        final(ops)@ == old(ops)@.followed_by(pin_ops(port, pin, af)),
{
    let base = port.base();
    let p = pin as u32;
    assert(p & 7 == p % 8) by (bit_vector);
    assert(af as u32 & 0xF == (af % 16) as u32) by (bit_vector);
    rmw(ops, base + MODER, 0b11 << (p * 2), 0b10 << (p * 2));
    rmw(ops, base + OSPEEDR, 0b11 << (p * 2), 0b11 << (p * 2));
    rmw(ops, base + PUPDR, 0b11 << (p * 2), 0);
    let shift = (p & 7) * 4;
    let reg = if p < 8 {
        base + AFRL
    } else {
        base + AFRH
    };
    rmw(ops, reg, 0xF << shift, (af as u32 & 0xF) << shift);
    assert(ops@.ops =~= old(ops)@.ops + pin_ops(port, pin, af));
}

} // verus!
