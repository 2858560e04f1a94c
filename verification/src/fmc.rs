//! Setting up the memory controller that the panel hangs on.

use crate::gpio;
use crate::gpio::{set_gpio_af, GpioPort};
use crate::ops::{Latch, Op};
use crate::queue::OpQueue;
use vstd::prelude::*;

verus! {

/// FMC chip-select control register of bank 1.
pub const FMC_BCR1: u32 = 0x420D_0400;

/// MPU control register (non-secure).
pub const MPU_NS_CTRL: u32 = 0xE000_ED94;

/// MPU region number register (non-secure).
pub const MPU_NS_RNR: u32 = 0xE000_ED98;

/// MPU region base address register (non-secure).
pub const MPU_NS_RBAR: u32 = 0xE000_ED9C;

/// MPU region limit address register (non-secure).
pub const MPU_NS_RLAR: u32 = 0xE000_EDA0;

/// MPU memory attribute indirection register 0 (non-secure).
pub const MPU_NS_MAIR0: u32 = 0xE000_EDC0;

/// Number of the alternate function that puts the FMC on a pin.
pub const FMC_AF: u8 = 12;

/// The pins of port D that are wired to the panel: `FMC_D2`, `D3`, `NOE`, `NWE`,
/// `NE1`, `D0`, `D1`.
pub open spec fn port_d_pins() -> Seq<u8> {
    seq![0, 1, 4, 5, 7, 14, 15]
}

/// The pins of port E that are wired to the panel: `FMC_A20`, `D4` to `D7`.
/// `PE11` must not be among them: its FMC function is `FMC_D8`, which would
/// strobe the panel's reset line.
pub open spec fn port_e_pins() -> Seq<u8> {
    seq![4, 7, 8, 9, 10]
}

/// The operations that set `MWID` of `BCR1` to 16 bits: `MBKEN` is cleared
/// first, as a change of `MWID` demands, and set again together with it.
pub open spec fn widen_ops() -> Seq<Op> {
    seq![
        Op::Load { addr: FMC_BCR1, latch: Latch::Work },
        Op::Store { addr: FMC_BCR1, latch: Latch::Work, keep: 0xFFFF_FFFE, set: 0 },
        Op::Dsb,
        Op::Store { addr: FMC_BCR1, latch: Latch::Work, keep: 0xFFFF_FFCF, set: 0x11 },
        Op::Dsb,
    ]
}

/// The operations that map the FMC bank, `0x6000_0000` to `0x6FFF_FFFF`, as
/// Device-nGnRnE in MPU region `region`, with the MPU off meanwhile.
pub open spec fn map_ops(region: u8) -> Seq<Op> {
    seq![
        Op::Load { addr: MPU_NS_CTRL, latch: Latch::Saved },
        Op::Store { addr: MPU_NS_CTRL, latch: Latch::Saved, keep: 0xFFFF_FFFE, set: 0 },
        Op::Dsb,
        Op::Isb,
        Op::Load { addr: MPU_NS_MAIR0, latch: Latch::Work },
        Op::Store { addr: MPU_NS_MAIR0, latch: Latch::Work, keep: 0x00FF_FFFF, set: 0 },
        Op::Put { addr: MPU_NS_RNR, value: region as u32 },
        Op::Put { addr: MPU_NS_RBAR, value: 0x6000_0003 },
        Op::Put { addr: MPU_NS_RLAR, value: 0x6FFF_FFE7 },
        Op::Store { addr: MPU_NS_CTRL, latch: Latch::Saved, keep: 0xFFFF_FFFF, set: 1 },
        Op::Dsb,
        Op::Isb,
    ]
}

/// The operations that set up the FMC: clock, pins, bus width, and, if a region
/// is given, the memory mapping.
pub open spec fn fmc_ops(mpu_ns_region: Option<u8>) -> Seq<Op> {
    seq![Op::LoadClocks, Op::StoreClocks, Op::Dsb] + gpio::af_ops(
        GpioPort::D,
        port_d_pins(),
        FMC_AF,
    ) + gpio::af_ops(GpioPort::E, port_e_pins(), FMC_AF) + seq![Op::Dsb, Op::Isb] + widen_ops() + (
    match mpu_ns_region {
        Some(region) => map_ops(region),
        None => Seq::empty(),
    })
}

/// Sets up the FMC bus. With `None` the MPU is left alone.
pub fn configure_fmc_bus(ops: &mut OpQueue, mpu_ns_region: Option<u8>)
    ensures
        final(ops)@ == old(ops)@.followed_by(fmc_ops(mpu_ns_region)),
{
    ops.push(Op::LoadClocks);
    ops.push(Op::StoreClocks);
    ops.push(Op::Dsb);

    let port_d: [u8; 7] = [0, 1, 4, 5, 7, 14, 15];
    let port_e: [u8; 5] = [4, 7, 8, 9, 10];
    assert(port_d@ =~= port_d_pins());
    assert(port_e@ =~= port_e_pins());
    set_gpio_af(ops, GpioPort::D, &port_d, FMC_AF);
    set_gpio_af(ops, GpioPort::E, &port_e, FMC_AF);
    ops.push(Op::Dsb);
    ops.push(Op::Isb);

    widen_fmc_bcr1(ops);
    if let Some(region) = mpu_ns_region {
        map_fmc_bank_device(ops, region);
    }
    assert(ops@.ops =~= old(ops)@.ops + fmc_ops(mpu_ns_region));
}

/// Makes the FMC bank 16 bits wide.
pub fn widen_fmc_bcr1(ops: &mut OpQueue)
    ensures
        final(ops)@ == old(ops)@.followed_by(widen_ops()),
{
    ops.push(Op::Load { addr: FMC_BCR1, latch: Latch::Work });
    // MBKEN = 0, required to change MWID.
    ops.push(Op::Store { addr: FMC_BCR1, latch: Latch::Work, keep: !1, set: 0 });
    ops.push(Op::Dsb);
    // MWID = 01, 16 bits; MBKEN = 1.
    ops.push(
        Op::Store { addr: FMC_BCR1, latch: Latch::Work, keep: !(0b11 << 4), set: (0b01 << 4) | 1 },
    );
    ops.push(Op::Dsb);
    assert(!1u32 == 0xFFFF_FFFE && !(0b11u32 << 4) == 0xFFFF_FFCF && (0b01u32 << 4) | 1 == 0x11)
        by (bit_vector);
    assert(ops@.ops =~= old(ops)@.ops + widen_ops());
}

/// Maps the FMC bank as Device-nGnRnE in MPU region `region`.
pub fn map_fmc_bank_device(ops: &mut OpQueue, region: u8)
    ensures
        final(ops)@ == old(ops)@.followed_by(map_ops(region)),
{
    ops.push(Op::Load { addr: MPU_NS_CTRL, latch: Latch::Saved });
    // The MPU is off while it is changed.
    ops.push(Op::Store { addr: MPU_NS_CTRL, latch: Latch::Saved, keep: !1, set: 0 });
    ops.push(Op::Dsb);
    ops.push(Op::Isb);

    // MAIR0 slot 3 is Device-nGnRnE (0x00); slots 0 to 2 stay.
    ops.push(Op::Load { addr: MPU_NS_MAIR0, latch: Latch::Work });
    ops.push(Op::Store { addr: MPU_NS_MAIR0, latch: Latch::Work, keep: 0x00FF_FFFF, set: 0 });

    ops.push(Op::Put { addr: MPU_NS_RNR, value: region as u32 });
    // Read/write at any privilege, execute never.
    ops.push(Op::Put { addr: MPU_NS_RBAR, value: 0x6000_0000 | (0b01 << 1) | 1 });
    // AttrIndx = 3, enabled.
    ops.push(Op::Put { addr: MPU_NS_RLAR, value: 0x6FFF_FFE0 | (3 << 1) | 1 });

    ops.push(Op::Store { addr: MPU_NS_CTRL, latch: Latch::Saved, keep: 0xFFFF_FFFF, set: 1 });
    ops.push(Op::Dsb);
    ops.push(Op::Isb);
    assert(!1u32 == 0xFFFF_FFFE && 0x6000_0000u32 | (0b01u32 << 1) | 1 == 0x6000_0003
        && 0x6FFF_FFE0u32 | (3u32 << 1) | 1 == 0x6FFF_FFE7) by (bit_vector);
    assert(ops@.ops =~= old(ops)@.ops + map_ops(region));
}

} // verus!
