//! Configuration and bring-up.

use crate::display::Display;
use crate::bus::FmcBus;
use crate::fmc;
use crate::fmc::configure_fmc_bus;
use crate::init;
use crate::init::send_init_sequence;
use crate::ops::{Level, Line, Op, Speed};
use crate::queue::{OpQueue, QueueState};
use vstd::prelude::*;

verus! {

/// Token for pin `PE4`.
#[derive(PartialEq, Eq, Debug, Structural)]
pub struct PE4;

/// Token for pin `PE11`.
#[derive(PartialEq, Eq, Debug, Structural)]
pub struct PE11;

/// Token for pin `PB8`.
#[derive(PartialEq, Eq, Debug, Structural)]
pub struct PB8;

/// Token for pin `PD7`.
#[derive(PartialEq, Eq, Debug, Structural)]
pub struct PD7;

/// The four GPIO pins the driver takes ownership of.
///
/// The shield's wiring fixes them, and so do the types of the fields.
#[derive(PartialEq, Eq, Debug, Structural)]
pub struct DisplayPins {
    /// Data/command select, wired to `FMC_A20`.
    pub dc: PE4,
    /// Panel reset, active low. It stays a plain output: its FMC function,
    /// `FMC_D8`, would strobe the reset line on every bus access.
    pub rst: PE11,
    /// Backlight enable, active high.
    pub bl: PB8,
    /// FMC chip select, `FMC_NE1`.
    pub cs: PD7,
}

/// Construction-time configuration for [`Display`].
///
/// Use [`Display::new`] for the defaults; reach for the builder to override the
/// HCLK frequency or the MPU mapping that normally goes over the FMC bank.
pub struct DisplayBuilder {
    pins: DisplayPins,
    hclk_hz: u32,
    mpu_ns_region: Option<u8>,
}

impl DisplayBuilder {
    /// The pins that the builder holds.
    pub closed spec fn chosen_pins(self) -> DisplayPins {
        self.pins
    }

    /// The HCLK frequency, in Hz.
    pub closed spec fn chosen_hclk_hz(self) -> u32 {
        self.hclk_hz
    }

    /// The MPU region for the FMC bank, if there is to be one.
    pub closed spec fn chosen_region(self) -> Option<u8> {
        self.mpu_ns_region
    }

    /// Starts with the default settings: an HCLK of 4 MHz, and MPU region 4 over
    /// the FMC bank.
    pub fn new(pins: DisplayPins) -> (builder: DisplayBuilder)
        ensures
            builder.chosen_pins() == pins,
            builder.chosen_hclk_hz() == 4_000_000,
            builder.chosen_region() == Some(4u8),
    {
        DisplayBuilder { pins, hclk_hz: 4_000_000, mpu_ns_region: Some(4) }
    }

    /// Overrides the HCLK frequency that the waits are counted in. The reset
    /// pulse holds the line low for 100 ms and the panel is given 120 ms to wake
    /// up; both are counted in processor cycles, rounded up to a whole one, so a
    /// wrong frequency gives a wrong duration.
    pub fn hclk_hz(self, hz: u32) -> (builder: DisplayBuilder)
        ensures
            builder.chosen_pins() == self.chosen_pins(),
            builder.chosen_hclk_hz() == hz,
            builder.chosen_region() == self.chosen_region(),
    {
        let mut builder = self;
        builder.hclk_hz = hz;
        builder
    }

    /// Chooses the MPU region to map over the FMC bank, or `None` to leave the
    /// MPU alone. With `None`, something else has to give the bank Device
    /// attributes: under Normal ones byte stores are merged and the panel shows
    /// noise.
    pub fn mpu_ns_region(self, region: Option<u8>) -> (builder: DisplayBuilder)
        ensures
            builder.chosen_pins() == self.chosen_pins(),
            builder.chosen_hclk_hz() == self.chosen_hclk_hz(),
            builder.chosen_region() == region,
    {
        let mut builder = self;
        builder.mpu_ns_region = region;
        builder
    }

    /// Consumes the builder and brings the panel up.
    pub fn build(self) -> (display: Display)
        ensures
            display@ == QueueState::idle().followed_by(
                bring_up_ops(self.chosen_hclk_hz(), self.chosen_region()),
            ),
    {
        Display::build(self)
    }
}

impl Display {
    /// Brings the panel up with the default settings: an HCLK of 4 MHz, and MPU
    /// region 4 over the FMC bank.
    ///
    /// Equivalent to `DisplayBuilder::new(pins).build()`.
    pub fn new(pins: DisplayPins) -> (display: Display)
        ensures
            display@ == QueueState::idle().followed_by(
                bring_up_ops(4_000_000, Some(4)),
            ),
    {
        DisplayBuilder::new(pins).build()
    }

    /// Brings the panel up.
    fn build(cfg: DisplayBuilder) -> (display: Display)
        ensures
            display@ == QueueState::idle().followed_by(
                bring_up_ops(cfg.chosen_hclk_hz(), cfg.chosen_region()),
            ),
    {
        let bus = FmcBus;
        let mut ops = OpQueue::new();

        ops.push(Op::Output { line: Line::Backlight, level: Level::High, speed: Speed::Low });
        ops.push(Op::Drive { line: Line::Backlight, level: Level::High });
        Self::reset_pulse(&mut ops, cfg.hclk_hz);
        configure_fmc_bus(&mut ops, cfg.mpu_ns_region);
        send_init_sequence(&bus, &mut ops, cycles_for(120, cfg.hclk_hz));
        assert(ops@.ops =~= bring_up_ops(cfg.hclk_hz, cfg.mpu_ns_region));

        Display::starting_with(bus, ops)
    }

    /// Pulses the panel's reset line.
    fn reset_pulse(ops: &mut OpQueue, hclk_hz: u32)
        ensures
            final(ops)@ == old(ops)@.followed_by(reset_ops(hclk_hz)),
    {
        ops.push(Op::Output { line: Line::Reset, level: Level::High, speed: Speed::Low });
        ops.push(Op::Drive { line: Line::Reset, level: Level::High });
        ops.push(Op::Delay { cycles: cycles_for(100, hclk_hz) });
        ops.push(Op::Drive { line: Line::Reset, level: Level::Low });
        ops.push(Op::Delay { cycles: cycles_for(100, hclk_hz) });
        ops.push(Op::Drive { line: Line::Reset, level: Level::High });
        ops.push(Op::Delay { cycles: cycles_for(120, hclk_hz) });
        ops.push(Op::Keep { line: Line::Reset });
        assert(ops@.ops =~= old(ops)@.ops + reset_ops(hclk_hz));
    }
}

/// The fewest whole processor cycles that last `ms` milliseconds at `hclk_hz`.
pub open spec fn wait_cycles(ms: nat, hclk_hz: u32) -> nat {
    (ms * hclk_hz as nat + 999) / 1000
}

/// Computes [`wait_cycles`].
fn cycles_for(ms: u32, hclk_hz: u32) -> (cycles: u32)
    requires
        ms <= 120,
    ensures
        cycles == wait_cycles(ms as nat, hclk_hz),
{
    assert(0 <= ms * hclk_hz <= 120 * 0xFFFF_FFFF) by (nonlinear_arith)
        requires
            ms <= 120,
            hclk_hz <= 0xFFFF_FFFF,
    ;
    ((ms as u64 * hclk_hz as u64 + 999) / 1000) as u32
}

/// The operations that switch the backlight on.
pub open spec fn backlight_ops() -> Seq<Op> {
    seq![
        Op::Output { line: Line::Backlight, level: Level::High, speed: Speed::Low },
        Op::Drive { line: Line::Backlight, level: Level::High },
    ]
}

/// The operations of the reset pulse: 100 ms high, 100 ms low, 120 ms high. The
/// line stays a high output from then on.
pub open spec fn reset_ops(hclk_hz: u32) -> Seq<Op> {
    seq![
        Op::Output { line: Line::Reset, level: Level::High, speed: Speed::Low },
        Op::Drive { line: Line::Reset, level: Level::High },
        Op::Delay { cycles: wait_cycles(100, hclk_hz) as u32 },
        Op::Drive { line: Line::Reset, level: Level::Low },
        Op::Delay { cycles: wait_cycles(100, hclk_hz) as u32 },
        Op::Drive { line: Line::Reset, level: Level::High },
        Op::Delay { cycles: wait_cycles(120, hclk_hz) as u32 },
        Op::Keep { line: Line::Reset },
    ]
}

/// The operations of the whole bring-up: backlight, reset pulse, memory
/// controller, start-up sequence.
pub open spec fn bring_up_ops(hclk_hz: u32, mpu_ns_region: Option<u8>) -> Seq<Op> {
    backlight_ops() + reset_ops(hclk_hz) + fmc::fmc_ops(mpu_ns_region)
        + init::init_ops(wait_cycles(120, hclk_hz) as u32)
}

} // verus!
