//! The vocabulary of the driver: what it asks of the processor and the board.
//!
//! The driver never touches the hardware itself. It writes down [`Op`]s; each
//! of them becomes one [`Action`] when its turn comes, and whoever owns the
//! hardware performs that action.

use vstd::prelude::*;

verus! {

/// Logic level of a GPIO line.
#[derive(Clone, Copy, PartialEq, Eq, Debug, Structural)]
pub enum Level {
    /// Driven low.
    Low,
    /// Driven high.
    High,
}

/// Slew rate of a GPIO output.
#[derive(Clone, Copy, PartialEq, Eq, Debug, Structural)]
pub enum Speed {
    /// Low speed.
    Low,
    /// Medium speed.
    Medium,
    /// High speed.
    High,
    /// Very high speed.
    VeryHigh,
}

/// The two shield lines that are driven as plain GPIO outputs.
#[derive(Clone, Copy, PartialEq, Eq, Debug, Structural)]
pub enum Line {
    /// Backlight enable, active high (`PB8`).
    Backlight,
    /// Panel reset, active low (`PE11`).
    Reset,
}

/// A place that keeps a word read from a register until a later store needs it.
#[derive(Clone, Copy, PartialEq, Eq, Debug, Structural)]
pub enum Latch {
    /// The word of the read-modify-write in progress.
    Work,
    /// A word put aside to be restored later.
    Saved,
}

/// The contents of the two latches.
#[derive(Clone, Copy, PartialEq, Eq, Debug, Structural)]
pub struct Latches {
    /// What [`Latch::Work`] holds.
    pub work: u32,
    /// What [`Latch::Saved`] holds.
    pub saved: u32,
}

impl Latches {
    /// The word in `latch`.
    pub open spec fn at(self, latch: Latch) -> u32 {
        match latch {
            Latch::Work => self.work,
            Latch::Saved => self.saved,
        }
    }

    /// The latches once `word` was put into `latch`.
    pub open spec fn with(self, latch: Latch, word: u32) -> Latches {
        match latch {
            Latch::Work => Latches { work: word, saved: self.saved },
            Latch::Saved => Latches { work: self.work, saved: word },
        }
    }

    /// Reads `latch`.
    pub fn get(&self, latch: Latch) -> (word: u32)
        ensures
            word == self.at(latch),
    {
        match latch {
            Latch::Work => self.work,
            Latch::Saved => self.saved,
        }
    }

    /// Puts `word` into `latch`.
    pub fn set(&mut self, latch: Latch, word: u32)
        ensures
            *final(self) == old(self).with(latch, word),
    {
        match latch {
            Latch::Work => {
                self.work = word;
            },
            Latch::Saved => {
                self.saved = word;
            },
        }
    }
}

/// One operation of the driver. A store may depend on a word that an earlier
/// load brought in.
#[allow(inconsistent_fields)]
#[derive(Clone, Copy, PartialEq, Eq, Debug, Structural)]
pub enum Op {
    /// Store a halfword to the FMC bank.
    Halfword { addr: u32, value: u16 },
    /// Load the word at `addr` into `latch`.
    Load { addr: u32, latch: Latch },
    /// Store to `addr` the word in `latch`, with only the bits of `keep` left
    /// and those of `set` added.
    Store { addr: u32, latch: Latch, keep: u32, set: u32 },
    /// Store the word `value` to `addr`.
    Put { addr: u32, value: u32 },
    /// Load the clock enable register `RCC_AHB2ENR2` into [`Latch::Work`].
    LoadClocks,
    /// Store the word in [`Latch::Work`] to `RCC_AHB2ENR2`, with the FSMC clock
    /// switched on.
    StoreClocks,
    /// Data synchronization barrier.
    Dsb,
    /// Instruction synchronization barrier.
    Isb,
    /// Busy-wait for at least `cycles` processor cycles.
    Delay { cycles: u32 },
    /// Make `line` a push-pull output that starts at `level`.
    Output { line: Line, level: Level, speed: Speed },
    /// Drive `line`, an output already, to `level`.
    Drive { line: Line, level: Level },
    /// Leave `line` an output at its level for the rest of the run.
    Keep { line: Line },
}

/// What the owner of the hardware has to do next: an [`Op`] with every word
/// known.
#[allow(inconsistent_fields)]
#[derive(Clone, Copy, PartialEq, Eq, Debug, Structural)]
pub enum Action {
    /// Volatile store of a halfword.
    WriteHalfword { addr: u32, value: u16 },
    /// Volatile load of a word; the word is handed to the next step.
    ReadWord { addr: u32 },
    /// Volatile store of a word.
    WriteWord { addr: u32, value: u32 },
    /// Read `RCC_AHB2ENR2`; the word is handed to the next step.
    ReadClocks,
    /// Write `RCC_AHB2ENR2`.
    WriteClocks { value: u32 },
    /// Data synchronization barrier.
    Dsb,
    /// Instruction synchronization barrier.
    Isb,
    /// Busy-wait for at least `cycles` processor cycles.
    Delay { cycles: u32 },
    /// Make `line` a push-pull output that starts at `level`.
    Output { line: Line, level: Level, speed: Speed },
    /// Drive `line` to `level`.
    Drive { line: Line, level: Level },
    /// Leave `line` an output at its level for the rest of the run.
    Keep { line: Line },
}

/// `word` with the FSMC clock enable bit of `RCC_AHB2ENR2`, its lowest bit, set
/// and every other bit as it was.
pub open spec fn clocks_with_fsmc(word: u32) -> u32 {
    word | 1
}

impl Op {
    /// The action that performs this operation while the latches hold `latches`.
    pub open spec fn action(self, latches: Latches) -> Action {
        match self {
            Op::Halfword { addr, value } => Action::WriteHalfword { addr, value },
            Op::Load { addr, latch } => Action::ReadWord { addr },
            Op::Store { addr, latch, keep, set } => Action::WriteWord {
                addr,
                value: (latches.at(latch) & keep) | set,
            },
            Op::Put { addr, value } => Action::WriteWord { addr, value },
            Op::LoadClocks => Action::ReadClocks,
            Op::StoreClocks => Action::WriteClocks { value: clocks_with_fsmc(latches.work) },
            Op::Dsb => Action::Dsb,
            Op::Isb => Action::Isb,
            Op::Delay { cycles } => Action::Delay { cycles },
            Op::Output { line, level, speed } => Action::Output { line, level, speed },
            Op::Drive { line, level } => Action::Drive { line, level },
            Op::Keep { line } => Action::Keep { line },
        }
    }

    /// The latch that waits for the word this operation reads, if it reads one.
    pub open spec fn awaits(self) -> Option<Latch> {
        match self {
            Op::Load { addr, latch } => Some(latch),
            Op::LoadClocks => Some(Latch::Work),
            _ => None,
        }
    }

    /// Computes [`Op::action`].
    pub fn resolve(&self, latches: &Latches) -> (action: Action)
        ensures
            action == self.action(*latches),
    {
        match *self {
            Op::Halfword { addr, value } => Action::WriteHalfword { addr, value },
            Op::Load { addr, latch } => Action::ReadWord { addr },
            Op::Store { addr, latch, keep, set } => Action::WriteWord {
                addr,
                value: (latches.get(latch) & keep) | set,
            },
            Op::Put { addr, value } => Action::WriteWord { addr, value },
            Op::LoadClocks => Action::ReadClocks,
            Op::StoreClocks => Action::WriteClocks { value: enable_fsmc(latches.work) },
            Op::Dsb => Action::Dsb,
            Op::Isb => Action::Isb,
            Op::Delay { cycles } => Action::Delay { cycles },
            Op::Output { line, level, speed } => Action::Output { line, level, speed },
            Op::Drive { line, level } => Action::Drive { line, level },
            Op::Keep { line } => Action::Keep { line },
        }
    }

    /// Computes [`Op::awaits`].
    pub fn latch(&self) -> (latch: Option<Latch>)
        ensures
            latch == self.awaits(),
    {
        match *self {
            Op::Load { addr, latch } => Some(latch),
            Op::LoadClocks => Some(Latch::Work),
            _ => None,
        }
    }
}

/// Calls `stm32_metapac`'s `rcc::regs::Ahb2enr2::set_fsmcen(true)`, which
/// embassy-stm32 exposes as `pac`, on a register value of `word`. Trusted: the
/// call sets bit 0, the FSMC clock enable, and leaves the other bits alone.
#[verifier::external_body]
fn enable_fsmc(word: u32) -> (enabled: u32)
    ensures
        enabled == clocks_with_fsmc(word),
{
    let mut register = embassy_stm32::pac::rcc::regs::Ahb2enr2(word);
    register.set_fsmcen(true);
    register.0
}

} // verus!
