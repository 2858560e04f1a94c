//! A model of what the actions do: registers that hold what was stored, two
//! GPIO lines, and the panel's controller at the far end of the bus. The laws of
//! the driver are stated over it.

use crate::bus::{FMC_CMD, FMC_DATA};
use crate::display::{CASET, PASET, RAMWR};
use crate::gpio::{MODER, ODR, OSPEEDR, OTYPER, PUPDR};
use crate::ops::{Action, Latches, Level, Line, Op, Speed};
use crate::queue::QueueState;
use vstd::prelude::*;

verus! {

/// The panel's controller.
pub struct Panel {
    /// The command received last.
    pub command: u8,
    /// For each command received since the last reset, the bytes that followed it
    /// when it was last received.
    pub params: Map<u8, Seq<u8>>,
    /// The picture: the colour in each column and row, `(x, y)`.
    pub frame: Map<(int, int), u16>,
}

impl Panel {
    /// The controller after a reset: nothing was received yet, and what the picture
    /// is then is left open.
    pub open spec fn reset(self) -> Panel {
        Panel { command: 0, params: Map::empty(), frame: arbitrary() }
    }

    /// The controller after the command `code`.
    pub open spec fn select(self, code: u8) -> Panel {
        Panel { command: code, params: self.params.insert(code, Seq::empty()), ..self }
    }

    /// The controller after the data byte `byte`. Under `RAMWR` every second
    /// byte completes a pixel.
    pub open spec fn accept(self, byte: u8) -> Panel {
        let bytes = self.params[self.command].push(byte);
        Panel {
            params: self.params.insert(self.command, bytes),
            frame: if self.command == RAMWR && bytes.len() % 2 == 0 {
                self.frame.insert(
                    self.cell(bytes.len() / 2 - 1),
                    join(bytes[bytes.len() - 2], byte),
                )
            } else {
                self.frame
            },
            ..self
        }
    }

    /// The controller after the data bytes `bytes`.
    pub open spec fn accept_all(self, bytes: Seq<u8>) -> Panel
        decreases bytes.len(),
    {
        if bytes.len() == 0 {
            self
        } else {
            self.accept_all(bytes.drop_last()).accept(bytes.last())
        }
    }

    /// The first address that came with `code`, `CASET` or `PASET`.
    pub open spec fn first(self, code: u8) -> int {
        join(self.params[code][0], self.params[code][1]) as int
    }

    /// The last address that came with `code`, `CASET` or `PASET`.
    pub open spec fn last(self, code: u8) -> int {
        join(self.params[code][2], self.params[code][3]) as int
    }

    /// Where pixel number `n` after `RAMWR` goes: the window is filled row by
    /// row, each from the left, and from the top again once it is full.
    pub open spec fn cell(self, n: int) -> (int, int) {
        let width = self.last(CASET) - self.first(CASET) + 1;
        let height = self.last(PASET) - self.first(PASET) + 1;
        (self.first(CASET) + n % width, self.first(PASET) + (n / width) % height)
    }
}

/// The halfword of a high and a low byte.
pub open spec fn join(high: u8, low: u8) -> u16 {
    (high * 256 + low) as u16
}

/// Address of the register at `offset` of the port that `line` is on: port B for
/// the backlight, port E for the reset line.
pub open spec fn line_reg(line: Line, offset: u32) -> u32 {
    match line {
        Line::Backlight => (0x4202_0400 + offset) as u32,
        Line::Reset => (0x4202_1000 + offset) as u32,
    }
}

/// Number of the pin that `line` is on: `PB8` for the backlight, `PE11` for the
/// reset line.
pub open spec fn line_pin(line: Line) -> u8 {
    match line {
        Line::Backlight => 8,
        Line::Reset => 11,
    }
}

/// `word` with the bit of `pin` set or cleared.
pub open spec fn with_bit(word: u32, pin: u8, set: bool) -> u32 {
    if set {
        word | (1u32 << pin)
    } else {
        word & !(1u32 << pin)
    }
}

/// `word` with `value` in the two-bit field of `pin`.
pub open spec fn with_pair(word: u32, pin: u8, value: u32) -> u32 {
    (word & !(0b11u32 << (pin * 2))) | (value << (pin * 2))
}

/// How a speed is written in the output speed register.
pub open spec fn speed_bits(speed: Speed) -> u32 {
    match speed {
        Speed::Low => 0b00,
        Speed::Medium => 0b01,
        Speed::High => 0b10,
        Speed::VeryHigh => 0b11,
    }
}

/// The registers once the pin of `line` was made a push-pull output of `speed`
/// without a pull resistor.
pub open spec fn output_words(words: Map<u32, u32>, line: Line, speed: Speed) -> Map<u32, u32> {
    let pin = line_pin(line);
    let pupdr = line_reg(line, PUPDR);
    let otyper = line_reg(line, OTYPER);
    let ospeedr = line_reg(line, OSPEEDR);
    let moder = line_reg(line, MODER);
    words.insert(pupdr, with_pair(words[pupdr], pin, 0b00)).insert(
        otyper,
        with_bit(words[otyper], pin, false),
    ).insert(ospeedr, with_pair(words[ospeedr], pin, speed_bits(speed))).insert(
        moder,
        with_pair(words[moder], pin, 0b01),
    )
}

/// Everything that actions change.
pub struct Hardware {
    /// The word at each address, for the registers that hold what is stored there.
    pub words: Map<u32, u32>,
    /// The clock enable register `RCC_AHB2ENR2`.
    pub clocks: u32,
    /// The panel.
    pub panel: Panel,
    /// The level of each line that was made an output.
    pub lines: Map<Line, Level>,
    /// The lines that stay outputs for the rest of the run.
    pub kept: Set<Line>,
    /// Processor cycles that were waited for.
    pub cycles: nat,
}

impl Hardware {
    /// The hardware once `action` was performed. Of a halfword on the bus the
    /// panel sees the low byte.
    pub open spec fn after(self, action: Action) -> Hardware {
        match action {
            Action::WriteHalfword { addr, value } => if addr == FMC_CMD {
                self.with_panel(self.panel.select((value % 256) as u8))
            } else if addr == FMC_DATA {
                self.with_panel(self.panel.accept((value % 256) as u8))
            } else {
                self
            },
            Action::WriteWord { addr, value } => Hardware {
                words: self.words.insert(addr, value),
                ..self
            },
            Action::WriteClocks { value } => Hardware { clocks: value, ..self },
            Action::Delay { cycles } => Hardware { cycles: self.cycles + cycles as nat, ..self },
            Action::Output { line, level, speed } => {
                let driven = self.with_line(line, level);
                Hardware { words: output_words(driven.words, line, speed), ..driven }
            },
            Action::Drive { line, level } => self.with_line(line, level),
            Action::Keep { line } => Hardware { kept: self.kept.insert(line), ..self },
            _ => self,
        }
    }

    /// The word that performing `action` brings in; 0 if it is not a read.
    pub open spec fn answer(self, action: Action) -> u32 {
        match action {
            Action::ReadWord { addr } => self.words[addr],
            Action::ReadClocks => self.clocks,
            _ => 0,
        }
    }

    /// The same hardware with another panel state.
    pub open spec fn with_panel(self, panel: Panel) -> Hardware {
        Hardware { panel, ..self }
    }

    /// The hardware once `line` was set to `level`: the line's bit of the output
    /// data register changes, and a low reset line resets the panel.
    pub open spec fn with_line(self, line: Line, level: Level) -> Hardware {
        let addr = line_reg(line, ODR);
        Hardware {
            words: self.words.insert(
                addr,
                with_bit(self.words[addr], line_pin(line), level == Level::High),
            ),
            lines: self.lines.insert(line, level),
            panel: if line == Line::Reset && level == Level::Low {
                self.panel.reset()
            } else {
                self.panel
            },
            ..self
        }
    }

    /// The hardware once a loop has performed every action of `queue` and told
    /// each step what the action before it brought in, the first one `word`.
    pub open spec fn drained(self, queue: QueueState, word: u32) -> Hardware
        decreases queue.ops.len(),
    {
        match queue.next_action(word) {
            Some(action) => self.after(action).drained(queue.resumed(word), self.answer(action)),
            None => self,
        }
    }
}

/// The hardware, and the latches of the driver.
pub struct Board {
    /// The hardware.
    pub hw: Hardware,
    /// The latches.
    pub latches: Latches,
}

impl Board {
    /// The board after one operation.
    pub open spec fn step(self, op: Op) -> Board {
        let action = op.action(self.latches);
        Board {
            hw: self.hw.after(action),
            latches: match op.awaits() {
                Some(latch) => self.latches.with(latch, self.hw.answer(action)),
                None => self.latches,
            },
        }
    }

    /// The board after `ops`.
    pub open spec fn run(self, ops: Seq<Op>) -> Board
        decreases ops.len(),
    {
        if ops.len() == 0 {
            self
        } else {
            self.run(ops.drop_last()).step(ops.last())
        }
    }

    /// The same board with another panel state.
    pub open spec fn with_panel(self, panel: Panel) -> Board {
        Board { hw: self.hw.with_panel(panel), ..self }
    }
}

/// Running two lists of operations in turn is running their concatenation.
pub proof fn lemma_run_concat(board: Board, first: Seq<Op>, second: Seq<Op>)
    ensures
        board.run(first + second) == board.run(first).run(second),
    decreases second.len(),
{
    if second.len() == 0 {
        assert(first + second =~= first);
    } else {
        assert((first + second).drop_last() =~= first + second.drop_last());
        lemma_run_concat(board, first, second.drop_last());
    }
}

/// A run of a single operation is a step.
pub proof fn lemma_run_one(board: Board, op: Op)
    ensures
        board.run(seq![op]) == board.step(op),
{
    assert(seq![op].drop_last() =~= Seq::<Op>::empty());
    assert(board.run(seq![op].drop_last()) == board);
}

/// A longer prefix takes one step more.
pub proof fn lemma_run_prefix(board: Board, ops: Seq<Op>, count: int)
    requires
        0 <= count < ops.len(),
    ensures
        board.run(ops.take(count + 1)) == board.run(ops.take(count)).step(ops[count]),
{
    assert(ops.take(count + 1).drop_last() =~= ops.take(count));
}

/// The register address that `op` stores a word to, if it does.
pub open spec fn stores_to(op: Op) -> Option<u32> {
    match op {
        Op::Store { addr, latch, keep, set } => Some(addr),
        Op::Put { addr, value } => Some(addr),
        _ => None,
    }
}

} // verus!
