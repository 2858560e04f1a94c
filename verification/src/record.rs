//! The hardware of [`crate::model`] with a record of what happened to it: what the
//! panel and the lines saw and when, what each MPU region was given, and which
//! stores a barrier has completed.

use crate::bus::{FMC_CMD, FMC_DATA};
use crate::fmc::{MPU_NS_CTRL, MPU_NS_RBAR, MPU_NS_RLAR, MPU_NS_RNR};
use crate::model::{Board, Hardware};
use crate::ops::{Action, Latches, Level, Line, Op};
use crate::queue::QueueState;
use vstd::prelude::*;

verus! {

/// Something that is seen outside the chip, and the cycle it happened in.
pub enum Event {
    /// The panel received the command `code`.
    Command { code: u8, at: nat },
    /// `line` was set to `level`.
    Level { line: Line, level: Level, at: nat },
    /// `line` stays an output from here on.
    Kept { line: Line, at: nat },
}

/// The hardware and its record.
#[verifier::ext_equal]
pub struct Record {
    /// The hardware as it is.
    pub hw: Hardware,
    /// What was seen outside, in order.
    pub events: Seq<Event>,
    /// Number of data bytes that the panel received.
    pub bytes: nat,
    /// Base and limit of each MPU region. A store to either register goes to the
    /// region that the number register selects then.
    pub regions: Map<u32, (u32, u32)>,
    /// Whether a `dsb` has followed every store.
    pub completed: bool,
    /// Whether an `isb` has followed every completed store to a register.
    pub flushed: bool,
    /// Whether no `dsb` has followed the last store to the clock register.
    pub clock_pending: bool,
    /// Whether no `dsb` with an `isb` has followed the last store to the MPU's
    /// control register.
    pub mpu_pending: bool,
}

impl Record {
    /// The record once `action` was performed.
    pub open spec fn after(self, action: Action) -> Record {
        let hw = self.hw.after(action);
        let at = self.hw.cycles;
        match action {
            Action::WriteHalfword { addr, value } => Record {
                hw,
                events: if addr == FMC_CMD {
                    self.events.push(Event::Command { code: (value % 256) as u8, at })
                } else {
                    self.events
                },
                bytes: if addr == FMC_DATA {
                    self.bytes + 1
                } else {
                    self.bytes
                },
                completed: false,
                ..self
            },
            Action::WriteWord { addr, value } => {
                let number = self.hw.words[MPU_NS_RNR];
                let (base, limit) = self.regions[number];
                Record {
                    hw,
                    regions: if addr == MPU_NS_RBAR {
                        self.regions.insert(number, (value, limit))
                    } else if addr == MPU_NS_RLAR {
                        self.regions.insert(number, (base, value))
                    } else {
                        self.regions
                    },
                    completed: false,
                    flushed: false,
                    mpu_pending: self.mpu_pending || addr == MPU_NS_CTRL,
                    ..self
                }
            },
            Action::WriteClocks { value } => Record {
                hw,
                completed: false,
                flushed: false,
                clock_pending: true,
                ..self
            },
            Action::Dsb => Record { hw, completed: true, clock_pending: false, ..self },
            Action::Isb => Record {
                hw,
                flushed: self.completed,
                mpu_pending: self.mpu_pending && !self.completed,
                ..self
            },
            Action::Output { line, level, speed } => Record {
                hw,
                events: self.events.push(Event::Level { line, level, at }),
                ..self
            },
            Action::Drive { line, level } => Record {
                hw,
                events: self.events.push(Event::Level { line, level, at }),
                ..self
            },
            Action::Keep { line } => Record {
                hw,
                events: self.events.push(Event::Kept { line, at }),
                ..self
            },
            _ => Record { hw, ..self },
        }
    }

    /// The record once a loop has performed every action of `queue` and told each
    /// step what the action before it brought in, the first one `word`.
    pub open spec fn drained(self, queue: QueueState, word: u32) -> Record
        decreases queue.ops.len(),
    {
        match queue.next_action(word) {
            Some(action) => self.after(action).drained(
                queue.resumed(word),
                self.hw.answer(action),
            ),
            None => self,
        }
    }

    /// Whether `rule` holds of every action that the same loop performs, and of
    /// the record when it comes up.
    pub open spec fn drains_by(
        self,
        queue: QueueState,
        word: u32,
        rule: spec_fn(Record, Action) -> bool,
    ) -> bool
        decreases queue.ops.len(),
    {
        match queue.next_action(word) {
            Some(action) => {
                &&& rule(self, action)
                &&& self.after(action).drains_by(
                    queue.resumed(word),
                    self.hw.answer(action),
                    rule,
                )
            },
            None => true,
        }
    }
}

/// A record, and the latches of the driver.
#[verifier::ext_equal]
pub struct Scene {
    /// The record.
    pub rec: Record,
    /// The latches.
    pub latches: Latches,
}

impl Scene {
    /// The board in the scene.
    pub open spec fn board(self) -> Board {
        Board { hw: self.rec.hw, latches: self.latches }
    }

    /// The action that `op` comes to.
    pub open spec fn action(self, op: Op) -> Action {
        op.action(self.latches)
    }

    /// The scene after one operation.
    pub open spec fn step(self, op: Op) -> Scene {
        Scene { rec: self.rec.after(self.action(op)), latches: self.board().step(op).latches }
    }

    /// The scene after `ops`.
    pub open spec fn run(self, ops: Seq<Op>) -> Scene
        decreases ops.len(),
    {
        if ops.len() == 0 {
            self
        } else {
            self.run(ops.drop_last()).step(ops.last())
        }
    }

    /// Whether `rule` holds of every action of `ops`, and of the record when it
    /// comes up.
    pub open spec fn runs_by(self, ops: Seq<Op>, rule: spec_fn(Record, Action) -> bool) -> bool
        decreases ops.len(),
    {
        if ops.len() == 0 {
            true
        } else {
            let before = self.run(ops.drop_last());
            &&& self.runs_by(ops.drop_last(), rule)
            &&& rule(before.rec, before.action(ops.last()))
        }
    }
}

/// The record leaves the board alone.
pub proof fn lemma_board(scene: Scene, ops: Seq<Op>)
    ensures
        scene.run(ops).board() == scene.board().run(ops),
    decreases ops.len(),
{
    if ops.len() > 0 {
        lemma_board(scene, ops.drop_last());
    }
}

/// Running two lists of operations in turn is running their concatenation.
pub proof fn lemma_concat(scene: Scene, first: Seq<Op>, second: Seq<Op>)
    ensures
        scene.run(first + second) == scene.run(first).run(second),
    decreases second.len(),
{
    if second.len() == 0 {
        assert(first + second =~= first);
    } else {
        assert((first + second).drop_last() =~= first + second.drop_last());
        lemma_concat(scene, first, second.drop_last());
    }
}

/// A rule that holds throughout two lists holds throughout their concatenation.
pub proof fn lemma_by_concat(
    scene: Scene,
    first: Seq<Op>,
    second: Seq<Op>,
    rule: spec_fn(Record, Action) -> bool,
)
    requires
        scene.runs_by(first, rule),
        scene.run(first).runs_by(second, rule),
    ensures
        scene.runs_by(first + second, rule),
    decreases second.len(),
{
    if second.len() == 0 {
        assert(first + second =~= first);
    } else {
        assert((first + second).drop_last() =~= first + second.drop_last());
        lemma_by_concat(scene, first, second.drop_last(), rule);
        lemma_concat(scene, first, second.drop_last());
    }
}

/// A longer prefix takes one step more, and asks one thing more of a rule.
pub proof fn lemma_prefix(
    scene: Scene,
    ops: Seq<Op>,
    count: int,
    rule: spec_fn(Record, Action) -> bool,
)
    requires
        0 <= count < ops.len(),
    ensures
        scene.run(ops.take(count + 1)) == scene.run(ops.take(count)).step(ops[count]),
        scene.runs_by(ops.take(count + 1), rule) <==> scene.runs_by(ops.take(count), rule) && rule(
            scene.run(ops.take(count)).rec,
            scene.run(ops.take(count)).action(ops[count]),
        ),
{
    assert(ops.take(count + 1).drop_last() =~= ops.take(count));
}

/// Nothing is asked of an empty list.
pub proof fn lemma_none(scene: Scene, ops: Seq<Op>, rule: spec_fn(Record, Action) -> bool)
    ensures
        scene.run(ops.take(0)) == scene,
        scene.runs_by(ops.take(0), rule),
        ops.take(ops.len() as int) == ops,
{
    assert(ops.take(0) =~= Seq::<Op>::empty());
    assert(ops.take(ops.len() as int) =~= ops);
}

} // verus!
