//! Handing out actions one by one is the same as running the operations.

use crate::model::{Board, Hardware};
use crate::model;
use crate::ops::{Action, Latch, Latches, Level, Line, Op, Speed};
use crate::queue::QueueState;
use crate::record;
use crate::record::{Record, Scene};
use vstd::prelude::*;

verus! {

/// A loop that performs each action that a queue hands out, and tells the next
/// step what the action brought in, leaves the hardware as a run of the queued
/// operations does.
pub proof fn draining_is_running(hw: Hardware, queue: QueueState, word: u32)
    ensures
        hw.drained(queue, word) == (Board { hw, latches: queue.latched(word) }).run(queue.ops).hw,
    decreases queue.ops.len(),
{
    let board = Board { hw, latches: queue.latched(word) };
    if queue.ops.len() > 0 {
        let op = queue.ops[0];
        let action = op.action(board.latches);
        let next = queue.resumed(word);
        draining_is_running(hw.after(action), next, hw.answer(action));
        assert(seq![op] + queue.ops.drop_first() =~= queue.ops);
        model::lemma_run_concat(board, seq![op], queue.ops.drop_first());
        model::lemma_run_one(board, op);
    }
}

/// The same loop leaves on record what a run of the queued operations does, and
/// keeps every rule that the run keeps.
pub proof fn draining_records_what_running_does(
    rec: Record,
    queue: QueueState,
    word: u32,
    rule: spec_fn(Record, Action) -> bool,
)
    ensures
        ({
            let scene = Scene { rec, latches: queue.latched(word) };
            &&& rec.drained(queue, word) == scene.run(queue.ops).rec
            &&& scene.runs_by(queue.ops, rule) ==> rec.drains_by(queue, word, rule)
        }),
    decreases queue.ops.len(),
{
    let scene = Scene { rec, latches: queue.latched(word) };
    if queue.ops.len() > 0 {
        let op = queue.ops[0];
        let rest = queue.ops.drop_first();
        let action = op.action(scene.latches);
        draining_records_what_running_does(
            rec.after(action),
            queue.resumed(word),
            rec.hw.answer(action),
            rule,
        );
        assert(seq![op] + rest =~= queue.ops);
        assert(seq![op].drop_last() =~= Seq::<Op>::empty());
        assert(scene.run(seq![op].drop_last()) == scene);
        assert(scene.run(seq![op]) == scene.step(op));
        record::lemma_concat(scene, seq![op], rest);
        if scene.runs_by(queue.ops, rule) {
            lemma_by_split(scene, seq![op], rest, rule);
        }
    }
}

/// A rule that holds throughout a concatenation holds throughout both lists.
proof fn lemma_by_split(
    scene: Scene,
    first: Seq<Op>,
    second: Seq<Op>,
    rule: spec_fn(Record, Action) -> bool,
)
    requires
        scene.runs_by(first + second, rule),
    ensures
        scene.runs_by(first, rule),
        scene.run(first).runs_by(second, rule),
    decreases second.len(),
{
    if second.len() == 0 {
        assert(first + second =~= first);
    } else {
        assert((first + second).drop_last() =~= first + second.drop_last());
        lemma_by_split(scene, first, second.drop_last(), rule);
        record::lemma_concat(scene, first, second.drop_last());
    }
}

/// What is asked for is done after everything that was asked for before, and in the
/// order in which it was asked for.
pub proof fn requests_are_performed_in_turn(
    rec: Record,
    queue: QueueState,
    word: u32,
    first: Seq<Op>,
    second: Seq<Op>,
)
    ensures
        rec.drained(queue.followed_by(first).followed_by(second), word) == (Scene {
            rec,
            latches: queue.latched(word),
        }).run(queue.ops).run(first).run(second).rec,
{
    let scene = Scene { rec, latches: queue.latched(word) };
    let both = queue.followed_by(first).followed_by(second);
    draining_records_what_running_does(rec, both, word, |rec: Record, action: Action| true);
    assert(both.ops =~= queue.ops + first + second);
    record::lemma_concat(scene, queue.ops, first);
    record::lemma_concat(scene, queue.ops + first, second);
}

/// A step of an empty queue asks for nothing and loses nothing: whatever is asked for
/// after it is done as without it.
pub proof fn a_step_of_an_empty_queue_loses_nothing(
    rec: Record,
    queue: QueueState,
    word: u32,
    next: u32,
    more: Seq<Op>,
)
    requires
        queue.ops.len() == 0,
    ensures
        queue.next_action(word) is None,
        queue.resumed(word).ops.len() == 0,
        rec.drained(queue.resumed(word).followed_by(more), next) == rec.drained(
            queue.followed_by(more),
            word,
        ),
{
    let rule = |rec: Record, action: Action| true;
    let with_step = queue.resumed(word).followed_by(more);
    let without = queue.followed_by(more);
    draining_records_what_running_does(rec, with_step, next, rule);
    draining_records_what_running_does(rec, without, word, rule);
    assert(with_step.ops =~= without.ops);
}

/// A queue that nothing was asked of hands out no action.
pub proof fn an_idle_queue_does_nothing(rec: Record, word: u32)
    ensures
        QueueState::idle().next_action(word) is None,
        rec.drained(QueueState::idle(), word) == rec,
{
}

/// What each operation comes to, whatever the latches hold: a store that keeps bits
/// stores those of the latch it names, and the clock register only gets the FSMC
/// bit.
pub proof fn operations_come_to_their_actions(
    latches: Latches,
    addr: u32,
    half: u16,
    value: u32,
    keep: u32,
    set: u32,
    cycles: u32,
    line: Line,
    level: Level,
    speed: Speed,
)
    ensures
        (Op::Halfword { addr, value: half }).action(latches) == (Action::WriteHalfword {
            addr,
            value: half,
        }),
        (Op::Load { addr, latch: Latch::Work }).action(latches) == (Action::ReadWord { addr }),
        (Op::Load { addr, latch: Latch::Saved }).action(latches) == (Action::ReadWord { addr }),
        (Op::Store { addr, latch: Latch::Work, keep, set }).action(latches) == (Action::WriteWord {
            addr,
            value: (latches.work & keep) | set,
        }),
        (Op::Store { addr, latch: Latch::Saved, keep, set }).action(latches) == (
        Action::WriteWord { addr, value: (latches.saved & keep) | set }),
        (Op::Put { addr, value }).action(latches) == (Action::WriteWord { addr, value }),
        Op::LoadClocks.action(latches) == Action::ReadClocks,
        Op::StoreClocks.action(latches) == (Action::WriteClocks { value: latches.work | 1 }),
        Op::Dsb.action(latches) == Action::Dsb,
        Op::Isb.action(latches) == Action::Isb,
        (Op::Delay { cycles }).action(latches) == (Action::Delay { cycles }),
        (Op::Output { line, level, speed }).action(latches) == (Action::Output {
            line,
            level,
            speed,
        }),
        (Op::Drive { line, level }).action(latches) == (Action::Drive { line, level }),
        (Op::Keep { line }).action(latches) == (Action::Keep { line }),
{
}

/// After a load the next step puts the word that it is told into the load's latch
/// and nowhere else; after any other operation the latches stay.
pub proof fn a_word_goes_to_the_latch_of_its_load(queue: QueueState, word: u32, next: u32)
    requires
        queue.ops.len() > 0,
    ensures
        ({
            let before = queue.latched(word);
            let after = queue.resumed(word).latched(next);
            match queue.ops[0] {
                Op::Load { addr, latch } => match latch {
                    Latch::Work => after == (Latches { work: next, saved: before.saved }),
                    Latch::Saved => after == (Latches { work: before.work, saved: next }),
                },
                Op::LoadClocks => after == (Latches { work: next, saved: before.saved }),
                _ => after == before,
            }
        }),
{
}

} // verus!
