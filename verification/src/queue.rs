//! The list of operations that are still to be performed, and the stepping
//! through it.

use crate::bus;
use crate::bus::FMC_DATA;
use crate::ops::{Action, Latch, Latches, Op};
use std::collections::VecDeque;
use vstd::prelude::*;

verus! {

/// What an [`OpQueue`] stands for.
pub struct QueueState {
    /// The operations to come, in order.
    pub ops: Seq<Op>,
    /// The words that loads brought in.
    pub latches: Latches,
    /// The latch that the word of the last action belongs in, if that action
    /// was a read.
    pub pending: Option<Latch>,
}

impl QueueState {
    /// Nothing to do, and nothing read yet.
    pub open spec fn idle() -> QueueState {
        QueueState {
            ops: Seq::empty(),
            latches: Latches { work: 0, saved: 0 },
            pending: None,
        }
    }

    /// The state once `more` was added at the end.
    pub open spec fn followed_by(self, more: Seq<Op>) -> QueueState {
        QueueState { ops: self.ops + more, ..self }
    }

    /// The latches once the read that is due, if any, has brought in `word`.
    pub open spec fn latched(self, word: u32) -> Latches {
        match self.pending {
            Some(latch) => self.latches.with(latch, word),
            None => self.latches,
        }
    }

    /// The state after one step that is told `word`.
    pub open spec fn resumed(self, word: u32) -> QueueState {
        if self.ops.len() == 0 {
            QueueState { ops: self.ops, latches: self.latched(word), pending: None }
        } else {
            QueueState {
                ops: self.ops.drop_first(),
                latches: self.latched(word),
                pending: self.ops[0].awaits(),
            }
        }
    }

    /// The action that a step told `word` asks for.
    pub open spec fn next_action(self, word: u32) -> Option<Action> {
        if self.ops.len() == 0 {
            None
        } else {
            Some(self.ops[0].action(self.latched(word)))
        }
    }
}

/// How operations are stored: a run of pixels takes one entry, whatever its
/// length.
enum Entry {
    /// A single operation.
    One(Op),
    /// `count` pixels of `color`.
    Pixels { color: u16, count: u32 },
}

impl Entry {
    /// The operations that the entry stands for.
    spec fn ops(self) -> Seq<Op> {
        match self {
            Entry::One(op) => seq![op],
            Entry::Pixels { color, count } => bus::fill_ops(color, count as nat),
        }
    }
}

/// The operations that `entries` stand for.
spec fn flat(entries: Seq<Entry>) -> Seq<Op>
    decreases entries.len(),
{
    if entries.len() == 0 {
        Seq::empty()
    } else {
        entries[0].ops() + flat(entries.drop_first())
    }
}

proof fn lemma_flat_push(entries: Seq<Entry>, entry: Entry)
    ensures
        flat(entries.push(entry)) == flat(entries) + entry.ops(),
    decreases entries.len(),
{
    let more = entries.push(entry);
    if entries.len() == 0 {
        assert(more.drop_first() =~= entries);
        assert(flat(more) =~= flat(entries) + entry.ops());
    } else {
        assert(more.drop_first() =~= entries.drop_first().push(entry));
        lemma_flat_push(entries.drop_first(), entry);
        assert(flat(more) =~= flat(entries) + entry.ops());
    }
}

proof fn lemma_flat_prepend(entry: Entry, entries: Seq<Entry>)
    ensures
        flat(seq![entry] + entries) == entry.ops() + flat(entries),
{
    assert((seq![entry] + entries).drop_first() =~= entries);
}

/// Operations in the order in which they are to be performed.
pub struct OpQueue {
    entries: VecDeque<Entry>,
    latches: Latches,
    pending: Option<Latch>,
}

impl View for OpQueue {
    type V = QueueState;

    closed spec fn view(&self) -> QueueState {
        QueueState { ops: flat(self.entries@), latches: self.latches, pending: self.pending }
    }
}

impl OpQueue {
    /// A queue with nothing to do.
    pub fn new() -> (queue: OpQueue)
        ensures
            queue@ == QueueState::idle(),
    {
        OpQueue {
            entries: VecDeque::new(),
            latches: Latches { work: 0, saved: 0 },
            pending: None,
        }
    }

    /// Adds one operation at the end.
    pub fn push(&mut self, op: Op)
        ensures
            final(self)@ == old(self)@.followed_by(seq![op]),
    {
        self.entries.push_back(Entry::One(op));
        proof {
            lemma_flat_push(old(self).entries@, Entry::One(op));
        }
    }

    /// Adds `count` pixels of `color` at the end.
    pub fn push_pixels(&mut self, color: u16, count: u32)
        ensures
            final(self)@ == old(self)@.followed_by(bus::fill_ops(color, count as nat)),
    {
        self.entries.push_back(Entry::Pixels { color, count });
        proof {
            lemma_flat_push(old(self).entries@, Entry::Pixels { color, count });
        }
    }

    /// Takes one step. `word` is what the last action brought in if that action
    /// was a read, and is ignored otherwise. Returns the next action, or `None`
    /// once every operation was handed out.
    pub fn resume(&mut self, word: u32) -> (action: Option<Action>)
        ensures
            final(self)@ == old(self)@.resumed(word),
            action == old(self)@.next_action(word),
    {
        match self.pending {
            Some(latch) => {
                self.latches.set(latch, word);
                self.pending = None;
            },
            None => {},
        }
        match self.pop() {
            Some(op) => {
                self.pending = op.latch();
                Some(op.resolve(&self.latches))
            },
            None => None,
        }
    }

    /// Takes the first operation off.
    fn pop(&mut self) -> (op: Option<Op>)
        ensures
            final(self).latches == old(self).latches,
            final(self).pending == old(self).pending,
            match op {
                Some(op) => {
                    &&& old(self)@.ops.len() > 0
                    &&& op == old(self)@.ops[0]
                    &&& final(self)@.ops == old(self)@.ops.drop_first()
                },
                None => old(self)@.ops.len() == 0 && final(self)@.ops.len() == 0,
            },
    {
        loop
            invariant
                self.latches == old(self).latches,
                self.pending == old(self).pending,
                flat(self.entries@) == flat(old(self).entries@),
            decreases self.entries@.len(),
        {
            let ghost before = self.entries@;
            match self.entries.pop_front() {
                None => {
                    return None;
                },
                Some(Entry::One(op)) => {
                    assert(self.entries@ =~= before.drop_first());
                    assert(flat(before).drop_first() =~= flat(self.entries@));
                    return Some(op);
                },
                Some(Entry::Pixels { color, count }) => {
                    assert(self.entries@ =~= before.drop_first());
                    if count > 0 {
                        return Some(self.split_pixel(color, count));
                    }
                    assert(flat(before) =~= flat(self.entries@));
                },
            }
        }
    }

    /// Hands out the first operation of `count` pixels of `color` and puts the
    /// others in front.
    fn split_pixel(&mut self, color: u16, count: u32) -> (op: Op)
        requires
            count > 0,
        ensures
            final(self).latches == old(self).latches,
            final(self).pending == old(self).pending,
            seq![op] + flat(final(self).entries@) == bus::fill_ops(color, count as nat) + flat(
                old(self).entries@,
            ),
    {
        let (high, low) = bus::split(color);
        let rest = Entry::Pixels { color, count: count - 1 };
        let second = Op::Halfword { addr: FMC_DATA, value: low as u16 };
        proof {
            let s0 = self.entries@;
            let s1 = seq![rest] + s0;
            let s2 = seq![Entry::One(Op::Dsb)] + s1;
            let s3 = seq![Entry::One(second)] + s2;
            lemma_flat_prepend(rest, s0);
            lemma_flat_prepend(Entry::One(Op::Dsb), s1);
            lemma_flat_prepend(Entry::One(second), s2);
            lemma_flat_prepend(Entry::One(Op::Dsb), s3);
            bus::lemma_fill_first(color, count as nat);
        }
        self.entries.push_front(rest);
        self.entries.push_front(Entry::One(Op::Dsb));
        self.entries.push_front(Entry::One(second));
        self.entries.push_front(Entry::One(Op::Dsb));
        let first = Op::Halfword { addr: FMC_DATA, value: high as u16 };
        assert(seq![first] + flat(self.entries@) =~= bus::fill_ops(color, count as nat) + flat(
            old(self).entries@,
        ));
        first
    }
}

} // verus!
