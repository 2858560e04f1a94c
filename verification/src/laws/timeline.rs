//! What the lines and the panel see of the bring-up, and in which cycle.

use crate::builder;
use crate::fmc;
use crate::init;
use crate::init::Message;
use crate::laws::bring_up;
use crate::laws::drawing;
use crate::laws::order;
use crate::laws::registers;
use crate::laws::sending;
use crate::laws::stepping;
use crate::model;
use crate::model::{Hardware, Panel};
use crate::ops::{Action, Level, Line, Op, Speed};
use crate::queue::QueueState;
use crate::record;
use crate::record::{Event, Record, Scene};
use vstd::prelude::*;

verus! {

/// Whether `code` is one of the fifteen commands of the start-up sequence.
pub open spec fn is_start_up_code(code: u8) -> bool {
    ||| code == 0xE0
    ||| code == 0xE1
    ||| code == 0xC0
    ||| code == 0xC1
    ||| code == 0xC5
    ||| code == 0x36
    ||| code == 0x3A
    ||| code == 0xB0
    ||| code == 0xB1
    ||| code == 0xB4
    ||| code == 0xB6
    ||| code == 0x21
    ||| code == 0x11
    ||| code == 0x35
    ||| code == 0x29
}

/// Whether all that `after` has other than `before` is the panel's settings: the two
/// gamma curves, power, VCOM, landscape in BGR, RGB565, interface, frame rate,
/// inversion, display function, and that it is inverted, awake, with the
/// tearing-effect line on and the display on.
pub open spec fn is_set_up(before: Panel, after: Panel) -> bool {
    &&& after.params[0xE0] == seq![
        0x00u8, 0x10, 0x14, 0x01, 0x0E, 0x04, 0x33, 0x56, 0x48, 0x03, 0x0C, 0x0B, 0x2B, 0x34, 0x0F,
    ]
    &&& after.params[0xE1] == seq![
        0x00u8, 0x12, 0x18, 0x05, 0x12, 0x06, 0x40, 0x34, 0x57, 0x06, 0x10, 0x0C, 0x3B, 0x3F, 0x0F,
    ]
    &&& after.params[0xC0] == seq![0x0Fu8, 0x0C]
    &&& after.params[0xC1] == seq![0x41u8]
    &&& after.params[0xC5] == seq![0x00u8, 0x25, 0x80]
    &&& after.params[0x36] == seq![0x7Au8]
    &&& after.params[0x3A] == seq![0x55u8]
    &&& after.params[0xB0] == seq![0x00u8]
    &&& after.params[0xB1] == seq![0xA0u8]
    &&& after.params[0xB4] == seq![0x02u8]
    &&& after.params[0xB6] == seq![0x02u8, 0x22]
    &&& after.params[0x21].len() == 0
    &&& after.params[0x11].len() == 0
    &&& after.params[0x35] == seq![0x00u8]
    &&& after.params[0x29].len() == 0
    &&& forall|code: u8|
        is_start_up_code(code) ==> #[trigger] after.params.contains_key(code)
    &&& forall|code: u8|
        !is_start_up_code(code) ==> #[trigger] drawing::same_setting(before, after, code)
    &&& after.frame == before.frame
}

/// The commands of the start-up sequence: up to "sleep out" (0x11) in cycle `at`,
/// "tearing-effect line on" (0x35) and "display on" (0x29) `wake` cycles later.
pub open spec fn start_up_events(at: nat, wake: nat) -> Seq<Event> {
    seq![
        Event::Command { code: 0xE0, at },
        Event::Command { code: 0xE1, at },
        Event::Command { code: 0xC0, at },
        Event::Command { code: 0xC1, at },
        Event::Command { code: 0xC5, at },
        Event::Command { code: 0x36, at },
        Event::Command { code: 0x3A, at },
        Event::Command { code: 0xB0, at },
        Event::Command { code: 0xB1, at },
        Event::Command { code: 0xB4, at },
        Event::Command { code: 0xB6, at },
        Event::Command { code: 0x21, at },
        Event::Command { code: 0x11, at },
        Event::Command { code: 0x35, at: at + wake },
        Event::Command { code: 0x29, at: at + wake },
    ]
}

/// The commands of `messages`, received in cycle `at`.
spec fn message_events(messages: Seq<Message>, at: nat) -> Seq<Event> {
    Seq::new(messages.len(), |i: int| Event::Command { code: messages[i].code, at })
}

/// Whether `after` is `before` but for what the panel was told, and a barrier has
/// completed that.
spec fn only_told(before: Scene, after: Scene) -> bool {
    &&& after == (Scene {
        rec: Record {
            hw: before.rec.hw.with_panel(after.rec.hw.panel),
            events: after.rec.events,
            bytes: after.rec.bytes,
            completed: after.rec.completed,
            clock_pending: after.rec.clock_pending,
            ..before.rec
        },
        ..before
    })
    &&& before.rec.completed ==> after.rec.completed
    &&& !before.rec.clock_pending ==> !after.rec.clock_pending
}

proof fn lemma_messages(
    scene: Scene,
    messages: Seq<Message>,
    rule: spec_fn(Record, Action) -> bool,
)
    ensures
        ({
            let after = scene.run(init::messages_ops(messages));
            &&& only_told(scene, after)
            &&& after.rec.events == scene.rec.events + message_events(
                messages,
                scene.rec.hw.cycles,
            )
        }),
        scene.rec.completed && sending::takes_bytes(scene.rec, rule) ==> scene.runs_by(
            init::messages_ops(messages),
            rule,
        ),
    decreases messages.len(),
{
    let at = scene.rec.hw.cycles;
    if messages.len() == 0 {
        assert(scene.rec.events + message_events(messages, at) =~= scene.rec.events);
    } else {
        let most = messages.drop_last();
        let last = messages.last();
        let head = init::messages_ops(most);
        let tail = init::message_ops(last);
        let middle = scene.run(head);
        lemma_messages(scene, most, rule);
        record::lemma_concat(scene, head, tail);
        sending::a_message_is_one_command(middle, last.code, last.params, rule);
        assert(scene.run(head + tail).rec.events =~= scene.rec.events + message_events(
            messages,
            at,
        ));
        if scene.rec.completed && sending::takes_bytes(scene.rec, rule) {
            sending::lemma_takes(scene.rec, middle.rec, rule);
            record::lemma_by_concat(scene, head, tail, rule);
        }
    }
}

/// The panel's settings after the start-up sequence.
proof fn lemma_settings(scene: Scene, wake_cycles: u32)
    ensures
        is_set_up(
            scene.rec.hw.panel,
            scene.run(init::init_ops(wake_cycles)).rec.hw.panel,
        ),
{
    let setup = init::setup_messages();
    let wake = init::wake_messages();
    let delay = seq![Op::Delay { cycles: wake_cycles }];
    let a = init::messages_ops(setup);
    let b = init::messages_ops(wake);
    let board = scene.board();
    model::lemma_run_concat(board, a + delay, b);
    model::lemma_run_concat(board, a, delay);
    model::lemma_run_one(board.run(a), delay[0]);
    record::lemma_board(scene, a + delay + b);
    bring_up::messages_set_the_panel_up(board, setup);
    let middle = board.run(a).run(delay);
    bring_up::messages_set_the_panel_up(middle, wake);
    let before = board.hw.panel;
    let after = middle.run(b).hw.panel;
    assert(after == scene.run(init::init_ops(wake_cycles)).rec.hw.panel);
    assert forall|i: int| 0 <= i < setup.len() implies after.params[(#[trigger] setup[i]).code]
        == setup[i].params && bring_up::is_set(setup, setup[i].code) by {
        assert(!bring_up::is_set(wake, setup[i].code));
    }
    assert forall|i: int| 0 <= i < wake.len() implies bring_up::is_set(
        wake,
        (#[trigger] wake[i]).code,
    ) by {}
    assert(setup[0].code == 0xE0 && setup[1].code == 0xE1 && setup[2].code == 0xC0 && setup[3].code
        == 0xC1 && setup[4].code == 0xC5 && setup[5].code == 0x36 && setup[6].code == 0x3A
        && setup[7].code == 0xB0 && setup[8].code == 0xB1 && setup[9].code == 0xB4
        && setup[10].code == 0xB6 && setup[11].code == 0x21 && setup[12].code == 0x11);
    assert(wake[0].code == 0x35 && wake[1].code == 0x29);
    assert forall|code: u8| !is_start_up_code(code) implies #[trigger] drawing::same_setting(
        before,
        after,
        code,
    ) by {
        assert(!bring_up::is_set(setup, code));
        assert(!bring_up::is_set(wake, code));
    }
}

/// The start-up sequence: the panel gets its fifteen commands, each with its
/// parameters and none twice, in their order. `wake_cycles` cycles are waited for,
/// all of them between "sleep out" and the command after it. Nothing but the panel
/// is touched, and the picture stays.
pub proof fn start_up_sequence_timeline(scene: Scene, wake_cycles: u32)
    ensures
        ({
            let at = scene.rec.hw.cycles;
            let after = scene.run(init::init_ops(wake_cycles)).rec;
            &&& after.events == scene.rec.events + start_up_events(at, wake_cycles as nat)
            &&& is_set_up(scene.rec.hw.panel, after.hw.panel)
            &&& after.hw == (Hardware {
                panel: after.hw.panel,
                cycles: at + wake_cycles as nat,
                ..scene.rec.hw
            })
            &&& after == (Record {
                hw: after.hw,
                events: after.events,
                bytes: after.bytes,
                completed: after.completed,
                clock_pending: after.clock_pending,
                ..scene.rec
            })
        }),
{
    lemma_start_up(scene, wake_cycles, |rec: Record, action: Action| true);
    lemma_settings(scene, wake_cycles);
}

proof fn lemma_start_up(
    scene: Scene,
    wake_cycles: u32,
    rule: spec_fn(Record, Action) -> bool,
)
    ensures
        ({
            let at = scene.rec.hw.cycles;
            let after = scene.run(init::init_ops(wake_cycles)).rec;
            &&& after.events == scene.rec.events + start_up_events(at, wake_cycles as nat)
            &&& after.hw == (Hardware {
                panel: after.hw.panel,
                cycles: at + wake_cycles as nat,
                ..scene.rec.hw
            })
            &&& after == (Record {
                hw: after.hw,
                events: after.events,
                bytes: after.bytes,
                completed: after.completed,
                clock_pending: after.clock_pending,
                ..scene.rec
            })
            &&& scene.rec.completed ==> after.completed
            &&& !scene.rec.clock_pending ==> !after.clock_pending
        }),
        ({
            let cycles = scene.rec.hw.cycles + wake_cycles as nat;
            let hw = Hardware { cycles, ..scene.rec.hw };
            scene.rec.completed && sending::takes_bytes(scene.rec, rule) && sending::takes_bytes(
                Record { hw, ..scene.rec },
                rule,
            ) && (forall|other: Record, cycles: u32| #[trigger]
                rule(other, Action::Delay { cycles })) ==> scene.runs_by(
                init::init_ops(wake_cycles),
                rule,
            )
        }),
{
    let setup = init::setup_messages();
    let wake = init::wake_messages();
    let delay = seq![Op::Delay { cycles: wake_cycles }];
    let a = init::messages_ops(setup);
    let b = init::messages_ops(wake);
    let at = scene.rec.hw.cycles;
    let s1 = scene.run(a);
    let s2 = s1.run(delay);
    lemma_messages(scene, setup, rule);
    record::lemma_none(s1, delay, rule);
    record::lemma_prefix(s1, delay, 0, rule);
    lemma_messages(s2, wake, rule);
    record::lemma_concat(scene, a, delay);
    record::lemma_concat(scene, a + delay, b);
    assert(s2.run(b).rec.events =~= scene.rec.events + start_up_events(at, wake_cycles as nat));
    let cycles = at + wake_cycles as nat;
    let later = Record { hw: Hardware { cycles, ..scene.rec.hw }, ..scene.rec };
    if scene.rec.completed && sending::takes_bytes(scene.rec, rule) && sending::takes_bytes(
        later,
        rule,
    ) && (forall|other: Record, cycles: u32| #[trigger] rule(other, Action::Delay { cycles })) {
        assert(sending::beside(later, s2.rec));
        sending::lemma_takes(later, s2.rec, rule);
        record::lemma_by_concat(scene, a, delay, rule);
        record::lemma_by_concat(scene, a + delay, b, rule);
    }
}

/// The cycle of `event`.
pub open spec fn time_of(event: Event) -> nat {
    match event {
        Event::Command { code, at } => at,
        Event::Level { line, level, at } => at,
        Event::Kept { line, at } => at,
    }
}

/// Whether `event` is the command `code`.
pub open spec fn is_command(event: Event, code: u8) -> bool {
    event matches Event::Command { code: received, at } && received == code
}

/// Whether `event` sets `line` to `level`.
pub open spec fn is_level(event: Event, line: Line, level: Level) -> bool {
    event matches Event::Level { line: changed, level: new, at } && changed == line && new == level
}

/// From the cycle in which the panel receives "sleep out" to the one in which it
/// receives any later command of the start-up sequence, at least `wake_cycles`
/// pass; and "sleep out" is received.
pub proof fn the_panel_is_given_time_to_wake_up(scene: Scene, wake_cycles: u32)
    ensures
        ({
            let events = scene.run(init::init_ops(wake_cycles)).rec.events;
            let first = scene.rec.events.len();
            &&& exists|i: int|
                first <= i < events.len() && #[trigger] events[i] == (Event::Command {
                    code: 0x11,
                    at: scene.rec.hw.cycles,
                })
            &&& forall|i: int, j: int|
                first <= i < j < events.len() && is_command(#[trigger] events[i], 0x11)
                    ==> time_of(#[trigger] events[j]) >= time_of(events[i]) + wake_cycles
        }),
{
    start_up_sequence_timeline(scene, wake_cycles);
    let events = scene.run(init::init_ops(wake_cycles)).rec.events;
    let first = scene.rec.events.len() as int;
    let list = start_up_events(scene.rec.hw.cycles, wake_cycles as nat);
    assert(events[first + 12] == list[12]);
    assert forall|i: int, j: int|
        first <= i < j < events.len() && is_command(#[trigger] events[i], 0x11) implies time_of(
        #[trigger] events[j],
    ) >= time_of(events[i]) + wake_cycles by {
        assert(events[i] == list[i - first]);
        assert(events[j] == list[j - first]);
    }
}

/// The fewest whole cycles that take `ms` milliseconds at `hz` cycles a second.
pub open spec fn lasting(ms: nat, hz: u32) -> nat {
    (ms * hz as nat + 999) / 1000
}

/// Whether `pin` of the port at `base` is a high push-pull output of low speed
/// without a pull resistor.
pub open spec fn is_high_output(words: Map<u32, u32>, base: u32, pin: u8) -> bool {
    &&& registers::pair_of(words[base], pin) == 0b01
    &&& registers::bit_of(words[(base + 0x04) as u32], pin) == 0
    &&& registers::pair_of(words[(base + 0x08) as u32], pin) == 0b00
    &&& registers::pair_of(words[(base + 0x0C) as u32], pin) == 0b00
    &&& registers::bit_of(words[(base + 0x14) as u32], pin) == 1
}

/// Whether output type and level of `pin` of the port at `base` are the same in
/// both.
pub open spec fn same_level(
    before: Map<u32, u32>,
    after: Map<u32, u32>,
    base: u32,
    pin: u8,
) -> bool {
    let kind = (base + 0x04) as u32;
    let level = (base + 0x14) as u32;
    &&& registers::bit_of(after[kind], pin) == registers::bit_of(before[kind], pin)
    &&& registers::bit_of(after[level], pin) == registers::bit_of(before[level], pin)
}

/// Whether `addr` is one of the registers at `base` that make outputs.
pub open spec fn is_output_word(base: u32, addr: u32) -> bool {
    ||| addr == base
    ||| addr == base + 0x04
    ||| addr == base + 0x08
    ||| addr == base + 0x0C
    ||| addr == base + 0x14
}

/// Whether all that `after` has other than `before` is that `pin` of the port at
/// `base` is a high output.
pub open spec fn only_output(
    before: Map<u32, u32>,
    after: Map<u32, u32>,
    base: u32,
    pin: u8,
) -> bool {
    &&& is_high_output(after, base, pin)
    &&& forall|other: u8|
        other < 16 && other != pin ==> #[trigger] order::same_pin(before, after, base, other)
    &&& forall|other: u8|
        other < 16 && other != pin ==> #[trigger] same_level(before, after, base, other)
    &&& forall|addr: u32|
        !is_output_word(base, addr) ==> #[trigger] after[addr] == before[addr]
}

/// Register block of GPIO port B.
pub open spec fn port_b() -> u32 {
    0x4202_0400
}

proof fn lemma_only_output(before: Map<u32, u32>, after: Map<u32, u32>, line: Line)
    requires
        registers::became_output(before, after, line, Level::High, Speed::Low),
    ensures
        line == Line::Backlight ==> only_output(before, after, port_b(), 8),
        line == Line::Reset ==> only_output(before, after, order::port_e(), 11),
{
    assert forall|other: u8| line == Line::Backlight && other < 16 && other != 8 implies #[trigger] order::same_pin(
        before,
        after,
        port_b(),
        other,
    ) && same_level(before, after, port_b(), other) by {
        assert(registers::same_output(before, after, line, other));
    }
    assert forall|other: u8| line == Line::Reset && other < 16 && other != 11 implies #[trigger] order::same_pin(
        before,
        after,
        order::port_e(),
        other,
    ) && same_level(before, after, order::port_e(), other) by {
        assert(registers::same_output(before, after, line, other));
    }
    assert forall|other: u8| line == Line::Backlight && other < 16 && other != 8 implies #[trigger] same_level(
        before,
        after,
        port_b(),
        other,
    ) by {
        assert(order::same_pin(before, after, port_b(), other));
    }
    assert forall|other: u8| line == Line::Reset && other < 16 && other != 11 implies #[trigger] same_level(
        before,
        after,
        order::port_e(),
        other,
    ) by {
        assert(order::same_pin(before, after, order::port_e(), other));
    }
}

/// What the reset line sees of the reset pulse that starts in cycle `at`: high for
/// 100 ms, low for 100 ms, high from then on, and 120 ms later kept so.
pub open spec fn reset_events(at: nat, hclk_hz: u32) -> Seq<Event> {
    let low = at + lasting(100, hclk_hz);
    let released = low + lasting(100, hclk_hz);
    let ready = released + lasting(120, hclk_hz);
    seq![
        Event::Level { line: Line::Reset, level: Level::High, at },
        Event::Level { line: Line::Reset, level: Level::High, at },
        Event::Level { line: Line::Reset, level: Level::Low, at: low },
        Event::Level { line: Line::Reset, level: Level::High, at: released },
        Event::Kept { line: Line::Reset, at: ready },
    ]
}

/// The reset pulse, cycle by cycle: the panel is reset, `PE11` ends up a high output
/// that stays one, and nothing else is touched.
pub proof fn reset_pulse_timeline(scene: Scene, hclk_hz: u32)
    ensures
        ({
            let at = scene.rec.hw.cycles;
            let after = scene.run(builder::reset_ops(hclk_hz));
            let hw = after.rec.hw;
            &&& after.rec.events == scene.rec.events + reset_events(at, hclk_hz)
            &&& hw == (Hardware {
                words: hw.words,
                panel: scene.rec.hw.panel.reset(),
                lines: scene.rec.hw.lines.insert(Line::Reset, Level::High),
                kept: scene.rec.hw.kept.insert(Line::Reset),
                cycles: at + 2 * lasting(100, hclk_hz) + lasting(120, hclk_hz),
                ..scene.rec.hw
            })
            &&& only_output(scene.rec.hw.words, hw.words, order::port_e(), 11)
            &&& after == (Scene {
                rec: Record { hw, events: after.rec.events, ..scene.rec },
                ..scene
            })
        }),
{
    lemma_reset(scene, hclk_hz, |rec: Record, action: Action| true);
}

#[verifier::spinoff_prover]
#[verifier::rlimit(40)]
proof fn lemma_reset(scene: Scene, hclk_hz: u32, rule: spec_fn(Record, Action) -> bool)
    requires
        forall|rec: Record| #[trigger]
            rule(
                rec,
                Action::Output { line: Line::Reset, level: Level::High, speed: Speed::Low },
            ),
        forall|rec: Record, level: Level| #[trigger]
            rule(rec, Action::Drive { line: Line::Reset, level }),
        forall|rec: Record| #[trigger] rule(rec, Action::Keep { line: Line::Reset }),
        forall|rec: Record, cycles: u32| #[trigger] rule(rec, Action::Delay { cycles }),
    ensures
        ({
            let at = scene.rec.hw.cycles;
            let after = scene.run(builder::reset_ops(hclk_hz));
            let hw = after.rec.hw;
            &&& after.rec.events == scene.rec.events + reset_events(at, hclk_hz)
            &&& hw == (Hardware {
                words: hw.words,
                panel: scene.rec.hw.panel.reset(),
                lines: scene.rec.hw.lines.insert(Line::Reset, Level::High),
                kept: scene.rec.hw.kept.insert(Line::Reset),
                cycles: at + 2 * lasting(100, hclk_hz) + lasting(120, hclk_hz),
                ..scene.rec.hw
            })
            &&& only_output(scene.rec.hw.words, hw.words, order::port_e(), 11)
            &&& after == (Scene {
                rec: Record { hw, events: after.rec.events, ..scene.rec },
                ..scene
            })
            &&& scene.runs_by(builder::reset_ops(hclk_hz), rule)
        }),
{
    let ops = builder::reset_ops(hclk_hz);
    record::lemma_none(scene, ops, rule);
    record::lemma_prefix(scene, ops, 0, rule);
    record::lemma_prefix(scene, ops, 1, rule);
    record::lemma_prefix(scene, ops, 2, rule);
    record::lemma_prefix(scene, ops, 3, rule);
    record::lemma_prefix(scene, ops, 4, rule);
    record::lemma_prefix(scene, ops, 5, rule);
    record::lemma_prefix(scene, ops, 6, rule);
    record::lemma_prefix(scene, ops, 7, rule);
    bring_up::reset_pulse_holds_the_line_low(scene.board(), hclk_hz);
    record::lemma_board(scene, ops);
    let after = scene.run(ops);
    assert(after.rec.events =~= scene.rec.events + reset_events(scene.rec.hw.cycles, hclk_hz));
    lemma_only_output(scene.rec.hw.words, after.rec.hw.words, Line::Reset);
}

/// What the lines and the panel see of the whole bring-up that starts in cycle
/// `at`: the backlight on, the reset pulse, and 120 ms after the reset line was
/// released the start-up sequence with 120 ms for the panel to wake up.
pub open spec fn bring_up_events(at: nat, hclk_hz: u32) -> Seq<Event> {
    let ready = at + 2 * lasting(100, hclk_hz) + lasting(120, hclk_hz);
    seq![
        Event::Level { line: Line::Backlight, level: Level::High, at },
        Event::Level { line: Line::Backlight, level: Level::High, at },
    ] + reset_events(at, hclk_hz) + start_up_events(ready, lasting(120, hclk_hz))
}

/// Whether all that `after` has other than `before` is a panel that was brought up:
/// `PB8` and `PE11` are high outputs, the bus is set up and complete, and the panel
/// was reset and has its settings.
pub open spec fn only_brought_up(
    before: Record,
    after: Record,
    hclk_hz: u32,
    region: Option<u8>,
) -> bool {
    let old_words = before.hw.words;
    let words = after.hw.words;
    &&& after.events == before.events + bring_up_events(before.hw.cycles, hclk_hz)
    &&& is_set_up(before.hw.panel.reset(), after.hw.panel)
    &&& after.hw == (Hardware {
        words,
        clocks: before.hw.clocks | 1,
        panel: after.hw.panel,
        lines: before.hw.lines.insert(Line::Backlight, Level::High).insert(
            Line::Reset,
            Level::High,
        ),
        kept: before.hw.kept.insert(Line::Reset),
        cycles: before.hw.cycles + 2 * lasting(100, hclk_hz) + 2 * lasting(120, hclk_hz),
    })
    &&& after == (Record {
        hw: after.hw,
        events: after.events,
        bytes: after.bytes,
        regions: after.regions,
        completed: true,
        flushed: after.flushed,
        clock_pending: false,
        mpu_pending: false,
    })
    &&& is_high_output(words, port_b(), 8)
    &&& is_high_output(words, order::port_e(), 11)
    &&& forall|pin: u8|
        pin < 16 && pin != 8 ==> #[trigger] order::same_pin(old_words, words, port_b(), pin)
    &&& forall|pin: u8|
        pin < 16 && pin != 8 ==> #[trigger] same_level(old_words, words, port_b(), pin)
    &&& forall|pin: u8|
        pin < 16 && pin != 11 ==> #[trigger] same_level(old_words, words, order::port_e(), pin)
    &&& forall|pin: u8|
        pin < 16 && pin != 11 ==> #[trigger] order::on_bus_if_wired(
            old_words,
            words,
            order::port_e(),
            pin,
        )
    &&& forall|pin: u8|
        pin < 16 ==> #[trigger] order::on_bus_if_wired(old_words, words, order::port_d(), pin)
    &&& words[0x420D_0400] & 1 == 1
    &&& (words[0x420D_0400] >> 4) & 0b11 == 0b01
    &&& words[0x420D_0400] & !0x31 == old_words[0x420D_0400] & !0x31
    &&& match region {
        Some(number) => {
            &&& order::region_is_device(after, number)
            &&& forall|other: u32|
                other != number ==> #[trigger] after.regions[other] == before.regions[other]
            &&& words[0xE000_EDC0] & 0x00FF_FFFF == old_words[0xE000_EDC0] & 0x00FF_FFFF
            &&& words[0xE000_ED94] >> 1 == old_words[0xE000_ED94] >> 1
        },
        None => {
            &&& after.regions == before.regions
            &&& forall|addr: u32|
                order::is_mpu_word(addr) ==> #[trigger] words[addr] == old_words[addr]
        },
    }
    &&& forall|addr: u32|
        !is_output_word(port_b(), addr) && !is_output_word(order::port_e(), addr)
            && !order::is_pin_register(order::port_d(), addr) && !order::is_pin_register(
            order::port_e(),
            addr,
        ) && addr != 0x420D_0400 && !order::is_mpu_word(addr) ==> #[trigger] words[addr]
            == old_words[addr]
}

proof fn lemma_light(scene: Scene, region: Option<u8>)
    ensures
        ({
            let at = scene.rec.hw.cycles;
            let after = scene.run(builder::backlight_ops());
            let hw = after.rec.hw;
            &&& after.rec.events == scene.rec.events + seq![
                Event::Level { line: Line::Backlight, level: Level::High, at },
                Event::Level { line: Line::Backlight, level: Level::High, at },
            ]
            &&& hw == (Hardware {
                words: hw.words,
                lines: scene.rec.hw.lines.insert(Line::Backlight, Level::High),
                ..scene.rec.hw
            })
            &&& only_output(scene.rec.hw.words, hw.words, port_b(), 8)
            &&& after == (Scene {
                rec: Record { hw, events: after.rec.events, ..scene.rec },
                ..scene
            })
            &&& scene.runs_by(builder::backlight_ops(), order::rule_for(region))
        }),
{
    let rule = order::rule_for(region);
    let ops = builder::backlight_ops();
    record::lemma_none(scene, ops, rule);
    record::lemma_prefix(scene, ops, 0, rule);
    record::lemma_prefix(scene, ops, 1, rule);
    let hw = scene.rec.hw;
    let after = scene.run(ops).rec;
    registers::output_changes_only_its_pin(hw, Line::Backlight, Level::High, Speed::Low);
    registers::drive_changes_only_the_level(
        hw.words,
        scene.run(ops.take(1)).rec.hw,
        Line::Backlight,
        Level::High,
        Level::High,
        Speed::Low,
    );
    lemma_only_output(hw.words, after.hw.words, Line::Backlight);
    assert(after.hw.lines =~= hw.lines.insert(Line::Backlight, Level::High));
    assert(after.events =~= scene.rec.events + seq![
        Event::Level { line: Line::Backlight, level: Level::High, at: hw.cycles },
        Event::Level { line: Line::Backlight, level: Level::High, at: hw.cycles },
    ]);
}

proof fn lemma_ready_takes_bytes(rec: Record, region: Option<u8>)
    requires
        order::bus_ready(rec, region),
    ensures
        sending::takes_bytes(rec, order::rule_for(region)),
{
    let rule = order::rule_for(region);
    assert forall|other: Record, addr: u32, value: u16|
        sending::beside(rec, other) && other.completed && (addr == 0x6000_0000 || addr
            == 0x6020_0000) && value < 256 implies #[trigger] rule(
        other,
        Action::WriteHalfword { addr, value },
    ) by {
        assert(order::bus_ready(other, region));
    }
}

/// The bring-up, for every frequency and region. Each of its steps comes when it
/// may, as [`order::permitted`] says: above all, no byte is stored to the FMC bank
/// before the bus is ready and the panel out of reset. And it does exactly what
/// [`only_brought_up`] says.
#[verifier::spinoff_prover]
#[verifier::rlimit(40)]
pub proof fn bring_up_keeps_the_order(scene: Scene, hclk_hz: u32, region: Option<u8>)
    ensures
        scene.runs_by(
            builder::bring_up_ops(hclk_hz, region),
            |rec: Record, action: Action| order::permitted(rec, action, region),
        ),
        only_brought_up(
            scene.rec,
            scene.run(builder::bring_up_ops(hclk_hz, region)).rec,
            hclk_hz,
            region,
        ),
{
    let rule = order::rule_for(region);
    let wake = lasting(120, hclk_hz) as u32;
    let light = builder::backlight_ops();
    let reset = builder::reset_ops(hclk_hz);
    let bank = fmc::fmc_ops(region);
    let start = init::init_ops(wake);
    let s1 = scene.run(light);
    let s2 = s1.run(reset);
    let s3 = s2.run(bank);
    let s4 = s3.run(start);
    assert(builder::bring_up_ops(hclk_hz, region) =~= light + reset + bank + start);
    lemma_light(scene, region);
    lemma_reset(s1, hclk_hz, rule);
    order::configure_fmc_bus_keeps_the_order(s2, region);
    assert(rule =~= (|rec: Record, action: Action| order::permitted(rec, action, region)));
    let w0 = scene.rec.hw.words;
    let w1 = s1.rec.hw.words;
    let w2 = s2.rec.hw.words;
    let w3 = s3.rec.hw.words;
    order::lemma_ready_from_wired(w2, w3);
    assert(order::on_bus_if_wired(w2, w3, order::port_e(), 11));
    let clocks = scene.rec.hw.clocks;
    assert((clocks | 1) & 1 == 1) by (bit_vector);
    assert(order::bus_ready(s3.rec, region));
    lemma_ready_takes_bytes(s3.rec, region);
    let cycles = s3.rec.hw.cycles + wake as nat;
    let later = Record { hw: Hardware { cycles, ..s3.rec.hw }, ..s3.rec };
    assert(order::bus_ready(later, region));
    lemma_ready_takes_bytes(later, region);
    lemma_start_up(s3, wake, rule);
    start_up_sequence_timeline(s3, wake);
    record::lemma_concat(scene, light, reset);
    record::lemma_concat(scene, light + reset, bank);
    record::lemma_concat(scene, light + reset + bank, start);
    record::lemma_by_concat(scene, light, reset, rule);
    record::lemma_by_concat(scene, light + reset, bank, rule);
    record::lemma_by_concat(scene, light + reset + bank, start, rule);
    assert(s4.rec.events =~= scene.rec.events + bring_up_events(scene.rec.hw.cycles, hclk_hz));
    lemma_words(w0, w1, w2, w3);
}

/// The registers after backlight, reset line and bus.
proof fn lemma_words(
    w0: Map<u32, u32>,
    w1: Map<u32, u32>,
    w2: Map<u32, u32>,
    w3: Map<u32, u32>,
)
    requires
        only_output(w0, w1, port_b(), 8),
        only_output(w1, w2, order::port_e(), 11),
        forall|pin: u8|
            pin < 16 ==> #[trigger] order::on_bus_if_wired(w2, w3, order::port_d(), pin),
        forall|pin: u8|
            pin < 16 ==> #[trigger] order::on_bus_if_wired(w2, w3, order::port_e(), pin),
        forall|addr: u32|
            !order::is_pin_register(order::port_d(), addr) && !order::is_pin_register(
                order::port_e(),
                addr,
            ) && addr != 0x420D_0400 && !order::is_mpu_word(addr) ==> #[trigger] w3[addr]
                == w2[addr],
    ensures
        is_high_output(w3, port_b(), 8),
        is_high_output(w3, order::port_e(), 11),
        forall|pin: u8|
            pin < 16 && pin != 8 ==> #[trigger] order::same_pin(w0, w3, port_b(), pin),
        forall|pin: u8| pin < 16 && pin != 8 ==> #[trigger] same_level(w0, w3, port_b(), pin),
        forall|pin: u8|
            pin < 16 && pin != 11 ==> #[trigger] same_level(w0, w3, order::port_e(), pin),
        forall|pin: u8|
            pin < 16 && pin != 11 ==> #[trigger] order::on_bus_if_wired(
                w0,
                w3,
                order::port_e(),
                pin,
            ),
        forall|pin: u8|
            pin < 16 ==> #[trigger] order::on_bus_if_wired(w0, w3, order::port_d(), pin),
{
    assert(order::on_bus_if_wired(w2, w3, order::port_e(), 11));
    assert forall|pin: u8| pin < 16 && pin != 8 implies #[trigger] order::same_pin(
        w0,
        w3,
        port_b(),
        pin,
    ) by {
        assert(order::same_pin(w0, w1, port_b(), pin));
    }
    assert forall|pin: u8| pin < 16 && pin != 8 implies #[trigger] same_level(
        w0,
        w3,
        port_b(),
        pin,
    ) by {
        assert(same_level(w0, w1, port_b(), pin));
    }
    assert forall|pin: u8| pin < 16 && pin != 11 implies #[trigger] same_level(
        w0,
        w3,
        order::port_e(),
        pin,
    ) by {
        assert(same_level(w1, w2, order::port_e(), pin));
    }
    assert forall|pin: u8| pin < 16 && pin != 11 implies #[trigger] order::on_bus_if_wired(
        w0,
        w3,
        order::port_e(),
        pin,
    ) by {
        assert(order::same_pin(w1, w2, order::port_e(), pin));
        assert(order::on_bus_if_wired(w2, w3, order::port_e(), pin));
    }
    assert forall|pin: u8| pin < 16 implies #[trigger] order::on_bus_if_wired(
        w0,
        w3,
        order::port_d(),
        pin,
    ) by {
        assert(order::on_bus_if_wired(w2, w3, order::port_d(), pin));
    }
}

/// A new display, with every action performed as it is handed out: each action
/// comes when it may, and the panel is brought up.
pub proof fn a_new_display_is_brought_up_in_order(
    rec: Record,
    hclk_hz: u32,
    region: Option<u8>,
    word: u32,
)
    ensures
        ({
            let queue = QueueState::idle().followed_by(builder::bring_up_ops(hclk_hz, region));
            &&& rec.drains_by(
                queue,
                word,
                |rec: Record, action: Action| order::permitted(rec, action, region),
            )
            &&& only_brought_up(rec, rec.drained(queue, word), hclk_hz, region)
        }),
{
    let ops = builder::bring_up_ops(hclk_hz, region);
    let queue = QueueState::idle().followed_by(ops);
    let scene = Scene { rec, latches: queue.latched(word) };
    let rule = |rec: Record, action: Action| order::permitted(rec, action, region);
    assert(queue.ops =~= ops);
    bring_up_keeps_the_order(scene, hclk_hz, region);
    stepping::draining_records_what_running_does(rec, queue, word, rule);
}

/// In the bring-up at least 100 ms pass while the reset line is low, at least 120 ms
/// from its release to the first command, and at least 120 ms from "sleep out" to
/// the command after it, at `hclk_hz` cycles a second.
pub proof fn bring_up_waits_long_enough(scene: Scene, hclk_hz: u32, region: Option<u8>)
    ensures
        ({
            let first = scene.rec.events.len() as int;
            let events = scene.run(builder::bring_up_ops(hclk_hz, region)).rec.events;
            forall|i: int, j: int|
                first <= i < j < events.len() ==> {
                    let passed = time_of(#[trigger] events[j]) - time_of(#[trigger] events[i]);
                    &&& passed >= 0
                    &&& is_level(events[i], Line::Reset, Level::Low) ==> 1000 * passed >= 100
                        * hclk_hz
                    &&& is_level(events[i], Line::Reset, Level::Low) && events[j] is Command
                        ==> 1000 * passed >= 220 * hclk_hz
                    &&& events[i] is Level && events[j] is Command ==> 1000 * passed >= 120
                        * hclk_hz
                    &&& is_command(events[i], 0x11) ==> 1000 * passed >= 120 * hclk_hz
                }
        }),
{
    bring_up_keeps_the_order(scene, hclk_hz, region);
    let first = scene.rec.events.len() as int;
    let list = bring_up_events(scene.rec.hw.cycles, hclk_hz);
    let events = scene.run(builder::bring_up_ops(hclk_hz, region)).rec.events;
    assert forall|i: int, j: int| first <= i < j < events.len() implies {
        let passed = time_of(#[trigger] events[j]) - time_of(#[trigger] events[i]);
        &&& passed >= 0
        &&& is_level(events[i], Line::Reset, Level::Low) ==> 1000 * passed >= 100 * hclk_hz
        &&& is_level(events[i], Line::Reset, Level::Low) && events[j] is Command ==> 1000 * passed
            >= 220 * hclk_hz
        &&& events[i] is Level && events[j] is Command ==> 1000 * passed >= 120 * hclk_hz
        &&& is_command(events[i], 0x11) ==> 1000 * passed >= 120 * hclk_hz
    } by {
        assert(events[i] == list[i - first]);
        assert(events[j] == list[j - first]);
    }
}

} // verus!
