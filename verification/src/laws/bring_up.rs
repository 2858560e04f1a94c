//! What the bring-up leaves behind.

use crate::builder;
use crate::bus;
use crate::color::Rgb565;
use crate::display;
use crate::display::RAMWR;
use crate::fmc;
use crate::fmc::FMC_AF;
use crate::gpio;
use crate::gpio::{GpioPort, MODER};
use crate::init;
use crate::init::Message;
use crate::laws::drawing;
use crate::laws::registers;
use crate::laws::stepping;
use crate::model;
use crate::model::{Board, Hardware, Panel};
use crate::ops;
use crate::ops::{Level, Line, Op, Speed};
use crate::queue::QueueState;
use vstd::prelude::*;

verus! {

/// Whether no command occurs twice in `messages`, and none is `RAMWR`.
pub open spec fn are_settings(messages: Seq<Message>) -> bool {
    &&& forall|i: int, j: int|
        0 <= i < j < messages.len() ==> (#[trigger] messages[i]).code != (
        #[trigger] messages[j]).code
    &&& forall|i: int| 0 <= i < messages.len() ==> (#[trigger] messages[i]).code != RAMWR
}

/// Whether the panel has got each of `messages` with its parameters.
pub open spec fn has_settings(panel: Panel, messages: Seq<Message>) -> bool {
    forall|i: int|
        0 <= i < messages.len() ==> panel.params[(#[trigger] messages[i]).code]
            == messages[i].params
}

/// Whether `code` is the command of one of `messages`.
pub open spec fn is_set(messages: Seq<Message>, code: u8) -> bool {
    exists|i: int| 0 <= i < messages.len() && (#[trigger] messages[i]).code == code
}

/// Messages give the panel each command's parameters, change those of no other
/// command, leave the picture alone, and touch nothing but the panel.
pub proof fn messages_set_the_panel_up(board: Board, messages: Seq<Message>)
    requires
        are_settings(messages),
    ensures
        ({
            let after = board.run(init::messages_ops(messages));
            &&& after == board.with_panel(after.hw.panel)
            &&& has_settings(after.hw.panel, messages)
            &&& forall|code: u8|
                !is_set(messages, code) ==> #[trigger] after.hw.panel.params[code]
                    == board.hw.panel.params[code]
            &&& forall|code: u8|
                #[trigger] after.hw.panel.params.contains_key(code) <==> is_set(messages, code)
                    || board.hw.panel.params.contains_key(code)
            &&& after.hw.panel.frame == board.hw.panel.frame
        }),
    decreases messages.len(),
{
    if messages.len() > 0 {
        let most = messages.drop_last();
        let last = messages.last();
        assert forall|i: int, j: int| 0 <= i < j < most.len() implies (#[trigger] most[i]).code != (
        #[trigger] most[j]).code by {
            assert(most[i] == messages[i] && most[j] == messages[j]);
        }
        assert forall|i: int| 0 <= i < most.len() implies (#[trigger] most[i]).code != RAMWR by {
            assert(most[i] == messages[i]);
        }
        messages_set_the_panel_up(board, most);
        let before = board.run(init::messages_ops(most));
        let after = board.run(init::messages_ops(messages));
        assert(messages[messages.len() - 1] == last);
        model::lemma_run_concat(board, init::messages_ops(most), init::message_ops(last));
        drawing::lemma_run_message(before, last.code, last.params);
        assert forall|i: int| 0 <= i < messages.len() implies after.hw.panel.params[(
        #[trigger] messages[i]).code] == messages[i].params by {
            if i < most.len() {
                assert(most[i] == messages[i]);
            }
        }
        assert forall|code: u8| !is_set(messages, code) implies #[trigger] after.hw.panel.params[code]
            == board.hw.panel.params[code] by {
            if is_set(most, code) {
                let i = choose|i: int| 0 <= i < most.len() && (#[trigger] most[i]).code == code;
                assert(messages[i].code == code);
            }
        }
        assert forall|code: u8| #[trigger] after.hw.panel.params.contains_key(code) <==> is_set(
            messages,
            code,
        ) || board.hw.panel.params.contains_key(code) by {
            if is_set(most, code) {
                let i = choose|i: int| 0 <= i < most.len() && (#[trigger] most[i]).code == code;
                assert(messages[i].code == code);
            }
            if is_set(messages, code) && code != last.code {
                let i = choose|i: int|
                    0 <= i < messages.len() && (#[trigger] messages[i]).code == code;
                assert(most[i].code == code);
            }
        }
    }
}

/// The start-up sequence gives the panel all its settings, waits
/// `wake_cycles` in between, sends no `RAMWR` and leaves the picture alone, and
/// touches nothing else.
pub proof fn init_sequence_sets_the_panel_up(board: Board, wake_cycles: u32)
    ensures
        ({
            let after = board.run(init::init_ops(wake_cycles));
            &&& has_settings(after.hw.panel, init::setup_messages())
            &&& has_settings(after.hw.panel, init::wake_messages())
            &&& after.hw.panel.params.contains_key(RAMWR)
                == board.hw.panel.params.contains_key(RAMWR)
            &&& after.hw.panel.frame == board.hw.panel.frame
            &&& after.hw == (Hardware {
                panel: after.hw.panel,
                cycles: board.hw.cycles + wake_cycles as nat,
                ..board.hw
            })
            &&& after.latches == board.latches
        }),
{
    let setup = init::setup_messages();
    let wake = init::wake_messages();
    let delay = Op::Delay { cycles: wake_cycles };
    let b1 = board.run(init::messages_ops(setup));
    let b2 = b1.step(delay);
    let b3 = b2.run(init::messages_ops(wake));
    model::lemma_run_concat(
        board,
        init::messages_ops(setup) + seq![delay],
        init::messages_ops(wake),
    );
    model::lemma_run_concat(board, init::messages_ops(setup), seq![delay]);
    model::lemma_run_one(b1, delay);
    messages_set_the_panel_up(board, setup);
    messages_set_the_panel_up(b2, wake);
    assert forall|i: int| 0 <= i < setup.len() implies b3.hw.panel.params[(
    #[trigger] setup[i]).code] == setup[i].params by {
        assert(!is_set(wake, setup[i].code));
    }
}

/// The reset pulse: the line is high, then held low for 100 ms, then high for
/// 120 ms and from then on, as an output that stays one. The panel is reset; of the
/// registers only the line's pin changes, and nothing else is touched.
pub proof fn reset_pulse_holds_the_line_low(board: Board, hclk_hz: u32)
    ensures
        ({
            let list = builder::reset_ops(hclk_hz);
            let lowered = board.run(list.take(4)).hw;
            let waited = board.run(list.take(5)).hw;
            let raised = board.run(list.take(6)).hw;
            let after = board.run(list);
            &&& board.run(list.take(3)).hw.lines[Line::Reset] == Level::High
            &&& lowered.lines[Line::Reset] == Level::Low
            &&& waited.lines[Line::Reset] == Level::Low
            &&& waited.cycles - lowered.cycles == builder::wait_cycles(100, hclk_hz)
            &&& raised.lines[Line::Reset] == Level::High
            &&& raised.cycles == waited.cycles
            &&& registers::became_output(
                board.hw.words,
                after.hw.words,
                Line::Reset,
                Level::High,
                Speed::Low,
            )
            &&& after.hw == (Hardware {
                words: after.hw.words,
                panel: board.hw.panel.reset(),
                lines: board.hw.lines.insert(Line::Reset, Level::High),
                kept: board.hw.kept.insert(Line::Reset),
                cycles: board.hw.cycles + 2 * builder::wait_cycles(100, hclk_hz)
                    + builder::wait_cycles(120, hclk_hz),
                ..board.hw
            })
            &&& after.latches == board.latches
        }),
{
    let list = builder::reset_ops(hclk_hz);
    assert(list.take(0) =~= Seq::<Op>::empty());
    assert(list.take(8) =~= list);
    model::lemma_run_prefix(board, list, 0);
    model::lemma_run_prefix(board, list, 1);
    model::lemma_run_prefix(board, list, 2);
    model::lemma_run_prefix(board, list, 3);
    model::lemma_run_prefix(board, list, 4);
    model::lemma_run_prefix(board, list, 5);
    model::lemma_run_prefix(board, list, 6);
    model::lemma_run_prefix(board, list, 7);
    assert(board.run(list).hw.lines =~= board.hw.lines.insert(Line::Reset, Level::High));

    let words = board.hw.words;
    let started = board.run(list.take(1)).hw;
    let driven = board.run(list.take(3)).hw;
    let lowered = board.run(list.take(5)).hw;
    registers::output_changes_only_its_pin(board.hw, Line::Reset, Level::High, Speed::Low);
    registers::drive_changes_only_the_level(
        words,
        started,
        Line::Reset,
        Level::High,
        Level::High,
        Speed::Low,
    );
    registers::drive_changes_only_the_level(
        words,
        driven,
        Line::Reset,
        Level::High,
        Level::Low,
        Speed::Low,
    );
    registers::drive_changes_only_the_level(
        words,
        lowered,
        Line::Reset,
        Level::Low,
        Level::High,
        Speed::Low,
    );
}

/// The cycles that a wait of `ms` milliseconds is given last that long at
/// `hclk_hz`, and with one cycle less they would not.
pub proof fn delays_last_as_long_as_they_say(hclk_hz: u32, ms: nat)
    ensures
        ({
            let cycles = builder::wait_cycles(ms, hclk_hz);
            ms * hclk_hz <= 1000 * cycles < ms * hclk_hz + 1000
        }),
{
}

/// After the bring-up the backlight is on and the panel is out of reset for good:
/// `PB8` and `PE11` are outputs, and high. Beyond that the registers differ only by
/// the set-up of the bus. The panel was reset and has all its settings since; no
/// `RAMWR` was sent, so its picture is whatever the reset left.
pub proof fn bring_up_leaves_the_panel_ready(
    board: Board,
    hclk_hz: u32,
    mpu_ns_region: Option<u8>,
)
    ensures
        ({
            let lit = board.run(builder::backlight_ops()).hw;
            let released = board.run(builder::backlight_ops() + builder::reset_ops(hclk_hz)).hw;
            let after = board.run(builder::bring_up_ops(hclk_hz, mpu_ns_region)).hw;
            &&& registers::became_output(
                board.hw.words,
                lit.words,
                Line::Backlight,
                Level::High,
                Speed::Low,
            )
            &&& registers::became_output(
                lit.words,
                released.words,
                Line::Reset,
                Level::High,
                Speed::Low,
            )
            &&& registers::bank_is_ready(released.words, after.words, mpu_ns_region)
            &&& registers::is_output(after.words, Line::Backlight, Level::High, Speed::Low)
            &&& registers::is_output(after.words, Line::Reset, Level::High, Speed::Low)
            &&& registers::pair_of(after.words[GpioPort::E.reg(MODER)], 11) == 0b01
            &&& after.lines[Line::Backlight] == Level::High
            &&& after.lines[Line::Reset] == Level::High
            &&& after.kept == board.hw.kept.insert(Line::Reset)
            &&& after.clocks == ops::clocks_with_fsmc(board.hw.clocks)
            &&& has_settings(after.panel, init::setup_messages())
            &&& has_settings(after.panel, init::wake_messages())
            &&& !after.panel.params.contains_key(RAMWR)
            &&& after.panel.frame == board.hw.panel.reset().frame
            &&& after.cycles == board.hw.cycles + 2 * builder::wait_cycles(100, hclk_hz) + 2
                * builder::wait_cycles(120, hclk_hz)
        }),
{
    let wake_cycles = builder::wait_cycles(120, hclk_hz) as u32;
    let light = builder::backlight_ops();
    let reset = builder::reset_ops(hclk_hz);
    let bank = fmc::fmc_ops(mpu_ns_region);
    let start = init::init_ops(wake_cycles);
    model::lemma_run_concat(board, light + reset + bank, start);
    model::lemma_run_concat(board, light + reset, bank);
    model::lemma_run_concat(board, light, reset);
    assert(light.take(0) =~= Seq::<Op>::empty());
    assert(light.take(2) =~= light);
    model::lemma_run_prefix(board, light, 0);
    model::lemma_run_prefix(board, light, 1);
    let b1 = board.run(light);
    registers::output_changes_only_its_pin(board.hw, Line::Backlight, Level::High, Speed::Low);
    registers::drive_changes_only_the_level(
        board.hw.words,
        board.run(light.take(1)).hw,
        Line::Backlight,
        Level::High,
        Level::High,
        Speed::Low,
    );
    let b2 = b1.run(reset);
    reset_pulse_holds_the_line_low(b1, hclk_hz);
    let b3 = b2.run(bank);
    registers::configure_fmc_bus_sets_up_the_bank(b2, mpu_ns_region);
    init_sequence_sets_the_panel_up(b3, wake_cycles);
    assert(registers::routed_if_listed(
        b2.hw.words,
        b3.hw.words,
        GpioPort::E,
        fmc::port_e_pins(),
        11,
        FMC_AF,
    ));
}

/// A display that was brought up and then cleared, with every action performed as
/// it is handed out, shows the colour in every cell of the panel; the backlight is
/// on and the panel out of reset.
pub proof fn a_new_display_can_be_cleared(
    hw: Hardware,
    hclk_hz: u32,
    mpu_ns_region: Option<u8>,
    color: Rgb565,
)
    ensures
        ({
            let queue = QueueState::idle().followed_by(
                builder::bring_up_ops(hclk_hz, mpu_ns_region),
            ).followed_by(display::clear_ops(color));
            let after = hw.drained(queue, 0);
            &&& forall|x: int, y: int|
                drawing::on_panel((x, y)) ==> #[trigger] after.panel.frame.contains_pair(
                    (x, y),
                    color.packed(),
                )
            &&& after.lines[Line::Backlight] == Level::High
            &&& after.lines[Line::Reset] == Level::High
        }),
{
    let up = builder::bring_up_ops(hclk_hz, mpu_ns_region);
    let clear = display::clear_ops(color);
    let queue = QueueState::idle().followed_by(up).followed_by(clear);
    let board = Board { hw, latches: queue.latched(0) };
    assert(queue.ops =~= up + clear);
    stepping::draining_is_running(hw, queue, 0);
    model::lemma_run_concat(board, up, clear);
    bring_up_leaves_the_panel_ready(board, hclk_hz, mpu_ns_region);
    drawing::clear_paints_the_panel(board.run(up), color);
}

/// The register address that `op` loads from or stores to, if it does.
pub open spec fn register_of(op: Op) -> Option<u32> {
    match op {
        Op::Load { addr, latch } => Some(addr),
        Op::Store { addr, latch, keep, set } => Some(addr),
        Op::Put { addr, value } => Some(addr),
        _ => None,
    }
}

/// Whether none of `ops` reads or writes an MPU register.
pub open spec fn leaves_the_mpu_alone(ops: Seq<Op>) -> bool {
    forall|i: int|
        0 <= i < ops.len() ==> (register_of(#[trigger] ops[i]) matches Some(addr)
            ==> !registers::is_mpu_register(addr))
}

proof fn lemma_alone_concat(first: Seq<Op>, second: Seq<Op>)
    requires
        leaves_the_mpu_alone(first),
        leaves_the_mpu_alone(second),
    ensures
        leaves_the_mpu_alone(first + second),
{
    let both = first + second;
    assert forall|i: int| 0 <= i < both.len() implies (register_of(#[trigger] both[i]) matches Some(
        addr,
    ) ==> !registers::is_mpu_register(addr)) by {
        if i < first.len() {
            assert(both[i] == first[i]);
        } else {
            assert(both[i] == second[i - first.len()]);
        }
    }
}

proof fn lemma_alone_pins(port: GpioPort, pins: Seq<u8>, af: u8)
    ensures
        leaves_the_mpu_alone(gpio::af_ops(port, pins, af)),
    decreases pins.len(),
{
    if pins.len() > 0 {
        lemma_alone_pins(port, pins.drop_last(), af);
        lemma_alone_concat(
            gpio::af_ops(port, pins.drop_last(), af),
            gpio::pin_ops(port, pins.last(), af),
        );
    }
}

proof fn lemma_alone_slice(bytes: Seq<u8>)
    ensures
        leaves_the_mpu_alone(bus::slice_ops(bytes)),
    decreases bytes.len(),
{
    if bytes.len() > 0 {
        lemma_alone_slice(bytes.drop_last());
        lemma_alone_concat(bus::slice_ops(bytes.drop_last()), bus::data_ops(bytes.last()));
    }
}

proof fn lemma_alone_messages(messages: Seq<Message>)
    ensures
        leaves_the_mpu_alone(init::messages_ops(messages)),
    decreases messages.len(),
{
    if messages.len() > 0 {
        let last = messages.last();
        lemma_alone_messages(messages.drop_last());
        lemma_alone_slice(last.params);
        lemma_alone_concat(bus::cmd_ops(last.code), bus::slice_ops(last.params));
        lemma_alone_concat(init::messages_ops(messages.drop_last()), init::message_ops(last));
    }
}

/// Without an MPU region the bring-up skips the MPU entirely: it neither reads nor
/// writes any of its registers.
pub proof fn without_a_region_the_mpu_is_left_alone(hclk_hz: u32)
    ensures
        leaves_the_mpu_alone(builder::bring_up_ops(hclk_hz, None)),
{
    let wake_cycles = builder::wait_cycles(120, hclk_hz) as u32;
    let light = builder::backlight_ops();
    let reset = builder::reset_ops(hclk_hz);
    let clock = seq![Op::LoadClocks, Op::StoreClocks, Op::Dsb];
    let d = gpio::af_ops(GpioPort::D, fmc::port_d_pins(), FMC_AF);
    let e = gpio::af_ops(GpioPort::E, fmc::port_e_pins(), FMC_AF);
    let barriers = seq![Op::Dsb, Op::Isb];
    let widen = fmc::widen_ops();
    lemma_alone_pins(GpioPort::D, fmc::port_d_pins(), FMC_AF);
    lemma_alone_pins(GpioPort::E, fmc::port_e_pins(), FMC_AF);
    lemma_alone_concat(clock, d);
    lemma_alone_concat(clock + d, e);
    lemma_alone_concat(clock + d + e, barriers);
    lemma_alone_concat(clock + d + e + barriers, widen);
    lemma_alone_concat(clock + d + e + barriers + widen, Seq::empty());

    let setup = init::messages_ops(init::setup_messages());
    let delay = seq![Op::Delay { cycles: wake_cycles }];
    let wake = init::messages_ops(init::wake_messages());
    lemma_alone_messages(init::setup_messages());
    lemma_alone_messages(init::wake_messages());
    lemma_alone_concat(setup, delay);
    lemma_alone_concat(setup + delay, wake);

    lemma_alone_concat(light, reset);
    lemma_alone_concat(light + reset, fmc::fmc_ops(None));
    lemma_alone_concat(light + reset + fmc::fmc_ops(None), init::init_ops(wake_cycles));
}

} // verus!
