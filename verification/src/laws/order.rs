//! What each step of the bring-up may count on: in which order the registers, the
//! lines and the panel are touched.

use crate::fmc;
use crate::fmc::FMC_AF;
use crate::gpio;
use crate::gpio::GpioPort;
use crate::laws::registers;
use crate::model::Hardware;
use crate::ops::{Action, Level, Line, Op, Speed};
use crate::record;
use crate::record::{Record, Scene};
use vstd::prelude::*;

verus! {

/// Register block of GPIO port D.
pub open spec fn port_d() -> u32 {
    0x4202_0C00
}

/// Register block of GPIO port E.
pub open spec fn port_e() -> u32 {
    0x4202_1000
}

/// Whether the pin of the port at `base` is wired to the panel's bus: PD0, PD1,
/// PD4, PD5, PD7, PD14, PD15, PE4 and PE7 to PE10.
pub open spec fn is_bus_pin(base: u32, pin: u8) -> bool {
    ||| base == port_d() && (pin == 0 || pin == 1 || pin == 4 || pin == 5 || pin == 7 || pin == 14
        || pin == 15)
    ||| base == port_e() && (pin == 4 || pin == 7 || pin == 8 || pin == 9 || pin == 10)
}

/// Address of the alternate function register of `pin` of the port at `base`.
pub open spec fn function_register(base: u32, pin: u8) -> u32 {
    if pin < 8 {
        (base + 0x20) as u32
    } else {
        (base + 0x24) as u32
    }
}

/// Whether `pin` of the port at `base` is on alternate function `af`: mode
/// "alternate function", very high speed, no pull resistor, the low four bits of
/// `af` for its number.
pub open spec fn on_function(words: Map<u32, u32>, base: u32, pin: u8, af: u8) -> bool {
    &&& registers::pair_of(words[base], pin) == 0b10
    &&& registers::pair_of(words[(base + 0x08) as u32], pin) == 0b11
    &&& registers::pair_of(words[(base + 0x0C) as u32], pin) == 0b00
    &&& registers::nibble_of(words[function_register(base, pin)], pin) == af % 16
}

/// Whether `pin` of the port at `base` carries its FMC signal, on function 12.
pub open spec fn on_bus(words: Map<u32, u32>, base: u32, pin: u8) -> bool {
    on_function(words, base, pin, 12)
}

/// Whether mode, speed, pull resistor and function of `pin` of the port at `base`
/// are the same in both.
pub open spec fn same_pin(before: Map<u32, u32>, after: Map<u32, u32>, base: u32, pin: u8) -> bool {
    let speed = (base + 0x08) as u32;
    let pull = (base + 0x0C) as u32;
    let function = function_register(base, pin);
    &&& registers::pair_of(after[base], pin) == registers::pair_of(before[base], pin)
    &&& registers::pair_of(after[speed], pin) == registers::pair_of(before[speed], pin)
    &&& registers::pair_of(after[pull], pin) == registers::pair_of(before[pull], pin)
    &&& registers::nibble_of(after[function], pin) == registers::nibble_of(before[function], pin)
}

/// Whether `pin` of the port at `base` is wired to the bus and carries its signal,
/// or is not and is as it was.
pub open spec fn on_bus_if_wired(
    before: Map<u32, u32>,
    after: Map<u32, u32>,
    base: u32,
    pin: u8,
) -> bool {
    if is_bus_pin(base, pin) {
        on_bus(after, base, pin)
    } else {
        same_pin(before, after, base, pin)
    }
}

/// Whether `addr` is one of the registers at `base` that say where pins go.
pub open spec fn is_pin_register(base: u32, addr: u32) -> bool {
    ||| addr == base
    ||| addr == base + 0x08
    ||| addr == base + 0x0C
    ||| addr == base + 0x20
    ||| addr == base + 0x24
}

/// Whether every pin of the panel's bus carries its signal.
pub open spec fn pins_ready(words: Map<u32, u32>) -> bool {
    &&& forall|pin: u8|
        pin < 16 && is_bus_pin(port_d(), pin) ==> #[trigger] on_bus(words, port_d(), pin)
    &&& forall|pin: u8|
        pin < 16 && is_bus_pin(port_e(), pin) ==> #[trigger] on_bus(words, port_e(), pin)
}

/// Whether MPU region `region` is the whole FMC bank, `0x6000_0000` to
/// `0x6FFF_FFFF`, as Device-nGnRnE, read/write at any privilege, never executed, not
/// shareable and enabled.
pub open spec fn region_holds_bank(rec: Record, region: u8) -> bool {
    let (base, limit) = rec.regions[region as u32];
    &&& base & !0x1F == 0x6000_0000
    &&& (base >> 3) & 0b11 == 0
    &&& (base >> 1) & 0b11 == 0b01
    &&& base & 1 == 1
    &&& limit | 0x1F == 0x6FFF_FFFF
    &&& (limit >> 4) & 1 == 0
    &&& (limit >> 1) & 0b111 == 3
    &&& limit & 1 == 1
    &&& rec.hw.words[0xE000_EDC0] >> 24 == 0
}

/// Whether the bank is Device memory by MPU region `region`, with the MPU on.
pub open spec fn region_is_device(rec: Record, region: u8) -> bool {
    region_holds_bank(rec, region) && rec.hw.words[0xE000_ED94] & 1 == 1
}

/// Whether a store to the FMC bank reaches the panel: the FSMC clock runs, the pins
/// are routed, bank 1 is enabled (`MBKEN`) and 16 bits wide (`MWID` at 01), the bank
/// is Device memory if a region was chosen for it, no change to the MPU is still to
/// take effect, and the panel is out of reset for good.
pub open spec fn bus_ready(rec: Record, region: Option<u8>) -> bool {
    &&& rec.hw.clocks & 1 == 1
    &&& !rec.clock_pending
    &&& pins_ready(rec.hw.words)
    &&& rec.hw.words[0x420D_0400] & 1 == 1
    &&& (rec.hw.words[0x420D_0400] >> 4) & 0b11 == 0b01
    &&& region matches Some(number) ==> region_is_device(rec, number)
    &&& !rec.mpu_pending
    &&& rec.hw.lines[Line::Reset] == Level::High
    &&& rec.hw.kept.contains(Line::Reset)
    &&& registers::pair_of(rec.hw.words[port_e()], 11) == 0b01
}

/// Whether a store of `value` to `addr` over `word` changes no field of `pin` of the
/// port at `base`.
pub open spec fn spares_pin(word: u32, value: u32, base: u32, addr: u32, pin: u8) -> bool {
    if addr == base + 0x20 || addr == base + 0x24 {
        addr == function_register(base, pin) ==> registers::nibble_of(value, pin)
            == registers::nibble_of(word, pin)
    } else {
        registers::pair_of(value, pin) == registers::pair_of(word, pin)
    }
}

/// Whether a store of `value` to the pin register `addr` of the port at `base` only
/// concerns `pins`.
pub open spec fn spares_unlisted(
    word: u32,
    value: u32,
    base: u32,
    addr: u32,
    pins: Seq<u8>,
) -> bool {
    forall|pin: u8|
        pin < 16 && !pins.contains(pin) ==> #[trigger] spares_pin(word, value, base, addr, pin)
}

/// Whether a store of `value` to the pin register `addr` of the port at `base` only
/// concerns pins of the bus.
pub open spec fn spares_other_pins(word: u32, value: u32, base: u32, addr: u32) -> bool {
    forall|pin: u8|
        pin < 16 && !is_bus_pin(base, pin) ==> #[trigger] spares_pin(word, value, base, addr, pin)
}

/// What may be stored in the chip-select control register: every bit but `MBKEN`
/// and `MWID` stays, the width only changes while the bank is off, which a barrier
/// has completed, and the bank is only turned on 16 bits wide.
pub open spec fn width_permitted(rec: Record, value: u32) -> bool {
    let word = rec.hw.words[0x420D_0400];
    &&& value & !0x31 == word & !0x31
    &&& (value >> 4) & 0b11 != (word >> 4) & 0b11 ==> word & 1 == 0 && rec.completed
    &&& value & 1 == 1 ==> (value >> 4) & 0b11 == 0b01
}

/// What may be stored in an MPU register for region `number`. In the control
/// register only the enable bit changes, and it is only set once the region holds
/// the bank. The others are stored to only while the MPU
/// is off and that has taken effect; the number register gets `number`, base and
/// limit are stored to while it holds `number`, and the attributes 0 to 2 stay.
pub open spec fn mpu_permitted(rec: Record, addr: u32, value: u32, number: u8) -> bool {
    let word = rec.hw.words[addr];
    if addr == 0xE000_ED94 {
        &&& value >> 1 == word >> 1
        &&& value & 1 == 1 ==> region_holds_bank(rec, number)
    } else {
        &&& rec.hw.words[0xE000_ED94] & 1 == 0
        &&& !rec.mpu_pending
        &&& {
            ||| addr == 0xE000_ED98 && value == number
            ||| addr == 0xE000_ED9C && rec.hw.words[0xE000_ED98] == number
            ||| addr == 0xE000_EDA0 && rec.hw.words[0xE000_ED98] == number
            ||| addr == 0xE000_EDC0 && value & 0x00FF_FFFF == word & 0x00FF_FFFF
        }
    }
}

/// What the bring-up may store in the register at `addr`.
pub open spec fn store_permitted(rec: Record, addr: u32, value: u32, region: Option<u8>) -> bool {
    let word = rec.hw.words[addr];
    let clock_runs = rec.hw.clocks & 1 == 1 && !rec.clock_pending;
    if is_pin_register(port_d(), addr) {
        clock_runs && spares_other_pins(word, value, port_d(), addr)
    } else if is_pin_register(port_e(), addr) {
        clock_runs && spares_other_pins(word, value, port_e(), addr)
    } else if addr == 0x420D_0400 {
        clock_runs && rec.completed && pins_ready(rec.hw.words) && width_permitted(rec, value)
    } else {
        region matches Some(number) && mpu_permitted(rec, addr, value, number)
    }
}

/// What the bring-up may do when `rec` is what has happened.
pub open spec fn permitted(rec: Record, action: Action, region: Option<u8>) -> bool {
    match action {
        Action::WriteHalfword { addr, value } => {
            &&& addr == 0x6000_0000 || addr == 0x6020_0000
            &&& value < 256
            &&& rec.completed
            &&& bus_ready(rec, region)
        },
        Action::WriteWord { addr, value } => store_permitted(rec, addr, value, region),
        Action::WriteClocks { value } => value == rec.hw.clocks | 1,
        Action::ReadWord { addr } => {
            ||| is_pin_register(port_d(), addr)
            ||| is_pin_register(port_e(), addr)
            ||| addr == 0x420D_0400 && rec.completed && rec.flushed
            ||| region is Some && (addr == 0xE000_ED94 || addr == 0xE000_EDC0)
        },
        Action::Output { line, level, speed } => level == Level::High && speed == Speed::Low,
        _ => true,
    }
}

/// [`permitted`] for `region`, as a rule.
pub open spec fn rule_for(region: Option<u8>) -> spec_fn(Record, Action) -> bool {
    |rec: Record, action: Action| permitted(rec, action, region)
}

proof fn lemma_rmw(
    scene: Scene,
    addr: u32,
    clear_mask: u32,
    set: u32,
    rule: spec_fn(Record, Action) -> bool,
)
    requires
        addr != 0xE000_ED94 && addr != 0xE000_ED9C && addr != 0xE000_EDA0,
        rule(scene.rec, Action::ReadWord { addr }),
        rule(
            scene.rec,
            Action::WriteWord { addr, value: (scene.rec.hw.words[addr] & !clear_mask) | set },
        ),
    ensures
        scene.runs_by(gpio::rmw_ops(addr, clear_mask, set), rule),
        scene.run(gpio::rmw_ops(addr, clear_mask, set)).rec == (Record {
            hw: Hardware {
                words: scene.rec.hw.words.insert(
                    addr,
                    (scene.rec.hw.words[addr] & !clear_mask) | set,
                ),
                ..scene.rec.hw
            },
            completed: false,
            flushed: false,
            ..scene.rec
        }),
{
    let ops = gpio::rmw_ops(addr, clear_mask, set);
    record::lemma_none(scene, ops, rule);
    record::lemma_prefix(scene, ops, 0, rule);
    record::lemma_prefix(scene, ops, 1, rule);
    assert(scene.run(ops.take(1)).rec == scene.rec);
}

/// Register block of `port`.
pub open spec fn block(port: GpioPort) -> u32 {
    match port {
        GpioPort::D => port_d(),
        GpioPort::E => port_e(),
    }
}

/// Whether nothing but registers that say where the pins of `port` go changed
/// between `before` and `after`.
spec fn only_routed(before: Record, after: Record, port: GpioPort) -> bool {
    &&& after == (Record {
        hw: Hardware { words: after.hw.words, ..before.hw },
        completed: after.completed,
        flushed: after.flushed,
        ..before
    })
    &&& forall|addr: u32|
        !is_pin_register(block(port), addr) ==> #[trigger] after.hw.words[addr]
            == before.hw.words[addr]
}

/// Whether `rule` lets the fields of `pins` of `port` be set from `rec` on.
spec fn takes_pins(
    rec: Record,
    port: GpioPort,
    pins: Seq<u8>,
    rule: spec_fn(Record, Action) -> bool,
) -> bool {
    &&& forall|other: Record, addr: u32|
        only_routed(rec, other, port) && is_pin_register(block(port), addr) ==> #[trigger] rule(
            other,
            Action::ReadWord { addr },
        )
    &&& forall|other: Record, addr: u32, value: u32|
        only_routed(rec, other, port) && is_pin_register(block(port), addr) && spares_unlisted(
            other.hw.words[addr],
            value,
            block(port),
            addr,
            pins,
        ) ==> #[trigger] rule(other, Action::WriteWord { addr, value })
}

proof fn lemma_field(
    scene: Scene,
    middle: Scene,
    port: GpioPort,
    pins: Seq<u8>,
    pin: u8,
    addr: u32,
    value: u32,
    rule: spec_fn(Record, Action) -> bool,
)
    requires
        pin < 16,
        pins.contains(pin),
        value < 4,
        addr == block(port) || addr == block(port) + 0x08 || addr == block(port) + 0x0C,
        only_routed(scene.rec, middle.rec, port),
        takes_pins(scene.rec, port, pins, rule),
    ensures
        ({
            let ops = gpio::rmw_ops(addr, gpio::pair(pin, 0b11), gpio::pair(pin, value));
            &&& middle.runs_by(ops, rule)
            &&& only_routed(scene.rec, middle.run(ops).rec, port)
        }),
{
    let word = middle.rec.hw.words[addr];
    let new = (word & !gpio::pair(pin, 0b11)) | gpio::pair(pin, value);
    assert forall|other: u8| other < 16 && !pins.contains(other) implies #[trigger] spares_pin(
        word,
        new,
        block(port),
        addr,
        other,
    ) by {
        registers::lemma_pair(word, pin, other, value);
    }
    lemma_rmw(middle, addr, gpio::pair(pin, 0b11), gpio::pair(pin, value), rule);
}

proof fn lemma_function(
    scene: Scene,
    middle: Scene,
    port: GpioPort,
    pins: Seq<u8>,
    pin: u8,
    value: u32,
    rule: spec_fn(Record, Action) -> bool,
)
    requires
        pin < 16,
        pins.contains(pin),
        value < 16,
        only_routed(scene.rec, middle.rec, port),
        takes_pins(scene.rec, port, pins, rule),
    ensures
        ({
            let ops = gpio::rmw_ops(
                function_register(block(port), pin),
                gpio::nibble(pin, 0xF),
                gpio::nibble(pin, value),
            );
            &&& middle.runs_by(ops, rule)
            &&& only_routed(scene.rec, middle.run(ops).rec, port)
        }),
{
    let addr = function_register(block(port), pin);
    let word = middle.rec.hw.words[addr];
    let new = (word & !gpio::nibble(pin, 0xF)) | gpio::nibble(pin, value);
    assert forall|other: u8| other < 16 && !pins.contains(other) implies #[trigger] spares_pin(
        word,
        new,
        block(port),
        addr,
        other,
    ) by {
        registers::lemma_nibble(word, pin, other, value);
    }
    lemma_rmw(middle, addr, gpio::nibble(pin, 0xF), gpio::nibble(pin, value), rule);
}

proof fn lemma_pin(
    scene: Scene,
    start: Scene,
    port: GpioPort,
    pins: Seq<u8>,
    pin: u8,
    af: u8,
    rule: spec_fn(Record, Action) -> bool,
)
    requires
        pin < 16,
        pins.contains(pin),
        only_routed(scene.rec, start.rec, port),
        takes_pins(scene.rec, port, pins, rule),
    ensures
        start.runs_by(gpio::pin_ops(port, pin, af), rule),
        only_routed(scene.rec, start.run(gpio::pin_ops(port, pin, af)).rec, port),
{
    let base = block(port);
    let speed = (base + 0x08) as u32;
    let pull = (base + 0x0C) as u32;
    let number = (af % 16) as u32;
    let a = gpio::rmw_ops(base, gpio::pair(pin, 0b11), gpio::pair(pin, 0b10));
    let b = gpio::rmw_ops(speed, gpio::pair(pin, 0b11), gpio::pair(pin, 0b11));
    let c = gpio::rmw_ops(pull, gpio::pair(pin, 0b11), gpio::pair(pin, 0));
    let d = gpio::rmw_ops(
        function_register(base, pin),
        gpio::nibble(pin, 0xF),
        gpio::nibble(pin, number),
    );
    assert(0u32 << (pin * 2) == 0) by (bit_vector);
    assert(gpio::pin_ops(port, pin, af) =~= a + b + c + d);
    let s1 = start.run(a);
    let s2 = s1.run(b);
    let s3 = s2.run(c);
    lemma_field(scene, start, port, pins, pin, base, 0b10, rule);
    lemma_field(scene, s1, port, pins, pin, speed, 0b11, rule);
    lemma_field(scene, s2, port, pins, pin, pull, 0, rule);
    lemma_function(scene, s3, port, pins, pin, number, rule);
    record::lemma_concat(start, a, b);
    record::lemma_concat(start, a + b, c);
    record::lemma_concat(start, a + b + c, d);
    record::lemma_by_concat(start, a, b, rule);
    record::lemma_by_concat(start, a + b, c, rule);
    record::lemma_by_concat(start, a + b + c, d, rule);
}

proof fn lemma_pins(
    scene: Scene,
    port: GpioPort,
    pins: Seq<u8>,
    count: int,
    af: u8,
    rule: spec_fn(Record, Action) -> bool,
)
    requires
        0 <= count <= pins.len(),
        forall|i: int| 0 <= i < pins.len() ==> (#[trigger] pins[i]) < 16,
        takes_pins(scene.rec, port, pins, rule),
    ensures
        scene.runs_by(gpio::af_ops(port, pins.take(count), af), rule),
        only_routed(scene.rec, scene.run(gpio::af_ops(port, pins.take(count), af)).rec, port),
    decreases count,
{
    if count > 0 {
        let listed = pins.take(count);
        let last = pins[count - 1];
        assert(listed.drop_last() =~= pins.take(count - 1));
        lemma_pins(scene, port, pins, count - 1, af, rule);
        let head = gpio::af_ops(port, pins.take(count - 1), af);
        let tail = gpio::pin_ops(port, last, af);
        lemma_pin(scene, scene.run(head), port, pins, last, af, rule);
        record::lemma_concat(scene, head, tail);
        record::lemma_by_concat(scene, head, tail, rule);
    }
}

/// Whether `pin` of the port at `base` is on function `af` if it is one of `pins`,
/// and as it was otherwise.
pub open spec fn on_function_if_listed(
    before: Map<u32, u32>,
    after: Map<u32, u32>,
    base: u32,
    pins: Seq<u8>,
    pin: u8,
    af: u8,
) -> bool {
    if pins.contains(pin) {
        on_function(after, base, pin, af)
    } else {
        same_pin(before, after, base, pin)
    }
}

/// What `set_gpio_af` may do: read and store the registers that say where the pins
/// of the port go, and never, not even for a while, change a field of a pin that it
/// was not given.
pub open spec fn routing_permitted(rec: Record, action: Action, base: u32, pins: Seq<u8>) -> bool {
    match action {
        Action::ReadWord { addr } => is_pin_register(base, addr),
        Action::WriteWord { addr, value } => {
            &&& is_pin_register(base, addr)
            &&& spares_unlisted(rec.hw.words[addr], value, base, addr, pins)
        },
        _ => false,
    }
}

/// `set_gpio_af` puts each of its pins on the function, leaves every other pin of
/// the port as it was at every step, and does nothing else.
pub proof fn set_gpio_af_concerns_only_its_pins(scene: Scene, port: GpioPort, pins: Seq<u8>, af: u8)
    requires
        forall|i: int| 0 <= i < pins.len() ==> (#[trigger] pins[i]) < 16,
    ensures
        ({
            let base = block(port);
            let after = scene.run(gpio::af_ops(port, pins, af)).rec;
            &&& scene.runs_by(
                gpio::af_ops(port, pins, af),
                |rec: Record, action: Action| routing_permitted(rec, action, base, pins),
            )
            &&& after == (Record {
                hw: Hardware { words: after.hw.words, ..scene.rec.hw },
                completed: after.completed,
                flushed: after.flushed,
                ..scene.rec
            })
            &&& forall|addr: u32|
                !is_pin_register(base, addr) ==> #[trigger] after.hw.words[addr]
                    == scene.rec.hw.words[addr]
            &&& forall|pin: u8|
                pin < 16 ==> #[trigger] on_function_if_listed(
                    scene.rec.hw.words,
                    after.hw.words,
                    base,
                    pins,
                    pin,
                    af,
                )
        }),
{
    let base = block(port);
    let rule = |rec: Record, action: Action| routing_permitted(rec, action, base, pins);
    let after = scene.run(gpio::af_ops(port, pins, af)).rec;
    assert(pins.take(pins.len() as int) =~= pins);
    lemma_pins(scene, port, pins, pins.len() as int, af, rule);
    registers::set_gpio_af_routes_exactly_its_pins(scene.board(), port, pins, af);
    record::lemma_board(scene, gpio::af_ops(port, pins, af));
    assert forall|pin: u8| pin < 16 implies #[trigger] on_function_if_listed(
        scene.rec.hw.words,
        after.hw.words,
        base,
        pins,
        pin,
        af,
    ) by {
        assert(registers::routed_if_listed(
            scene.rec.hw.words,
            after.hw.words,
            port,
            pins,
            pin,
            af,
        ));
    }
}

/// Whether every register but the one at `addr` holds the same in both.
pub open spec fn same_but(before: Map<u32, u32>, after: Map<u32, u32>, addr: u32) -> bool {
    forall|other: u32| other != addr ==> #[trigger] after[other] == before[other]
}

/// What `widen_fmc_bcr1` may do.
pub open spec fn widening_permitted(rec: Record, action: Action) -> bool {
    match action {
        Action::ReadWord { addr } => addr == 0x420D_0400,
        Action::WriteWord { addr, value } => addr == 0x420D_0400 && width_permitted(rec, value),
        Action::Dsb => true,
        _ => false,
    }
}

/// `widen_fmc_bcr1` never changes the width while the bank is on or before turning
/// it off has completed; it leaves the bank on and 16 bits wide, all of that
/// complete, and every other bit and everything else as it was.
pub proof fn widen_fmc_bcr1_changes_the_width_while_off(scene: Scene)
    ensures
        ({
            let word = scene.rec.hw.words[0x420D_0400];
            let after = scene.run(fmc::widen_ops()).rec;
            let wide = after.hw.words[0x420D_0400];
            &&& scene.runs_by(
                fmc::widen_ops(),
                |rec: Record, action: Action| widening_permitted(rec, action),
            )
            &&& wide & 1 == 1
            &&& (wide >> 4) & 0b11 == 0b01
            &&& wide & !0x31 == word & !0x31
            &&& after == (Record {
                hw: Hardware {
                    words: scene.rec.hw.words.insert(0x420D_0400, wide),
                    ..scene.rec.hw
                },
                completed: true,
                flushed: false,
                clock_pending: false,
                ..scene.rec
            })
        }),
{
    lemma_widen(scene, |rec: Record, action: Action| widening_permitted(rec, action));
}

proof fn lemma_widen(scene: Scene, rule: spec_fn(Record, Action) -> bool)
    requires
        rule(scene.rec, Action::ReadWord { addr: 0x420D_0400 }),
        forall|other: Record, value: u32|
            {
                &&& scene.rec.completed ==> other.completed
                &&& !scene.rec.clock_pending ==> !other.clock_pending
                &&& other.hw.clocks == scene.rec.hw.clocks
                &&& same_but(scene.rec.hw.words, other.hw.words, 0x420D_0400)
                &&& width_permitted(other, value)
            } ==> #[trigger] rule(other, Action::WriteWord { addr: 0x420D_0400, value }),
        forall|other: Record| #[trigger] rule(other, Action::Dsb),
    ensures
        ({
            let word = scene.rec.hw.words[0x420D_0400];
            let after = scene.run(fmc::widen_ops()).rec;
            let wide = after.hw.words[0x420D_0400];
            &&& scene.runs_by(fmc::widen_ops(), rule)
            &&& wide & 1 == 1
            &&& (wide >> 4) & 0b11 == 0b01
            &&& wide & !0x31 == word & !0x31
            &&& after == (Record {
                hw: Hardware {
                    words: scene.rec.hw.words.insert(0x420D_0400, wide),
                    ..scene.rec.hw
                },
                completed: true,
                flushed: false,
                clock_pending: false,
                ..scene.rec
            })
        }),
{
    let ops = fmc::widen_ops();
    let words = scene.rec.hw.words;
    let word = words[0x420D_0400];
    let off = (word & 0xFFFF_FFFE) | 0;
    let wide = (word & 0xFFFF_FFCF) | 0x11;
    assert(off & 1 == 0 && off & !0x31 == word & !0x31 && (off >> 4) & 0b11 == (word >> 4) & 0b11
        && wide & 1 == 1 && (wide >> 4) & 0b11 == 0b01 && wide & !0x31 == word & !0x31) by (bit_vector)
        requires
            off == (word & 0xFFFF_FFFE) | 0,
            wide == (word & 0xFFFF_FFCF) | 0x11,
    ;
    record::lemma_none(scene, ops, rule);
    record::lemma_prefix(scene, ops, 0, rule);
    record::lemma_prefix(scene, ops, 1, rule);
    record::lemma_prefix(scene, ops, 2, rule);
    record::lemma_prefix(scene, ops, 3, rule);
    record::lemma_prefix(scene, ops, 4, rule);
    let s1 = scene.run(ops.take(1));
    let s3 = scene.run(ops.take(3));
    assert(s1.rec == scene.rec);
    assert(s3.rec.hw.words =~= words.insert(0x420D_0400, off));
    assert(s1.action(ops[1]) == Action::WriteWord { addr: 0x420D_0400, value: off });
    assert(s3.action(ops[3]) == Action::WriteWord { addr: 0x420D_0400, value: wide });
    assert(words.insert(0x420D_0400, off).insert(0x420D_0400, wide) =~= words.insert(
        0x420D_0400,
        wide,
    ));
}

/// What `map_fmc_bank_device` may do for region `number`.
pub open spec fn mapping_permitted(rec: Record, action: Action, number: u8) -> bool {
    match action {
        Action::ReadWord { addr } => addr == 0xE000_ED94 || addr == 0xE000_EDC0,
        Action::WriteWord { addr, value } => mpu_permitted(rec, addr, value, number),
        Action::Dsb => true,
        Action::Isb => true,
        _ => false,
    }
}

/// Whether the bank is Device memory in region `number` after `after`, all of it in
/// effect, where `before` is what was there at first: no other region changed, nor
/// the attributes 0 to 2, nor the control register but for its enable bit, nor
/// anything outside the MPU.
pub open spec fn only_mapped(before: Record, after: Record, number: u8) -> bool {
    &&& region_is_device(after, number)
    &&& forall|other: u32|
        other != number ==> #[trigger] after.regions[other] == before.regions[other]
    &&& after.hw.words[0xE000_EDC0] & 0x00FF_FFFF == before.hw.words[0xE000_EDC0] & 0x00FF_FFFF
    &&& after.hw.words[0xE000_ED94] >> 1 == before.hw.words[0xE000_ED94] >> 1
    &&& forall|addr: u32|
        addr != 0xE000_ED94 && addr != 0xE000_ED98 && addr != 0xE000_ED9C && addr != 0xE000_EDA0
            && addr != 0xE000_EDC0 ==> #[trigger] after.hw.words[addr] == before.hw.words[addr]
    &&& after == (Record {
        hw: Hardware { words: after.hw.words, ..before.hw },
        regions: after.regions,
        completed: true,
        flushed: true,
        clock_pending: false,
        mpu_pending: false,
        ..before
    })
}

#[verifier::spinoff_prover]
#[verifier::rlimit(40)]
proof fn lemma_map(scene: Scene, number: u8, rule: spec_fn(Record, Action) -> bool)
    requires
        forall|other: Record| #[trigger] rule(other, Action::ReadWord { addr: 0xE000_ED94 }),
        forall|other: Record| #[trigger] rule(other, Action::ReadWord { addr: 0xE000_EDC0 }),
        forall|other: Record| #[trigger] rule(other, Action::Dsb),
        forall|other: Record| #[trigger] rule(other, Action::Isb),
        forall|other: Record, addr: u32, value: u32|
            mpu_permitted(other, addr, value, number) ==> #[trigger] rule(
                other,
                Action::WriteWord { addr, value },
            ),
    ensures
        scene.runs_by(fmc::map_ops(number), rule),
        only_mapped(scene.rec, scene.run(fmc::map_ops(number)).rec, number),
{
    let ops = fmc::map_ops(number);
    let ctrl = scene.rec.hw.words[0xE000_ED94];
    let mair0 = scene.rec.hw.words[0xE000_EDC0];
    let off = (ctrl & 0xFFFF_FFFE) | 0;
    let on = (ctrl & 0xFFFF_FFFF) | 1;
    let device = (mair0 & 0x00FF_FFFF) | 0;
    assert(off & 1 == 0 && off >> 1 == ctrl >> 1 && on & 1 == 1 && on >> 1 == ctrl >> 1 && device
        & 0x00FF_FFFF == mair0 & 0x00FF_FFFF && device >> 24 == 0) by (bit_vector)
        requires
            off == (ctrl & 0xFFFF_FFFE) | 0,
            on == (ctrl & 0xFFFF_FFFF) | 1,
            device == (mair0 & 0x00FF_FFFF) | 0,
    ;
    record::lemma_none(scene, ops, rule);
    record::lemma_prefix(scene, ops, 0, rule);
    record::lemma_prefix(scene, ops, 1, rule);
    record::lemma_prefix(scene, ops, 2, rule);
    record::lemma_prefix(scene, ops, 3, rule);
    record::lemma_prefix(scene, ops, 4, rule);
    record::lemma_prefix(scene, ops, 5, rule);
    record::lemma_prefix(scene, ops, 6, rule);
    record::lemma_prefix(scene, ops, 7, rule);
    record::lemma_prefix(scene, ops, 8, rule);
    record::lemma_prefix(scene, ops, 9, rule);
    record::lemma_prefix(scene, ops, 10, rule);
    record::lemma_prefix(scene, ops, 11, rule);
    let s1 = scene.run(ops.take(1));
    let s4 = scene.run(ops.take(4));
    let s5 = scene.run(ops.take(5));
    assert(s1.rec == scene.rec);
    assert(s1.action(ops[1]) == Action::WriteWord { addr: 0xE000_ED94, value: off });
    assert(s4.rec.hw.words[0xE000_ED94] == off && !s4.rec.mpu_pending);
    assert(s5.action(ops[5]) == Action::WriteWord { addr: 0xE000_EDC0, value: device });
    let s6 = scene.run(ops.take(6));
    let s7 = scene.run(ops.take(7));
    let s8 = scene.run(ops.take(8));
    let s9 = scene.run(ops.take(9));
    assert(s6.rec.hw.words[0xE000_ED94] == off && !s6.rec.mpu_pending);
    assert(s7.rec.hw.words[0xE000_ED94] == off && !s7.rec.mpu_pending);
    assert(s7.rec.hw.words[0xE000_ED98] == number);
    assert(s8.rec.hw.words[0xE000_ED94] == off && !s8.rec.mpu_pending);
    assert(s8.rec.hw.words[0xE000_ED98] == number);
    assert(s9.rec.regions[number as u32] == (0x6000_0003u32, 0x6FFF_FFE7u32));
    assert(0x6000_0003u32 & !0x1F == 0x6000_0000 && (0x6000_0003u32 >> 1) & 0b11 == 0b01
        && (0x6000_0003u32 >> 3) & 0b11 == 0 && 0x6000_0003u32 & 1 == 1 && 0x6FFF_FFE7u32 | 0x1F
        == 0x6FFF_FFFF && (0x6FFF_FFE7u32 >> 1) & 0b111 == 3 && (0x6FFF_FFE7u32 >> 4) & 1 == 0
        && 0x6FFF_FFE7u32 & 1 == 1) by (bit_vector);
    assert(region_holds_bank(s9.rec, number));
    assert(s9.action(ops[9]) == Action::WriteWord { addr: 0xE000_ED94, value: on });
    assert(scene.run(ops) == scene.run(ops.take(12)));
}

/// `map_fmc_bank_device` makes the bank Device memory in the region that it is
/// given and in no other. It stores base and limit only once that region is
/// selected, and stores to the MPU, its control register aside, only while the MPU
/// is off and barriers have put that into effect; at the end the MPU is on, and
/// barriers have put that into effect too. Nothing else is touched.
pub proof fn map_fmc_bank_device_maps_only_its_region(scene: Scene, number: u8)
    ensures
        scene.runs_by(
            fmc::map_ops(number),
            |rec: Record, action: Action| mapping_permitted(rec, action, number),
        ),
        only_mapped(scene.rec, scene.run(fmc::map_ops(number)).rec, number),
{
    lemma_map(
        scene,
        number,
        |rec: Record, action: Action| mapping_permitted(rec, action, number),
    );
}

/// Whether `addr` is one of the MPU's control, number, base, limit and attribute
/// registers.
pub open spec fn is_mpu_word(addr: u32) -> bool {
    ||| addr == 0xE000_ED94
    ||| addr == 0xE000_ED98
    ||| addr == 0xE000_ED9C
    ||| addr == 0xE000_EDA0
    ||| addr == 0xE000_EDC0
}

/// Whether all that `after` has other than `before` is a bus that is set up, and
/// complete: the FSMC clock bit, the pins of the bus, enable bit and width of the
/// bank, and the mapping in `region`; without a region the MPU is as it was.
pub open spec fn only_configured(before: Record, after: Record, region: Option<u8>) -> bool {
    let old_words = before.hw.words;
    let words = after.hw.words;
    &&& after == (Record {
        hw: Hardware { words, clocks: before.hw.clocks | 1, ..before.hw },
        regions: after.regions,
        completed: true,
        flushed: after.flushed,
        clock_pending: false,
        mpu_pending: false,
        ..before
    })
    &&& forall|pin: u8| pin < 16 ==> #[trigger] on_bus_if_wired(old_words, words, port_d(), pin)
    &&& forall|pin: u8| pin < 16 ==> #[trigger] on_bus_if_wired(old_words, words, port_e(), pin)
    &&& words[0x420D_0400] & 1 == 1
    &&& (words[0x420D_0400] >> 4) & 0b11 == 0b01
    &&& words[0x420D_0400] & !0x31 == old_words[0x420D_0400] & !0x31
    &&& match region {
        Some(number) => {
            &&& region_is_device(after, number)
            &&& forall|other: u32|
                other != number ==> #[trigger] after.regions[other] == before.regions[other]
            &&& words[0xE000_EDC0] & 0x00FF_FFFF == old_words[0xE000_EDC0] & 0x00FF_FFFF
            &&& words[0xE000_ED94] >> 1 == old_words[0xE000_ED94] >> 1
        },
        None => {
            &&& after.regions == before.regions
            &&& forall|addr: u32|
                is_mpu_word(addr) ==> #[trigger] words[addr] == old_words[addr]
        },
    }
    &&& forall|addr: u32|
        !is_pin_register(port_d(), addr) && !is_pin_register(port_e(), addr) && addr != 0x420D_0400
            && !is_mpu_word(addr) ==> #[trigger] words[addr] == old_words[addr]
}

proof fn lemma_bus_pins()
    ensures
        forall|pin: u8| #[trigger]
            fmc::port_d_pins().contains(pin) <==> is_bus_pin(port_d(), pin),
        forall|pin: u8| #[trigger]
            fmc::port_e_pins().contains(pin) <==> is_bus_pin(port_e(), pin),
{
    let d = fmc::port_d_pins();
    let e = fmc::port_e_pins();
    assert(d[0] == 0 && d[1] == 1 && d[2] == 4 && d[3] == 5 && d[4] == 7 && d[5] == 14 && d[6]
        == 15);
    assert(e[0] == 4 && e[1] == 7 && e[2] == 8 && e[3] == 9 && e[4] == 10);
}

/// The pins of the bus on `port`, and what was true of the others.
proof fn lemma_bus_port(scene: Scene, port: GpioPort, pins: Seq<u8>, region: Option<u8>)
    requires
        forall|i: int| 0 <= i < pins.len() ==> (#[trigger] pins[i]) < 16,
        forall|pin: u8| #[trigger] pins.contains(pin) <==> is_bus_pin(block(port), pin),
        scene.rec.hw.clocks & 1 == 1,
        !scene.rec.clock_pending,
    ensures
        ({
            let ops = gpio::af_ops(port, pins, 12);
            let after = scene.run(ops).rec;
            &&& scene.runs_by(ops, rule_for(region))
            &&& only_routed(scene.rec, after, port)
            &&& forall|pin: u8|
                pin < 16 ==> #[trigger] on_bus_if_wired(
                    scene.rec.hw.words,
                    after.hw.words,
                    block(port),
                    pin,
                )
        }),
{
    let rule = rule_for(region);
    let ops = gpio::af_ops(port, pins, 12);
    let after = scene.run(ops).rec;
    assert forall|other: Record, addr: u32, value: u32|
        only_routed(scene.rec, other, port) && is_pin_register(block(port), addr)
            && spares_unlisted(
            other.hw.words[addr],
            value,
            block(port),
            addr,
            pins,
        ) implies #[trigger] rule(other, Action::WriteWord { addr, value }) by {
        assert(spares_other_pins(other.hw.words[addr], value, block(port), addr));
    }
    assert(pins.take(pins.len() as int) =~= pins);
    lemma_pins(scene, port, pins, pins.len() as int, 12, rule);
    set_gpio_af_concerns_only_its_pins(scene, port, pins, 12);
    assert forall|pin: u8| pin < 16 implies #[trigger] on_bus_if_wired(
        scene.rec.hw.words,
        after.hw.words,
        block(port),
        pin,
    ) by {
        assert(on_function_if_listed(
            scene.rec.hw.words,
            after.hw.words,
            block(port),
            pins,
            pin,
            12,
        ));
    }
}

/// `configure_fmc_bus` sets the bus up and does nothing else, and every step of it
/// comes when it may: pins and bank only once the FSMC clock runs, the width only
/// once the pins are routed and while the bank is off, the MPU only as
/// [`mpu_permitted`] says.
#[verifier::spinoff_prover]
#[verifier::rlimit(40)]
pub proof fn configure_fmc_bus_keeps_the_order(scene: Scene, region: Option<u8>)
    ensures
        scene.runs_by(
            fmc::fmc_ops(region),
            |rec: Record, action: Action| permitted(rec, action, region),
        ),
        only_configured(scene.rec, scene.run(fmc::fmc_ops(region)).rec, region),
{
    let rule = rule_for(region);
    let clock = seq![Op::LoadClocks, Op::StoreClocks, Op::Dsb];
    let d = gpio::af_ops(GpioPort::D, fmc::port_d_pins(), FMC_AF);
    let e = gpio::af_ops(GpioPort::E, fmc::port_e_pins(), FMC_AF);
    let barriers = seq![Op::Dsb, Op::Isb];
    let widen = fmc::widen_ops();
    let map = match region {
        Some(number) => fmc::map_ops(number),
        None => Seq::empty(),
    };
    let s1 = scene.run(clock);
    let s2 = s1.run(d);
    let s3 = s2.run(e);
    let s4 = s3.run(barriers);
    let s5 = s4.run(widen);
    let s6 = s5.run(map);

    record::lemma_none(scene, clock, rule);
    record::lemma_prefix(scene, clock, 0, rule);
    record::lemma_prefix(scene, clock, 1, rule);
    record::lemma_prefix(scene, clock, 2, rule);
    let clocks = scene.rec.hw.clocks;
    assert((clocks | 1) & 1 == 1) by (bit_vector);
    assert(s1.rec == (Record {
        hw: Hardware { clocks: clocks | 1, ..scene.rec.hw },
        completed: true,
        flushed: false,
        clock_pending: false,
        ..scene.rec
    }));
    assert(scene.runs_by(clock, rule));

    lemma_bus_pins();
    lemma_bus_port(s1, GpioPort::D, fmc::port_d_pins(), region);
    lemma_bus_port(s2, GpioPort::E, fmc::port_e_pins(), region);

    record::lemma_none(s3, barriers, rule);
    record::lemma_prefix(s3, barriers, 0, rule);
    record::lemma_prefix(s3, barriers, 1, rule);
    assert(s4.rec == (Record { completed: true, flushed: true, mpu_pending: false, ..s3.rec }));
    assert(s3.runs_by(barriers, rule));

    let words = s4.rec.hw.words;
    assert forall|pin: u8| pin < 16 implies #[trigger] on_bus_if_wired(
        scene.rec.hw.words,
        words,
        port_d(),
        pin,
    ) by {
        assert(on_bus_if_wired(s1.rec.hw.words, s2.rec.hw.words, port_d(), pin));
    }
    assert forall|pin: u8| pin < 16 implies #[trigger] on_bus_if_wired(
        scene.rec.hw.words,
        words,
        port_e(),
        pin,
    ) by {
        assert(on_bus_if_wired(s2.rec.hw.words, s3.rec.hw.words, port_e(), pin));
    }
    lemma_ready_from_wired(scene.rec.hw.words, words);
    assert forall|other: Record, value: u32|
        {
            &&& s4.rec.completed ==> other.completed
            &&& !s4.rec.clock_pending ==> !other.clock_pending
            &&& other.hw.clocks == s4.rec.hw.clocks
            &&& same_but(words, other.hw.words, 0x420D_0400)
            &&& width_permitted(other, value)
        } implies #[trigger] rule(other, Action::WriteWord { addr: 0x420D_0400, value }) by {
        lemma_wired_but(scene.rec.hw.words, words, other.hw.words);
        lemma_ready_from_wired(scene.rec.hw.words, other.hw.words);
    }
    lemma_widen(s4, rule);
    lemma_wired_but(scene.rec.hw.words, words, s5.rec.hw.words);

    if let Some(number) = region {
        lemma_map(s5, number, rule);
        assert forall|pin: u8| pin < 16 implies #[trigger] on_bus_if_wired(
            scene.rec.hw.words,
            s6.rec.hw.words,
            port_d(),
            pin,
        ) by {
            assert(on_bus_if_wired(scene.rec.hw.words, s5.rec.hw.words, port_d(), pin));
        }
        assert forall|pin: u8| pin < 16 implies #[trigger] on_bus_if_wired(
            scene.rec.hw.words,
            s6.rec.hw.words,
            port_e(),
            pin,
        ) by {
            assert(on_bus_if_wired(scene.rec.hw.words, s5.rec.hw.words, port_e(), pin));
        }
    }
    record::lemma_concat(scene, clock, d);
    record::lemma_concat(scene, clock + d, e);
    record::lemma_concat(scene, clock + d + e, barriers);
    record::lemma_concat(scene, clock + d + e + barriers, widen);
    record::lemma_concat(scene, clock + d + e + barriers + widen, map);
    record::lemma_by_concat(scene, clock, d, rule);
    record::lemma_by_concat(scene, clock + d, e, rule);
    record::lemma_by_concat(scene, clock + d + e, barriers, rule);
    record::lemma_by_concat(scene, clock + d + e + barriers, widen, rule);
    record::lemma_by_concat(scene, clock + d + e + barriers + widen, map, rule);
    assert(rule =~= (|rec: Record, action: Action| permitted(rec, action, region)));
}

/// Pins that are on the bus where they are wired to it are ready.
pub(crate) proof fn lemma_ready_from_wired(before: Map<u32, u32>, after: Map<u32, u32>)
    requires
        forall|pin: u8| pin < 16 ==> #[trigger] on_bus_if_wired(before, after, port_d(), pin),
        forall|pin: u8| pin < 16 ==> #[trigger] on_bus_if_wired(before, after, port_e(), pin),
    ensures
        pins_ready(after),
{
    assert forall|pin: u8| pin < 16 && is_bus_pin(port_d(), pin) implies #[trigger] on_bus(
        after,
        port_d(),
        pin,
    ) by {
        assert(on_bus_if_wired(before, after, port_d(), pin));
    }
    assert forall|pin: u8| pin < 16 && is_bus_pin(port_e(), pin) implies #[trigger] on_bus(
        after,
        port_e(),
        pin,
    ) by {
        assert(on_bus_if_wired(before, after, port_e(), pin));
    }
}

proof fn lemma_wired_but(before: Map<u32, u32>, middle: Map<u32, u32>, after: Map<u32, u32>)
    requires
        forall|pin: u8| pin < 16 ==> #[trigger] on_bus_if_wired(before, middle, port_d(), pin),
        forall|pin: u8| pin < 16 ==> #[trigger] on_bus_if_wired(before, middle, port_e(), pin),
        same_but(middle, after, 0x420D_0400),
    ensures
        forall|pin: u8| pin < 16 ==> #[trigger] on_bus_if_wired(before, after, port_d(), pin),
        forall|pin: u8| pin < 16 ==> #[trigger] on_bus_if_wired(before, after, port_e(), pin),
{
    assert forall|pin: u8| pin < 16 implies #[trigger] on_bus_if_wired(
        before,
        after,
        port_d(),
        pin,
    ) by {
        assert(on_bus_if_wired(before, middle, port_d(), pin));
    }
    assert forall|pin: u8| pin < 16 implies #[trigger] on_bus_if_wired(
        before,
        after,
        port_e(),
        pin,
    ) by {
        assert(on_bus_if_wired(before, middle, port_e(), pin));
    }
}

} // verus!
