//! What the set-up of the memory controller leaves in the registers.

use crate::fmc;
use crate::fmc::{
    FMC_AF, FMC_BCR1, MPU_NS_CTRL, MPU_NS_MAIR0, MPU_NS_RBAR, MPU_NS_RLAR, MPU_NS_RNR,
};
use crate::gpio;
use crate::gpio::{GpioPort, AFRH, AFRL, MODER, ODR, OSPEEDR, OTYPER, PUPDR};
use crate::model;
use crate::model::{Board, Hardware};
use crate::ops;
use crate::ops::{Action, Latches, Level, Line, Op, Speed};
use vstd::prelude::*;

verus! {

/// The field of `pin` in a register with two bits a pin.
pub open spec fn pair_of(word: u32, pin: u8) -> u32 {
    (word >> (pin * 2)) & 0b11
}

/// The field of `pin` in an alternate function register.
pub open spec fn nibble_of(word: u32, pin: u8) -> u32 {
    (word >> ((pin % 8) * 4)) & 0xF
}

/// A read-modify-write changes the bits that it names at its address, and nothing
/// else.
pub proof fn rmw_changes_the_named_bits(board: Board, addr: u32, clear_mask: u32, set: u32)
    ensures
        board.run(gpio::rmw_ops(addr, clear_mask, set)) == (Board {
            hw: Hardware {
                words: board.hw.words.insert(addr, (board.hw.words[addr] & !clear_mask) | set),
                ..board.hw
            },
            latches: Latches { work: board.hw.words[addr], ..board.latches },
        }),
{
    let list = gpio::rmw_ops(addr, clear_mask, set);
    assert(list =~= seq![list[0]] + seq![list[1]]);
    model::lemma_run_concat(board, seq![list[0]], seq![list[1]]);
    model::lemma_run_one(board, list[0]);
    model::lemma_run_one(board.step(list[0]), list[1]);
}

/// Replacing the two-bit field of a pin changes that field only.
pub(crate) proof fn lemma_pair(word: u32, pin: u8, other: u8, value: u32)
    requires
        pin < 16,
        other < 16,
        value < 4,
    ensures
        pair_of((word & !gpio::pair(pin, 0b11)) | gpio::pair(pin, value), other) == if pin == other {
            value
        } else {
            pair_of(word, other)
        },
{
    assert(((((word & !(3u32 << (pin * 2))) | (value << (pin * 2))) >> (other * 2)) & 3) == if pin
        == other {
        value
    } else {
        (word >> (other * 2)) & 3
    }) by (bit_vector)
        requires
            pin < 16,
            other < 16,
            value < 4,
    ;
}

/// Replacing the four-bit field of a pin changes that field only.
pub(crate) proof fn lemma_nibble(word: u32, pin: u8, other: u8, value: u32)
    requires
        value < 16,
    ensures
        nibble_of((word & !gpio::nibble(pin, 0xF)) | gpio::nibble(pin, value), other) == if pin % 8
            == other % 8 {
            value
        } else {
            nibble_of(word, other)
        },
{
    assert(((((word & !(0xFu32 << ((pin % 8) * 4))) | (value << ((pin % 8) * 4))) >> ((other % 8)
        * 4)) & 0xF) == if pin % 8 == other % 8 {
        value
    } else {
        (word >> ((other % 8) * 4)) & 0xF
    }) by (bit_vector)
        requires
            value < 16,
    ;
}

/// Whether `addr` is one of the registers of `port` that say where its pins go.
pub open spec fn is_routing_register(port: GpioPort, addr: u32) -> bool {
    ||| addr == port.reg(MODER)
    ||| addr == port.reg(OSPEEDR)
    ||| addr == port.reg(PUPDR)
    ||| addr == port.reg(AFRL)
    ||| addr == port.reg(AFRH)
}

/// Whether `pin` of `port` is routed to alternate function `af`, at very high
/// speed and without a pull resistor.
pub open spec fn routed(words: Map<u32, u32>, port: GpioPort, pin: u8, af: u8) -> bool {
    &&& pair_of(words[port.reg(MODER)], pin) == 0b10
    &&& pair_of(words[port.reg(OSPEEDR)], pin) == 0b11
    &&& pair_of(words[port.reg(PUPDR)], pin) == 0
    &&& nibble_of(words[port.af_reg(pin)], pin) == af % 16
}

/// Whether every routing field of `pin` of `port` is the same in both.
pub open spec fn same_routing(
    before: Map<u32, u32>,
    after: Map<u32, u32>,
    port: GpioPort,
    pin: u8,
) -> bool {
    &&& pair_of(after[port.reg(MODER)], pin) == pair_of(before[port.reg(MODER)], pin)
    &&& pair_of(after[port.reg(OSPEEDR)], pin) == pair_of(before[port.reg(OSPEEDR)], pin)
    &&& pair_of(after[port.reg(PUPDR)], pin) == pair_of(before[port.reg(PUPDR)], pin)
    &&& nibble_of(after[port.af_reg(pin)], pin) == nibble_of(before[port.af_reg(pin)], pin)
}

/// Whether `pin` of `port` is routed to `af` if it is one of `pins`, and as it was
/// otherwise.
pub open spec fn routed_if_listed(
    before: Map<u32, u32>,
    after: Map<u32, u32>,
    port: GpioPort,
    pins: Seq<u8>,
    pin: u8,
    af: u8,
) -> bool {
    if pins.contains(pin) {
        routed(after, port, pin, af)
    } else {
        same_routing(before, after, port, pin)
    }
}

proof fn lemma_run_pin(board: Board, port: GpioPort, pin: u8, af: u8)
    requires
        pin < 16,
    ensures
        ({
            let after = board.run(gpio::pin_ops(port, pin, af));
            &&& after.hw == (Hardware { words: after.hw.words, ..board.hw })
            &&& forall|addr: u32|
                !is_routing_register(port, addr) ==> #[trigger] after.hw.words[addr]
                    == board.hw.words[addr]
            &&& forall|other: u8|
                other < 16 ==> #[trigger] routed_if_listed(
                    board.hw.words,
                    after.hw.words,
                    port,
                    seq![pin],
                    other,
                    af,
                )
        }),
{
    let af_value = (af % 16) as u32;
    let a = gpio::rmw_ops(port.reg(MODER), gpio::pair(pin, 0b11), gpio::pair(pin, 0b10));
    let b = gpio::rmw_ops(port.reg(OSPEEDR), gpio::pair(pin, 0b11), gpio::pair(pin, 0b11));
    let c = gpio::rmw_ops(port.reg(PUPDR), gpio::pair(pin, 0b11), 0);
    let d = gpio::rmw_ops(port.af_reg(pin), gpio::nibble(pin, 0xF), gpio::nibble(pin, af_value));
    model::lemma_run_concat(board, a + b + c, d);
    model::lemma_run_concat(board, a + b, c);
    model::lemma_run_concat(board, a, b);
    rmw_changes_the_named_bits(
        board,
        port.reg(MODER),
        gpio::pair(pin, 0b11),
        gpio::pair(pin, 0b10),
    );
    rmw_changes_the_named_bits(
        board.run(a),
        port.reg(OSPEEDR),
        gpio::pair(pin, 0b11),
        gpio::pair(pin, 0b11),
    );
    rmw_changes_the_named_bits(board.run(a).run(b), port.reg(PUPDR), gpio::pair(pin, 0b11), 0);
    rmw_changes_the_named_bits(
        board.run(a).run(b).run(c),
        port.af_reg(pin),
        gpio::nibble(pin, 0xF),
        gpio::nibble(pin, af_value),
    );
    assert(0u32 << (pin * 2) == 0) by (bit_vector);
    assert(gpio::pair(pin, 0) == 0);
    let after = board.run(gpio::pin_ops(port, pin, af));
    assert forall|other: u8| other < 16 implies #[trigger] routed_if_listed(
        board.hw.words,
        after.hw.words,
        port,
        seq![pin],
        other,
        af,
    ) by {
        assert(seq![pin][0] == pin);
        lemma_pair(board.hw.words[port.reg(MODER)], pin, other, 0b10);
        lemma_pair(board.hw.words[port.reg(OSPEEDR)], pin, other, 0b11);
        lemma_pair(board.hw.words[port.reg(PUPDR)], pin, other, 0);
        lemma_nibble(board.hw.words[port.af_reg(pin)], pin, other, af_value);
    }
}

/// `set_gpio_af` routes each of the pins that it is given, leaves every other pin
/// of the port as it was, and touches no other register and nothing else.
pub proof fn set_gpio_af_routes_exactly_its_pins(
    board: Board,
    port: GpioPort,
    pins: Seq<u8>,
    af: u8,
)
    requires
        forall|i: int| 0 <= i < pins.len() ==> pins[i] < 16,
    ensures
        ({
            let after = board.run(gpio::af_ops(port, pins, af));
            &&& after.hw == (Hardware { words: after.hw.words, ..board.hw })
            &&& forall|addr: u32|
                !is_routing_register(port, addr) ==> #[trigger] after.hw.words[addr]
                    == board.hw.words[addr]
            &&& forall|pin: u8|
                pin < 16 ==> #[trigger] routed_if_listed(
                    board.hw.words,
                    after.hw.words,
                    port,
                    pins,
                    pin,
                    af,
                )
        }),
    decreases pins.len(),
{
    if pins.len() > 0 {
        let most = pins.drop_last();
        let last = pins.last();
        assert forall|i: int| 0 <= i < most.len() implies most[i] < 16 by {
            assert(most[i] == pins[i]);
        }
        set_gpio_af_routes_exactly_its_pins(board, port, most, af);
        let middle = board.run(gpio::af_ops(port, most, af));
        model::lemma_run_concat(board, gpio::af_ops(port, most, af), gpio::pin_ops(port, last, af));
        lemma_run_pin(middle, port, last, af);
        let after = board.run(gpio::af_ops(port, pins, af));
        assert forall|pin: u8| pin < 16 implies #[trigger] routed_if_listed(
            board.hw.words,
            after.hw.words,
            port,
            pins,
            pin,
            af,
        ) by {
            assert(routed_if_listed(board.hw.words, middle.hw.words, port, most, pin, af));
            assert(routed_if_listed(middle.hw.words, after.hw.words, port, seq![last], pin, af));
            assert(pins =~= most.push(last));
            assert(seq![last][0] == last);
            assert(pins.contains(pin) <==> most.contains(pin) || pin == last) by {
                broadcast use vstd::seq_lib::group_seq_properties;

            }
        }
    }
}

proof fn lemma_run_widen(board: Board)
    ensures
        ({
            let word = board.hw.words[FMC_BCR1];
            let off = word & 0xFFFF_FFFE;
            let wide = (word & 0xFFFF_FFCF) | 0x11;
            let after = board.run(fmc::widen_ops());
            &&& board.run(fmc::widen_ops().take(3)).hw.words[FMC_BCR1] == off
            &&& after.hw.words[FMC_BCR1] == wide
            &&& after.hw == (Hardware { words: after.hw.words, ..board.hw })
            &&& forall|addr: u32|
                addr != FMC_BCR1 ==> #[trigger] after.hw.words[addr] == board.hw.words[addr]
        }),
{
    let list = fmc::widen_ops();
    let word = board.hw.words[FMC_BCR1];
    assert((word & 0xFFFF_FFFE) | 0 == word & 0xFFFF_FFFE) by (bit_vector);
    assert(list.take(0) =~= Seq::<Op>::empty());
    assert(list.take(5) =~= list);
    model::lemma_run_prefix(board, list, 0);
    model::lemma_run_prefix(board, list, 1);
    model::lemma_run_prefix(board, list, 2);
    model::lemma_run_prefix(board, list, 3);
    model::lemma_run_prefix(board, list, 4);
}

/// `widen_fmc_bcr1` leaves the bank enabled (`MBKEN`, bit 0) and 16 bits wide
/// (`MWID`, bits 4 and 5, at 01) with every other bit as it was, and touches
/// nothing else. When the new width is stored the bank is disabled.
pub proof fn bus_width_changes_while_the_bank_is_off(board: Board)
    ensures
        ({
            let before = board.hw.words[FMC_BCR1];
            let middle = board.run(fmc::widen_ops().take(3)).hw.words[FMC_BCR1];
            let after = board.run(fmc::widen_ops());
            let word = after.hw.words[FMC_BCR1];
            &&& middle & 1 == 0
            &&& (middle >> 1) == (before >> 1)
            &&& word & 1 == 1
            &&& (word >> 4) & 0b11 == 0b01
            &&& word & !0x31 == before & !0x31
            &&& after.hw == (Hardware { words: after.hw.words, ..board.hw })
            &&& forall|addr: u32|
                addr != FMC_BCR1 ==> #[trigger] after.hw.words[addr] == board.hw.words[addr]
        }),
{
    lemma_run_widen(board);
    let before = board.hw.words[FMC_BCR1];
    assert((before & 0xFFFF_FFFE) & 1 == 0) by (bit_vector);
    assert((before & 0xFFFF_FFFE) >> 1 == before >> 1) by (bit_vector);
    assert(((before & 0xFFFF_FFCF) | 0x11) & 1 == 1) by (bit_vector);
    assert((((before & 0xFFFF_FFCF) | 0x11) >> 4) & 0b11 == 0b01) by (bit_vector);
    assert(((before & 0xFFFF_FFCF) | 0x11) & !0x31 == before & !0x31) by (bit_vector);
}

/// Whether `addr` is one of the MPU registers.
pub open spec fn is_mpu_register(addr: u32) -> bool {
    ||| addr == MPU_NS_CTRL
    ||| addr == MPU_NS_RNR
    ||| addr == MPU_NS_RBAR
    ||| addr == MPU_NS_RLAR
    ||| addr == MPU_NS_MAIR0
}

/// Whether the MPU maps the whole FMC bank, `0x6000_0000` to `0x6FFF_FFFF`, as
/// Device-nGnRnE in `region`: the region's base and limit are the bank's, it uses
/// attribute 3, attribute 3 is 0x00, it is read/write at any privilege, never
/// executed and not shareable, the reserved bit of its limit is clear, and region and MPU are enabled. Attributes 0
/// to 2 and the other bits of the control register are as in `before`.
pub open spec fn bank_is_device(before: Map<u32, u32>, after: Map<u32, u32>, region: u8) -> bool {
    &&& after[MPU_NS_RNR] == region
    &&& after[MPU_NS_RBAR] & !0x1F == 0x6000_0000
    &&& after[MPU_NS_RLAR] | 0x1F == 0x6FFF_FFFF
    &&& (after[MPU_NS_RBAR] >> 1) & 0b11 == 0b01
    &&& (after[MPU_NS_RBAR] >> 3) & 0b11 == 0
    &&& after[MPU_NS_RBAR] & 1 == 1
    &&& (after[MPU_NS_RLAR] >> 1) & 0b111 == 3
    &&& (after[MPU_NS_RLAR] >> 4) & 1 == 0
    &&& after[MPU_NS_RLAR] & 1 == 1
    &&& after[MPU_NS_MAIR0] >> 24 == 0
    &&& after[MPU_NS_MAIR0] & 0x00FF_FFFF == before[MPU_NS_MAIR0] & 0x00FF_FFFF
    &&& after[MPU_NS_CTRL] & 1 == 1
    &&& after[MPU_NS_CTRL] >> 1 == before[MPU_NS_CTRL] >> 1
}

proof fn lemma_run_map(board: Board, region: u8)
    ensures
        ({
            let after = board.run(fmc::map_ops(region));
            let off = board.hw.words[MPU_NS_CTRL] & 0xFFFF_FFFE;
            &&& after.hw == (Hardware { words: after.hw.words, ..board.hw })
            &&& after.hw.words[MPU_NS_RNR] == region
            &&& after.hw.words[MPU_NS_RBAR] == 0x6000_0003
            &&& after.hw.words[MPU_NS_RLAR] == 0x6FFF_FFE7
            &&& after.hw.words[MPU_NS_MAIR0] == board.hw.words[MPU_NS_MAIR0] & 0x00FF_FFFF
            &&& after.hw.words[MPU_NS_CTRL] == board.hw.words[MPU_NS_CTRL] | 1
            &&& forall|addr: u32|
                !is_mpu_register(addr) ==> #[trigger] after.hw.words[addr] == board.hw.words[addr]
            &&& forall|count: int|
                2 <= count <= 9 ==> (#[trigger] board.run(
                    fmc::map_ops(region).take(count),
                )).hw.words[MPU_NS_CTRL] == off
        }),
{
    let list = fmc::map_ops(region);
    let ctrl = board.hw.words[MPU_NS_CTRL];
    let mair0 = board.hw.words[MPU_NS_MAIR0];
    assert((ctrl & 0xFFFF_FFFE) | 0 == ctrl & 0xFFFF_FFFE) by (bit_vector);
    assert((mair0 & 0x00FF_FFFF) | 0 == mair0 & 0x00FF_FFFF) by (bit_vector);
    assert((ctrl & 0xFFFF_FFFF) | 1 == ctrl | 1) by (bit_vector);
    assert(list.take(0) =~= Seq::<Op>::empty());
    assert(list.take(12) =~= list);
    model::lemma_run_prefix(board, list, 0);
    model::lemma_run_prefix(board, list, 1);
    model::lemma_run_prefix(board, list, 2);
    model::lemma_run_prefix(board, list, 3);
    model::lemma_run_prefix(board, list, 4);
    model::lemma_run_prefix(board, list, 5);
    model::lemma_run_prefix(board, list, 6);
    model::lemma_run_prefix(board, list, 7);
    model::lemma_run_prefix(board, list, 8);
    model::lemma_run_prefix(board, list, 9);
    model::lemma_run_prefix(board, list, 10);
    model::lemma_run_prefix(board, list, 11);
}

/// `map_fmc_bank_device` maps the bank as Device memory and touches nothing but
/// the MPU. From before its attributes and regions change until after, the MPU is
/// off.
pub proof fn mpu_maps_the_bank_while_it_is_off(board: Board, region: u8)
    ensures
        ({
            let after = board.run(fmc::map_ops(region));
            &&& bank_is_device(board.hw.words, after.hw.words, region)
            &&& after.hw == (Hardware { words: after.hw.words, ..board.hw })
            &&& forall|addr: u32|
                !is_mpu_register(addr) ==> #[trigger] after.hw.words[addr] == board.hw.words[addr]
            &&& forall|count: int|
                0 <= count < fmc::map_ops(region).len() && (model::stores_to(
                    #[trigger] fmc::map_ops(region)[count],
                ) matches Some(addr) && addr != MPU_NS_CTRL) ==> board.run(
                    fmc::map_ops(region).take(count),
                ).hw.words[MPU_NS_CTRL] & 1 == 0
        }),
{
    lemma_run_map(board, region);
    let ctrl = board.hw.words[MPU_NS_CTRL];
    let mair0 = board.hw.words[MPU_NS_MAIR0];
    assert((ctrl & 0xFFFF_FFFE) & 1 == 0) by (bit_vector);
    assert((ctrl | 1) & 1 == 1 && (ctrl | 1) >> 1 == ctrl >> 1) by (bit_vector);
    assert((mair0 & 0x00FF_FFFF) >> 24 == 0 && (mair0 & 0x00FF_FFFF) & 0x00FF_FFFF == mair0
        & 0x00FF_FFFF) by (bit_vector);
    assert(0x6000_0003u32 & !0x1F == 0x6000_0000 && (0x6000_0003u32 >> 1) & 0b11 == 0b01
        && (0x6000_0003u32 >> 3) & 0b11 == 0 && 0x6000_0003u32 & 1 == 1) by (bit_vector);
    assert(0x6FFF_FFE7u32 | 0x1F == 0x6FFF_FFFF && (0x6FFF_FFE7u32 >> 1) & 0b111 == 3
        && (0x6FFF_FFE7u32 >> 4) & 1 == 0 && 0x6FFF_FFE7u32 & 1 == 1) by (bit_vector);
}

/// Whether `addr` is a register that the set-up of the memory controller stores to.
pub open spec fn is_setup_register(addr: u32) -> bool {
    ||| is_routing_register(GpioPort::D, addr)
    ||| is_routing_register(GpioPort::E, addr)
    ||| addr == FMC_BCR1
    ||| is_mpu_register(addr)
}

/// Whether `after` has the FMC bank ready for the panel where `before` is what the
/// registers held at first: exactly the panel's pins are routed to the FMC, the
/// bank is 16 bits wide and enabled, and it is Device memory if a region is given;
/// with `None` the MPU is as it was. Every other register, and every other bit of
/// these, is as before.
pub open spec fn bank_is_ready(
    before: Map<u32, u32>,
    after: Map<u32, u32>,
    mpu_ns_region: Option<u8>,
) -> bool {
    &&& forall|pin: u8|
        pin < 16 ==> #[trigger] routed_if_listed(
            before,
            after,
            GpioPort::D,
            fmc::port_d_pins(),
            pin,
            FMC_AF,
        )
    &&& forall|pin: u8|
        pin < 16 ==> #[trigger] routed_if_listed(
            before,
            after,
            GpioPort::E,
            fmc::port_e_pins(),
            pin,
            FMC_AF,
        )
    &&& after[FMC_BCR1] & 1 == 1
    &&& (after[FMC_BCR1] >> 4) & 0b11 == 0b01
    &&& after[FMC_BCR1] & !0x31 == before[FMC_BCR1] & !0x31
    &&& match mpu_ns_region {
        Some(region) => bank_is_device(before, after, region),
        None => forall|addr: u32|
            is_mpu_register(addr) ==> #[trigger] after[addr] == before[addr],
    }
    &&& forall|addr: u32| !is_setup_register(addr) ==> #[trigger] after[addr] == before[addr]
}

/// `configure_fmc_bus` switches the FSMC clock on and leaves the bank ready. It
/// touches nothing else: no other bit of the clock register, neither line, and
/// nothing is sent to the panel.
pub proof fn configure_fmc_bus_sets_up_the_bank(board: Board, mpu_ns_region: Option<u8>)
    ensures
        ({
            let after = board.run(fmc::fmc_ops(mpu_ns_region));
            &&& after.hw == (Hardware {
                words: after.hw.words,
                clocks: ops::clocks_with_fsmc(board.hw.clocks),
                ..board.hw
            })
            &&& bank_is_ready(board.hw.words, after.hw.words, mpu_ns_region)
        }),
{
    let clock = seq![Op::LoadClocks, Op::StoreClocks, Op::Dsb];
    let d = gpio::af_ops(GpioPort::D, fmc::port_d_pins(), FMC_AF);
    let e = gpio::af_ops(GpioPort::E, fmc::port_e_pins(), FMC_AF);
    let barriers = seq![Op::Dsb, Op::Isb];
    let widen = fmc::widen_ops();
    let map = match mpu_ns_region {
        Some(region) => fmc::map_ops(region),
        None => Seq::empty(),
    };
    model::lemma_run_concat(board, clock + d + e + barriers + widen, map);
    model::lemma_run_concat(board, clock + d + e + barriers, widen);
    model::lemma_run_concat(board, clock + d + e, barriers);
    model::lemma_run_concat(board, clock + d, e);
    model::lemma_run_concat(board, clock, d);

    assert(clock.take(0) =~= Seq::<Op>::empty());
    assert(clock.take(3) =~= clock);
    model::lemma_run_prefix(board, clock, 0);
    model::lemma_run_prefix(board, clock, 1);
    model::lemma_run_prefix(board, clock, 2);
    let b1 = board.run(clock);
    assert(b1.hw == (Hardware { clocks: ops::clocks_with_fsmc(board.hw.clocks), ..board.hw }));

    let b2 = b1.run(d);
    set_gpio_af_routes_exactly_its_pins(b1, GpioPort::D, fmc::port_d_pins(), FMC_AF);
    let b3 = b2.run(e);
    set_gpio_af_routes_exactly_its_pins(b2, GpioPort::E, fmc::port_e_pins(), FMC_AF);

    assert(barriers.take(0) =~= Seq::<Op>::empty());
    assert(barriers.take(2) =~= barriers);
    model::lemma_run_prefix(b3, barriers, 0);
    model::lemma_run_prefix(b3, barriers, 1);
    let b4 = b3.run(barriers);
    assert(b4.hw == b3.hw);

    let b5 = b4.run(widen);
    bus_width_changes_while_the_bank_is_off(b4);
    let b6 = b5.run(map);
    if let Some(region) = mpu_ns_region {
        mpu_maps_the_bank_while_it_is_off(b5, region);
    }
    assert(b6 == board.run(fmc::fmc_ops(mpu_ns_region)));
    assert forall|pin: u8| pin < 16 implies #[trigger] routed_if_listed(
        board.hw.words,
        b6.hw.words,
        GpioPort::D,
        fmc::port_d_pins(),
        pin,
        FMC_AF,
    ) by {
        assert(routed_if_listed(
            b1.hw.words,
            b2.hw.words,
            GpioPort::D,
            fmc::port_d_pins(),
            pin,
            FMC_AF,
        ));
    }
    assert forall|pin: u8| pin < 16 implies #[trigger] routed_if_listed(
        board.hw.words,
        b6.hw.words,
        GpioPort::E,
        fmc::port_e_pins(),
        pin,
        FMC_AF,
    ) by {
        assert(routed_if_listed(
            b2.hw.words,
            b3.hw.words,
            GpioPort::E,
            fmc::port_e_pins(),
            pin,
            FMC_AF,
        ));
    }
}

/// The reset line's pin, `PE11`, is never given to the FMC: the set-up leaves its
/// routing as it was.
pub proof fn reset_pin_is_not_routed(board: Board, mpu_ns_region: Option<u8>)
    ensures
        same_routing(
            board.hw.words,
            board.run(fmc::fmc_ops(mpu_ns_region)).hw.words,
            GpioPort::E,
            11,
        ),
{
    configure_fmc_bus_sets_up_the_bank(board, mpu_ns_region);
    assert(routed_if_listed(
        board.hw.words,
        board.run(fmc::fmc_ops(mpu_ns_region)).hw.words,
        GpioPort::E,
        fmc::port_e_pins(),
        11,
        FMC_AF,
    ));
}

/// The bit of `pin` in a register with one bit a pin.
pub open spec fn bit_of(word: u32, pin: u8) -> u32 {
    (word >> pin) & 1
}

/// Whether the pin of `line` is a push-pull output of `speed` at `level`, without a
/// pull resistor.
pub open spec fn is_output(words: Map<u32, u32>, line: Line, level: Level, speed: Speed) -> bool {
    let pin = model::line_pin(line);
    &&& pair_of(words[model::line_reg(line, MODER)], pin) == 0b01
    &&& pair_of(words[model::line_reg(line, OSPEEDR)], pin) == model::speed_bits(speed)
    &&& pair_of(words[model::line_reg(line, PUPDR)], pin) == 0
    &&& bit_of(words[model::line_reg(line, OTYPER)], pin) == 0
    &&& bit_of(words[model::line_reg(line, ODR)], pin) == if level == Level::High {
        1u32
    } else {
        0
    }
}

/// Whether every output field of `pin` on the port of `line` is the same in both.
pub open spec fn same_output(
    before: Map<u32, u32>,
    after: Map<u32, u32>,
    line: Line,
    pin: u8,
) -> bool {
    let moder = model::line_reg(line, MODER);
    let ospeedr = model::line_reg(line, OSPEEDR);
    let pupdr = model::line_reg(line, PUPDR);
    let otyper = model::line_reg(line, OTYPER);
    let odr = model::line_reg(line, ODR);
    &&& pair_of(after[moder], pin) == pair_of(before[moder], pin)
    &&& pair_of(after[ospeedr], pin) == pair_of(before[ospeedr], pin)
    &&& pair_of(after[pupdr], pin) == pair_of(before[pupdr], pin)
    &&& bit_of(after[otyper], pin) == bit_of(before[otyper], pin)
    &&& bit_of(after[odr], pin) == bit_of(before[odr], pin)
}

/// Whether `addr` is one of the registers that make a pin on the port of `line` an
/// output and set its level.
pub open spec fn is_output_register(line: Line, addr: u32) -> bool {
    ||| addr == model::line_reg(line, MODER)
    ||| addr == model::line_reg(line, OTYPER)
    ||| addr == model::line_reg(line, OSPEEDR)
    ||| addr == model::line_reg(line, PUPDR)
    ||| addr == model::line_reg(line, ODR)
}

/// Whether all that `after` has other than `before` is that the pin of `line` is an
/// output of `speed` at `level`.
pub open spec fn became_output(
    before: Map<u32, u32>,
    after: Map<u32, u32>,
    line: Line,
    level: Level,
    speed: Speed,
) -> bool {
    &&& is_output(after, line, level, speed)
    &&& forall|pin: u8|
        pin < 16 && pin != model::line_pin(line) ==> #[trigger] same_output(
            before,
            after,
            line,
            pin,
        )
    &&& forall|addr: u32|
        !is_output_register(line, addr) ==> #[trigger] after[addr] == before[addr]
}

proof fn lemma_bit(word: u32, pin: u8, other: u8, set: bool)
    requires
        pin < 16,
        other < 16,
    ensures
        bit_of(model::with_bit(word, pin, set), other) == if pin == other {
            if set {
                1u32
            } else {
                0
            }
        } else {
            bit_of(word, other)
        },
{
    assert(((word | (1u32 << pin)) >> other) & 1 == if pin == other {
        1
    } else {
        (word >> other) & 1
    }) by (bit_vector)
        requires
            pin < 16,
            other < 16,
    ;
    assert(((word & !(1u32 << pin)) >> other) & 1 == if pin == other {
        0
    } else {
        (word >> other) & 1
    }) by (bit_vector)
        requires
            pin < 16,
            other < 16,
    ;
}

/// Making a line an output changes the fields of its pin, and no other register
/// bit.
pub proof fn output_changes_only_its_pin(hw: Hardware, line: Line, level: Level, speed: Speed)
    ensures
        became_output(
            hw.words,
            hw.after(Action::Output { line, level, speed }).words,
            line,
            level,
            speed,
        ),
{
    let before = hw.words;
    let after = hw.after(Action::Output { line, level, speed }).words;
    let pin = model::line_pin(line);
    let moder = before[model::line_reg(line, MODER)];
    let ospeedr = before[model::line_reg(line, OSPEEDR)];
    let pupdr = before[model::line_reg(line, PUPDR)];
    let otyper = before[model::line_reg(line, OTYPER)];
    let odr = before[model::line_reg(line, ODR)];
    lemma_pair(moder, pin, pin, 0b01);
    lemma_pair(ospeedr, pin, pin, model::speed_bits(speed));
    lemma_pair(pupdr, pin, pin, 0b00);
    lemma_bit(otyper, pin, pin, false);
    lemma_bit(odr, pin, pin, level == Level::High);
    assert forall|other: u8| other < 16 && other != pin implies #[trigger] same_output(
        before,
        after,
        line,
        other,
    ) by {
        lemma_pair(moder, pin, other, 0b01);
        lemma_pair(ospeedr, pin, other, model::speed_bits(speed));
        lemma_pair(pupdr, pin, other, 0b00);
        lemma_bit(otyper, pin, other, false);
        lemma_bit(odr, pin, other, level == Level::High);
    }
}

/// Driving a line that is an output leaves it one, at the new level, and changes no
/// other register bit.
pub proof fn drive_changes_only_the_level(
    before: Map<u32, u32>,
    hw: Hardware,
    line: Line,
    old_level: Level,
    level: Level,
    speed: Speed,
)
    requires
        became_output(before, hw.words, line, old_level, speed),
    ensures
        became_output(
            before,
            hw.after(Action::Drive { line, level }).words,
            line,
            level,
            speed,
        ),
{
    let after = hw.after(Action::Drive { line, level }).words;
    let pin = model::line_pin(line);
    let odr = hw.words[model::line_reg(line, ODR)];
    lemma_bit(odr, pin, pin, level == Level::High);
    assert forall|other: u8| other < 16 && other != pin implies #[trigger] same_output(
        before,
        after,
        line,
        other,
    ) by {
        assert(same_output(before, hw.words, line, other));
        lemma_bit(odr, pin, other, level == Level::High);
    }
}

} // verus!
