use riverdi_rva35hi_stm32u5_embassy::builder::{PB8, PD7, PE11, PE4};
use riverdi_rva35hi_stm32u5_embassy::bus::{FmcBus, FMC_CMD, FMC_DATA};
use riverdi_rva35hi_stm32u5_embassy::fmc::{
    configure_fmc_bus, map_fmc_bank_device, widen_fmc_bcr1, FMC_BCR1, MPU_NS_CTRL, MPU_NS_MAIR0,
    MPU_NS_RBAR, MPU_NS_RLAR, MPU_NS_RNR,
};
use riverdi_rva35hi_stm32u5_embassy::gpio::{rmw, set_gpio_af, GpioPort};
use riverdi_rva35hi_stm32u5_embassy::init::run_init_sequence;
use riverdi_rva35hi_stm32u5_embassy::ops::{Action, Latch, Latches, Level, Line, Op, Speed};
use riverdi_rva35hi_stm32u5_embassy::queue::OpQueue;
use riverdi_rva35hi_stm32u5_embassy::{Display, DisplayBuilder, DisplayPins};
use std::collections::HashMap;

const GPIOD: u32 = 0x4202_0C00;
const GPIOE: u32 = 0x4202_1000;

fn pins() -> DisplayPins {
    DisplayPins { dc: PE4, rst: PE11, bl: PB8, cs: PD7 }
}

/// Registers that hold what was stored, and a record of the actions.
struct Board {
    words: HashMap<u32, u32>,
    clocks: u32,
    log: Vec<Action>,
}

impl Board {
    fn new() -> Board {
        Board { words: HashMap::new(), clocks: 0xA5A5_A5A4, log: Vec::new() }
    }

    fn word(&self, addr: u32) -> u32 {
        // Any word will do for a register that was not stored to.
        self.words.get(&addr).copied().unwrap_or(initial(addr))
    }

    fn perform(&mut self, action: Action) -> u32 {
        self.log.push(action);
        match action {
            Action::ReadWord { addr } => self.word(addr),
            Action::WriteWord { addr, value } => {
                self.words.insert(addr, value);
                0xDEAD_BEEF
            }
            Action::ReadClocks => self.clocks,
            Action::WriteClocks { value } => {
                self.clocks = value;
                0xDEAD_BEEF
            }
            _ => 0xDEAD_BEEF,
        }
    }

    fn run_display(&mut self, display: &mut Display) {
        let mut word = 0;
        while let Some(action) = display.resume(word) {
            word = self.perform(action);
        }
    }

    fn run_queue(&mut self, queue: &mut OpQueue) {
        let mut word = 0;
        while let Some(action) = queue.resume(word) {
            word = self.perform(action);
        }
    }
}

fn initial(addr: u32) -> u32 {
    addr.wrapping_mul(0x9E37_79B9) ^ 0x5A5A_1234
}

fn pair(word: u32, pin: u32) -> u32 {
    (word >> (2 * pin)) & 3
}

fn nibble(board: &Board, base: u32, pin: u32) -> u32 {
    let reg = if pin < 8 { base + 0x20 } else { base + 0x24 };
    (board.word(reg) >> (4 * (pin % 8))) & 0xF
}

fn nibble_before(base: u32, pin: u32) -> u32 {
    let reg = if pin < 8 { base + 0x20 } else { base + 0x24 };
    (initial(reg) >> (4 * (pin % 8))) & 0xF
}

fn check_port(board: &Board, base: u32, routed: &[u32], af: u32) {
    for pin in 0..16 {
        if routed.contains(&pin) {
            assert_eq!(pair(board.word(base), pin), 0b10);
            assert_eq!(pair(board.word(base + 0x08), pin), 0b11);
            assert_eq!(pair(board.word(base + 0x0C), pin), 0);
            assert_eq!(nibble(board, base, pin), af);
        } else {
            for offset in [0, 0x08, 0x0C] {
                assert_eq!(pair(board.word(base + offset), pin), pair(initial(base + offset), pin));
            }
            assert_eq!(nibble(board, base, pin), nibble_before(base, pin));
        }
    }
}

fn messages(log: &[Action]) -> Vec<(u8, Vec<u8>)> {
    let mut list: Vec<(u8, Vec<u8>)> = Vec::new();
    for action in log {
        if let Action::WriteHalfword { addr, value } = *action {
            if addr == FMC_CMD {
                list.push((value as u8, Vec::new()));
            } else {
                assert_eq!(addr, FMC_DATA);
                list.last_mut().unwrap().1.push(value as u8);
            }
        }
    }
    list
}

fn expected_messages() -> Vec<(u8, Vec<u8>)> {
    vec![
        (
            0xE0,
            vec![
                0x00, 0x10, 0x14, 0x01, 0x0E, 0x04, 0x33, 0x56, 0x48, 0x03, 0x0C, 0x0B, 0x2B, 0x34,
                0x0F,
            ],
        ),
        (
            0xE1,
            vec![
                0x00, 0x12, 0x18, 0x05, 0x12, 0x06, 0x40, 0x34, 0x57, 0x06, 0x10, 0x0C, 0x3B, 0x3F,
                0x0F,
            ],
        ),
        (0xC0, vec![0x0F, 0x0C]),
        (0xC1, vec![0x41]),
        (0xC5, vec![0x00, 0x25, 0x80]),
        (0x36, vec![0x7A]),
        (0x3A, vec![0x55]),
        (0xB0, vec![0x00]),
        (0xB1, vec![0xA0]),
        (0xB4, vec![0x02]),
        (0xB6, vec![0x02, 0x22]),
        (0x21, vec![]),
        (0x11, vec![]),
        (0x35, vec![0x00]),
        (0x29, vec![]),
    ]
}

fn delays(log: &[Action]) -> Vec<u32> {
    let mut list = Vec::new();
    for action in log {
        if let Action::Delay { cycles } = *action {
            list.push(cycles);
        }
    }
    list
}

fn touches_mpu(action: &Action) -> bool {
    match *action {
        Action::ReadWord { addr } | Action::WriteWord { addr, .. } => {
            (0xE000_ED90..=0xE000_EDC4).contains(&addr)
        }
        _ => false,
    }
}

#[test]
fn bring_up_begins_with_backlight_and_reset_pulse() {
    let mut board = Board::new();
    board.run_display(&mut Display::new(pins()));
    let line = |line: Line, level: Level| Action::Drive { line, level };
    assert_eq!(
        board.log[..12],
        [
            Action::Output { line: Line::Backlight, level: Level::High, speed: Speed::Low },
            line(Line::Backlight, Level::High),
            Action::Output { line: Line::Reset, level: Level::High, speed: Speed::Low },
            line(Line::Reset, Level::High),
            Action::Delay { cycles: 400_000 },
            line(Line::Reset, Level::Low),
            Action::Delay { cycles: 400_000 },
            line(Line::Reset, Level::High),
            Action::Delay { cycles: 480_000 },
            Action::Keep { line: Line::Reset },
            Action::ReadClocks,
            Action::WriteClocks { value: 0xA5A5_A5A5 },
        ]
    );
    // Neither line is touched again.
    for action in &board.log[10..] {
        assert!(!matches!(
            action,
            Action::Drive { .. } | Action::Output { .. } | Action::Keep { .. }
        ));
    }
}

#[test]
fn bring_up_leaves_everything_ready() {
    let mut board = Board::new();
    board.run_display(&mut Display::new(pins()));
    assert_eq!(board.clocks, 0xA5A5_A5A5);
    check_port(&board, GPIOD, &[0, 1, 4, 5, 7, 14, 15], 12);
    check_port(&board, GPIOE, &[4, 7, 8, 9, 10], 12);
    assert_eq!(board.word(FMC_BCR1), (initial(FMC_BCR1) & !0x30) | 0x11);
    assert_eq!(board.word(MPU_NS_RNR), 4);
    assert_eq!(board.word(MPU_NS_RBAR), 0x6000_0003);
    assert_eq!(board.word(MPU_NS_RLAR), 0x6FFF_FFE7);
    assert_eq!(board.word(MPU_NS_MAIR0), initial(MPU_NS_MAIR0) & 0x00FF_FFFF);
    assert_eq!(board.word(MPU_NS_CTRL), initial(MPU_NS_CTRL) | 1);
    assert_eq!(board.words.len(), 16);
    assert_eq!(messages(&board.log), expected_messages());
    assert!(!messages(&board.log).iter().any(|message| message.0 == 0x2C));
    assert_eq!(board.log.last(), Some(&Action::Dsb));
}

#[test]
fn new_is_the_default_builder() {
    let mut a = Board::new();
    let mut b = Board::new();
    a.run_display(&mut Display::new(pins()));
    b.run_display(&mut DisplayBuilder::new(pins()).build());
    assert_eq!(a.log, b.log);
}

#[test]
fn builder_settings_are_independent() {
    let mut a = Board::new();
    let mut b = Board::new();
    a.run_display(&mut DisplayBuilder::new(pins()).hclk_hz(160_000_000).mpu_ns_region(Some(7)).build());
    b.run_display(&mut DisplayBuilder::new(pins()).mpu_ns_region(Some(7)).hclk_hz(160_000_000).build());
    assert_eq!(a.log, b.log);
    assert_eq!(delays(&a.log), [16_000_000, 16_000_000, 19_200_000, 19_200_000]);
    assert_eq!(a.word(MPU_NS_RNR), 7);
}

#[test]
fn delays_follow_the_clock() {
    for (hz, hundred, hundred_twenty) in [
        (0u32, 0u32, 0u32),
        (1, 1, 1),
        (999, 100, 120),
        (1_000, 100, 120),
        (1_500, 150, 180),
        (4_000_000, 400_000, 480_000),
        (4_000_999, 400_100, 480_120),
        (160_000_000, 16_000_000, 19_200_000),
        (u32::MAX, 429_496_730, 515_396_076),
    ] {
        let mut board = Board::new();
        board.run_display(&mut DisplayBuilder::new(pins()).hclk_hz(hz).build());
        assert_eq!(delays(&board.log), [hundred, hundred, hundred_twenty, hundred_twenty]);
    }
}

#[test]
fn without_a_region_the_mpu_is_left_alone() {
    let mut board = Board::new();
    board.run_display(&mut DisplayBuilder::new(pins()).mpu_ns_region(None).build());
    assert!(!board.log.iter().any(touches_mpu));
    assert_eq!(messages(&board.log), expected_messages());
    check_port(&board, GPIOE, &[4, 7, 8, 9, 10], 12);
}

#[test]
fn reset_pin_keeps_its_routing() {
    let mut queue = OpQueue::new();
    configure_fmc_bus(&mut queue, Some(4));
    let mut board = Board::new();
    board.run_queue(&mut queue);
    for offset in [0, 0x08, 0x0C] {
        assert_eq!(pair(board.word(GPIOE + offset), 11), pair(initial(GPIOE + offset), 11));
    }
    assert_eq!(nibble(&board, GPIOE, 11), nibble_before(GPIOE, 11));
}

#[test]
fn set_gpio_af_routes_its_pins() {
    let mut queue = OpQueue::new();
    set_gpio_af(&mut queue, GpioPort::D, &[3, 8, 15], 0x1C);
    let mut board = Board::new();
    board.run_queue(&mut queue);
    check_port(&board, GPIOD, &[3, 8, 15], 0xC);
    assert_eq!(board.words.len(), 5);
    set_gpio_af(&mut queue, GpioPort::E, &[], 12);
    assert_eq!(queue.resume(0), None);
}

#[test]
fn rmw_changes_the_named_bits() {
    let mut queue = OpQueue::new();
    rmw(&mut queue, 0x1000, 0x0000_FF00, 0x0000_1200);
    assert_eq!(queue.resume(0), Some(Action::ReadWord { addr: 0x1000 }));
    assert_eq!(
        queue.resume(0xAABB_CCDD),
        Some(Action::WriteWord { addr: 0x1000, value: 0xAABB_12DD })
    );
    assert_eq!(queue.resume(0), None);
}

#[test]
fn bus_width_changes_while_the_bank_is_off() {
    let mut queue = OpQueue::new();
    widen_fmc_bcr1(&mut queue);
    let mut board = Board::new();
    board.words.insert(FMC_BCR1, 0xFFFF_FFFF);
    board.run_queue(&mut queue);
    assert_eq!(
        board.log,
        [
            Action::ReadWord { addr: 0x420D_0400 },
            Action::WriteWord { addr: 0x420D_0400, value: 0xFFFF_FFFE },
            Action::Dsb,
            Action::WriteWord { addr: 0x420D_0400, value: 0xFFFF_FFDF },
            Action::Dsb,
        ]
    );
}

#[test]
fn mpu_is_off_while_it_changes() {
    let mut queue = OpQueue::new();
    map_fmc_bank_device(&mut queue, 255);
    let mut board = Board::new();
    board.words.insert(MPU_NS_CTRL, 0x5);
    board.words.insert(MPU_NS_MAIR0, 0x4433_2211);
    board.run_queue(&mut queue);
    let write = |addr: u32, value: u32| Action::WriteWord { addr, value };
    assert_eq!(
        board.log,
        [
            Action::ReadWord { addr: 0xE000_ED94 },
            write(0xE000_ED94, 0x4),
            Action::Dsb,
            Action::Isb,
            Action::ReadWord { addr: 0xE000_EDC0 },
            write(0xE000_EDC0, 0x0033_2211),
            write(0xE000_ED98, 255),
            write(0xE000_ED9C, 0x6000_0003),
            write(0xE000_EDA0, 0x6FFF_FFE7),
            write(0xE000_ED94, 0x5),
            Action::Dsb,
            Action::Isb,
        ]
    );
}

#[test]
fn init_sequence_waits_after_sleep_out() {
    let mut queue = OpQueue::new();
    run_init_sequence(&FmcBus, &mut queue, 10);
    let mut board = Board::new();
    board.run_queue(&mut queue);
    assert_eq!(messages(&board.log), expected_messages());
    let wait = board.log.iter().position(|a| *a == Action::Delay { cycles: 1200 }).unwrap();
    assert_eq!(messages(&board.log[..wait]).last().unwrap().0, 0x11);
    assert_eq!(messages(&board.log[wait..]).first().unwrap().0, 0x35);
}

#[test]
fn command_and_data_addresses_differ_in_a20() {
    assert_eq!(FMC_DATA - FMC_CMD, 2 * 1024 * 1024);
    assert_eq!((FMC_CMD ^ FMC_DATA) >> 1, 1 << 20);
}

#[test]
fn fsmc_clock_bit_is_set_and_others_stay() {
    let latches = Latches { work: 0x10, saved: 0 };
    assert_eq!(Op::StoreClocks.resolve(&latches), Action::WriteClocks { value: 0x11 });
    let latches = Latches { work: 0xFFFF_FFFF, saved: 0 };
    assert_eq!(Op::StoreClocks.resolve(&latches), Action::WriteClocks { value: 0xFFFF_FFFF });
}

#[test]
fn queue_latches_words_where_they_belong() {
    let mut queue = OpQueue::new();
    queue.push(Op::Load { addr: 1, latch: Latch::Saved });
    queue.push(Op::Load { addr: 2, latch: Latch::Work });
    queue.push(Op::Store { addr: 3, latch: Latch::Saved, keep: 0xFF, set: 0x100 });
    queue.push(Op::Store { addr: 4, latch: Latch::Work, keep: 0xFFFF_FFFF, set: 0 });
    assert_eq!(queue.resume(99), Some(Action::ReadWord { addr: 1 }));
    assert_eq!(queue.resume(0x1234), Some(Action::ReadWord { addr: 2 }));
    assert_eq!(queue.resume(0x5678), Some(Action::WriteWord { addr: 3, value: 0x134 }));
    assert_eq!(queue.resume(99), Some(Action::WriteWord { addr: 4, value: 0x5678 }));
    assert_eq!(queue.resume(99), None);
    assert_eq!(queue.resume(99), None);
}

#[test]
fn pixels_go_high_byte_first() {
    let mut queue = OpQueue::new();
    FmcBus.fill_pixels(&mut queue, 0x12AB, 2);
    FmcBus.fill_pixels(&mut queue, 0xFFFF, 0);
    FmcBus.data(&mut queue, 7);
    FmcBus.cmd(&mut queue, 8);
    let mut board = Board::new();
    board.run_queue(&mut queue);
    let data = |value: u16| Action::WriteHalfword { addr: FMC_DATA, value };
    let mut expected = Vec::new();
    for action in [
        data(0x12),
        data(0xAB),
        data(0x12),
        data(0xAB),
        data(7),
        Action::WriteHalfword { addr: FMC_CMD, value: 8 },
    ] {
        expected.push(action);
        expected.push(Action::Dsb);
    }
    assert_eq!(board.log, expected);
}
