use riverdi_rva35hi_stm32u5_embassy::builder::{PB8, PD7, PE11, PE4};
use riverdi_rva35hi_stm32u5_embassy::bus::{FMC_CMD, FMC_DATA};
use riverdi_rva35hi_stm32u5_embassy::color::Rgb565;
use riverdi_rva35hi_stm32u5_embassy::geometry::{Pixel, Point, Rectangle, Size};
use riverdi_rva35hi_stm32u5_embassy::ops::Action;
use riverdi_rva35hi_stm32u5_embassy::{Display, DisplayPins, PANEL_H, PANEL_W};
use std::collections::HashMap;

const RED: Rgb565 = Rgb565 { r: 31, g: 0, b: 0 };
const TEAL: Rgb565 = Rgb565 { r: 0, g: 33, b: 17 };

fn pins() -> DisplayPins {
    DisplayPins { dc: PE4, rst: PE11, bl: PB8, cs: PD7 }
}

/// What a controller makes of the bytes on the link.
struct Panel {
    command: u8,
    bytes: Vec<u8>,
    columns: (i32, i32),
    rows: (i32, i32),
    count: i32,
    frame: HashMap<(i32, i32), u16>,
}

impl Panel {
    fn new() -> Panel {
        Panel {
            command: 0,
            bytes: Vec::new(),
            columns: (0, 0),
            rows: (0, 0),
            count: 0,
            frame: HashMap::new(),
        }
    }

    fn receive(&mut self, addr: u32, value: u16) {
        assert!(value < 256);
        let byte = value as u8;
        if addr == FMC_CMD {
            self.command = byte;
            self.bytes.clear();
            self.count = 0;
            return;
        }
        assert_eq!(addr, FMC_DATA);
        self.bytes.push(byte);
        if self.command == 0x2C {
            if self.bytes.len() == 2 {
                let width = self.columns.1 - self.columns.0 + 1;
                let cell = (
                    self.columns.0 + self.count % width,
                    self.rows.0 + self.count / width,
                );
                assert!(cell.1 <= self.rows.1, "more pixels than the window holds");
                self.frame.insert(cell, u16::from_be_bytes([self.bytes[0], self.bytes[1]]));
                self.count += 1;
                self.bytes.clear();
            }
        } else if self.bytes.len() == 4 {
            let first = u16::from_be_bytes([self.bytes[0], self.bytes[1]]) as i32;
            let last = u16::from_be_bytes([self.bytes[2], self.bytes[3]]) as i32;
            if self.command == 0x2A {
                self.columns = (first, last);
            } else if self.command == 0x2B {
                self.rows = (first, last);
            }
        }
    }
}

/// A display whose bring-up was handed out already.
fn ready() -> Display {
    let mut display = Display::new(pins());
    while display.resume(0).is_some() {}
    display
}

/// Hands out everything that is left.
fn actions(display: &mut Display) -> Vec<Action> {
    let mut list = Vec::new();
    while let Some(action) = display.resume(0) {
        list.push(action);
    }
    list
}

/// Plays everything that is left to a panel, and checks that it is bytes with a
/// barrier behind each.
fn play(display: &mut Display, panel: &mut Panel) {
    let list = actions(display);
    let mut i = 0;
    while i < list.len() {
        match list[i] {
            Action::WriteHalfword { addr, value } => {
                panel.receive(addr, value);
                assert_eq!(list[i + 1], Action::Dsb);
            }
            other => panic!("not a bus store: {:?}", other),
        }
        i += 2;
    }
}

fn painted(display: &mut Display) -> HashMap<(i32, i32), u16> {
    let mut panel = Panel::new();
    play(display, &mut panel);
    panel.frame
}

fn cells(x0: i32, y0: i32, x1: i32, y1: i32, color: u16) -> HashMap<(i32, i32), u16> {
    let mut frame = HashMap::new();
    for y in y0..=y1 {
        for x in x0..=x1 {
            frame.insert((x, y), color);
        }
    }
    frame
}

fn rectangle(x: i32, y: i32, width: u32, height: u32) -> Rectangle {
    Rectangle { top_left: Point { x, y }, size: Size { width, height } }
}

fn cmd(value: u16) -> Action {
    Action::WriteHalfword { addr: 0x6000_0000, value }
}

fn data(value: u16) -> Action {
    Action::WriteHalfword { addr: 0x6020_0000, value }
}

#[test]
fn panel_is_480_by_320() {
    let display = ready();
    assert_eq!((PANEL_W, PANEL_H), (480, 320));
    assert_eq!(display.size(), Size { width: 480, height: 320 });
    assert_eq!(display.bounding_box(), rectangle(0, 0, 480, 320));
}

#[test]
fn fill_rect_sends_these_bytes() {
    let mut display = ready();
    display.fill_rect(258, 3, 2, 1, Rgb565 { r: 1, g: 2, b: 3 });
    let bytes = [
        cmd(0x2A), data(1), data(2), data(1), data(3),
        cmd(0x2B), data(0), data(3), data(0), data(3),
        cmd(0x2C), data(0x08), data(0x43), data(0x08), data(0x43),
    ];
    let mut expected = Vec::new();
    for byte in bytes {
        expected.push(byte);
        expected.push(Action::Dsb);
    }
    assert_eq!(actions(&mut display), expected);
    assert_eq!(display.resume(0), None);
}

#[test]
fn clear_paints_every_cell() {
    let mut display = ready();
    display.clear(RED);
    assert_eq!(painted(&mut display), cells(0, 0, 479, 319, 0xF800));
}

#[test]
fn clear_is_a_full_fill_rect_and_a_full_fill_solid() {
    let mut a = ready();
    let mut b = ready();
    let mut c = ready();
    a.clear(TEAL);
    b.fill_rect(0, 0, 480, 320, TEAL);
    assert!(c.fill_solid(&c.bounding_box(), TEAL).is_ok());
    let expected = actions(&mut a);
    assert_eq!(expected.len(), 22 + 4 * 480 * 320);
    assert_eq!(actions(&mut b), expected);
    assert_eq!(actions(&mut c), expected);
}

#[test]
fn fill_rect_paints_the_rectangle() {
    let mut display = ready();
    display.fill_rect(10, 20, 3, 2, TEAL);
    assert_eq!(painted(&mut display), cells(10, 20, 12, 21, (33 << 5) | 17));
}

#[test]
fn fill_rect_is_clamped_to_the_panel() {
    let mut display = ready();
    display.fill_rect(478, 319, 100, 100, RED);
    assert_eq!(painted(&mut display), cells(478, 319, 479, 319, 0xF800));
    display.fill_rect(470, 0, 65535, 1, RED);
    assert_eq!(painted(&mut display), cells(470, 0, 479, 0, 0xF800));
    display.fill_rect(0, 318, 1, 65535, RED);
    assert_eq!(painted(&mut display), cells(0, 318, 0, 319, 0xF800));
}

#[test]
fn fill_rect_off_screen_or_empty_is_a_no_op() {
    let mut display = ready();
    display.fill_rect(480, 0, 1, 1, RED);
    display.fill_rect(0, 320, 1, 1, RED);
    display.fill_rect(5, 5, 0, 7, RED);
    display.fill_rect(5, 5, 7, 0, RED);
    display.fill_rect(65535, 65535, 65535, 65535, RED);
    display.fill_rect(65000, 0, 65000, 1, RED);
    assert_eq!(display.resume(0), None);
}

#[test]
fn fill_solid_paints_the_area() {
    let mut display = ready();
    assert!(display.fill_solid(&rectangle(7, 9, 4, 3), RED).is_ok());
    assert_eq!(painted(&mut display), cells(7, 9, 10, 11, 0xF800));
}

#[test]
fn fill_solid_clips_all_four_sides() {
    let mut display = ready();
    assert!(display.fill_solid(&rectangle(-3, -2, 5, 4), RED).is_ok());
    assert_eq!(painted(&mut display), cells(0, 0, 1, 1, 0xF800));
    assert!(display.fill_solid(&rectangle(477, 318, 10, 10), RED).is_ok());
    assert_eq!(painted(&mut display), cells(477, 318, 479, 319, 0xF800));
    let huge = rectangle(i32::MIN, i32::MIN, i32::MAX as u32, i32::MAX as u32);
    assert!(display.fill_solid(&huge, RED).is_ok());
    assert_eq!(display.resume(0), None);
    let cover = rectangle(-1000, -1000, 5000, 5000);
    assert!(display.fill_solid(&cover, RED).is_ok());
    assert_eq!(painted(&mut display), cells(0, 0, 479, 319, 0xF800));
}

#[test]
fn fill_solid_off_screen_or_empty_is_a_no_op() {
    let mut display = ready();
    assert!(display.fill_solid(&rectangle(480, 0, 5, 5), RED).is_ok());
    assert!(display.fill_solid(&rectangle(0, -5, 5, 5), RED).is_ok());
    assert!(display.fill_solid(&rectangle(10, 10, 0, 5), RED).is_ok());
    assert!(display.fill_solid(&rectangle(10, 10, u32::MAX, 0), RED).is_ok());
    assert_eq!(display.resume(0), None);
}

#[test]
fn far_corner_fits_up_to_the_largest_coordinate() {
    let max = i32::MAX as u32;
    assert!(rectangle(0, 0, max, max).far_corner_fits());
    assert!(rectangle(i32::MIN, i32::MIN, max, max).far_corner_fits());
    assert!(rectangle(i32::MAX - 1, 0, 1, 1).far_corner_fits());
    assert!(!rectangle(i32::MAX, 0, 1, 1).far_corner_fits());
    assert!(!rectangle(0, i32::MAX, 1, 1).far_corner_fits());
    assert!(!rectangle(1, 0, max, 1).far_corner_fits());
    assert!(!rectangle(-5, 0, max + 1, 1).far_corner_fits());
    assert!(!rectangle(0, -5, 1, u32::MAX).far_corner_fits());
    // An empty rectangle has no far corner.
    assert!(rectangle(i32::MAX, i32::MAX, 0, u32::MAX).far_corner_fits());
    assert!(rectangle(i32::MAX, i32::MAX, u32::MAX, 0).far_corner_fits());
}

#[test]
fn fill_rect_and_fill_solid_agree() {
    for (x, y, w, h) in [(0u16, 0u16, 1u16, 1u16), (470, 300, 50, 50), (3, 4, 5, 0), (500, 1, 2, 2)] {
        let mut a = ready();
        let mut b = ready();
        a.fill_rect(x, y, w, h, TEAL);
        let area = rectangle(x as i32, y as i32, w as u32, h as u32);
        assert!(b.fill_solid(&area, TEAL).is_ok());
        assert_eq!(actions(&mut a), actions(&mut b));
    }
}

#[test]
fn draw_iter_paints_pixels_and_skips_those_off_the_panel() {
    let mut display = ready();
    let at = |x: i32, y: i32| Point { x, y };
    let pixels = [
        Pixel(at(0, 0), RED),
        Pixel(at(-1, 5), RED),
        Pixel(at(5, -1), RED),
        Pixel(at(480, 5), RED),
        Pixel(at(5, 320), RED),
        Pixel(at(i32::MIN, i32::MAX), RED),
        Pixel(at(479, 319), RED),
        Pixel(at(0, 0), TEAL),
    ];
    assert!(display.draw_iter(&pixels).is_ok());
    let mut expected = HashMap::new();
    expected.insert((0, 0), (33 << 5) | 17);
    expected.insert((479, 319), 0xF800);
    assert_eq!(painted(&mut display), expected);
}

#[test]
fn draw_iter_can_be_split() {
    let pixels: Vec<Pixel> =
        (-2..6).map(|i| Pixel(Point { x: i * 97, y: i * 71 }, TEAL)).collect();
    let mut whole = ready();
    assert!(whole.draw_iter(&pixels).is_ok());
    let expected = actions(&mut whole);
    let mut parts = ready();
    for pixel in &pixels {
        assert!(parts.draw_iter(&[*pixel]).is_ok());
    }
    assert_eq!(actions(&mut parts), expected);
    assert_eq!(expected.len(), 5 * 26);
}

#[test]
fn fill_solid_paints_what_drawing_every_point_paints() {
    let area = rectangle(475, 316, 9, 9);
    let mut solid = ready();
    assert!(solid.fill_solid(&area, TEAL).is_ok());
    let mut pixels = Vec::new();
    for y in 316..325 {
        for x in 475..484 {
            pixels.push(Pixel(Point { x, y }, TEAL));
        }
    }
    let mut points = ready();
    assert!(points.draw_iter(&pixels).is_ok());
    assert_eq!(painted(&mut solid), painted(&mut points));
}

#[test]
fn colours_are_packed_red_green_blue() {
    let packed = |r: u8, g: u8, b: u8| {
        let mut display = ready();
        display.fill_rect(0, 0, 1, 1, Rgb565 { r, g, b });
        painted(&mut display)[&(0, 0)]
    };
    assert_eq!(packed(31, 0, 0), 0xF800);
    assert_eq!(packed(0, 63, 0), 0x07E0);
    assert_eq!(packed(0, 0, 31), 0x001F);
    assert_eq!(packed(0b10001, 0b100001, 0b10001), 0b10001_100001_10001);
    // Channel bits that do not fit are dropped.
    assert_eq!(packed(33, 65, 34), 0x0822);
}

#[test]
fn drawing_can_be_queued_up() {
    let mut panel = Panel::new();
    let mut display = ready();
    display.fill_rect(0, 0, 4, 4, RED);
    display.fill_rect(1, 1, 2, 2, TEAL);
    play(&mut display, &mut panel);
    let mut expected = cells(0, 0, 3, 3, 0xF800);
    expected.extend(cells(1, 1, 2, 2, (33 << 5) | 17));
    assert_eq!(panel.frame, expected);
}
