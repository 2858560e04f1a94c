//! What is sent to the panel, and when.

use crate::bus;
use crate::bus::{FMC_CMD, FMC_DATA};
use crate::color::Rgb565;
use crate::display;
use crate::geometry::{Pixel, Rectangle};
use crate::laws::drawing;
use crate::model::Panel;
use crate::ops::{Action, Op};
use crate::record;
use crate::record::{Event, Record, Scene};
use vstd::prelude::*;

verus! {

/// `rec` once the panel has become `panel` by bytes that a barrier completed, with
/// `events` and `bytes` on record.
pub open spec fn told(rec: Record, panel: Panel, events: Seq<Event>, bytes: nat) -> Record {
    Record {
        hw: rec.hw.with_panel(panel),
        events,
        bytes,
        completed: true,
        clock_pending: false,
        ..rec
    }
}

/// Whether `other` is `rec` but for what the panel was told since.
pub open spec fn beside(rec: Record, other: Record) -> bool {
    &&& other.hw == rec.hw.with_panel(other.hw.panel)
    &&& other.regions == rec.regions
    &&& other.flushed == rec.flushed
    &&& other.mpu_pending == rec.mpu_pending
    &&& !rec.clock_pending ==> !other.clock_pending
}

/// Whether `rule` lets bytes be sent one at a time from `rec` on.
pub open spec fn takes_bytes(rec: Record, rule: spec_fn(Record, Action) -> bool) -> bool {
    &&& forall|other: Record, addr: u32, value: u16|
        beside(rec, other) && other.completed && (addr == FMC_CMD || addr == FMC_DATA) && value
            < 256 ==> #[trigger] rule(other, Action::WriteHalfword { addr, value })
    &&& forall|other: Record| beside(rec, other) ==> #[trigger] rule(other, Action::Dsb)
}

/// A command is received as that command, at once, and nothing else happens.
pub proof fn cmd_sends_the_command(
    scene: Scene,
    code: u8,
    rule: spec_fn(Record, Action) -> bool,
)
    ensures
        scene.run(bus::cmd_ops(code)) == (Scene {
            rec: told(
                scene.rec,
                scene.rec.hw.panel.select(code),
                scene.rec.events.push(Event::Command { code, at: scene.rec.hw.cycles }),
                scene.rec.bytes,
            ),
            ..scene
        }),
        scene.rec.completed && takes_bytes(scene.rec, rule) ==> scene.runs_by(
            bus::cmd_ops(code),
            rule,
        ),
{
    let ops = bus::cmd_ops(code);
    record::lemma_none(scene, ops, rule);
    record::lemma_prefix(scene, ops, 0, rule);
    record::lemma_prefix(scene, ops, 1, rule);
    assert(scene.run(ops.take(1)).action(ops[1]) == Action::Dsb);
    assert(beside(scene.rec, scene.rec));
    assert(beside(scene.rec, scene.run(ops.take(1)).rec));
}

/// A data byte is received as that byte, and nothing else happens.
pub proof fn data_sends_the_byte(scene: Scene, byte: u8, rule: spec_fn(Record, Action) -> bool)
    ensures
        scene.run(bus::data_ops(byte)) == (Scene {
            rec: told(
                scene.rec,
                scene.rec.hw.panel.accept(byte),
                scene.rec.events,
                scene.rec.bytes + 1,
            ),
            ..scene
        }),
        scene.rec.completed && takes_bytes(scene.rec, rule) ==> scene.runs_by(
            bus::data_ops(byte),
            rule,
        ),
{
    let ops = bus::data_ops(byte);
    record::lemma_none(scene, ops, rule);
    record::lemma_prefix(scene, ops, 0, rule);
    record::lemma_prefix(scene, ops, 1, rule);
    assert(scene.run(ops.take(1)).action(ops[1]) == Action::Dsb);
    assert(beside(scene.rec, scene.rec));
    assert(beside(scene.rec, scene.run(ops.take(1)).rec));
}

/// What a rule says of sending bytes it says still once some were sent.
pub(crate) proof fn lemma_takes(rec: Record, other: Record, rule: spec_fn(Record, Action) -> bool)
    requires
        takes_bytes(rec, rule),
        beside(rec, other),
    ensures
        takes_bytes(other, rule),
{
    assert forall|third: Record, addr: u32, value: u16|
        beside(other, third) && third.completed && (addr == FMC_CMD || addr == FMC_DATA) && value
            < 256 implies #[trigger] rule(third, Action::WriteHalfword { addr, value }) by {
        assert(beside(rec, third));
    }
    assert forall|third: Record| beside(other, third) implies #[trigger] rule(
        third,
        Action::Dsb,
    ) by {
        assert(beside(rec, third));
    }
}

/// Data bytes are received one after the other in their order, and nothing else
/// happens.
pub proof fn data_slice_sends_the_bytes(
    scene: Scene,
    bytes: Seq<u8>,
    rule: spec_fn(Record, Action) -> bool,
)
    requires
        scene.rec.completed,
        !scene.rec.clock_pending,
    ensures
        scene.run(bus::slice_ops(bytes)) == (Scene {
            rec: told(
                scene.rec,
                scene.rec.hw.panel.accept_all(bytes),
                scene.rec.events,
                scene.rec.bytes + bytes.len(),
            ),
            ..scene
        }),
        takes_bytes(scene.rec, rule) ==> scene.runs_by(bus::slice_ops(bytes), rule),
    decreases bytes.len(),
{
    if bytes.len() > 0 {
        let most = bytes.drop_last();
        let last = bytes.last();
        data_slice_sends_the_bytes(scene, most, rule);
        let middle = scene.run(bus::slice_ops(most));
        record::lemma_concat(scene, bus::slice_ops(most), bus::data_ops(last));
        data_sends_the_byte(middle, last, rule);
        if takes_bytes(scene.rec, rule) {
            lemma_takes(scene.rec, middle.rec, rule);
            record::lemma_by_concat(scene, bus::slice_ops(most), bus::data_ops(last), rule);
        }
    }
}

/// The bytes of `count` pixels of `color`: each one's high byte, then its low byte.
pub open spec fn pixel_bytes(color: u16, count: nat) -> Seq<u8> {
    Seq::new(
        2 * count,
        |i: int|
            if i % 2 == 0 {
                (color / 256) as u8
            } else {
                (color % 256) as u8
            },
    )
}

/// `count` pixels are received as two bytes each, the high byte first, and nothing
/// else happens.
pub proof fn fill_pixels_sends_the_pixels(
    scene: Scene,
    color: u16,
    count: nat,
    rule: spec_fn(Record, Action) -> bool,
)
    requires
        scene.rec.completed,
        !scene.rec.clock_pending,
    ensures
        scene.run(bus::fill_ops(color, count)) == (Scene {
            rec: told(
                scene.rec,
                scene.rec.hw.panel.accept_all(pixel_bytes(color, count)),
                scene.rec.events,
                scene.rec.bytes + 2 * count,
            ),
            ..scene
        }),
        takes_bytes(scene.rec, rule) ==> scene.runs_by(bus::fill_ops(color, count), rule),
    decreases count,
{
    if count > 0 {
        let less = (count - 1) as nat;
        let high = (color / 256) as u8;
        let low = (color % 256) as u8;
        let fill = bus::fill_ops(color, less);
        fill_pixels_sends_the_pixels(scene, color, less, rule);
        let s1 = scene.run(fill);
        data_sends_the_byte(s1, high, rule);
        let s2 = s1.run(bus::data_ops(high));
        data_sends_the_byte(s2, low, rule);
        record::lemma_concat(s1, bus::data_ops(high), bus::data_ops(low));
        record::lemma_concat(scene, fill, bus::pixel_ops(color));
        let all = pixel_bytes(color, count);
        assert(all.drop_last().drop_last() =~= pixel_bytes(color, less));
        assert(all.drop_last().last() == high);
        assert(all.last() == low);
        reveal_with_fuel(Panel::accept_all, 3);
        if takes_bytes(scene.rec, rule) {
            lemma_takes(scene.rec, s1.rec, rule);
            lemma_takes(scene.rec, s2.rec, rule);
            record::lemma_by_concat(s1, bus::data_ops(high), bus::data_ops(low), rule);
            record::lemma_by_concat(scene, fill, bus::pixel_ops(color), rule);
        }
    }
}

/// A command with its parameters is received as such.
pub proof fn a_message_is_one_command(
    scene: Scene,
    code: u8,
    params: Seq<u8>,
    rule: spec_fn(Record, Action) -> bool,
)
    ensures
        scene.run(bus::cmd_ops(code) + bus::slice_ops(params)) == (Scene {
            rec: told(
                scene.rec,
                scene.rec.hw.panel.select(code).accept_all(params),
                scene.rec.events.push(Event::Command { code, at: scene.rec.hw.cycles }),
                scene.rec.bytes + params.len(),
            ),
            ..scene
        }),
        scene.rec.completed && takes_bytes(scene.rec, rule) ==> scene.runs_by(
            bus::cmd_ops(code) + bus::slice_ops(params),
            rule,
        ),
{
    let middle = scene.run(bus::cmd_ops(code));
    record::lemma_concat(scene, bus::cmd_ops(code), bus::slice_ops(params));
    cmd_sends_the_command(scene, code, rule);
    data_slice_sends_the_bytes(middle, params, rule);
    if scene.rec.completed && takes_bytes(scene.rec, rule) {
        lemma_takes(scene.rec, middle.rec, rule);
        record::lemma_by_concat(scene, bus::cmd_ops(code), bus::slice_ops(params), rule);
    }
}

/// The commands that open a window, received in cycle `at`: column address set,
/// page address set, memory write.
pub open spec fn window_events(at: nat) -> Seq<Event> {
    seq![
        Event::Command { code: 0x2A, at },
        Event::Command { code: 0x2B, at },
        Event::Command { code: 0x2C, at },
    ]
}

/// Whether between `before` and `after` the panel got exactly the three commands of
/// a window, in order, with the eight bytes of its addresses (`columns` columns from
/// `x` on, `rows` rows from `y` on) and two bytes for each of its cells, no time was
/// waited, no other setting of the panel changed and nothing but the panel was
/// touched.
pub open spec fn sent_one_window(
    before: Scene,
    after: Scene,
    x: int,
    y: int,
    columns: int,
    rows: int,
) -> bool {
    &&& after.rec.events == before.rec.events + window_events(before.rec.hw.cycles)
    &&& after.rec.bytes == before.rec.bytes + 8 + 2 * (columns * rows)
    &&& drawing::wrote_window(
        after.rec.hw.panel,
        x,
        y,
        x + columns - 1,
        y + rows - 1,
        columns * rows,
    )
    &&& drawing::keeps_settings(before.rec.hw.panel, after.rec.hw.panel)
    &&& after == (Scene {
        rec: told(before.rec, after.rec.hw.panel, after.rec.events, after.rec.bytes),
        ..before
    })
}

proof fn lemma_window(
    scene: Scene,
    x0: u16,
    y0: u16,
    x1: u16,
    y1: u16,
    rule: spec_fn(Record, Action) -> bool,
)
    ensures
        ({
            let after = scene.run(display::window_ops(x0, y0, x1, y1));
            &&& after.rec.events == scene.rec.events + window_events(scene.rec.hw.cycles)
            &&& after.rec.bytes == scene.rec.bytes + 8
            &&& after == (Scene {
                rec: told(scene.rec, after.rec.hw.panel, after.rec.events, after.rec.bytes),
                ..scene
            })
        }),
        scene.rec.completed && takes_bytes(scene.rec, rule) ==> scene.runs_by(
            display::window_ops(x0, y0, x1, y1),
            rule,
        ),
{
    let columns = display::span_bytes(x0, x1);
    let rows = display::span_bytes(y0, y1);
    let a = bus::cmd_ops(0x2A) + bus::slice_ops(columns);
    let b = bus::cmd_ops(0x2B) + bus::slice_ops(rows);
    let c = bus::cmd_ops(0x2C);
    assert(display::window_ops(x0, y0, x1, y1) =~= a + b + c);
    let s1 = scene.run(a);
    let s2 = s1.run(b);
    record::lemma_concat(scene, a, b);
    record::lemma_concat(scene, a + b, c);
    a_message_is_one_command(scene, 0x2A, columns, rule);
    a_message_is_one_command(s1, 0x2B, rows, rule);
    cmd_sends_the_command(s2, 0x2C, rule);
    assert(s2.run(c).rec.events =~= scene.rec.events + window_events(scene.rec.hw.cycles));
    if scene.rec.completed && takes_bytes(scene.rec, rule) {
        lemma_takes(scene.rec, s1.rec, rule);
        lemma_takes(scene.rec, s2.rec, rule);
        record::lemma_by_concat(scene, a, b, rule);
        record::lemma_by_concat(scene, a + b, c, rule);
    }
}

/// Filling a window is one window write with as many pixels as the window has
/// cells.
pub proof fn a_window_fill_is_one_window_write(
    scene: Scene,
    x0: u16,
    y0: u16,
    x1: u16,
    y1: u16,
    color: Rgb565,
    rule: spec_fn(Record, Action) -> bool,
)
    requires
        x0 <= x1,
        y0 <= y1,
    ensures
        sent_one_window(
            scene,
            scene.run(display::window_fill_ops(x0, y0, x1, y1, color)),
            x0 as int,
            y0 as int,
            x1 - x0 + 1,
            y1 - y0 + 1,
        ),
        scene.rec.completed && takes_bytes(scene.rec, rule) ==> scene.runs_by(
            display::window_fill_ops(x0, y0, x1, y1, color),
            rule,
        ),
{
    let window = display::window_ops(x0, y0, x1, y1);
    let area = display::window_area(x0, y0, x1, y1);
    let fill = bus::fill_ops(color.packed(), area);
    let middle = scene.run(window);
    assert((x1 - x0 + 1) * (y1 - y0 + 1) >= 0) by (nonlinear_arith)
        requires
            x0 <= x1,
            y0 <= y1,
    ;
    record::lemma_concat(scene, window, fill);
    lemma_window(scene, x0, y0, x1, y1, rule);
    fill_pixels_sends_the_pixels(middle, color.packed(), area, rule);
    drawing::window_fill_paints_the_window(scene.board(), x0, y0, x1, y1, color);
    record::lemma_board(scene, window + fill);
    if scene.rec.completed && takes_bytes(scene.rec, rule) {
        lemma_takes(scene.rec, middle.rec, rule);
        record::lemma_by_concat(scene, window, fill, rule);
    }
}

/// `value`, or 0 if it is negative.
pub open spec fn at_least_zero(value: int) -> int {
    if value < 0 {
        0
    } else {
        value
    }
}

/// How many of the `len` coordinates from `first` on lie in `0..limit`.
pub open spec fn overlap(first: int, len: int, limit: int) -> int {
    let low: int = if first < 0 {
        0
    } else {
        first
    };
    let high: int = if first + len > limit {
        limit
    } else {
        first + len
    };
    if low < high {
        high - low
    } else {
        0
    }
}

/// One byte at a time goes over the link: an action stores a byte to the command
/// or the data register once the store before it is complete, or completes it.
pub open spec fn one_byte_at_a_time(rec: Record, action: Action) -> bool {
    match action {
        Action::WriteHalfword { addr, value } => {
            &&& addr == 0x6000_0000 || addr == 0x6020_0000
            &&& value < 256
            &&& rec.completed
        },
        Action::Dsb => true,
        _ => false,
    }
}

/// `clear` is one window write of a pixel for each cell of the panel, sent byte by
/// byte.
pub proof fn clear_is_one_window_write(scene: Scene, color: Rgb565)
    ensures
        sent_one_window(scene, scene.run(display::clear_ops(color)), 0, 0, 480, 320),
        scene.rec.completed ==> scene.runs_by(
            display::clear_ops(color),
            |rec: Record, action: Action| one_byte_at_a_time(rec, action),
        ),
{
    let rule = |rec: Record, action: Action| one_byte_at_a_time(rec, action);
    a_window_fill_is_one_window_write(scene, 0, 0, 479, 319, color, rule);
}

/// `fill_rect` is one window write of a pixel for each cell that the rectangle has
/// on the panel, sent byte by byte; if it has none, nothing at all happens.
pub proof fn fill_rect_is_one_window_write(
    scene: Scene,
    x: u16,
    y: u16,
    w: u16,
    h: u16,
    color: Rgb565,
)
    ensures
        ({
            let after = scene.run(display::rect_ops(x, y, w, h, color));
            let columns = overlap(x as int, w as int, 480);
            let rows = overlap(y as int, h as int, 320);
            if columns > 0 && rows > 0 {
                sent_one_window(scene, after, x as int, y as int, columns, rows)
            } else {
                after == scene && display::rect_ops(x, y, w, h, color).len() == 0
            }
        }),
        scene.rec.completed ==> scene.runs_by(
            display::rect_ops(x, y, w, h, color),
            |rec: Record, action: Action| one_byte_at_a_time(rec, action),
        ),
{
    let rule = |rec: Record, action: Action| one_byte_at_a_time(rec, action);
    let columns = overlap(x as int, w as int, 480);
    let rows = overlap(y as int, h as int, 320);
    if columns > 0 && rows > 0 {
        a_window_fill_is_one_window_write(
            scene,
            x,
            y,
            (x + columns - 1) as u16,
            (y + rows - 1) as u16,
            color,
            rule,
        );
    }
}

/// `fill_solid` is one window write of a pixel for each cell that the area has on
/// the panel, sent byte by byte; if it has none, nothing at all happens.
pub proof fn fill_solid_is_one_window_write(scene: Scene, area: Rectangle, color: Rgb565)
    ensures
        ({
            let after = scene.run(display::solid_ops(area, color));
            let left = at_least_zero(area.top_left.x as int);
            let top = at_least_zero(area.top_left.y as int);
            let columns = overlap(area.top_left.x as int, area.size.width as int, 480);
            let rows = overlap(area.top_left.y as int, area.size.height as int, 320);
            if columns > 0 && rows > 0 {
                sent_one_window(scene, after, left, top, columns, rows)
            } else {
                after == scene && display::solid_ops(area, color).len() == 0
            }
        }),
        scene.rec.completed ==> scene.runs_by(
            display::solid_ops(area, color),
            |rec: Record, action: Action| one_byte_at_a_time(rec, action),
        ),
{
    let rule = |rec: Record, action: Action| one_byte_at_a_time(rec, action);
    let columns = overlap(area.top_left.x as int, area.size.width as int, 480);
    let rows = overlap(area.top_left.y as int, area.size.height as int, 320);
    if columns > 0 && rows > 0 {
        let left = at_least_zero(area.top_left.x as int);
        let top = at_least_zero(area.top_left.y as int);
        a_window_fill_is_one_window_write(
            scene,
            left as u16,
            top as u16,
            (left + columns - 1) as u16,
            (top + rows - 1) as u16,
            color,
            rule,
        );
    }
}

/// The picture after `fill_solid`: a cell has the colour if it is on the panel, in
/// one of the area's `width` columns from its left edge on and in one of its
/// `height` rows from its top edge on, and is as it was otherwise.
pub proof fn fill_solid_paints_columns_and_rows(scene: Scene, area: Rectangle, color: Rgb565)
    ensures
        scene.run(display::solid_ops(area, color)).rec.hw.panel.frame == drawing::painted(
            scene.rec.hw.panel.frame,
            |cell: (int, int)|
                {
                    &&& 0 <= cell.0 < 480
                    &&& 0 <= cell.1 < 320
                    &&& 0 <= cell.0 - area.top_left.x < area.size.width
                    &&& 0 <= cell.1 - area.top_left.y < area.size.height
                },
            color.packed(),
        ),
{
    drawing::fill_solid_paints_the_clipped_area(scene.board(), area, color);
    record::lemma_board(scene, display::solid_ops(area, color));
    assert(scene.run(display::solid_ops(area, color)).rec.hw.panel.frame =~= drawing::painted(
        scene.rec.hw.panel.frame,
        |cell: (int, int)|
            {
                &&& 0 <= cell.0 < 480
                &&& 0 <= cell.1 < 320
                &&& 0 <= cell.0 - area.top_left.x < area.size.width
                &&& 0 <= cell.1 - area.top_left.y < area.size.height
            },
        color.packed(),
    ));
}

/// How many of `pixels` are on the panel.
pub open spec fn count_on_panel(pixels: Seq<Pixel>) -> nat
    decreases pixels.len(),
{
    if pixels.len() == 0 {
        0
    } else {
        let place = pixels.last().0;
        count_on_panel(pixels.drop_last()) + if 0 <= place.x < 480 && 0 <= place.y < 320 {
            1nat
        } else {
            0
        }
    }
}

/// The commands of `count` windows, received in cycle `at`.
pub open spec fn windows_events(count: nat, at: nat) -> Seq<Event>
    decreases count,
{
    if count == 0 {
        Seq::empty()
    } else {
        windows_events((count - 1) as nat, at) + window_events(at)
    }
}

/// `draw_iter` is one window write of a single pixel for each pixel that is on the
/// panel, sent byte by byte, and nothing for any other. The last window is that of
/// the last pixel, if that one is on the panel. No other setting of the
/// panel changes and nothing but the panel is touched.
pub proof fn draw_iter_is_a_window_write_per_pixel(scene: Scene, pixels: Seq<Pixel>)
    ensures
        ({
            let after = scene.run(display::draw_ops(pixels));
            let count = count_on_panel(pixels);
            &&& after.rec.events == scene.rec.events + windows_events(count, scene.rec.hw.cycles)
            &&& after.rec.bytes == scene.rec.bytes + 10 * count
            &&& drawing::keeps_settings(scene.rec.hw.panel, after.rec.hw.panel)
            &&& pixels.len() > 0 && 0 <= pixels.last().0.x < 480 && 0 <= pixels.last().0.y < 320
                ==> drawing::wrote_window(
                after.rec.hw.panel,
                pixels.last().0.x as int,
                pixels.last().0.y as int,
                pixels.last().0.x as int,
                pixels.last().0.y as int,
                1,
            )
            &&& count > 0 ==> after == (Scene {
                rec: told(scene.rec, after.rec.hw.panel, after.rec.events, after.rec.bytes),
                ..scene
            })
            &&& count == 0 ==> after == scene && display::draw_ops(pixels).len() == 0
        }),
        scene.rec.completed ==> scene.runs_by(
            display::draw_ops(pixels),
            |rec: Record, action: Action| one_byte_at_a_time(rec, action),
        ),
    decreases pixels.len(),
{
    let rule = |rec: Record, action: Action| one_byte_at_a_time(rec, action);
    let at = scene.rec.hw.cycles;
    drawing::draw_iter_paints_the_pixels(scene.board(), pixels);
    record::lemma_board(scene, display::draw_ops(pixels));
    if pixels.len() == 0 {
        assert(scene.rec.events + windows_events(0, at) =~= scene.rec.events);
    } else {
        let most = pixels.drop_last();
        let last = pixels.last();
        let head = display::draw_ops(most);
        let tail = display::point_ops(last);
        draw_iter_is_a_window_write_per_pixel(scene, most);
        let middle = scene.run(head);
        record::lemma_concat(scene, head, tail);
        if 0 <= last.0.x < 480 && 0 <= last.0.y < 320 {
            let x = last.0.x as u16;
            let y = last.0.y as u16;
            let window = display::window_ops(x, y, x, y);
            let color = last.1.packed();
            let opened = middle.run(window);
            let count = count_on_panel(pixels);
            lemma_window(middle, x, y, x, y, rule);
            record::lemma_concat(middle, window, bus::pixel_ops(color));
            assert(bus::fill_ops(color, 1) =~= bus::pixel_ops(color)) by {
                assert(bus::fill_ops(color, 0) =~= Seq::<Op>::empty());
            }
            fill_pixels_sends_the_pixels(opened, color, 1, rule);
            assert(windows_events(count, at) == windows_events((count - 1) as nat, at)
                + window_events(at));
            assert(scene.run(display::draw_ops(pixels)).rec.events =~= scene.rec.events
                + windows_events(count, at));
            if scene.rec.completed {
                assert(middle.rec.completed);
                record::lemma_by_concat(middle, window, bus::pixel_ops(color), rule);
                record::lemma_by_concat(scene, head, tail, rule);
            }
        } else {
            assert(tail =~= Seq::<Op>::empty());
            assert(head + tail =~= head);
        }
    }
}

} // verus!
