//! What drawing does to the picture.

use crate::bus;
use crate::color::Rgb565;
use crate::display;
use crate::display::{CASET, PASET, RAMWR};
use crate::geometry::{Pixel, Point, Rectangle, Size};
use crate::geometry;
use crate::model::{Board, Panel};
use crate::model;
use crate::ops::Op;
use crate::{PANEL_H, PANEL_W};
use vstd::arithmetic::div_mod;
use vstd::prelude::*;

verus! {

/// Whether `cell` is in columns `x0..=x1` of rows `y0..=y1`.
pub open spec fn inside(x0: int, y0: int, x1: int, y1: int, cell: (int, int)) -> bool {
    x0 <= cell.0 <= x1 && y0 <= cell.1 <= y1
}

/// `frame` with every cell that `chosen` picks set to `color`.
pub open spec fn painted(
    frame: Map<(int, int), u16>,
    chosen: spec_fn((int, int)) -> bool,
    color: u16,
) -> Map<(int, int), u16> {
    Map::new(
        |cell: (int, int)| frame.contains_key(cell) || chosen(cell),
        |cell: (int, int)|
            if chosen(cell) {
                color
            } else {
                frame[cell]
            },
    )
}

/// Whether the panel has got the command `code`, and with which parameters, alike
/// in both.
pub open spec fn same_setting(before: Panel, after: Panel, code: u8) -> bool {
    &&& after.params.contains_key(code) == before.params.contains_key(code)
    &&& after.params[code] == before.params[code]
}

/// Whether the panel has got every command but column address set (0x2A), page
/// address set (0x2B) and memory write (0x2C) alike in both.
pub open spec fn keeps_settings(before: Panel, after: Panel) -> bool {
    forall|code: u8|
        code != 0x2A && code != 0x2B && code != 0x2C ==> #[trigger] same_setting(
            before,
            after,
            code,
        )
}

/// The four bytes of `first` and `last`, the high byte of each first.
pub open spec fn address_bytes(first: int, last: int) -> Seq<u8> {
    seq![(first / 256) as u8, (first % 256) as u8, (last / 256) as u8, (last % 256) as u8]
}

/// Whether `panel` was last told to write memory, was sent `count` pixels for that,
/// and has columns `x0..=x1` of rows `y0..=y1` for its window.
pub open spec fn wrote_window(
    panel: Panel,
    x0: int,
    y0: int,
    x1: int,
    y1: int,
    count: int,
) -> bool {
    &&& panel.command == 0x2C
    &&& panel.params[0x2A] == address_bytes(x0, x1)
    &&& panel.params[0x2B] == address_bytes(y0, y1)
    &&& panel.params[0x2C].len() == 2 * count
}

proof fn lemma_keeps(before: Panel, middle: Panel, after: Panel)
    requires
        keeps_settings(before, middle),
        keeps_settings(middle, after),
    ensures
        keeps_settings(before, after),
{
    assert forall|code: u8| code != 0x2A && code != 0x2B && code != 0x2C implies #[trigger] same_setting(
        before,
        after,
        code,
    ) by {
        assert(same_setting(before, middle, code));
        assert(same_setting(middle, after, code));
    }
}

proof fn lemma_run_cmd(board: Board, code: u8)
    ensures
        board.run(bus::cmd_ops(code)) == board.with_panel(board.hw.panel.select(code)),
{
    let ops = bus::cmd_ops(code);
    assert(ops =~= seq![ops[0]] + seq![ops[1]]);
    model::lemma_run_concat(board, seq![ops[0]], seq![ops[1]]);
    model::lemma_run_one(board, ops[0]);
    model::lemma_run_one(board.step(ops[0]), ops[1]);
}

proof fn lemma_run_data(board: Board, byte: u8)
    ensures
        board.run(bus::data_ops(byte)) == board.with_panel(board.hw.panel.accept(byte)),
{
    let ops = bus::data_ops(byte);
    assert(ops =~= seq![ops[0]] + seq![ops[1]]);
    model::lemma_run_concat(board, seq![ops[0]], seq![ops[1]]);
    model::lemma_run_one(board, ops[0]);
    model::lemma_run_one(board.step(ops[0]), ops[1]);
}

proof fn lemma_run_slice(board: Board, bytes: Seq<u8>)
    ensures
        board.run(bus::slice_ops(bytes)) == board.with_panel(board.hw.panel.accept_all(bytes)),
    decreases bytes.len(),
{
    if bytes.len() > 0 {
        let most = bytes.drop_last();
        lemma_run_slice(board, most);
        model::lemma_run_concat(board, bus::slice_ops(most), bus::data_ops(bytes.last()));
        lemma_run_data(board.run(bus::slice_ops(most)), bytes.last());
    }
}

/// Data after a command other than `RAMWR` is kept as that command's parameters
/// and changes nothing else.
proof fn lemma_accept_all(panel: Panel, bytes: Seq<u8>)
    requires
        panel.command != RAMWR,
        panel.params.contains_key(panel.command),
    ensures
        panel.accept_all(bytes) == (Panel {
            params: panel.params.insert(
                panel.command,
                panel.params[panel.command] + bytes,
            ),
            ..panel
        }),
    decreases bytes.len(),
{
    let code = panel.command;
    if bytes.len() == 0 {
        assert(panel.params[code] + bytes =~= panel.params[code]);
        assert(panel.params.insert(code, panel.params[code] + bytes) =~= panel.params);
    } else {
        let most = bytes.drop_last();
        lemma_accept_all(panel, most);
        assert((panel.params[code] + most).push(bytes.last()) =~= panel.params[code] + bytes);
        assert(panel.accept_all(bytes).params =~= panel.params.insert(
            code,
            panel.params[code] + bytes,
        ));
    }
}

/// A command other than `RAMWR` with its data sets that command's parameters and
/// changes nothing else.
pub proof fn lemma_run_message(board: Board, code: u8, params: Seq<u8>)
    requires
        code != RAMWR,
    ensures
        board.run(bus::cmd_ops(code) + bus::slice_ops(params)) == board.with_panel(
            Panel {
                command: code,
                params: board.hw.panel.params.insert(code, params),
                ..board.hw.panel
            },
        ),
{
    let selected = board.with_panel(board.hw.panel.select(code));
    model::lemma_run_concat(board, bus::cmd_ops(code), bus::slice_ops(params));
    lemma_run_cmd(board, code);
    lemma_run_slice(selected, params);
    lemma_accept_all(selected.hw.panel, params);
    assert(Seq::<u8>::empty() + params =~= params);
    assert(board.hw.panel.params.insert(code, Seq::empty()).insert(code, params)
        =~= board.hw.panel.params.insert(code, params));
}

/// Whether `panel` takes pixels for columns `x0..=x1` of rows `y0..=y1` and has
/// got `count` of them.
spec fn taking_pixels(panel: Panel, x0: u16, y0: u16, x1: u16, y1: u16, count: nat) -> bool {
    &&& panel.command == RAMWR
    &&& panel.params.contains_key(RAMWR)
    &&& panel.params[RAMWR].len() == 2 * count
    &&& panel.params[CASET] == display::span_bytes(x0, x1)
    &&& panel.params[PASET] == display::span_bytes(y0, y1)
}

proof fn lemma_run_window(board: Board, x0: u16, y0: u16, x1: u16, y1: u16)
    ensures
        ({
            let after = board.run(display::window_ops(x0, y0, x1, y1));
            &&& after == board.with_panel(after.hw.panel)
            &&& taking_pixels(after.hw.panel, x0, y0, x1, y1, 0)
            &&& after.hw.panel.frame == board.hw.panel.frame
            &&& keeps_settings(board.hw.panel, after.hw.panel)
        }),
{
    let columns = display::span_bytes(x0, x1);
    let rows = display::span_bytes(y0, y1);
    let a = bus::cmd_ops(CASET) + bus::slice_ops(columns);
    let b = bus::cmd_ops(PASET) + bus::slice_ops(rows);
    let c = bus::cmd_ops(RAMWR);
    assert(display::window_ops(x0, y0, x1, y1) =~= a + b + c);
    model::lemma_run_concat(board, a + b, c);
    model::lemma_run_concat(board, a, b);
    lemma_run_message(board, CASET, columns);
    lemma_run_message(board.run(a), PASET, rows);
    lemma_run_cmd(board.run(a).run(b), RAMWR);
}

proof fn lemma_run_pixel(
    board: Board,
    x0: u16,
    y0: u16,
    x1: u16,
    y1: u16,
    count: nat,
    color: u16,
)
    requires
        taking_pixels(board.hw.panel, x0, y0, x1, y1, count),
    ensures
        ({
            let after = board.run(bus::pixel_ops(color));
            &&& after == board.with_panel(after.hw.panel)
            &&& taking_pixels(after.hw.panel, x0, y0, x1, y1, count + 1)
            &&& after.hw.panel.frame == board.hw.panel.frame.insert(
                board.hw.panel.cell(count as int),
                color,
            )
            &&& keeps_settings(board.hw.panel, after.hw.panel)
        }),
{
    let high = bus::high_byte(color);
    let low = bus::low_byte(color);
    model::lemma_run_concat(board, bus::data_ops(high), bus::data_ops(low));
    lemma_run_data(board, high);
    let middle = board.with_panel(board.hw.panel.accept(high));
    lemma_run_data(middle, low);
    assert(middle.hw.panel.params[RAMWR].len() == 2 * count + 1);
    assert(middle.hw.panel.cell(count as int) == board.hw.panel.cell(count as int));
    assert(model::join(high, low) == color);
}

proof fn lemma_span(first: u16, last: u16, panel: Panel, code: u8)
    requires
        panel.params[code] == display::span_bytes(first, last),
    ensures
        panel.first(code) == first,
        panel.last(code) == last,
{
}

/// Whether `cell` is among the first `count` of a window with its corner at
/// `(x0, y0)` and rows of `width` cells.
spec fn among(x0: int, y0: int, width: int, count: int, cell: (int, int)) -> bool {
    x0 <= cell.0 < x0 + width && y0 <= cell.1 && (cell.1 - y0) * width + (cell.0 - x0) < count
}

/// The cells up to and with number `count` are those before it and
/// `(x0 + count % width, y0 + count / width)`.
proof fn lemma_among_next(x0: int, y0: int, width: int, count: int, cell: (int, int))
    requires
        width > 0,
        count >= 0,
    ensures
        among(x0, y0, width, count + 1, cell) <==> among(x0, y0, width, count, cell) || cell == (
            x0 + count % width,
            y0 + count / width,
        ),
{
    let column = cell.0 - x0;
    let row = cell.1 - y0;
    div_mod::lemma_fundamental_div_mod(count, width);
    assert(0 <= count % width < width && 0 <= count / width) by (nonlinear_arith)
        requires
            width > 0,
            count >= 0,
    ;
    if 0 <= column < width && row * width + column == count {
        div_mod::lemma_fundamental_div_mod_converse(count, width, row, column);
    }
    if cell == (x0 + count % width, y0 + count / width) {
        assert(row * width + column == count) by (nonlinear_arith)
            requires
                row == count / width,
                column == count % width,
                count == width * (count / width) + count % width,
        ;
    }
}

/// The first `width * height` cells are the whole window.
proof fn lemma_among_all(x0: int, y0: int, width: int, height: int, cell: (int, int))
    requires
        width > 0,
        height > 0,
    ensures
        among(x0, y0, width, width * height, cell) <==> inside(
            x0,
            y0,
            x0 + width - 1,
            y0 + height - 1,
            cell,
        ),
{
    let column = cell.0 - x0;
    let row = cell.1 - y0;
    if 0 <= column < width && 0 <= row {
        assert(row * width + column < width * height <==> row < height) by (nonlinear_arith)
            requires
                0 <= column < width,
                0 <= row,
                height > 0,
        ;
    }
}

proof fn lemma_run_fill(
    board: Board,
    x0: u16,
    y0: u16,
    x1: u16,
    y1: u16,
    color: u16,
    count: nat,
)
    requires
        x0 <= x1,
        y0 <= y1,
        count <= display::window_area(x0, y0, x1, y1),
        taking_pixels(board.hw.panel, x0, y0, x1, y1, 0),
    ensures
        ({
            let after = board.run(bus::fill_ops(color, count));
            &&& after == board.with_panel(after.hw.panel)
            &&& taking_pixels(after.hw.panel, x0, y0, x1, y1, count)
            &&& after.hw.panel.frame == painted(
                board.hw.panel.frame,
                |cell: (int, int)| among(x0 as int, y0 as int, x1 - x0 + 1, count as int, cell),
                color,
            )
            &&& keeps_settings(board.hw.panel, after.hw.panel)
        }),
    decreases count,
{
    let width = x1 - x0 + 1;
    let height = y1 - y0 + 1;
    let chosen = |cell: (int, int)| among(x0 as int, y0 as int, width, count as int, cell);
    if count == 0 {
        assert forall|cell: (int, int)| !(#[trigger] chosen(cell)) by {
            if x0 <= cell.0 && y0 <= cell.1 {
                assert((cell.1 - y0) * width >= 0) by (nonlinear_arith)
                    requires
                        cell.1 >= y0,
                        width > 0,
                ;
            }
        }
        assert(painted(board.hw.panel.frame, chosen, color) =~= board.hw.panel.frame);
    } else {
        let less = (count - 1) as nat;
        let before = |cell: (int, int)| among(x0 as int, y0 as int, width, less as int, cell);
        lemma_run_fill(board, x0, y0, x1, y1, color, less);
        let middle = board.run(bus::fill_ops(color, less));
        model::lemma_run_concat(board, bus::fill_ops(color, less), bus::pixel_ops(color));
        lemma_run_pixel(middle, x0, y0, x1, y1, less, color);
        lemma_keeps(
            board.hw.panel,
            middle.hw.panel,
            board.run(bus::fill_ops(color, count)).hw.panel,
        );
        lemma_span(x0, x1, middle.hw.panel, CASET);
        lemma_span(y0, y1, middle.hw.panel, PASET);
        let cell = middle.hw.panel.cell(less as int);
        assert(0 <= less as int / width < height) by (nonlinear_arith)
            requires
                0 <= less < width * height,
                width > 0,
        ;
        div_mod::lemma_small_mod((less as int / width) as nat, height as nat);
        assert(cell == (x0 + less as int % width, y0 + less as int / width));
        assert forall|other: (int, int)| #[trigger] chosen(other) <==> before(other) || other
            == cell by {
            lemma_among_next(x0 as int, y0 as int, width, less as int, other);
        }
        assert(painted(board.hw.panel.frame, before, color).insert(cell, color) =~= painted(
            board.hw.panel.frame,
            chosen,
            color,
        ));
    }
}

/// Filling a window sets each of its cells to the colour and leaves every other
/// cell, and everything but the panel, as it was.
pub proof fn window_fill_paints_the_window(
    board: Board,
    x0: u16,
    y0: u16,
    x1: u16,
    y1: u16,
    color: Rgb565,
)
    requires
        x0 <= x1,
        y0 <= y1,
    ensures
        ({
            let after = board.run(display::window_fill_ops(x0, y0, x1, y1, color));
            &&& after == board.with_panel(after.hw.panel)
            &&& after.hw.panel.frame == painted(
                board.hw.panel.frame,
                |cell: (int, int)| inside(x0 as int, y0 as int, x1 as int, y1 as int, cell),
                color.packed(),
            )
            &&& keeps_settings(board.hw.panel, after.hw.panel)
            &&& wrote_window(
                after.hw.panel,
                x0 as int,
                y0 as int,
                x1 as int,
                y1 as int,
                (x1 - x0 + 1) * (y1 - y0 + 1),
            )
        }),
{
    let area = display::window_area(x0, y0, x1, y1);
    let window = board.run(display::window_ops(x0, y0, x1, y1));
    let width = x1 - x0 + 1;
    let height = y1 - y0 + 1;
    model::lemma_run_concat(
        board,
        display::window_ops(x0, y0, x1, y1),
        bus::fill_ops(color.packed(), area),
    );
    lemma_run_window(board, x0, y0, x1, y1);
    assert(width * height >= 0) by (nonlinear_arith)
        requires
            width > 0,
            height > 0,
    ;
    lemma_run_fill(window, x0, y0, x1, y1, color.packed(), area);
    lemma_keeps(
        board.hw.panel,
        window.hw.panel,
        board.run(display::window_fill_ops(x0, y0, x1, y1, color)).hw.panel,
    );
    let counted = |cell: (int, int)| among(x0 as int, y0 as int, width, area as int, cell);
    let chosen = |cell: (int, int)| inside(x0 as int, y0 as int, x1 as int, y1 as int, cell);
    assert forall|cell: (int, int)| #[trigger] counted(cell) <==> chosen(cell) by {
        lemma_among_all(x0 as int, y0 as int, width, height, cell);
    }
    assert(painted(board.hw.panel.frame, counted, color.packed()) =~= painted(
        board.hw.panel.frame,
        chosen,
        color.packed(),
    ));
}

/// Whether `cell` is on the panel.
pub open spec fn on_panel(cell: (int, int)) -> bool {
    0 <= cell.0 < PANEL_W && 0 <= cell.1 < PANEL_H
}

/// `clear` sets every cell of the panel to the colour, and touches nothing else.
pub proof fn clear_paints_the_panel(board: Board, color: Rgb565)
    ensures
        ({
            let after = board.run(display::clear_ops(color));
            &&& after == board.with_panel(after.hw.panel)
            &&& after.hw.panel.frame == painted(
                board.hw.panel.frame,
                |cell: (int, int)| on_panel(cell),
                color.packed(),
            )
            &&& keeps_settings(board.hw.panel, after.hw.panel)
        }),
{
    window_fill_paints_the_window(
        board,
        0,
        0,
        (PANEL_W - 1) as u16,
        (PANEL_H - 1) as u16,
        color,
    );
    let after = board.run(display::clear_ops(color));
    assert(after.hw.panel.frame =~= painted(
        board.hw.panel.frame,
        |cell: (int, int)| on_panel(cell),
        color.packed(),
    ));
}

/// `fill_rect` sets exactly the cells of the rectangle that are on the panel,
/// whatever the coordinates, and touches nothing else.
pub proof fn fill_rect_paints_the_clipped_rectangle(
    board: Board,
    x: u16,
    y: u16,
    w: u16,
    h: u16,
    color: Rgb565,
)
    ensures
        ({
            let after = board.run(display::rect_ops(x, y, w, h, color));
            &&& after == board.with_panel(after.hw.panel)
            &&& after.hw.panel.frame == painted(
                board.hw.panel.frame,
                |cell: (int, int)|
                    on_panel(cell) && inside(x as int, y as int, x + w - 1, y + h - 1, cell),
                color.packed(),
            )
            &&& keeps_settings(board.hw.panel, after.hw.panel)
        }),
{
    let after = board.run(display::rect_ops(x, y, w, h, color));
    if !(w == 0 || h == 0 || x >= PANEL_W || y >= PANEL_H) {
        window_fill_paints_the_window(
            board,
            x,
            y,
            (geometry::smaller(x + w, PANEL_W as int) - 1) as u16,
            (geometry::smaller(y + h, PANEL_H as int) - 1) as u16,
            color,
        );
    }
    assert(after.hw.panel.frame =~= painted(
        board.hw.panel.frame,
        |cell: (int, int)| on_panel(cell) && inside(x as int, y as int, x + w - 1, y + h - 1, cell),
        color.packed(),
    ));
}

/// `fill_solid` sets exactly the cells of the area that are on the panel, and
/// touches nothing else.
pub proof fn fill_solid_paints_the_clipped_area(board: Board, area: Rectangle, color: Rgb565)
    ensures
        ({
            let after = board.run(display::solid_ops(area, color));
            &&& after == board.with_panel(after.hw.panel)
            &&& after.hw.panel.frame == painted(
                board.hw.panel.frame,
                |cell: (int, int)| on_panel(cell) && area.covers(cell.0, cell.1),
                color.packed(),
            )
            &&& keeps_settings(board.hw.panel, after.hw.panel)
        }),
{
    let after = board.run(display::solid_ops(area, color));
    if area.meets(display::panel_area()) {
        window_fill_paints_the_window(
            board,
            geometry::larger(area.top_left.x as int, 0) as u16,
            geometry::larger(area.top_left.y as int, 0) as u16,
            geometry::smaller(area.right(), PANEL_W - 1) as u16,
            geometry::smaller(area.bottom(), PANEL_H - 1) as u16,
            color,
        );
    }
    assert(after.hw.panel.frame =~= painted(
        board.hw.panel.frame,
        |cell: (int, int)| on_panel(cell) && area.covers(cell.0, cell.1),
        color.packed(),
    ));
}

/// `clear` asks for what `fill_rect` asks for with the whole panel.
pub proof fn clear_is_a_full_fill_rect(color: Rgb565)
    ensures
        display::clear_ops(color) == display::rect_ops(0, 0, PANEL_W, PANEL_H, color),
{
}

/// `fill_rect` and `fill_solid` ask for the same on the same rectangle.
pub proof fn fill_rect_is_fill_solid(x: u16, y: u16, w: u16, h: u16, color: Rgb565)
    ensures
        display::rect_ops(x, y, w, h, color) == display::solid_ops(
            Rectangle {
                top_left: Point { x: x as i32, y: y as i32 },
                size: Size { width: w as u32, height: h as u32 },
            },
            color,
        ),
{
}

/// Drawing pixels in two batches asks for what drawing them at once asks for.
pub proof fn draw_iter_splits(first: Seq<Pixel>, second: Seq<Pixel>)
    ensures
        display::draw_ops(first + second) == display::draw_ops(first) + display::draw_ops(second),
    decreases second.len(),
{
    if second.len() == 0 {
        assert(first + second =~= first);
        assert(display::draw_ops(first) + Seq::<Op>::empty() =~= display::draw_ops(first));
    } else {
        draw_iter_splits(first, second.drop_last());
        assert((first + second).drop_last() =~= first + second.drop_last());
        assert(display::draw_ops(first + second) =~= display::draw_ops(first) + display::draw_ops(
            second,
        ));
    }
}

/// `frame` once `pixels` were put in one after the other, those off the panel
/// passed over.
pub open spec fn dotted(frame: Map<(int, int), u16>, pixels: Seq<Pixel>) -> Map<(int, int), u16>
    decreases pixels.len(),
{
    if pixels.len() == 0 {
        frame
    } else {
        let before = dotted(frame, pixels.drop_last());
        let last = pixels.last();
        let cell = (last.0.x as int, last.0.y as int);
        if on_panel(cell) {
            before.insert(cell, last.1.packed())
        } else {
            before
        }
    }
}

/// `draw_iter` puts each pixel that is on the panel in its place, a later one
/// over an earlier one, each through a window of its own, and touches nothing else.
pub proof fn draw_iter_paints_the_pixels(board: Board, pixels: Seq<Pixel>)
    ensures
        ({
            let after = board.run(display::draw_ops(pixels));
            &&& after == board.with_panel(after.hw.panel)
            &&& after.hw.panel.frame == dotted(board.hw.panel.frame, pixels)
            &&& keeps_settings(board.hw.panel, after.hw.panel)
            &&& pixels.len() > 0 && on_panel((pixels.last().0.x as int, pixels.last().0.y as int))
                ==> wrote_window(
                after.hw.panel,
                pixels.last().0.x as int,
                pixels.last().0.y as int,
                pixels.last().0.x as int,
                pixels.last().0.y as int,
                1,
            )
        }),
    decreases pixels.len(),
{
    if pixels.len() > 0 {
        let most = pixels.drop_last();
        let last = pixels.last();
        draw_iter_paints_the_pixels(board, most);
        let before = board.run(display::draw_ops(most));
        model::lemma_run_concat(board, display::draw_ops(most), display::point_ops(last));
        if on_panel((last.0.x as int, last.0.y as int)) {
            let x = last.0.x as u16;
            let y = last.0.y as u16;
            let window = before.run(display::window_ops(x, y, x, y));
            model::lemma_run_concat(
                before,
                display::window_ops(x, y, x, y),
                bus::pixel_ops(last.1.packed()),
            );
            lemma_run_window(before, x, y, x, y);
            lemma_run_pixel(window, x, y, x, y, 0, last.1.packed());
            let after = board.run(display::draw_ops(pixels));
            lemma_keeps(before.hw.panel, window.hw.panel, after.hw.panel);
            lemma_keeps(board.hw.panel, before.hw.panel, after.hw.panel);
            lemma_span(x, x, window.hw.panel, CASET);
            lemma_span(y, y, window.hw.panel, PASET);
        }
    }
}

/// In a picture that pixels of a single colour were put in, a cell has that
/// colour if one of them is there, and is as before otherwise.
proof fn lemma_dotted_one_color(frame: Map<(int, int), u16>, pixels: Seq<Pixel>, color: Rgb565)
    requires
        forall|i: int| 0 <= i < pixels.len() ==> (#[trigger] pixels[i]).1 == color,
    ensures
        dotted(frame, pixels) == painted(
            frame,
            |cell: (int, int)| on_panel(cell) && at_some_pixel(pixels, cell),
            color.packed(),
        ),
    decreases pixels.len(),
{
    let chosen = |cell: (int, int)| on_panel(cell) && at_some_pixel(pixels, cell);
    if pixels.len() == 0 {
        assert(painted(frame, chosen, color.packed()) =~= frame);
    } else {
        let most = pixels.drop_last();
        let before = |cell: (int, int)| on_panel(cell) && at_some_pixel(most, cell);
        let last = pixels.last();
        let place = (last.0.x as int, last.0.y as int);
        lemma_dotted_one_color(frame, most, color);
        assert(pixels[pixels.len() - 1] == last);
        assert forall|cell: (int, int)| #[trigger] chosen(cell) <==> before(cell) || on_panel(cell)
            && cell == place by {
            if at_some_pixel(pixels, cell) {
                let i = choose|i: int|
                    0 <= i < pixels.len() && (#[trigger] pixels[i]).0.x == cell.0 && pixels[i].0.y
                        == cell.1;
                if i < most.len() {
                    assert(most[i] == pixels[i]);
                }
            }
            if at_some_pixel(most, cell) {
                let i = choose|i: int|
                    0 <= i < most.len() && (#[trigger] most[i]).0.x == cell.0 && most[i].0.y
                        == cell.1;
                assert(pixels[i] == most[i]);
            }
        }
        assert(dotted(frame, pixels) =~= painted(frame, chosen, color.packed()));
    }
}

/// Whether one of `pixels` is at `cell`.
pub open spec fn at_some_pixel(pixels: Seq<Pixel>, cell: (int, int)) -> bool {
    exists|i: int|
        0 <= i < pixels.len() && (#[trigger] pixels[i]).0.x == cell.0 && pixels[i].0.y == cell.1
}

/// `fill_solid` leaves the picture that `draw_iter` leaves for pixels of the same
/// colour at every point of the area, in any order and however often.
pub proof fn fill_solid_is_draw_iter_of_every_point(
    board: Board,
    area: Rectangle,
    color: Rgb565,
    pixels: Seq<Pixel>,
)
    requires
        forall|i: int| 0 <= i < pixels.len() ==> (#[trigger] pixels[i]).1 == color,
        forall|i: int|
            0 <= i < pixels.len() ==> area.covers(
                (#[trigger] pixels[i]).0.x as int,
                pixels[i].0.y as int,
            ),
        forall|x: int, y: int|
            #[trigger] area.covers(x, y) && on_panel((x, y)) ==> at_some_pixel(pixels, (x, y)),
    ensures
        board.run(display::solid_ops(area, color)).hw.panel.frame == board.run(
            display::draw_ops(pixels),
        ).hw.panel.frame,
{
    fill_solid_paints_the_clipped_area(board, area, color);
    draw_iter_paints_the_pixels(board, pixels);
    lemma_dotted_one_color(board.hw.panel.frame, pixels, color);
    assert(painted(
        board.hw.panel.frame,
        |cell: (int, int)| on_panel(cell) && at_some_pixel(pixels, cell),
        color.packed(),
    ) =~= painted(
        board.hw.panel.frame,
        |cell: (int, int)| on_panel(cell) && area.covers(cell.0, cell.1),
        color.packed(),
    ));
}

} // verus!
