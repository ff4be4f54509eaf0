//! What the terminal shows. The model of the screen is carried on from the
//! cursor to the characters in the cells, and the operations that the edit
//! buffer asks for are shown to leave the prompt and the line on the
//! screen, wrapped over its rows.

use vstd::prelude::*;
use vstd::arithmetic::div_mod::{lemma_fundamental_div_mod, lemma_fundamental_div_mod_converse};
use crate::buffer::{lemma_span, EditBuffer, PROMPT_WIDTH};
use crate::screen::{
    cursor_after,
    cursor_after_all,
    end_col,
    min,
    next_row_ops,
    paint_ops,
    rows_crossed,
    scrolls_needed,
    Op,
};

verus! {

/// The screen: what each cell shows, by column and row, and the cell that
/// the cursor is on. A cell that shows nothing is blank.
pub struct Display {
    pub cells: spec_fn(int, int) -> Option<char>,
    pub cursor: (int, int),
}

/// The screen after one operation. Text goes into the cells from the
/// cursor on and is cut off at the end of the row. A line feed on the last
/// row moves every row up by one and leaves the last row blank. Clearing
/// blanks the cells from the cursor to the end of the screen.
pub open spec fn display_after(op: Op, d: Display, width: int, height: int) -> Display {
    let cursor = cursor_after(op, d.cursor, width, height);
    match op {
        Op::Print(s) => Display {
            cells: |c: int, r: int|
                if r == d.cursor.1 && d.cursor.0 <= c < d.cursor.0 + s.len() && c < width {
                    Some(s[c - d.cursor.0])
                } else {
                    (d.cells)(c, r)
                },
            cursor,
        },
        Op::LineFeed => if d.cursor.1 + 1 >= height {
            Display {
                cells: |c: int, r: int|
                    if r + 1 < height {
                        (d.cells)(c, r + 1)
                    } else {
                        None
                    },
                cursor,
            }
        } else {
            Display { cells: d.cells, cursor }
        },
        Op::ClearBelow => Display {
            cells: |c: int, r: int|
                if r > d.cursor.1 || (r == d.cursor.1 && c >= d.cursor.0) {
                    None
                } else {
                    (d.cells)(c, r)
                },
            cursor,
        },
        _ => Display { cells: d.cells, cursor },
    }
}

/// The screen after all of `ops`, performed in order.
pub open spec fn display_after_all(ops: Seq<Op>, d: Display, width: int, height: int) -> Display
    decreases ops.len(),
{
    if ops.len() == 0 {
        d
    } else {
        display_after(ops.last(), display_after_all(ops.drop_last(), d, width, height), width, height)
    }
}

/// How far along the wrapped line a cell lies, counted in cells from the
/// first column of the row `top`.
pub open spec fn place(col: int, row: int, top: int, width: int) -> int {
    (row - top) * width + col
}

/// What the line shows at a place: the prompt, a space, then the
/// characters of the text, and nothing behind them.
pub open spec fn glyph(prompt: char, text: Seq<char>, at: int) -> Option<char> {
    if at == 0 {
        Some(prompt)
    } else if at == 1 {
        Some(' ')
    } else if 2 <= at < 2 + text.len() {
        Some(text[at - 2])
    } else {
        None
    }
}

/// Whether the cells on the screen that lie before place `to` of the line
/// show what the line has there.
pub open spec fn held_before(
    d: Display,
    top: int,
    prompt: char,
    text: Seq<char>,
    to: int,
    width: int,
    height: int,
) -> bool {
    forall|c: int, r: int|
        0 <= c < width && 0 <= r < height && 0 <= place(c, r, top, width) < to ==> #[trigger] (d.cells)(c, r)
            == glyph(prompt, text, place(c, r, top, width))
}

/// Whether the cells on the screen from place `from` of the line on are
/// blank.
pub open spec fn blank_from(d: Display, top: int, from: int, width: int, height: int) -> bool {
    forall|c: int, r: int|
        0 <= c < width && 0 <= r < height && place(c, r, top, width) >= from ==> #[trigger] (d.cells)(c, r)
            is None
}

/// Whether the screen shows the line from the row `top` on: the prompt
/// and the text in their cells, as far as they are on the screen, and
/// blank cells behind them down to the end of the screen.
pub open spec fn shows(d: Display, top: int, prompt: char, text: Seq<char>, width: int, height: int) -> bool {
    forall|c: int, r: int|
        0 <= c < width && 0 <= r < height && 0 <= place(c, r, top, width) ==> #[trigger] (d.cells)(c, r)
            == glyph(prompt, text, place(c, r, top, width))
}

/// Performing one list of operations after another is performing the two
/// as one list.
pub proof fn lemma_display_after_both(a: Seq<Op>, b: Seq<Op>, d: Display, width: int, height: int)
    ensures
        display_after_all(a + b, d, width, height) == display_after_all(
            b,
            display_after_all(a, d, width, height),
            width,
            height,
        ),
    decreases b.len(),
{
    if b.len() == 0 {
        assert(a + b =~= a);
    } else {
        lemma_display_after_both(a, b.drop_last(), d, width, height);
        assert((a + b).drop_last() =~= a + b.drop_last());
        assert((a + b).last() == b.last());
    }
}

/// The cursor of the screen is where the model of the cursor has it.
pub proof fn lemma_display_cursor(ops: Seq<Op>, d: Display, width: int, height: int)
    ensures
        display_after_all(ops, d, width, height).cursor == cursor_after_all(ops, d.cursor, width, height),
    decreases ops.len(),
{
    if ops.len() > 0 {
        lemma_display_cursor(ops.drop_last(), d, width, height);
    }
}

/// One operation alone.
proof fn lemma_display_after_one(op: Op, d: Display, width: int, height: int)
    ensures
        display_after_all(seq![op], d, width, height) == display_after(op, d, width, height),
{
    assert(seq![op].drop_last() =~= Seq::<Op>::empty());
    assert(display_after_all(Seq::<Op>::empty(), d, width, height) == d);
}

/// Cells in the order of their places: a cell on a row further up, or on
/// the same row further left, has the smaller place.
proof fn lemma_place_order(c1: int, r1: int, c2: int, r2: int, top: int, width: int)
    requires
        0 <= c1 < width,
        0 <= c2 < width,
    ensures
        place(c1, r1, top, width) < place(c2, r2, top, width) <==> r1 < r2 || (r1 == r2 && c1 < c2),
        place(c1, r1, top, width) == place(c2, r2, top, width) <==> r1 == r2 && c1 == c2,
{
    assert(r1 < r2 ==> (r1 - top) * width + width <= (r2 - top) * width) by (nonlinear_arith)
        requires
            width > 0,
    ;
    assert(r2 < r1 ==> (r2 - top) * width + width <= (r1 - top) * width) by (nonlinear_arith)
        requires
            width > 0,
    ;
}

/// Moving the rows up by one moves the place of a cell with them.
proof fn lemma_place_scrolled(c: int, r: int, top: int, width: int)
    ensures
        place(c, r, top - 1, width) == place(c, r + 1, top, width),
{
    assert((r - (top - 1)) * width == (r + 1 - top) * width);
}

/// Going to the next row keeps what the screen shows of the line: the
/// cells before the place of the cursor, and the blank cells from there
/// on. The cursor is then on the first cell of the row below, which has
/// the place that follows the last cell of the row it was on.
proof fn lemma_next_row_keeps(
    d: Display,
    top: int,
    prompt: char,
    text: Seq<char>,
    row: int,
    width: int,
    height: int,
)
    requires
        0 < width,
        0 <= row < height,
        d.cursor.1 == row,
        held_before(d, top, prompt, text, place(0, row + 1, top, width), width, height),
        blank_from(d, top, place(0, row + 1, top, width), width, height),
    ensures
        ({
            let after = display_after_all(next_row_ops(row, height), d, width, height);
            let scroll = scrolls_needed(row, 1, height);
            &&& after.cursor == (0int, min(row + 1, height - 1))
            &&& held_before(after, top - scroll, prompt, text, place(0, row + 1, top, width), width, height)
            &&& blank_from(after, top - scroll, place(0, row + 1, top, width), width, height)
            &&& place(0, min(row + 1, height - 1), top - scroll, width) == place(0, row + 1, top, width)
        }),
{
    let ops = next_row_ops(row, height);
    let none = Seq::<Op>::empty();
    assert(display_after_all(none, d, width, height) == d);
    if row + 1 < height {
        assert(ops.drop_last() =~= none);
    } else {
        let fed = display_after(Op::LineFeed, d, width, height);
        assert(ops.drop_last().drop_last() =~= none);
        assert(ops.drop_last().last() == Op::LineFeed);
        assert(display_after_all(ops.drop_last(), d, width, height) == fed);
        let after = display_after_all(ops, d, width, height);
        assert(after.cells == fed.cells);
        assert forall|c: int, r: int|
            0 <= c < width && 0 <= r < height && 0 <= place(c, r, top - 1, width) < place(
                0,
                row + 1,
                top,
                width,
            ) implies #[trigger] (after.cells)(c, r) == glyph(prompt, text, place(c, r, top - 1, width)) by {
            lemma_place_scrolled(c, r, top, width);
            lemma_place_order(c, r + 1, 0, row + 1, top, width);
            assert((d.cells)(c, r + 1) == glyph(prompt, text, place(c, r + 1, top, width)));
        }
        assert forall|c: int, r: int|
            0 <= c < width && 0 <= r < height && place(c, r, top - 1, width) >= place(
                0,
                row + 1,
                top,
                width,
            ) implies #[trigger] (after.cells)(c, r) is None by {
            lemma_place_scrolled(c, r, top, width);
            if r + 1 < height {
                assert((d.cells)(c, r + 1) is None);
            }
        }
        lemma_place_scrolled(0, row, top, width);
    }
}

/// Writing the rest of the line from the cursor on leaves the whole line
/// on the screen. Before, the cursor is on the cell of the character with
/// index `from`, the screen shows the line up to that cell and is blank
/// from there on. Afterwards the screen shows the line, moved up by the
/// rows that the screen scrolled, and the cursor is on the cell behind the
/// last character.
pub proof fn lemma_paint_shows(
    d: Display,
    top: int,
    prompt: char,
    text: Seq<char>,
    from: int,
    width: int,
    height: int,
)
    requires
        0 < width,
        0 <= d.cursor.0 < width,
        0 <= d.cursor.1 < height,
        0 <= from <= text.len(),
        place(d.cursor.0, d.cursor.1, top, width) == 2 + from,
        held_before(d, top, prompt, text, 2 + from, width, height),
        blank_from(d, top, 2 + from, width, height),
    ensures
        ({
            let rest = text.skip(from);
            let after = display_after_all(
                paint_ops(rest, d.cursor.0, d.cursor.1, width, height),
                d,
                width,
                height,
            );
            let crossed = rows_crossed(d.cursor.0, rest.len() as int, width);
            let scroll = scrolls_needed(d.cursor.1, crossed, height);
            &&& shows(after, top - scroll, prompt, text, width, height)
            &&& after.cursor == (end_col(d.cursor.0, rest.len() as int, width), min(
                d.cursor.1 + crossed,
                height - 1,
            ))
            &&& place(after.cursor.0, after.cursor.1, top - scroll, width) == 2 + text.len()
        }),
    decreases text.len() - from,
{
    let col = d.cursor.0;
    let row = d.cursor.1;
    let rest = text.skip(from);
    let n = rest.len() as int;
    let ops = paint_ops(rest, col, row, width, height);
    if n < width - col {
        let after = display_after(Op::Print(rest), d, width, height);
        lemma_display_after_one(Op::Print(rest), d, width, height);
        lemma_fundamental_div_mod_converse(col + n, width, 0, col + n);
        assert forall|c: int, r: int|
            0 <= c < width && 0 <= r < height && 0 <= place(c, r, top, width) implies #[trigger] (after.cells)(
            c,
            r,
        ) == glyph(prompt, text, place(c, r, top, width)) by {
            lemma_place_order(c, r, col, row, top, width);
            if r == row && col <= c < col + n {
                assert(rest[c - col] == text[from + c - col]);
            } else if place(c, r, top, width) < 2 + from {
                assert((d.cells)(c, r) == glyph(prompt, text, place(c, r, top, width)));
            } else {
                assert((d.cells)(c, r) is None);
                if r == row {
                    assert(c >= col + n);
                } else {
                    assert(r > row);
                    assert(place(c, r, top, width) >= place(col, row, top, width) + (width - col))
                        by (nonlinear_arith)
                        requires
                            r > row,
                            0 <= c,
                            width > 0,
                    ;
                }
            }
        }
    } else {
        let step = width - col;
        let head = rest.take(step);
        let tail = rest.skip(step);
        let down = next_row_ops(row, height);
        let next = min(row + 1, height - 1);
        let more = paint_ops(tail, 0, next, width, height);
        let d1 = display_after(Op::Print(head), d, width, height);
        let first = place(0, row + 1, top, width);
        assert(first == 2 + from + step) by (nonlinear_arith)
            requires
                first == (row + 1 - top) * width + 0,
                (row - top) * width + col == 2 + from,
                step == width - col,
        ;
        assert forall|c: int, r: int|
            0 <= c < width && 0 <= r < height && 0 <= place(c, r, top, width) < first implies #[trigger] (
        d1.cells)(c, r) == glyph(prompt, text, place(c, r, top, width)) by {
            lemma_place_order(c, r, col, row, top, width);
            lemma_place_order(c, r, 0, row + 1, top, width);
            if r == row && col <= c {
                assert(head[c - col] == text[from + c - col]);
            } else {
                assert((d.cells)(c, r) == glyph(prompt, text, place(c, r, top, width)));
            }
        }
        assert forall|c: int, r: int|
            0 <= c < width && 0 <= r < height && place(c, r, top, width) >= first implies #[trigger] (
        d1.cells)(c, r) is None by {
            lemma_place_order(c, r, 0, row + 1, top, width);
            assert((d.cells)(c, r) is None);
        }
        lemma_next_row_keeps(d1, top, prompt, text, row, width, height);
        let d2 = display_after_all(down, d1, width, height);
        let scroll1 = scrolls_needed(row, 1, height);
        assert(text.skip(from + step) =~= tail);
        lemma_paint_shows(d2, top - scroll1, prompt, text, from + step, width, height);
        lemma_display_after_one(Op::Print(head), d, width, height);
        lemma_display_after_both(seq![Op::Print(head)], down, d, width, height);
        lemma_display_after_both(seq![Op::Print(head)] + down, more, d, width, height);
        let crossed2 = rows_crossed(0, tail.len() as int, width);
        lemma_fundamental_div_mod(tail.len() as int, width);
        assert(width * crossed2 == crossed2 * width) by (nonlinear_arith);
        assert((crossed2 + 1) * width == crossed2 * width + width) by (nonlinear_arith);
        lemma_fundamental_div_mod_converse(col + n, width, crossed2 + 1, tail.len() as int % width);
        vstd::arithmetic::div_mod::lemma_div_pos_is_pos(tail.len() as int, width);
    }
}

/// Whether the screen shows the line of the buffer, with blank cells
/// behind it and the cursor where the buffer has it.
pub open spec fn shows_line(d: Display, e: EditBuffer) -> bool {
    &&& shows(d, e.top(), e.prompt, e.text@, e.screen.width as int, e.screen.height as int)
    &&& d.cursor == e.screen.cursor()
}

/// Whether the screen shows the line of the buffer up to the cursor, with
/// the cursor where the buffer has it. What it shows from the cursor on is
/// left open.
pub open spec fn shows_line_to_cursor(d: Display, e: EditBuffer) -> bool {
    &&& held_before(
        d,
        e.top(),
        e.prompt,
        e.text@,
        PROMPT_WIDTH + e.cursor,
        e.screen.width as int,
        e.screen.height as int,
    )
    &&& d.cursor == e.screen.cursor()
}

/// The cursor of a well-formed buffer is on the cell whose place is that
/// of the character it stands before.
proof fn lemma_cursor_place(e: EditBuffer)
    requires
        e.wf(),
    ensures
        place(e.screen.col as int, e.screen.row as int, e.top(), e.screen.width as int) == PROMPT_WIDTH
            + e.cursor,
{
    let width = e.screen.width as int;
    lemma_fundamental_div_mod(PROMPT_WIDTH + e.cursor, width);
    assert(width * (e.offset as int) == e.offset * width) by (nonlinear_arith);
}

/// A character put in shows on the screen. Let the screen show the line
/// up to the cursor. After the operations that put a character in at the
/// cursor, the screen shows the new line, all of it that is on the screen,
/// and no more.
pub proof fn lemma_insert_shows(pre: EditBuffer, c: char, post: EditBuffer, ops: Seq<Op>, d: Display)
    requires
        pre.wf(),
        pre.can_insert(),
        EditBuffer::inserted(pre, c, post, ops),
        shows_line_to_cursor(d, pre),
    ensures
        shows_line(display_after_all(ops, d, pre.screen.width as int, pre.screen.height as int), post),
{
    let width = pre.screen.width as int;
    let height = pre.screen.height as int;
    let top = pre.top();
    let at = pre.cursor as int;
    let text = post.text@;
    let cleared = display_after(Op::ClearBelow, d, width, height);
    let paint = paint_ops(text.skip(at), pre.screen.col as int, pre.screen.row as int, width, height);
    let back = Op::MoveTo(post.screen.col as int, post.screen.row as int);
    lemma_cursor_place(pre);
    assert forall|c: int, r: int|
        0 <= c < width && 0 <= r < height && 0 <= place(c, r, top, width) < 2 + at implies #[trigger] (
    cleared.cells)(c, r) == glyph(pre.prompt, text, place(c, r, top, width)) by {
        lemma_place_order(c, r, pre.screen.col as int, pre.screen.row as int, top, width);
        assert((d.cells)(c, r) == glyph(pre.prompt, pre.text@, place(c, r, top, width)));
    }
    assert forall|c: int, r: int|
        0 <= c < width && 0 <= r < height && place(c, r, top, width) >= 2 + at implies #[trigger] (
    cleared.cells)(c, r) is None by {
        lemma_place_order(c, r, pre.screen.col as int, pre.screen.row as int, top, width);
    }
    lemma_paint_shows(cleared, top, pre.prompt, text, at, width, height);
    lemma_span(at, text.len() as int, width);
    lemma_display_after_one(Op::ClearBelow, d, width, height);
    lemma_display_after_both(seq![Op::ClearBelow], paint, d, width, height);
    lemma_display_after_both(seq![Op::ClearBelow] + paint, seq![back], d, width, height);
    let painted = display_after_all(seq![Op::ClearBelow] + paint, d, width, height);
    lemma_display_after_one(back, painted, width, height);
}

/// A character taken out leaves the screen. Let the screen show the line
/// up to the cursor. After the operations that take out the character
/// before the cursor, the screen shows the new line, all of it that is on
/// the screen, and no more.
pub proof fn lemma_erase_shows(pre: EditBuffer, post: EditBuffer, ops: Seq<Op>, d: Display)
    requires
        pre.wf(),
        pre.can_step_back(),
        EditBuffer::erased(pre, post, ops),
        shows_line_to_cursor(d, pre),
    ensures
        shows_line(display_after_all(ops, d, pre.screen.width as int, pre.screen.height as int), post),
{
    let width = pre.screen.width as int;
    let height = pre.screen.height as int;
    let top = pre.top();
    let at = post.cursor as int;
    let text = post.text@;
    let col = post.screen.col as int;
    let row = post.screen.row as int;
    let go = Op::MoveTo(col, row);
    let moved = display_after(go, d, width, height);
    let cleared = display_after(Op::ClearBelow, moved, width, height);
    let paint = paint_ops(text.skip(at), col, row, width, height);
    lemma_cursor_place(post);
    assert forall|c: int, r: int|
        0 <= c < width && 0 <= r < height && 0 <= place(c, r, top, width) < 2 + at implies #[trigger] (
    cleared.cells)(c, r) == glyph(pre.prompt, text, place(c, r, top, width)) by {
        lemma_place_order(c, r, col, row, top, width);
        assert((d.cells)(c, r) == glyph(pre.prompt, pre.text@, place(c, r, top, width)));
    }
    assert forall|c: int, r: int|
        0 <= c < width && 0 <= r < height && place(c, r, top, width) >= 2 + at implies #[trigger] (
    cleared.cells)(c, r) is None by {
        lemma_place_order(c, r, col, row, top, width);
    }
    lemma_paint_shows(cleared, top, pre.prompt, text, at, width, height);
    lemma_span(at, text.len() as int, width);
    lemma_display_after_one(go, d, width, height);
    lemma_display_after_both(seq![go], seq![Op::ClearBelow], d, width, height);
    lemma_display_after_one(Op::ClearBelow, moved, width, height);
    assert(seq![go] + seq![Op::ClearBelow] =~= seq![go, Op::ClearBelow]);
    lemma_display_after_both(seq![go, Op::ClearBelow], paint, d, width, height);
    lemma_display_after_both(seq![go, Op::ClearBelow] + paint, seq![go], d, width, height);
    let painted = display_after_all(seq![go, Op::ClearBelow] + paint, d, width, height);
    lemma_display_after_one(go, painted, width, height);
}

/// A move of the cursor leaves on the screen what it shows.
pub proof fn lemma_move_shows(pre: EditBuffer, post: EditBuffer, ops: Seq<Op>, d: Display)
    requires
        pre.wf(),
        EditBuffer::moved(pre, post, ops) || EditBuffer::homed(pre, post, ops),
        shows_line(d, pre),
    ensures
        shows_line(display_after_all(ops, d, pre.screen.width as int, pre.screen.height as int), post),
{
    let width = pre.screen.width as int;
    let height = pre.screen.height as int;
    let go = Op::MoveTo(post.screen.col as int, post.screen.row as int);
    if ops.len() == 0 {
        assert(display_after_all(ops, d, width, height) == d);
    } else {
        lemma_display_after_one(go, d, width, height);
    }
}

/// A line written anew shows on the screen, whatever the screen showed
/// before: after the operations that write the prompt on row `row` and
/// `text` behind it, the screen shows them from the row that the scrolling
/// has left them on, and blank cells behind them.
pub proof fn lemma_redraw_shows(prompt: char, text: Seq<char>, row: int, width: int, height: int, d: Display)
    requires
        2 < width,
        0 <= row < height,
    ensures
        ({
            let after = display_after_all(
                EditBuffer::redraw_ops(prompt, text, row, width, height),
                d,
                width,
                height,
            );
            let crossed = rows_crossed(2, text.len() as int, width);
            let scroll = scrolls_needed(row, crossed, height);
            &&& shows(after, row - scroll, prompt, text, width, height)
            &&& after.cursor == (end_col(2, text.len() as int, width), min(row + crossed, height - 1))
        }),
{
    let lead = seq![prompt, ' '];
    let go = Op::MoveTo(0, row);
    let start = seq![go, Op::ClearBelow, Op::Print(lead), Op::MoveTo(2, row)];
    let paint = paint_ops(text, 2, row, width, height);
    let d1 = display_after(go, d, width, height);
    let d2 = display_after(Op::ClearBelow, d1, width, height);
    let d3 = display_after(Op::Print(lead), d2, width, height);
    let d4 = display_after(Op::MoveTo(2, row), d3, width, height);
    assert(display_after_all(start, d, width, height) == d4) by {
        let none = Seq::<Op>::empty();
        assert(display_after_all(none, d, width, height) == d);
        assert(start.drop_last().drop_last().drop_last().drop_last() =~= none);
        assert(start.drop_last().drop_last().drop_last().last() == go);
        assert(display_after_all(start.drop_last().drop_last().drop_last(), d, width, height) == d1);
        assert(start.drop_last().drop_last().last() == Op::ClearBelow);
        assert(display_after_all(start.drop_last().drop_last(), d, width, height) == d2);
        assert(start.drop_last().last() == Op::Print(lead));
        assert(display_after_all(start.drop_last(), d, width, height) == d3);
    }
    assert forall|c: int, r: int|
        0 <= c < width && 0 <= r < height && 0 <= place(c, r, row, width) < 2 implies #[trigger] (d4.cells)(c, r)
        == glyph(prompt, text, place(c, r, row, width)) by {
        lemma_place_order(c, r, 2, row, row, width);
        lemma_place_order(c, r, 0, row, row, width);
    }
    assert forall|c: int, r: int|
        0 <= c < width && 0 <= r < height && place(c, r, row, width) >= 2 implies #[trigger] (d4.cells)(c, r)
        is None by {
        lemma_place_order(c, r, 2, row, row, width);
        lemma_place_order(c, r, 0, row, row, width);
    }
    assert(text.skip(0) =~= text);
    lemma_paint_shows(d4, row, prompt, text, 0, width, height);
    lemma_display_after_both(start, paint, d, width, height);
}

/// A line that replaces another shows on the screen, whatever the screen
/// showed before.
pub proof fn lemma_replace_shows(pre: EditBuffer, text: Seq<char>, post: EditBuffer, ops: Seq<Op>, d: Display)
    requires
        pre.wf(),
        EditBuffer::replaced(pre, text, post, ops),
    ensures
        shows_line(display_after_all(ops, d, pre.screen.width as int, pre.screen.height as int), post),
{
    let width = pre.screen.width as int;
    lemma_redraw_shows(pre.prompt, text, pre.redraw_row(), width, pre.screen.height as int, d);
    lemma_cursor_place(post);
    lemma_fundamental_div_mod_converse(PROMPT_WIDTH as int, width, 0, PROMPT_WIDTH as int);
    lemma_span(0, text.len() as int, width);
}

/// After a new size of the terminal a line that is not empty shows on the
/// screen, whatever the terminal has made of the screen.
pub proof fn lemma_resize_shows(
    pre: EditBuffer,
    width: u16,
    height: u16,
    post: EditBuffer,
    ops: Seq<Op>,
    d: Display,
)
    requires
        pre.wf(),
        width >= crate::buffer::MIN_WIDTH,
        height > 0,
        pre.text@.len() > 0,
        EditBuffer::fitted(pre, width, height, post, ops),
    ensures
        shows_line(display_after_all(ops, d, width as int, height as int), post),
{
    let row = min(pre.redraw_row(), height - 1);
    lemma_redraw_shows(pre.prompt, pre.text@, row, width as int, height as int, d);
    lemma_cursor_place(post);
    lemma_fundamental_div_mod_converse(PROMPT_WIDTH as int, width as int, 0, PROMPT_WIDTH as int);
    lemma_span(0, pre.text@.len() as int, width as int);
}

} // verus!
