//! A model of the terminal as the line editor sees it: a cursor on a grid of
//! `width` by `height` cells with line wrapping switched off, and the
//! operations that the editor asks the terminal to perform.

use vstd::prelude::*;
use crate::text::slice_to_string;

verus! {

/// One request to the terminal.
#[derive(Debug, PartialEq, Eq)]
pub enum TermOp {
    /// Put the cursor on the given column and row.
    MoveTo(u16, u16),
    /// Write the text at the cursor. With line wrapping off, what does not
    /// fit on the row is lost.
    Print(String),
    /// Move the cursor one row down, scrolling the screen up by one row when
    /// the cursor is on the last row. The column stays.
    LineFeed,
    /// Erase from the cursor to the end of the screen.
    ClearBelow,
    /// Switch raw input mode on or off.
    RawMode(bool),
    /// Switch the terminal's own line wrapping on or off.
    LineWrap(bool),
}

/// What a `TermOp` stands for in specifications.
pub enum Op {
    MoveTo(int, int),
    Print(Seq<char>),
    LineFeed,
    ClearBelow,
    RawMode(bool),
    LineWrap(bool),
}

impl View for TermOp {
    type V = Op;

    open spec fn view(&self) -> Op {
        match *self {
            TermOp::MoveTo(c, r) => Op::MoveTo(c as int, r as int),
            TermOp::Print(s) => Op::Print(s@),
            TermOp::LineFeed => Op::LineFeed,
            TermOp::ClearBelow => Op::ClearBelow,
            TermOp::RawMode(b) => Op::RawMode(b),
            TermOp::LineWrap(b) => Op::LineWrap(b),
        }
    }
}

/// The operations of `ops` as specifications see them.
pub open spec fn views(ops: Seq<TermOp>) -> Seq<Op> {
    ops.map_values(|o: TermOp| o@)
}

/// The size of the terminal and the place of its cursor.
#[derive(Clone, Copy, Debug, PartialEq, Eq, Structural)]
pub struct Screen {
    pub width: u16,
    pub height: u16,
    pub col: u16,
    pub row: u16,
}

/// The smaller of two integers.
pub open spec fn min(a: int, b: int) -> int {
    if a <= b { a } else { b }
}

/// The place of the cursor, as (column, row), after one operation on a
/// terminal of the given size. A position outside the grid is clamped to
/// it, and text that reaches the last column leaves the cursor there.
pub open spec fn cursor_after(op: Op, at: (int, int), width: int, height: int) -> (int, int) {
    match op {
        Op::MoveTo(c, r) => (min(c, width - 1), min(r, height - 1)),
        Op::Print(s) => (min(at.0 + s.len(), width - 1), at.1),
        Op::LineFeed => (at.0, min(at.1 + 1, height - 1)),
        _ => at,
    }
}

/// The place of the cursor after all of `ops`, performed in order.
pub open spec fn cursor_after_all(ops: Seq<Op>, at: (int, int), width: int, height: int) -> (int, int)
    decreases ops.len(),
{
    if ops.len() == 0 {
        at
    } else {
        cursor_after(ops.last(), cursor_after_all(ops.drop_last(), at, width, height), width, height)
    }
}

/// How many rows the screen has scrolled up once `op` is performed with the
/// cursor on row `row`.
pub open spec fn scroll_of(op: Op, row: int, height: int) -> int {
    match op {
        Op::LineFeed => if row + 1 >= height { 1 } else { 0 },
        _ => 0,
    }
}

/// How many rows the screen has scrolled up once all of `ops` are performed.
pub open spec fn scrolled_after_all(ops: Seq<Op>, at: (int, int), width: int, height: int) -> int
    decreases ops.len(),
{
    if ops.len() == 0 {
        0
    } else {
        let before = cursor_after_all(ops.drop_last(), at, width, height);
        scrolled_after_all(ops.drop_last(), at, width, height) + scroll_of(ops.last(), before.1, height)
    }
}

/// All the text that `ops` writes, in order.
pub open spec fn printed(ops: Seq<Op>) -> Seq<char>
    decreases ops.len(),
{
    if ops.len() == 0 {
        Seq::empty()
    } else {
        match ops.last() {
            Op::Print(s) => printed(ops.drop_last()) + s,
            _ => printed(ops.drop_last()),
        }
    }
}

/// What two lists of operations write, one after the other, is what the
/// first writes and then what the second writes.
proof fn lemma_printed_both(a: Seq<Op>, b: Seq<Op>)
    ensures
        printed(a + b) == printed(a) + printed(b),
    decreases b.len(),
{
    if b.len() == 0 {
        assert(a + b =~= a);
        assert(printed(a) + printed(b) =~= printed(a));
    } else {
        lemma_printed_both(a, b.drop_last());
        assert((a + b).drop_last() =~= a + b.drop_last());
        assert((a + b).last() == b.last());
        match b.last() {
            Op::Print(s) => {
                assert(printed(a) + printed(b.drop_last()) + s =~= printed(a) + (printed(b.drop_last()) + s));
            },
            _ => {},
        }
    }
}

impl Screen {
    /// A screen is a grid with at least one cell and the cursor on it.
    pub open spec fn wf(&self) -> bool {
        &&& self.col < self.width
        &&& self.row < self.height
    }

    /// The cursor as (column, row).
    pub open spec fn cursor(&self) -> (int, int) {
        (self.col as int, self.row as int)
    }

    /// Performs one operation on the model and returns how many rows the
    /// screen scrolled.
    pub fn perform(&mut self, op: &TermOp) -> (scrolled: usize)
        requires
            old(self).wf(),
        ensures
            final(self).wf(),
            final(self).width == old(self).width,
            final(self).height == old(self).height,
            final(self).cursor() == cursor_after(
                op@,
                old(self).cursor(),
                old(self).width as int,
                old(self).height as int,
            ),
            scrolled == scroll_of(op@, old(self).row as int, old(self).height as int),
    {
        match op {
            TermOp::MoveTo(c, r) => {
                self.col = if *c < self.width { *c } else { self.width - 1 };
                self.row = if *r < self.height { *r } else { self.height - 1 };
                0
            },
            TermOp::Print(s) => {
                let n = s.as_str().unicode_len();
                let room: usize = (self.width - 1 - self.col) as usize;
                if n < room {
                    self.col = self.col + n as u16;
                } else {
                    self.col = self.width - 1;
                }
                0
            },
            TermOp::LineFeed => {
                if self.row + 1 < self.height {
                    self.row = self.row + 1;
                    0
                } else {
                    1
                }
            },
            _ => 0,
        }
    }
}

/// The operations that take the cursor from row `row` to the first column of
/// the row below, scrolling when `row` is the last one.
pub open spec fn next_row_ops(row: int, height: int) -> Seq<Op> {
    if row + 1 < height {
        seq![Op::MoveTo(0, row + 1)]
    } else {
        seq![Op::LineFeed, Op::MoveTo(0, height - 1)]
    }
}

/// The operations that write `t` from the cell (`col`, `row`) on, row by
/// row: each row is filled up to its last column, and the cursor is then
/// taken to the row below. The last operation leaves the cursor on the cell
/// that follows the text.
pub open spec fn paint_ops(t: Seq<char>, col: int, row: int, width: int, height: int) -> Seq<Op>
    decreases t.len(),
{
    if t.len() < width - col || col >= width {
        seq![Op::Print(t)]
    } else {
        seq![Op::Print(t.take(width - col))] + next_row_ops(row, height) + paint_ops(
            t.skip(width - col),
            0,
            min(row + 1, height - 1),
            width,
            height,
        )
    }
}

/// Writing a text row by row writes the text, all of it and nothing else.
pub proof fn lemma_paint_writes(t: Seq<char>, col: int, row: int, width: int, height: int)
    ensures
        printed(paint_ops(t, col, row, width, height)) == t,
    decreases t.len(),
{
    let one = |s: Seq<char>| seq![Op::Print(s)];
    assert forall|s: Seq<char>| printed(#[trigger] one(s)) == s by {
        assert(one(s).drop_last() =~= Seq::<Op>::empty());
        assert(printed(Seq::<Op>::empty()) + s =~= s);
    }
    if t.len() < width - col || col >= width {
        assert(paint_ops(t, col, row, width, height) == one(t));
    } else {
        let head = t.take(width - col);
        let tail = t.skip(width - col);
        let down = next_row_ops(row, height);
        let rest = paint_ops(tail, 0, min(row + 1, height - 1), width, height);
        lemma_paint_writes(tail, 0, min(row + 1, height - 1), width, height);
        lemma_printed_both(one(head) + down, rest);
        lemma_printed_both(one(head), down);
        let none = Seq::<Op>::empty();
        assert(printed(none) =~= Seq::<char>::empty());
        if row + 1 < height {
            assert(down.drop_last() =~= none);
        } else {
            assert(down.drop_last().drop_last() =~= none);
            assert(down.drop_last().last() == Op::LineFeed);
            assert(printed(down.drop_last()) == printed(none));
        }
        assert(printed(down) == printed(none));
        assert(head + Seq::<char>::empty() + tail =~= t);
    }
}

/// The column of the cell that follows `n` characters written from column
/// `col` on.
pub open spec fn end_col(col: int, n: int, width: int) -> int {
    (col + n) % width
}

/// How many times the cursor goes to a next row while `n` characters are
/// written from column `col` on.
pub open spec fn rows_crossed(col: int, n: int, width: int) -> int {
    (col + n) / width
}

/// How many rows the screen scrolls when the cursor goes down `rows` rows
/// from row `row`.
pub open spec fn scrolls_needed(row: int, rows: int, height: int) -> int {
    if row + rows > height - 1 { row + rows - (height - 1) } else { 0 }
}

/// A list of operations under construction, together with the model of the
/// terminal as it will be once they are performed.
pub struct Canvas {
    pub ops: Vec<TermOp>,
    pub screen: Screen,
    pub scrolled: usize,
    pub start: Ghost<Screen>,
}

impl Canvas {
    /// The model shows what the operations do to the terminal that `start`
    /// describes.
    pub open spec fn wf(&self) -> bool {
        &&& self.screen.wf()
        &&& self.start@.wf()
        &&& self.screen.width == self.start@.width
        &&& self.screen.height == self.start@.height
        &&& self.screen.cursor() == cursor_after_all(
            views(self.ops@),
            self.start@.cursor(),
            self.screen.width as int,
            self.screen.height as int,
        )
        &&& self.scrolled == scrolled_after_all(
            views(self.ops@),
            self.start@.cursor(),
            self.screen.width as int,
            self.screen.height as int,
        )
        &&& self.scrolled <= self.ops@.len()
    }

    /// The operations so far, as specifications see them.
    pub open spec fn script(&self) -> Seq<Op> {
        views(self.ops@)
    }

    /// An empty list of operations for the terminal that `screen` describes.
    pub fn new(screen: Screen) -> (c: Canvas)
        requires
            screen.wf(),
        ensures
            c.wf(),
            c.start@ == screen,
            c.screen == screen,
            c.scrolled == 0,
            c.script() == Seq::<Op>::empty(),
    {
        let c = Canvas { ops: Vec::new(), screen, scrolled: 0, start: Ghost(screen) };
        assert(views(c.ops@) =~= Seq::<Op>::empty());
        c
    }

    /// Appends `op` and performs it on the model.
    pub fn emit(&mut self, op: TermOp)
        requires
            old(self).wf(),
        ensures
            final(self).wf(),
            final(self).start == old(self).start,
            final(self).script() == old(self).script().push(op@),
            final(self).screen.cursor() == cursor_after(
                op@,
                old(self).screen.cursor(),
                old(self).screen.width as int,
                old(self).screen.height as int,
            ),
            final(self).scrolled == old(self).scrolled + scroll_of(
                op@,
                old(self).screen.row as int,
                old(self).screen.height as int,
            ),
    {
        let scrolled = self.screen.perform(&op);
        self.ops.push(op);
        let count = self.ops.len();
        assert(self.scrolled < count);
        self.scrolled = self.scrolled + scrolled;
        proof {
            assert(views(self.ops@) =~= views(old(self).ops@).push(op@));
            assert(views(self.ops@).drop_last() =~= views(old(self).ops@));
        }
    }

    /// Takes the cursor to the first column of the row below, scrolling when
    /// it is on the last row.
    pub fn next_row(&mut self)
        requires
            old(self).wf(),
        ensures
            final(self).wf(),
            final(self).start == old(self).start,
            final(self).script() == old(self).script() + next_row_ops(
                old(self).screen.row as int,
                old(self).screen.height as int,
            ),
            final(self).screen.col == 0,
            final(self).screen.row == min(old(self).screen.row + 1, old(self).screen.height - 1),
            final(self).scrolled == old(self).scrolled + scrolls_needed(
                old(self).screen.row as int,
                1,
                old(self).screen.height as int,
            ),
    {
        let row = self.screen.row;
        if row + 1 < self.screen.height {
            self.emit(TermOp::MoveTo(0, row + 1));
        } else {
            self.emit(TermOp::LineFeed);
            self.emit(TermOp::MoveTo(0, row));
        }
        assert(self.script() =~= old(self).script() + next_row_ops(
            old(self).screen.row as int,
            old(self).screen.height as int,
        ));
    }

    /// Writes the characters of `text` from index `from` on, starting at the
    /// cursor and going to a next row whenever a row is full.
    pub fn paint(&mut self, text: &Vec<char>, from: usize)
        requires
            old(self).wf(),
            from <= text.len(),
        ensures
            final(self).wf(),
            final(self).start == old(self).start,
            final(self).script() == old(self).script() + paint_ops(
                text@.skip(from as int),
                old(self).screen.col as int,
                old(self).screen.row as int,
                old(self).screen.width as int,
                old(self).screen.height as int,
            ),
            final(self).screen.col == end_col(
                old(self).screen.col as int,
                text.len() - from,
                old(self).screen.width as int,
            ),
            final(self).screen.row == min(
                old(self).screen.row + rows_crossed(
                    old(self).screen.col as int,
                    text.len() - from,
                    old(self).screen.width as int,
                ),
                old(self).screen.height - 1,
            ),
            final(self).scrolled == old(self).scrolled + scrolls_needed(
                old(self).screen.row as int,
                rows_crossed(old(self).screen.col as int, text.len() - from, old(self).screen.width as int),
                old(self).screen.height as int,
            ),
    {
        let width = self.screen.width;
        let ghost height = self.screen.height as int;
        let ghost col0 = old(self).screen.col as int;
        let ghost row0 = old(self).screen.row as int;
        let ghost total = col0 + (text.len() - from);
        let mut i: usize = from;
        let ghost mut crossed: int = 0;
        while text.len() - i >= (width - self.screen.col) as usize
            invariant
                self.wf(),
                self.start == old(self).start,
                self.screen.width == width,
                self.screen.height == height,
                from <= i <= text.len(),
                0 <= crossed,
                self.screen.col + (text.len() - i) + crossed * width == total,
                self.screen.row == min(row0 + crossed, height - 1),
                self.scrolled == old(self).scrolled + scrolls_needed(row0, crossed, height),
                self.script() + paint_ops(
                    text@.skip(i as int),
                    self.screen.col as int,
                    self.screen.row as int,
                    width as int,
                    height,
                ) == old(self).script() + paint_ops(text@.skip(from as int), col0, row0, width as int, height),
            decreases text.len() - i,
        {
            let room: usize = (width - self.screen.col) as usize;
            let ghost before = self.script();
            let ghost col = self.screen.col as int;
            let ghost row = self.screen.row as int;
            let chunk = slice_to_string(text, i, i + room);
            proof {
                assert(text@.skip(i as int).take(room as int) =~= text@.subrange(i as int, i + room));
                assert(text@.skip(i as int).skip(room as int) =~= text@.skip(i + room));
            }
            self.emit(TermOp::Print(chunk));
            self.next_row();
            i = i + room;
            proof {
                assert((crossed + 1) * width == crossed * width + width) by (nonlinear_arith);
                crossed = crossed + 1;
                assert(self.script() =~= before + (seq![Op::Print(text@.skip(i - room).take(room as int))]
                    + next_row_ops(row, height)));
                assert(before + (seq![Op::Print(text@.skip(i - room).take(room as int))] + next_row_ops(
                    row,
                    height,
                )) + paint_ops(text@.skip(i as int), 0, min(row + 1, height - 1), width as int, height)
                    =~= before + paint_ops(text@.skip(i - room), col, row, width as int, height));
            }
        }
        let ghost before = self.script();
        let ghost col = self.screen.col as int;
        let ghost row = self.screen.row as int;
        let rest = slice_to_string(text, i, text.len());
        proof {
            assert(text@.skip(i as int) =~= text@.subrange(i as int, text.len() as int));
        }
        self.emit(TermOp::Print(rest));
        proof {
            assert(self.script() =~= before + paint_ops(text@.skip(i as int), col, row, width as int, height));
            vstd::arithmetic::div_mod::lemma_fundamental_div_mod_converse(
                total,
                width as int,
                crossed,
                self.screen.col as int,
            );
        }
    }
}

} // verus!
