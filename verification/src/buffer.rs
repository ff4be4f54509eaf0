//! The edit buffer: the line being typed, the place of the cursor in it,
//! and where that place lies on the screen once the line is wrapped over
//! the rows of the terminal.

use vstd::prelude::*;
use vstd::arithmetic::div_mod::{
    lemma_div_is_ordered,
    lemma_fundamental_div_mod,
    lemma_fundamental_div_mod_converse,
};
use crate::text::{from_chars, push_char};
use crate::screen::{
    cursor_after_all,
    end_col,
    min,
    paint_ops,
    rows_crossed,
    scrolls_needed,
    views,
    Canvas,
    Op,
    Screen,
    TermOp,
};

verus! {

/// The columns that the prompt takes at the start of the first row.
pub const PROMPT_WIDTH: u16 = 2;

/// The narrowest terminal on which a line can be edited.
pub const MIN_WIDTH: u16 = 5;

/// The column of the cell that holds the character with the given index.
pub open spec fn cell_col(index: int, width: int) -> int {
    (PROMPT_WIDTH + index) % width
}

/// The row of the wrapped line that holds the character with the given
/// index, counted from the row of the prompt.
pub open spec fn cell_row(index: int, width: int) -> int {
    (PROMPT_WIDTH + index) / width
}

/// Going from one index to the next stays on the row, or starts the next.
pub proof fn lemma_next_cell(index: int, width: int)
    requires
        0 <= index,
        0 < width,
    ensures
        cell_col(index, width) + 1 < width ==> cell_col(index + 1, width) == cell_col(index, width) + 1
            && cell_row(index + 1, width) == cell_row(index, width),
        cell_col(index, width) + 1 >= width ==> cell_col(index + 1, width) == 0 && cell_row(
            index + 1,
            width,
        ) == cell_row(index, width) + 1,
        0 <= cell_col(index, width) < width,
        0 <= cell_row(index, width),
{
    let a = PROMPT_WIDTH + index;
    lemma_fundamental_div_mod(a, width);
    let q = a / width;
    let r = a % width;
    if r + 1 < width {
        lemma_fundamental_div_mod_converse(a + 1, width, q, r + 1);
    } else {
        assert((q + 1) * width == q * width + width) by (nonlinear_arith);
        lemma_fundamental_div_mod_converse(a + 1, width, q + 1, 0);
    }
    lemma_div_is_ordered(0, a, width);
}

/// Rows never go back as the index grows.
pub proof fn lemma_rows_ordered(i: int, j: int, width: int)
    requires
        0 <= i <= j,
        0 < width,
    ensures
        0 <= cell_row(i, width) <= cell_row(j, width),
{
    lemma_div_is_ordered(PROMPT_WIDTH + i, PROMPT_WIDTH + j, width);
    lemma_div_is_ordered(0, PROMPT_WIDTH + i, width);
}

/// Writing the characters from index `i` up to index `j`, starting on the
/// cell of `i`, ends on the cell of `j`.
pub proof fn lemma_span(i: int, j: int, width: int)
    requires
        0 <= i <= j,
        0 < width,
    ensures
        end_col(cell_col(i, width), j - i, width) == cell_col(j, width),
        rows_crossed(cell_col(i, width), j - i, width) == cell_row(j, width) - cell_row(i, width),
{
    let a = PROMPT_WIDTH + i;
    let b = PROMPT_WIDTH + j;
    lemma_fundamental_div_mod(a, width);
    lemma_fundamental_div_mod(b, width);
    let x = cell_col(i, width) + (j - i);
    let q = b / width - a / width;
    assert(x == q * width + b % width) by (nonlinear_arith)
        requires
            x == a % width + (b - a),
            a == width * (a / width) + a % width,
            b == width * (b / width) + b % width,
            q == b / width - a / width,
    ;
    lemma_fundamental_div_mod_converse(x, width, q, b % width);
}

/// The cell of an index on a terminal that is `width` columns wide, as
/// (column, row of the wrapped line).
pub fn cell_of(index: usize, width: u16) -> (cell: (u16, usize))
    requires
        width >= MIN_WIDTH,
    ensures
        cell.0 == cell_col(index as int, width as int),
        cell.1 == cell_row(index as int, width as int),
{
    let abs: u128 = index as u128 + PROMPT_WIDTH as u128;
    let w: u128 = width as u128;
    proof {
        lemma_fundamental_div_mod(abs as int, w as int);
        lemma_div_is_ordered(0, abs as int, w as int);
        assert(abs / w <= abs / 5) by {
            vstd::arithmetic::div_mod::lemma_div_is_ordered_by_denominator(abs as int, 5, w as int);
        }
    }
    ((abs % w) as u16, (abs / w) as usize)
}

/// The line being edited and where its cursor lies on the screen.
pub struct EditBuffer {
    /// The characters typed so far.
    pub text: Vec<char>,
    /// The index in `text` before which the next character goes.
    pub cursor: usize,
    /// The row of the wrapped line that the cursor is on.
    pub offset: usize,
    /// The size of the terminal and the cell that the cursor is on.
    pub screen: Screen,
    /// The character shown in front of the line.
    pub prompt: char,
}

impl EditBuffer {
    /// The cursor lies within the text, its cell on the screen is the one
    /// that its index and the width give, and the rest of the line from the
    /// cursor on fits on the rows below it.
    pub open spec fn wf(&self) -> bool {
        &&& self.screen.wf()
        &&& self.screen.width >= MIN_WIDTH
        &&& self.cursor <= self.text@.len()
        &&& self.screen.col == cell_col(self.cursor as int, self.screen.width as int)
        &&& self.offset == cell_row(self.cursor as int, self.screen.width as int)
        &&& self.screen.row + (cell_row(self.text@.len() as int, self.screen.width as int) - self.offset)
            <= self.screen.height - 1
    }

    /// The screen row that holds the first row of the line; negative when
    /// that row has scrolled off the screen.
    pub open spec fn top(&self) -> int {
        self.screen.row - self.offset
    }

    /// An empty line behind a prompt on row `row` of a terminal of the given
    /// size, or nothing when the terminal is too narrow or the row is not on
    /// it.
    pub fn new(row: u16, prompt: char, width: u16, height: u16) -> (b: Option<EditBuffer>)
        ensures
            b is Some <==> width >= MIN_WIDTH && row < height,
            b matches Some(e) ==> e.wf() && e.text@.len() == 0 && e.cursor == 0 && e.screen == (Screen {
                width,
                height,
                col: PROMPT_WIDTH,
                row,
            }) && e.prompt == prompt,
    {
        if width < MIN_WIDTH || row >= height {
            return None;
        }
        let cell = cell_of(0, width);
        let e = EditBuffer {
            text: Vec::new(),
            cursor: 0,
            offset: cell.1,
            screen: Screen { width, height, col: cell.0, row },
            prompt,
        };
        proof {
            lemma_fundamental_div_mod_converse(PROMPT_WIDTH as int, width as int, 0, PROMPT_WIDTH as int);
        }
        Some(e)
    }

    /// What every change of the line keeps: the buffer stays well formed on
    /// a terminal of the same size behind the same prompt, and its cursor is
    /// where `ops` leave the cursor of the terminal.
    pub open spec fn tracks(pre: EditBuffer, post: EditBuffer, ops: Seq<Op>) -> bool {
        &&& post.wf()
        &&& post.screen.width == pre.screen.width
        &&& post.screen.height == pre.screen.height
        &&& post.prompt == pre.prompt
        &&& post.screen.cursor() == cursor_after_all(
            ops,
            pre.screen.cursor(),
            pre.screen.width as int,
            pre.screen.height as int,
        )
    }

    /// How many rows the screen scrolls when the line, one character longer,
    /// is written again from the cursor on.
    pub open spec fn insert_scroll(&self) -> int {
        scrolls_needed(
            self.screen.row as int,
            cell_row(self.text@.len() as int + 1, self.screen.width as int) - self.offset,
            self.screen.height as int,
        )
    }

    /// Whether a character can be put in at the cursor. It cannot only when
    /// the rows from the cursor down already fill the screen, so that the
    /// cursor would leave it at the top.
    pub open spec fn can_insert(&self) -> bool {
        &&& self.text@.len() < usize::MAX
        &&& self.insert_scroll() <= self.screen.row + (cell_row(self.cursor + 1, self.screen.width as int)
            - self.offset)
    }

    /// What putting `c` in at the cursor does. Where it can be done, the
    /// screen is cleared from the cursor on, the line is written again from
    /// there, and the cursor goes behind `c`. Where it cannot, nothing
    /// changes.
    pub open spec fn inserted(pre: EditBuffer, c: char, post: EditBuffer, ops: Seq<Op>) -> bool {
        &&& Self::tracks(pre, post, ops)
        &&& pre.can_insert() ==> {
            &&& post.text@ == pre.text@.insert(pre.cursor as int, c)
            &&& post.cursor == pre.cursor + 1
            &&& post.top() == pre.top() - pre.insert_scroll()
            &&& ops == seq![Op::ClearBelow] + paint_ops(
                post.text@.skip(pre.cursor as int),
                pre.screen.col as int,
                pre.screen.row as int,
                pre.screen.width as int,
                pre.screen.height as int,
            ) + seq![Op::MoveTo(post.screen.col as int, post.screen.row as int)]
        }
        &&& !pre.can_insert() ==> post == pre && ops.len() == 0
    }

    /// Puts `c` in at the cursor, writes the line again from there on, and
    /// leaves the cursor behind `c`: on the next column, or on the first
    /// column of the next row when `c` went into the last column.
    pub fn insert(&mut self, c: char) -> (ops: Vec<TermOp>)
        requires
            old(self).wf(),
        ensures
            Self::inserted(*old(self), c, *final(self), views(ops@)),
    {
        let width = self.screen.width;
        let height = self.screen.height;
        let len = self.text.len();
        if len == usize::MAX {
            let ops: Vec<TermOp> = Vec::new();
            return ops;
        }
        let end = cell_of(len + 1, width);
        let next = cell_of(self.cursor + 1, width);
        proof {
            lemma_next_cell(len as int, width as int);
            lemma_next_cell(self.cursor as int, width as int);
            lemma_rows_ordered(self.cursor as int, len as int, width as int);
            lemma_rows_ordered(self.cursor + 1, len + 1, width as int);
        }
        let down: usize = end.1 - self.offset;
        let room: usize = (height - 1 - self.screen.row) as usize;
        let scroll: usize = if down > room { down - room } else { 0 };
        let moved: usize = next.1 - self.offset;
        if scroll > self.screen.row as usize + moved {
            let ops: Vec<TermOp> = Vec::new();
            return ops;
        }
        self.text.insert(self.cursor, c);
        let mut canvas = Canvas::new(self.screen);
        canvas.emit(TermOp::ClearBelow);
        canvas.paint(&self.text, self.cursor);
        proof {
            lemma_span(self.cursor as int, len + 1, width as int);
        }
        let row: u16 = (self.screen.row as usize + moved - scroll) as u16;
        canvas.emit(TermOp::MoveTo(next.0, row));
        self.cursor = self.cursor + 1;
        self.offset = next.1;
        self.screen = canvas.screen;
        proof {
            assert(canvas.script() =~= seq![Op::ClearBelow] + paint_ops(
                self.text@.skip(old(self).cursor as int),
                old(self).screen.col as int,
                old(self).screen.row as int,
                width as int,
                height as int,
            ) + seq![Op::MoveTo(self.screen.col as int, self.screen.row as int)]);
        }
        canvas.ops
    }

    /// Whether the character before the cursor can be taken out: there is
    /// one, and its cell is on the screen.
    pub open spec fn can_step_back(&self) -> bool {
        self.cursor > 0 && (self.screen.col > 0 || self.screen.row > 0)
    }

    /// What taking out the character before the cursor does. Where there is
    /// one to take, the cursor goes onto its cell, the screen is cleared from
    /// there on and the rest of the line is written again. Where there is
    /// none, nothing changes.
    pub open spec fn erased(pre: EditBuffer, post: EditBuffer, ops: Seq<Op>) -> bool {
        &&& Self::tracks(pre, post, ops)
        &&& pre.can_step_back() ==> {
            &&& post.text@ == pre.text@.remove(pre.cursor - 1)
            &&& post.cursor == pre.cursor - 1
            &&& post.top() == pre.top()
            &&& ops == seq![Op::MoveTo(post.screen.col as int, post.screen.row as int), Op::ClearBelow]
                + paint_ops(
                post.text@.skip(post.cursor as int),
                post.screen.col as int,
                post.screen.row as int,
                pre.screen.width as int,
                pre.screen.height as int,
            ) + seq![Op::MoveTo(post.screen.col as int, post.screen.row as int)]
        }
        &&& !pre.can_step_back() ==> post == pre && ops.len() == 0
    }

    /// Takes out the character before the cursor, moves the cursor onto its
    /// cell and writes the line again from there on.
    pub fn backspace(&mut self) -> (ops: Vec<TermOp>)
        requires
            old(self).wf(),
        ensures
            Self::erased(*old(self), *final(self), views(ops@)),
    {
        let width = self.screen.width;
        let height = self.screen.height;
        if self.cursor == 0 || (self.screen.col == 0 && self.screen.row == 0) {
            let ops: Vec<TermOp> = Vec::new();
            return ops;
        }
        let len = self.text.len();
        let target = cell_of(self.cursor - 1, width);
        proof {
            lemma_next_cell(self.cursor - 1, width as int);
            lemma_next_cell(len - 1, width as int);
            lemma_rows_ordered(self.cursor - 1, len - 1, width as int);
        }
        let row: u16 = if self.screen.col == 0 { self.screen.row - 1 } else { self.screen.row };
        self.text.remove(self.cursor - 1);
        self.cursor = self.cursor - 1;
        self.offset = target.1;
        let mut canvas = Canvas::new(self.screen);
        canvas.emit(TermOp::MoveTo(target.0, row));
        canvas.emit(TermOp::ClearBelow);
        canvas.paint(&self.text, self.cursor);
        proof {
            lemma_span(self.cursor as int, len - 1, width as int);
        }
        canvas.emit(TermOp::MoveTo(target.0, row));
        self.screen = canvas.screen;
        proof {
            assert(canvas.script() =~= seq![Op::MoveTo(target.0 as int, row as int), Op::ClearBelow]
                + paint_ops(
                self.text@.skip(self.cursor as int),
                target.0 as int,
                row as int,
                width as int,
                height as int,
            ) + seq![Op::MoveTo(target.0 as int, row as int)]);
        }
        canvas.ops
    }

    /// What a move of the cursor does: the line stays, and the terminal is
    /// asked to put its cursor on the new cell, unless the cursor stays
    /// where it is.
    pub open spec fn moved(pre: EditBuffer, post: EditBuffer, ops: Seq<Op>) -> bool {
        &&& Self::tracks(pre, post, ops)
        &&& post.text == pre.text
        &&& post.top() == pre.top()
        &&& post.cursor != pre.cursor ==> ops == seq![
            Op::MoveTo(post.screen.col as int, post.screen.row as int),
        ]
        &&& post.cursor == pre.cursor ==> post == pre && ops.len() == 0
    }

    /// Moves the cursor one character back. At the first column it goes to
    /// the last column of the row above.
    pub fn left(&mut self) -> (ops: Vec<TermOp>)
        requires
            old(self).wf(),
        ensures
            Self::moved(*old(self), *final(self), views(ops@)),
            old(self).can_step_back() ==> final(self).cursor == old(self).cursor - 1,
            !old(self).can_step_back() ==> final(self).cursor == old(self).cursor,
    {
        let width = self.screen.width;
        if self.cursor == 0 || (self.screen.col == 0 && self.screen.row == 0) {
            let ops: Vec<TermOp> = Vec::new();
            return ops;
        }
        let target = cell_of(self.cursor - 1, width);
        proof {
            lemma_next_cell(self.cursor - 1, width as int);
        }
        let row: u16 = if self.screen.col == 0 { self.screen.row - 1 } else { self.screen.row };
        let mut canvas = Canvas::new(self.screen);
        canvas.emit(TermOp::MoveTo(target.0, row));
        self.cursor = self.cursor - 1;
        self.offset = target.1;
        self.screen = canvas.screen;
        assert(canvas.script() =~= seq![Op::MoveTo(target.0 as int, row as int)]);
        canvas.ops
    }

    /// Moves the cursor one character on, and not past the end of the line.
    /// From the last column it goes to the first column of the row below.
    pub fn right(&mut self) -> (ops: Vec<TermOp>)
        requires
            old(self).wf(),
        ensures
            Self::moved(*old(self), *final(self), views(ops@)),
            old(self).cursor < old(self).text@.len() ==> final(self).cursor == old(self).cursor + 1,
            old(self).cursor >= old(self).text@.len() ==> final(self).cursor == old(self).cursor,
    {
        let width = self.screen.width;
        if self.cursor >= self.text.len() {
            let ops: Vec<TermOp> = Vec::new();
            return ops;
        }
        let target = cell_of(self.cursor + 1, width);
        proof {
            lemma_next_cell(self.cursor as int, width as int);
            lemma_rows_ordered(self.cursor + 1, self.text@.len() as int, width as int);
        }
        let row: u16 = if target.1 > self.offset { self.screen.row + 1 } else { self.screen.row };
        let mut canvas = Canvas::new(self.screen);
        canvas.emit(TermOp::MoveTo(target.0, row));
        self.cursor = self.cursor + 1;
        self.offset = target.1;
        self.screen = canvas.screen;
        canvas.ops
    }

    /// The screen row on which the line is written anew: the row that holds
    /// its first row now, or the first row of the screen when that one has
    /// scrolled off.
    pub open spec fn redraw_row(&self) -> int {
        if self.top() >= 0 { self.top() } else { 0 }
    }

    /// The operations that clear the screen from row `row` on, show the
    /// prompt there and write `text` behind it.
    pub open spec fn redraw_ops(prompt: char, text: Seq<char>, row: int, width: int, height: int) -> Seq<Op> {
        seq![Op::MoveTo(0, row), Op::ClearBelow, Op::Print(seq![prompt, ' ']), Op::MoveTo(PROMPT_WIDTH as int, row)]
            + paint_ops(text, PROMPT_WIDTH as int, row, width, height)
    }

    /// Writes the prompt on row `row` and `text` behind it, and makes `text`
    /// the line, with the cursor at its end. The operations go to `canvas`.
    pub fn redraw_on(&mut self, canvas: &mut Canvas, text: Vec<char>, row: u16)
        requires
            old(canvas).wf(),
            old(canvas).screen.width == old(self).screen.width,
            old(canvas).screen.height == old(self).screen.height,
            old(self).screen.width >= MIN_WIDTH,
            row < old(self).screen.height,
        ensures
            final(self).wf(),
            final(self).screen == final(canvas).screen,
            final(self).screen.width == old(self).screen.width,
            final(self).screen.height == old(self).screen.height,
            final(self).prompt == old(self).prompt,
            final(self).text == text,
            final(self).cursor == text@.len(),
            final(self).screen.row == min(
                row + cell_row(text@.len() as int, old(self).screen.width as int),
                old(self).screen.height - 1,
            ),
            final(canvas).wf(),
            final(canvas).start == old(canvas).start,
            final(canvas).script() == old(canvas).script() + Self::redraw_ops(
                old(self).prompt,
                text@,
                row as int,
                old(self).screen.width as int,
                old(self).screen.height as int,
            ),
    {
        let width = self.screen.width;
        let mut lead = String::new();
        push_char(&mut lead, self.prompt);
        push_char(&mut lead, ' ');
        assert(lead@ =~= seq![self.prompt, ' ']);
        canvas.emit(TermOp::MoveTo(0, row));
        canvas.emit(TermOp::ClearBelow);
        canvas.emit(TermOp::Print(lead));
        canvas.emit(TermOp::MoveTo(PROMPT_WIDTH, row));
        canvas.paint(&text, 0);
        let end = cell_of(text.len(), width);
        proof {
            assert(text@.skip(0) =~= text@);
        }
        self.cursor = text.len();
        self.text = text;
        self.offset = end.1;
        self.screen = canvas.screen;
    }

    /// Writes the prompt on row `row` and `text` behind it, and makes `text`
    /// the line, with the cursor at its end.
    fn redraw_at(&mut self, text: Vec<char>, row: u16) -> (ops: Vec<TermOp>)
        requires
            old(self).screen.wf(),
            old(self).screen.width >= MIN_WIDTH,
            row < old(self).screen.height,
        ensures
            final(self).wf(),
            final(self).screen.width == old(self).screen.width,
            final(self).screen.height == old(self).screen.height,
            final(self).prompt == old(self).prompt,
            final(self).text == text,
            final(self).cursor == text@.len(),
            final(self).screen.row == min(
                row + cell_row(text@.len() as int, old(self).screen.width as int),
                old(self).screen.height - 1,
            ),
            views(ops@) == Self::redraw_ops(
                old(self).prompt,
                text@,
                row as int,
                old(self).screen.width as int,
                old(self).screen.height as int,
            ),
            final(self).screen.cursor() == cursor_after_all(
                views(ops@),
                old(self).screen.cursor(),
                old(self).screen.width as int,
                old(self).screen.height as int,
            ),
    {
        let mut canvas = Canvas::new(self.screen);
        self.redraw_on(&mut canvas, text, row);
        canvas.ops
    }

    /// The screen row of the cell behind the last character of the line.
    pub open spec fn end_row(&self) -> int {
        self.screen.row + (cell_row(self.text@.len() as int, self.screen.width as int) - self.offset)
    }

    /// Takes the cursor to the end of the line. The operation goes to
    /// `canvas`.
    pub fn to_end_on(&mut self, canvas: &mut Canvas)
        requires
            old(self).wf(),
            old(canvas).wf(),
            old(canvas).screen == old(self).screen,
        ensures
            final(self).wf(),
            final(self).screen == final(canvas).screen,
            final(self).screen.width == old(self).screen.width,
            final(self).screen.height == old(self).screen.height,
            final(self).prompt == old(self).prompt,
            final(self).text == old(self).text,
            final(self).cursor == old(self).text@.len(),
            final(self).top() == old(self).top(),
            final(self).screen.row == old(self).end_row(),
            final(canvas).wf(),
            final(canvas).start == old(canvas).start,
            final(canvas).scrolled == old(canvas).scrolled,
            final(canvas).script() == old(canvas).script().push(
                Op::MoveTo(final(self).screen.col as int, final(self).screen.row as int),
            ),
    {
        let end = cell_of(self.text.len(), self.screen.width);
        proof {
            lemma_rows_ordered(self.cursor as int, self.text@.len() as int, self.screen.width as int);
            lemma_next_cell(self.text@.len() as int, self.screen.width as int);
        }
        let row: u16 = (self.screen.row as usize + (end.1 - self.offset)) as u16;
        canvas.emit(TermOp::MoveTo(end.0, row));
        self.cursor = self.text.len();
        self.offset = end.1;
        self.screen = canvas.screen;
    }

    /// What making `text` the line does: the screen is cleared from the
    /// first row of the old line on, the prompt is shown there again with
    /// `text` behind it, and the cursor is at the end of `text`.
    pub open spec fn replaced(pre: EditBuffer, text: Seq<char>, post: EditBuffer, ops: Seq<Op>) -> bool {
        &&& Self::tracks(pre, post, ops)
        &&& post.text@ == text
        &&& post.cursor == text.len()
        &&& post.screen.row == min(
            pre.redraw_row() + cell_row(text.len() as int, pre.screen.width as int),
            pre.screen.height - 1,
        )
        &&& ops == Self::redraw_ops(
            pre.prompt,
            text,
            pre.redraw_row(),
            pre.screen.width as int,
            pre.screen.height as int,
        )
    }

    /// Makes `text` the line: clears what is shown of the old one, shows the
    /// prompt again and writes `text` behind it, with the cursor at its end.
    pub fn replace(&mut self, text: Vec<char>) -> (ops: Vec<TermOp>)
        requires
            old(self).wf(),
        ensures
            Self::replaced(*old(self), text@, *final(self), views(ops@)),
    {
        let row = self.first_row();
        self.redraw_at(text, row)
    }

    /// The screen row on which the line is written anew.
    pub fn first_row(&self) -> (row: u16)
        requires
            self.wf(),
        ensures
            row == self.redraw_row(),
            row <= self.screen.row,
    {
        if self.offset <= self.screen.row as usize {
            (self.screen.row as usize - self.offset) as u16
        } else {
            0
        }
    }

    /// The cursor of a terminal after it has been given a new size: where it
    /// was, or on the nearest cell that is left.
    pub open spec fn resized(screen: Screen, width: u16, height: u16) -> Screen {
        Screen {
            width,
            height,
            col: if screen.col < width { screen.col } else { (width - 1) as u16 },
            row: if screen.row < height { screen.row } else { (height - 1) as u16 },
        }
    }

    /// What a new size of the terminal does. A size too narrow for the
    /// prompt, or without rows, changes nothing. Under any other size an
    /// empty line stays on its row, or goes to the last row that is left;
    /// a line that is not empty is written anew from the row of its first
    /// row, with the cursor at its end. The cursor of the buffer is then
    /// where the operations leave the cursor of the resized terminal.
    pub open spec fn fitted(pre: EditBuffer, width: u16, height: u16, post: EditBuffer, ops: Seq<Op>) -> bool {
        &&& post.wf()
        &&& post.prompt == pre.prompt
        &&& post.text == pre.text
        &&& width < MIN_WIDTH || height == 0 ==> post == pre && ops.len() == 0
        &&& width >= MIN_WIDTH && height > 0 ==> {
            let start = Self::resized(pre.screen, width, height);
            let row = min(pre.redraw_row(), height - 1);
            &&& post.screen.width == width
            &&& post.screen.height == height
            &&& post.cursor == pre.text@.len()
            &&& post.screen.row == min(row + cell_row(pre.text@.len() as int, width as int), height - 1)
            &&& post.screen.cursor() == cursor_after_all(ops, start.cursor(), width as int, height as int)
            &&& pre.text@.len() == 0 ==> ops.len() == 0
            &&& pre.text@.len() > 0 ==> ops == Self::redraw_ops(
                pre.prompt,
                pre.text@,
                row,
                width as int,
                height as int,
            )
        }
    }

    /// Takes note of a new size of the terminal. A size too narrow for the
    /// prompt, or without rows, is passed over. An empty line stays as it
    /// is; any other is written anew for the new width, with the cursor at
    /// its end.
    pub fn resize(&mut self, width: u16, height: u16) -> (ops: Vec<TermOp>)
        requires
            old(self).wf(),
        ensures
            Self::fitted(*old(self), width, height, *final(self), views(ops@)),
    {
        if width < MIN_WIDTH || height == 0 {
            let ops: Vec<TermOp> = Vec::new();
            return ops;
        }
        let top: u16 = if self.offset <= self.screen.row as usize {
            (self.screen.row as usize - self.offset) as u16
        } else {
            0
        };
        let row: u16 = if top < height { top } else { height - 1 };
        if self.text.len() == 0 {
            proof {
                lemma_fundamental_div_mod_converse(
                    PROMPT_WIDTH as int,
                    self.screen.width as int,
                    0,
                    PROMPT_WIDTH as int,
                );
                lemma_fundamental_div_mod_converse(PROMPT_WIDTH as int, width as int, 0, PROMPT_WIDTH as int);
            }
            self.screen = Screen { width, height, col: PROMPT_WIDTH, row };
            let ops: Vec<TermOp> = Vec::new();
            return ops;
        }
        self.screen = Screen {
            width,
            height,
            col: if self.screen.col < width { self.screen.col } else { width - 1 },
            row: if self.screen.row < height { self.screen.row } else { height - 1 },
        };
        let mut text: Vec<char> = Vec::new();
        std::mem::swap(&mut text, &mut self.text);
        self.redraw_at(text, row)
    }

    /// The line as a string.
    pub fn line(&self) -> (s: String)
        ensures
            s@ == self.text@,
    {
        from_chars(&self.text)
    }

    /// The index of the first character on the row that the cursor is on.
    pub open spec fn row_start(&self) -> int {
        if self.offset == 0 {
            0
        } else {
            self.offset * self.screen.width - PROMPT_WIDTH
        }
    }

    /// What the move to the start of the row does: the cursor goes to the
    /// first cell of its row that can hold a character.
    pub open spec fn homed(pre: EditBuffer, post: EditBuffer, ops: Seq<Op>) -> bool {
        &&& Self::tracks(pre, post, ops)
        &&& post.text == pre.text
        &&& post.offset == pre.offset
        &&& post.screen.row == pre.screen.row
        &&& post.cursor == pre.row_start()
        &&& post.screen.col == (if pre.offset == 0 { PROMPT_WIDTH } else { 0 })
        &&& ops == seq![Op::MoveTo(post.screen.col as int, post.screen.row as int)]
    }

    /// Moves the cursor to the first cell of its row that can hold a
    /// character: the one behind the prompt on the first row of the line, the
    /// first column on every other row.
    pub fn home(&mut self) -> (ops: Vec<TermOp>)
        requires
            old(self).wf(),
        ensures
            Self::homed(*old(self), *final(self), views(ops@)),
    {
        let width = self.screen.width;
        let col: u16 = if self.offset == 0 { PROMPT_WIDTH } else { 0 };
        proof {
            let a = PROMPT_WIDTH + self.cursor;
            lemma_fundamental_div_mod(a, width as int);
            assert(width * (a / (width as int)) == self.offset * width) by (nonlinear_arith)
                requires
                    a / (width as int) == self.offset,
            ;
            if self.offset == 0 {
                lemma_fundamental_div_mod_converse(PROMPT_WIDTH as int, width as int, 0, PROMPT_WIDTH as int);
            } else {
                assert(self.offset * width >= width) by (nonlinear_arith)
                    requires
                        self.offset >= 1,
                        width > 0,
                ;
                lemma_fundamental_div_mod_converse(self.offset * width, width as int, self.offset as int, 0);
            }
        }
        let back: usize = (self.screen.col - col) as usize;
        let mut canvas = Canvas::new(self.screen);
        canvas.emit(TermOp::MoveTo(col, self.screen.row));
        self.cursor = self.cursor - back;
        self.screen = canvas.screen;
        canvas.ops
    }
}

/// One change of the line, or of the terminal under it.
pub enum Edit {
    /// A character is put in at the cursor.
    Insert(char),
    /// The character before the cursor is taken out.
    Erase,
    /// The terminal gets a new width and height.
    Resize(u16, u16),
}

/// The terminal as far as the cursor goes: its size and the cell that its
/// cursor is on.
pub struct Terminal {
    pub width: int,
    pub height: int,
    pub cursor: (int, int),
}

impl EditBuffer {
    /// The terminal as the buffer takes it to be.
    pub open spec fn terminal(&self) -> Terminal {
        Terminal {
            width: self.screen.width as int,
            height: self.screen.height as int,
            cursor: self.screen.cursor(),
        }
    }

    /// What an edit does to the buffer, and what it asks of the terminal.
    pub open spec fn edited(pre: EditBuffer, edit: Edit, post: EditBuffer, ops: Seq<Op>) -> bool {
        match edit {
            Edit::Insert(c) => Self::inserted(pre, c, post, ops),
            Edit::Erase => Self::erased(pre, post, ops),
            Edit::Resize(width, height) => Self::fitted(pre, width, height, post, ops),
        }
    }
}

/// The terminal after an edit: a new size moves the cursor onto the
/// nearest cell that is left, and the operations of the edit are then
/// performed.
pub open spec fn terminal_after(t: Terminal, edit: Edit, ops: Seq<Op>) -> Terminal {
    match edit {
        Edit::Resize(width, height) => Terminal {
            width: width as int,
            height: height as int,
            cursor: cursor_after_all(
                ops,
                (min(t.cursor.0, width - 1), min(t.cursor.1, height - 1)),
                width as int,
                height as int,
            ),
        },
        _ => Terminal { cursor: cursor_after_all(ops, t.cursor, t.width, t.height), ..t },
    }
}

/// The terminal after a run of edits, each with its operations.
pub open spec fn terminal_after_all(t: Terminal, edits: Seq<Edit>, scripts: Seq<Seq<Op>>) -> Terminal
    decreases edits.len(),
{
    if edits.len() == 0 || scripts.len() != edits.len() {
        t
    } else {
        terminal_after(
            terminal_after_all(t, edits.drop_last(), scripts.drop_last()),
            edits.last(),
            scripts.last(),
        )
    }
}

/// The cursor stays where the line says it is. Take a well-formed buffer
/// and any run of edits: characters put in, characters taken out, and new
/// sizes that leave room for the prompt. Then the buffer is well formed
/// after the run, its column and its count of rows above the cursor are
/// those that the index of the cursor and the width give, and its cursor
/// is on the cell on which the operations of the run leave the cursor of
/// the terminal.
pub proof fn lemma_cursor_invariant(states: Seq<EditBuffer>, edits: Seq<Edit>, scripts: Seq<Seq<Op>>)
    requires
        states.len() == edits.len() + 1,
        scripts.len() == edits.len(),
        states[0].wf(),
        forall|i: int|
            0 <= i < edits.len() ==> EditBuffer::edited(states[i], #[trigger] edits[i], states[i + 1], scripts[i]),
        forall|i: int|
            0 <= i < edits.len() ==> (#[trigger] edits[i] matches Edit::Resize(width, height) ==> width
                >= MIN_WIDTH && height > 0),
    ensures
        states.last().wf(),
        states.last().screen.col + states.last().offset * states.last().screen.width == PROMPT_WIDTH
            + states.last().cursor,
        terminal_after_all(states[0].terminal(), edits, scripts) == states.last().terminal(),
    decreases edits.len(),
{
    let last = states.last();
    if edits.len() > 0 {
        let n = edits.len() as int;
        let before = states.drop_last();
        assert forall|i: int| 0 <= i < n - 1 implies EditBuffer::edited(
            before[i],
            #[trigger] edits.drop_last()[i],
            before[i + 1],
            scripts.drop_last()[i],
        ) by {}
        assert forall|i: int| 0 <= i < n - 1 implies (#[trigger] edits.drop_last()[i] matches Edit::Resize(
            width,
            height,
        ) ==> width >= MIN_WIDTH && height > 0) by {}
        lemma_cursor_invariant(before, edits.drop_last(), scripts.drop_last());
        assert(edits[n - 1] matches Edit::Resize(width, height) ==> width >= MIN_WIDTH && height > 0);
    }
    lemma_fundamental_div_mod(PROMPT_WIDTH + last.cursor, last.screen.width as int);
    assert(last.screen.width * last.offset == last.offset * last.screen.width) by (nonlinear_arith);
}

} // verus!
