//! The line editor: what each key does to the line being typed, to the walk
//! through the history and to the cycle through the completions, and what
//! the terminal is asked to show for it.

use vstd::prelude::*;
use vstd::arithmetic::div_mod::{lemma_fundamental_div_mod, lemma_fundamental_div_mod_converse};
use crate::autocompletion::Completion;
use crate::buffer::{cell_row, EditBuffer, MIN_WIDTH};
use crate::history::{step_newer, step_older, History, Recall};
use crate::screen::{min, next_row_ops, paint_ops, scrolls_needed, views, Canvas, Op, Screen, TermOp};
use crate::text::{
    chars_hold,
    from_chars,
    is_space,
    is_whitespace,
    push_char,
    prefixed_by,
    sort_strings,
    sorted,
    strings,
    to_chars,
};

verus! {

/// `s`, with spaces behind it up to `width` characters. A string that is
/// as long or longer stays as it is.
pub open spec fn padded(s: Seq<char>, width: int) -> Seq<char> {
    if s.len() >= width {
        s
    } else {
        s + Seq::new((width - s.len()) as nat, |i: int| ' ')
    }
}

/// The length of the longest of `names`.
pub open spec fn longest(names: Seq<Seq<char>>) -> int
    decreases names.len(),
{
    if names.len() == 0 {
        0
    } else if names.last().len() > longest(names.drop_last()) {
        names.last().len() as int
    } else {
        longest(names.drop_last())
    }
}

/// How many names the grid shows on one row: as many cells of the longest
/// name and four more columns as the width holds in part or whole, less
/// one, and never fewer than one.
pub open spec fn grid_columns(width: int, longest: int) -> int {
    let fit = (width + longest + 3) / (longest + 4) - 1;
    if fit >= 1 {
        fit
    } else {
        1
    }
}

/// How many rows the grid takes for `count` names.
pub open spec fn grid_rows(count: int, columns: int) -> int {
    (count + columns - 1) / columns
}

/// The operations that show the first `k` of `names` as a grid below row
/// `row`: each name in a cell of `cell` characters, `columns` cells to a
/// row.
pub open spec fn grid_ops(names: Seq<Seq<char>>, k: int, columns: int, cell: int, row: int, height: int) -> Seq<
    Op,
>
    decreases k,
{
    if k <= 0 {
        seq![Op::MoveTo(0, row), Op::LineFeed]
    } else {
        grid_ops(names, k - 1, columns, cell, row, height) + seq![Op::Print(padded(names[k - 1], cell))] + (if k
            % columns == 0 && k < names.len() {
            next_row_ops(min(row + 1 + (k - 1) / columns, height - 1), height)
        } else {
            Seq::empty()
        })
    }
}

/// The length of the longest of `names`.
fn longest_of(names: &Vec<String>) -> (n: usize)
    ensures
        n == longest(strings(names@)),
{
    let mut n: usize = 0;
    let mut i: usize = 0;
    while i < names.len()
        invariant
            i <= names.len(),
            n == longest(strings(names@).take(i as int)),
        decreases names.len() - i,
    {
        let len = names[i].as_str().unicode_len();
        proof {
            let done = strings(names@).take(i + 1);
            assert(done.drop_last() =~= strings(names@).take(i as int));
        }
        if len > n {
            n = len;
        }
        i += 1;
    }
    assert(strings(names@).take(names.len() as int) =~= strings(names@));
    n
}

/// `name` with spaces behind it up to `longest` characters and two more.
fn pad(name: &String, longest: usize) -> (r: String)
    requires
        name@.len() <= longest,
    ensures
        r@ == padded(name@, longest + 2),
{
    let len = name.as_str().unicode_len();
    let need: u128 = (longest - len) as u128 + 2;
    let mut r = name.clone();
    let mut j: u128 = 0;
    while j < need
        invariant
            j <= need,
            r@ == name@ + Seq::new(j as nat, |i: int| ' '),
        decreases need - j,
    {
        push_char(&mut r, ' ');
        j += 1;
    }
    r
}

/// Every name is at most as long as the longest.
pub proof fn lemma_longest(names: Seq<Seq<char>>, i: int)
    requires
        0 <= i < names.len(),
    ensures
        names[i].len() <= longest(names),
    decreases names.len(),
{
    if i < names.len() - 1 {
        lemma_longest(names.drop_last(), i);
    }
}

/// How many names go on one row of the grid.
fn columns_for(width: u16, longest: usize) -> (columns: usize)
    requires
        width >= MIN_WIDTH,
    ensures
        columns == grid_columns(width as int, longest as int),
        1 <= columns <= width,
{
    let cell: u128 = longest as u128 + 4;
    let total: u128 = width as u128 + longest as u128 + 3;
    let parts: u128 = total / cell;
    proof {
        lemma_fundamental_div_mod(total as int, cell as int);
        assert(parts <= width) by (nonlinear_arith)
            requires
                total == cell * parts + total % cell,
                0 <= total % cell,
                total == width + cell - 1,
                cell >= 4,
                width >= 5,
                parts >= 0,
        ;
    }
    if parts >= 2 {
        (parts - 1) as usize
    } else {
        1
    }
}

/// Shows `names` as a grid below the row that the cursor is on.
fn show_grid(canvas: &mut Canvas, names: &Vec<String>) -> (rows: usize)
    requires
        old(canvas).wf(),
        old(canvas).screen.width >= MIN_WIDTH,
        names.len() > 0,
    ensures
        final(canvas).wf(),
        final(canvas).start == old(canvas).start,
        rows == grid_rows(
            names.len() as int,
            grid_columns(old(canvas).screen.width as int, longest(strings(names@))),
        ),
        rows >= 1,
        final(canvas).script() == old(canvas).script() + grid_ops(
            strings(names@),
            names.len() as int,
            grid_columns(old(canvas).screen.width as int, longest(strings(names@))),
            longest(strings(names@)) + 2,
            old(canvas).screen.row as int,
            old(canvas).screen.height as int,
        ),
        final(canvas).screen.row == min(old(canvas).screen.row + rows, old(canvas).screen.height - 1),
        final(canvas).scrolled == old(canvas).scrolled + scrolls_needed(
            old(canvas).screen.row as int,
            rows as int,
            old(canvas).screen.height as int,
        ),
{
    let width = canvas.screen.width;
    let ghost height = canvas.screen.height as int;
    let ghost row0 = canvas.screen.row as int;
    let ghost first = canvas.script();
    let ghost all = strings(names@);
    let n = names.len();
    let long = longest_of(names);
    let columns = columns_for(width, long);
    let ghost cell = long + 2;
    let row = canvas.screen.row;
    canvas.emit(TermOp::MoveTo(0, row));
    canvas.emit(TermOp::LineFeed);
    let mut k: usize = 0;
    let mut lines: usize = 0;
    let mut in_line: usize = 0;
    while k < n
        invariant
            canvas.wf(),
            canvas.start == old(canvas).start,
            canvas.screen.height == height,
            0 < n == names.len(),
            all == strings(names@),
            long == longest(all),
            cell == long + 2,
            1 <= columns,
            k <= n,
            in_line <= columns,
            k < n ==> in_line < columns,
            k == n ==> in_line >= 1,
            k == lines * columns + in_line,
            canvas.script() == first + grid_ops(all, k as int, columns as int, cell, row0, height),
            canvas.screen.row == min(row0 + 1 + lines, height - 1),
            canvas.scrolled == old(canvas).scrolled + scrolls_needed(row0, 1 + lines, height),
        decreases n - k,
    {
        proof {
            lemma_longest(all, k as int);
        }
        let text = pad(&names[k], long);
        canvas.emit(TermOp::Print(text));
        k += 1;
        in_line += 1;
        proof {
            assert((lines + 1) * columns == lines * columns + columns) by (nonlinear_arith);
            if in_line < columns {
                lemma_fundamental_div_mod_converse(k as int, columns as int, lines as int, in_line as int);
            } else {
                lemma_fundamental_div_mod_converse(k as int, columns as int, lines + 1, 0);
                lemma_fundamental_div_mod_converse(k - 1, columns as int, lines as int, columns - 1);
            }
        }
        if in_line == columns && k < n {
            canvas.next_row();
            lines += 1;
            in_line = 0;
        }
    }
    proof {
        assert((lines + 1) * columns == lines * columns + columns) by (nonlinear_arith);
        assert(lines <= lines * columns) by (nonlinear_arith)
            requires
                columns >= 1,
                lines >= 0,
        ;
        lemma_fundamental_div_mod_converse(n + columns - 1, columns as int, lines + 1, in_line - 1);
    }
    lines + 1
}

/// Whether `text` holds white space.
pub open spec fn has_space(text: Seq<char>) -> bool {
    exists|i: int| 0 <= i < text.len() && is_space(#[trigger] text[i])
}

/// The index just behind the last white space of `text`; zero when it has
/// none.
pub open spec fn token_start(text: Seq<char>) -> int
    decreases text.len(),
{
    if text.len() == 0 {
        0
    } else if is_space(text.last()) {
        text.len() as int
    } else {
        token_start(text.drop_last())
    }
}

/// The path that is being typed at the end of `text`: what stands behind
/// the last white space, and the current directory when nothing does.
pub open spec fn path_token(text: Seq<char>) -> Seq<char> {
    if token_start(text) >= text.len() {
        seq!['.']
    } else {
        text.skip(token_start(text))
    }
}

/// Whether `text` holds white space.
fn holds_space(text: &Vec<char>) -> (b: bool)
    ensures
        b == has_space(text@),
{
    let mut i: usize = 0;
    while i < text.len()
        invariant
            i <= text.len(),
            forall|k: int| 0 <= k < i ==> !is_space(#[trigger] text@[k]),
        decreases text.len() - i,
    {
        if is_whitespace(text[i]) {
            return true;
        }
        i += 1;
    }
    false
}

/// The path that is being typed at the end of `text`.
fn find_path_token(text: &Vec<char>) -> (token: Vec<char>)
    ensures
        token@ == path_token(text@),
{
    let mut i: usize = text.len();
    assert(text@.take(i as int) =~= text@);
    while i > 0 && !is_whitespace(text[i - 1])
        invariant
            i <= text.len(),
            token_start(text@) == token_start(text@.take(i as int)),
        decreases i,
    {
        assert(text@.take(i as int).drop_last() =~= text@.take(i - 1));
        i -= 1;
    }
    let mut token: Vec<char> = Vec::new();
    if i >= text.len() {
        token.push('.');
        return token;
    }
    let mut j: usize = i;
    while j < text.len()
        invariant
            i <= j <= text.len(),
            token@ == text@.subrange(i as int, j as int),
        decreases text.len() - j,
    {
        token.push(text[j]);
        j += 1;
    }
    token
}

/// Whether `shown` holds the strings of `names` in the order of the
/// dictionary.
pub open spec fn sorting_of(shown: Seq<Seq<char>>, names: Seq<Seq<char>>) -> bool {
    sorted(shown) && shown.to_multiset() == names.to_multiset()
}

/// The operations that show `names` below a line whose end is on the cell
/// (`col`, `row`). The cursor goes to that cell and the grid is written
/// below it. Where the grid fits on the rows that are left, the cursor
/// goes back to the end of the line. Where it does not, the prompt and the
/// line are written anew on the last row, below the grid.
pub open spec fn shown_ops(
    prompt: char,
    text: Seq<char>,
    col: int,
    row: int,
    names: Seq<Seq<char>>,
    width: int,
    height: int,
) -> Seq<Op> {
    let columns = grid_columns(width, longest(names));
    let grid = seq![Op::MoveTo(col, row)] + grid_ops(
        names,
        names.len() as int,
        columns,
        longest(names) + 2,
        row,
        height,
    );
    if row + grid_rows(names.len() as int, columns) <= height - 1 {
        grid + seq![Op::MoveTo(col, row)]
    } else {
        grid + next_row_ops(height - 1, height) + EditBuffer::redraw_ops(prompt, text, height - 1, width, height)
    }
}

/// The screen row of the end of the line once `names` have been shown
/// below a line whose end was on row `row`.
pub open spec fn shown_row(row: int, text: Seq<char>, names: Seq<Seq<char>>, width: int, height: int) -> int {
    if row + grid_rows(names.len() as int, grid_columns(width, longest(names))) <= height - 1 {
        row
    } else {
        height - 1
    }
}

impl EditBuffer {
    /// Shows `names` as a grid below the line and leaves the cursor at the
    /// end of the line. The operations go to `canvas`.
    pub fn show_on(&mut self, canvas: &mut Canvas, names: &Vec<String>)
        requires
            old(self).wf(),
            old(canvas).wf(),
            old(canvas).screen == old(self).screen,
            names.len() > 0,
        ensures
            final(self).wf(),
            final(self).screen == final(canvas).screen,
            final(self).screen.width == old(self).screen.width,
            final(self).screen.height == old(self).screen.height,
            final(self).prompt == old(self).prompt,
            final(self).text == old(self).text,
            final(self).cursor == old(self).text@.len(),
            final(self).screen.row == shown_row(
                old(self).end_row(),
                old(self).text@,
                strings(names@),
                old(self).screen.width as int,
                old(self).screen.height as int,
            ),
            final(canvas).wf(),
            final(canvas).start == old(canvas).start,
            final(canvas).script() == old(canvas).script() + shown_ops(
                old(self).prompt,
                old(self).text@,
                final(self).screen.col as int,
                old(self).end_row(),
                strings(names@),
                old(self).screen.width as int,
                old(self).screen.height as int,
            ),
    {
        let height = self.screen.height;
        self.to_end_on(canvas);
        let col = self.screen.col;
        let row = self.screen.row;
        let rows = show_grid(canvas, names);
        if rows <= (height - 1 - row) as usize {
            canvas.emit(TermOp::MoveTo(col, row));
            self.screen = canvas.screen;
        } else {
            canvas.next_row();
            let mut text: Vec<char> = Vec::new();
            std::mem::swap(&mut text, &mut self.text);
            let ghost kept = text@;
            proof {
                crate::buffer::lemma_rows_ordered(0, kept.len() as int, self.screen.width as int);
            }
            self.redraw_on(canvas, text, height - 1);
        }
    }
}

/// A key as the editor tells keys apart.
#[derive(Clone, Copy, Debug, PartialEq, Eq, Structural)]
pub enum Key {
    /// A character to put into the line.
    Char(char),
    Enter,
    Backspace,
    Left,
    Right,
    Up,
    Down,
    Tab,
    CtrlA,
    CtrlC,
    CtrlD,
    /// Any key that the editor has no use for.
    Other,
}

/// What the caller is to do once a key has been handled.
#[derive(Debug, PartialEq, Eq)]
pub enum Step {
    /// Read the next key.
    Continue,
    /// Find the names that complete this path and hand them to
    /// `complete_path`.
    Paths(String),
    /// The line is finished.
    Line(String),
    /// End the shell.
    Exit,
}

/// The cycle through the completions that the Tab key walks.
pub struct TabCycle {
    /// How often Tab has been pressed in a row; presses after the second
    /// are not counted.
    pub presses: usize,
    /// The index of the name that the last press put into the line.
    pub turn: usize,
    /// The names to cycle through, in the order of the dictionary.
    pub candidates: Vec<String>,
    /// The line as it was when the names were found.
    pub origin: Vec<char>,
    /// Whether the names complete a path rather than a command.
    pub is_path: bool,
    /// The index in `origin` from which a name replaces the rest.
    pub insert_at: usize,
    /// Whether the names for a path have been asked for and not given yet.
    pub awaiting: bool,
}

impl TabCycle {
    /// The cycle never runs past its names, and a name always goes into the
    /// line that the names were found for.
    pub open spec fn wf(&self) -> bool {
        &&& self.insert_at <= self.origin@.len()
        &&& self.presses <= 2
        &&& self.presses == 2 ==> self.turn < self.candidates@.len()
        &&& self.awaiting ==> self.presses == 1 && self.candidates@.len() == 0
    }

    /// No Tab has been pressed since the last other key.
    pub open spec fn idle(&self) -> bool {
        &&& self.presses == 0
        &&& self.turn == 0
        &&& self.candidates@.len() == 0
        &&& self.origin@.len() == 0
        &&& !self.is_path
        &&& self.insert_at == 0
        &&& !self.awaiting
    }

    /// The names to cycle through.
    pub open spec fn names(&self) -> Seq<Seq<char>> {
        strings(self.candidates@)
    }

    /// A cycle in which no Tab has been pressed.
    pub fn new() -> (t: TabCycle)
        ensures
            t.wf(),
            t.idle(),
    {
        TabCycle {
            presses: 0,
            turn: 0,
            candidates: Vec::new(),
            origin: Vec::new(),
            is_path: false,
            insert_at: 0,
            awaiting: false,
        }
    }

    /// The index of the name that one more press puts into the line: the
    /// second press puts in the first name, each later press the name after
    /// the one before, and the first name follows the last.
    pub open spec fn next_turn(&self) -> int {
        if self.presses < 2 || self.turn + 1 >= self.candidates@.len() {
            0
        } else {
            self.turn + 1
        }
    }

    /// Whether one more press gives up the one name that completes a path:
    /// the name has been put in, and there is no other to go on to.
    pub open spec fn gives_up(&self) -> bool {
        self.is_path && self.candidates@.len() == 1 && self.presses >= 2
    }

    /// The line that one more press makes: the line of the first press up to
    /// where a name goes in, and the name whose turn it is.
    pub open spec fn next_text(&self) -> Seq<char> {
        self.origin@.take(self.insert_at as int) + self.names()[self.next_turn()]
    }
}

/// The editor of one line: the line itself, the walk through the history
/// and the cycle through the completions.
pub struct LineEditor {
    pub buffer: EditBuffer,
    pub recall: Recall,
    pub tab: TabCycle,
}

/// The text that the shell shows before it ends.
pub open spec fn farewell() -> Seq<char> {
    seq!['e', 'x', 'i', 't']
}

impl LineEditor {
    /// The parts are well formed.
    pub open spec fn wf(&self) -> bool {
        self.buffer.wf() && self.tab.wf()
    }

    /// An editor with an empty line behind a prompt on row `row` of a
    /// terminal of the given size, or nothing when the terminal is too
    /// narrow or the row is not on it.
    pub fn new(row: u16, prompt: char, width: u16, height: u16) -> (r: Option<LineEditor>)
        ensures
            r is Some <==> width >= MIN_WIDTH && row < height,
            r matches Some(e) ==> {
                &&& e.wf()
                &&& e.buffer.text@.len() == 0
                &&& e.buffer.cursor == 0
                &&& e.buffer.screen == (Screen { width, height, col: crate::buffer::PROMPT_WIDTH, row })
                &&& e.buffer.prompt == prompt
                &&& e.recall == Recall::Fresh
                &&& e.tab.idle()
            },
    {
        match EditBuffer::new(row, prompt, width, height) {
            Some(buffer) => Some(LineEditor { buffer, recall: Recall::Fresh, tab: TabCycle::new() }),
            None => None,
        }
    }

    /// What the terminal is asked for before the first key is read: raw
    /// input, and no line wrapping of its own.
    pub fn begin(&self) -> (ops: Vec<TermOp>)
        ensures
            views(ops@) == seq![Op::RawMode(true), Op::LineWrap(false)],
    {
        let mut ops: Vec<TermOp> = Vec::new();
        ops.push(TermOp::RawMode(true));
        ops.push(TermOp::LineWrap(false));
        ops
    }

    /// What the first press of Tab does to a line without white space: the
    /// names of the index that begin with the line become the names to cycle
    /// through, and are shown below the line when there are any.
    pub open spec fn commands_offered(pre: LineEditor, index: Seq<Seq<char>>, post: LineEditor, ops: Seq<Op>)
        -> bool {
        let text = pre.buffer.text@;
        &&& sorting_of(post.tab.names(), index.filter(prefixed_by(text)))
        &&& post.tab.presses == 1
        &&& post.tab.turn == 0
        &&& post.tab.origin@ == text
        &&& !post.tab.is_path
        &&& post.tab.insert_at == 0
        &&& !post.tab.awaiting
        &&& post.recall == pre.recall
        &&& Self::names_shown(pre.buffer, post.tab.names(), post.buffer, ops)
    }

    /// What showing `names` below the line does; nothing when there are
    /// none.
    pub open spec fn names_shown(pre: EditBuffer, names: Seq<Seq<char>>, post: EditBuffer, ops: Seq<Op>) -> bool {
        if names.len() == 0 {
            post == pre && ops.len() == 0
        } else {
            &&& post.text == pre.text
            &&& post.cursor == pre.text@.len()
            &&& post.screen.row == shown_row(
                pre.end_row(),
                pre.text@,
                names,
                pre.screen.width as int,
                pre.screen.height as int,
            )
            &&& ops == shown_ops(
                pre.prompt,
                pre.text@,
                post.screen.col as int,
                pre.end_row(),
                names,
                pre.screen.width as int,
                pre.screen.height as int,
            )
        }
    }

    /// What a press of Tab does.
    ///
    /// On an empty line, nothing. The first press on a line without white
    /// space offers the commands that begin with the line; on any other
    /// line it asks for the names that complete the path at its end. A
    /// later press does nothing while there are no names, gives up a path
    /// that has one name only and has been put in, and else puts the next
    /// name into the line.
    pub open spec fn tabbed(pre: LineEditor, index: Seq<Seq<char>>, post: LineEditor, ops: Seq<Op>, step: Step)
        -> bool {
        let text = pre.buffer.text@;
        if text.len() == 0 {
            post == pre && ops.len() == 0 && step is Continue
        } else if pre.tab.presses == 0 {
            if has_space(text) {
                &&& post.buffer == pre.buffer
                &&& post.recall == pre.recall
                &&& post.tab.presses == 1
                &&& post.tab.awaiting
                &&& post.tab.names().len() == 0
                &&& ops.len() == 0
                &&& step matches Step::Paths(token) && token@ == path_token(text)
            } else {
                Self::commands_offered(pre, index, post, ops) && step is Continue
            }
        } else if pre.tab.candidates@.len() == 0 {
            post == pre && ops.len() == 0 && step is Continue
        } else if pre.tab.gives_up() {
            &&& post.buffer == pre.buffer
            &&& post.recall == pre.recall
            &&& post.tab == (TabCycle { presses: 0, ..pre.tab })
            &&& ops.len() == 0
            &&& step is Continue
        } else {
            &&& post.recall == pre.recall
            &&& post.tab == (TabCycle { presses: 2, turn: pre.tab.next_turn() as usize, ..pre.tab })
            &&& EditBuffer::replaced(pre.buffer, pre.tab.next_text(), post.buffer, ops)
            &&& step is Continue
        }
    }

    /// What a key does.
    ///
    /// A character goes into the line at the cursor. Backspace takes out
    /// the character before the cursor. The arrows to the left and right
    /// and Ctrl-A move the cursor. The arrows up and down walk through the
    /// history and show the record they arrive at. Enter finishes the line
    /// as it stands and gives the terminal back. Ctrl-C finishes with an
    /// empty line. Ctrl-D on an empty line shows the farewell and ends the
    /// shell. Every key but Tab ends the cycle through the completions.
    pub open spec fn keyed(
        pre: LineEditor,
        key: Key,
        entries: Seq<Seq<char>>,
        index: Seq<Seq<char>>,
        post: LineEditor,
        ops: Seq<Op>,
        step: Step,
    ) -> bool {
        match key {
            Key::Tab => Self::tabbed(pre, index, post, ops, step),
            Key::Enter => {
                &&& post == pre
                &&& ops == seq![Op::RawMode(false), Op::LineWrap(true), Op::ClearBelow]
                &&& step matches Step::Line(line) && line@ == pre.buffer.text@
            },
            Key::CtrlC => {
                &&& post == pre
                &&& ops.len() == 0
                &&& step matches Step::Line(line) && line@.len() == 0
            },
            Key::CtrlD => if pre.buffer.text@.len() == 0 {
                &&& post == pre
                &&& ops == paint_ops(
                    farewell(),
                    pre.buffer.screen.col as int,
                    pre.buffer.screen.row as int,
                    pre.buffer.screen.width as int,
                    pre.buffer.screen.height as int,
                ) + seq![Op::LineFeed, Op::RawMode(false), Op::LineWrap(true)]
                &&& step is Exit
            } else {
                &&& post.buffer == pre.buffer
                &&& post.recall == pre.recall
                &&& post.tab.idle()
                &&& ops.len() == 0
                &&& step is Continue
            },
            _ => {
                &&& step is Continue
                &&& post.tab.idle()
                &&& match key {
                    Key::Char(c) => post.recall == pre.recall && EditBuffer::inserted(
                        pre.buffer,
                        c,
                        post.buffer,
                        ops,
                    ),
                    Key::Backspace => post.recall == pre.recall && EditBuffer::erased(
                        pre.buffer,
                        post.buffer,
                        ops,
                    ),
                    Key::Left => post.recall == pre.recall && EditBuffer::moved(pre.buffer, post.buffer, ops)
                        && post.buffer.cursor == (if pre.buffer.can_step_back() {
                        pre.buffer.cursor - 1
                    } else {
                        pre.buffer.cursor as int
                    }),
                    Key::Right => post.recall == pre.recall && EditBuffer::moved(pre.buffer, post.buffer, ops)
                        && post.buffer.cursor == (if pre.buffer.cursor < pre.buffer.text@.len() {
                        pre.buffer.cursor + 1
                    } else {
                        pre.buffer.cursor as int
                    }),
                    Key::CtrlA => post.recall == pre.recall && EditBuffer::homed(pre.buffer, post.buffer, ops),
                    Key::Up => {
                        let to = step_older(entries, pre.recall, pre.buffer.text@);
                        post.recall == to.0 && EditBuffer::replaced(pre.buffer, to.1, post.buffer, ops)
                    },
                    Key::Down => {
                        let to = step_newer(entries, pre.recall, pre.buffer.text@);
                        post.recall == to.0 && EditBuffer::replaced(pre.buffer, to.1, post.buffer, ops)
                    },
                    _ => post.recall == pre.recall && post.buffer == pre.buffer && ops.len() == 0,
                }
            },
        }
    }

    /// Handles one key. `history` is the log that the arrows walk through,
    /// `completion` the index that Tab looks commands up in.
    ///
    /// Unless the shell is to end, the cursor of the line is afterwards
    /// where the operations leave the cursor of the terminal.
    pub fn get_line(&mut self, key: Key, history: &History, completion: &Completion) -> (r: (Vec<TermOp>, Step))
        requires
            old(self).wf(),
        ensures
            final(self).wf(),
            Self::keyed(
                *old(self),
                key,
                history.entries(),
                completion.names(),
                *final(self),
                views(r.0@),
                r.1,
            ),
            !(r.1 is Exit) ==> EditBuffer::tracks(old(self).buffer, final(self).buffer, views(r.0@)),
    {
        match key {
            Key::Tab => self.press_tab(completion),
            Key::Enter => {
                let mut canvas = Canvas::new(self.buffer.screen);
                canvas.emit(TermOp::RawMode(false));
                canvas.emit(TermOp::LineWrap(true));
                canvas.emit(TermOp::ClearBelow);
                assert(canvas.script() =~= seq![Op::RawMode(false), Op::LineWrap(true), Op::ClearBelow]);
                (canvas.ops, Step::Line(self.buffer.line()))
            },
            Key::CtrlC => {
                let ops: Vec<TermOp> = Vec::new();
                (ops, Step::Line(String::new()))
            },
            Key::CtrlD => {
                if self.buffer.text.len() == 0 {
                    let mut word: Vec<char> = Vec::new();
                    word.push('e');
                    word.push('x');
                    word.push('i');
                    word.push('t');
                    assert(word@ =~= farewell());
                    assert(word@.skip(0) =~= word@);
                    let mut canvas = Canvas::new(self.buffer.screen);
                    canvas.paint(&word, 0);
                    let ghost painted = canvas.script();
                    canvas.emit(TermOp::LineFeed);
                    canvas.emit(TermOp::RawMode(false));
                    canvas.emit(TermOp::LineWrap(true));
                    assert(canvas.script() =~= painted + seq![
                        Op::LineFeed,
                        Op::RawMode(false),
                        Op::LineWrap(true),
                    ]);
                    (canvas.ops, Step::Exit)
                } else {
                    self.tab = TabCycle::new();
                    let ops: Vec<TermOp> = Vec::new();
                    (ops, Step::Continue)
                }
            },
            Key::Char(c) => {
                self.tab = TabCycle::new();
                (self.buffer.insert(c), Step::Continue)
            },
            Key::Backspace => {
                self.tab = TabCycle::new();
                (self.buffer.backspace(), Step::Continue)
            },
            Key::Left => {
                self.tab = TabCycle::new();
                (self.buffer.left(), Step::Continue)
            },
            Key::Right => {
                self.tab = TabCycle::new();
                (self.buffer.right(), Step::Continue)
            },
            Key::CtrlA => {
                self.tab = TabCycle::new();
                (self.buffer.home(), Step::Continue)
            },
            Key::Up => {
                self.tab = TabCycle::new();
                let shown = self.buffer.line();
                let (recall, line) = history.older(self.recall, &shown);
                self.recall = recall;
                (self.buffer.replace(to_chars(line.as_str())), Step::Continue)
            },
            Key::Down => {
                self.tab = TabCycle::new();
                let shown = self.buffer.line();
                let (recall, line) = history.newer(self.recall, &shown);
                self.recall = recall;
                (self.buffer.replace(to_chars(line.as_str())), Step::Continue)
            },
            Key::Other => {
                self.tab = TabCycle::new();
                let ops: Vec<TermOp> = Vec::new();
                (ops, Step::Continue)
            },
        }
    }

    /// Handles a press of Tab.
    fn press_tab(&mut self, completion: &Completion) -> (r: (Vec<TermOp>, Step))
        requires
            old(self).wf(),
        ensures
            final(self).wf(),
            Self::tabbed(*old(self), completion.names(), *final(self), views(r.0@), r.1),
            EditBuffer::tracks(old(self).buffer, final(self).buffer, views(r.0@)),
    {
        let mut canvas = Canvas::new(self.buffer.screen);
        if self.buffer.text.len() == 0 {
            return (canvas.ops, Step::Continue);
        }
        if self.tab.presses == 0 {
            if holds_space(&self.buffer.text) {
                let token = find_path_token(&self.buffer.text);
                self.tab = TabCycle::new();
                self.tab.presses = 1;
                self.tab.awaiting = true;
                return (canvas.ops, Step::Paths(from_chars(&token)));
            }
            let line = self.buffer.line();
            let names = sort_strings(completion.find_cmds_completion(&line));
            if names.len() > 0 {
                self.buffer.show_on(&mut canvas, &names);
            }
            self.tab = TabCycle {
                presses: 1,
                turn: 0,
                candidates: names,
                origin: to_chars(line.as_str()),
                is_path: false,
                insert_at: 0,
                awaiting: false,
            };
            return (canvas.ops, Step::Continue);
        }
        let count = self.tab.candidates.len();
        if count == 0 {
            return (canvas.ops, Step::Continue);
        }
        if self.tab.is_path && count == 1 && self.tab.presses >= 2 {
            self.tab.presses = 0;
            return (canvas.ops, Step::Continue);
        }
        let turn: usize = if self.tab.presses < 2 || self.tab.turn + 1 >= count { 0 } else { self.tab.turn + 1 };
        let mut text: Vec<char> = Vec::new();
        let mut i: usize = 0;
        while i < self.tab.insert_at
            invariant
                i <= self.tab.insert_at <= self.tab.origin@.len(),
                text@ == self.tab.origin@.take(i as int),
            decreases self.tab.insert_at - i,
        {
            text.push(self.tab.origin[i]);
            i += 1;
        }
        let mut name = to_chars(self.tab.candidates[turn].as_str());
        text.append(&mut name);
        self.tab.presses = 2;
        self.tab.turn = turn;
        let ops = self.buffer.replace(text);
        (ops, Step::Continue)
    }

    /// Whether a slash is put behind the line before the names for the path
    /// at its end are offered: the path names a directory, and it is not
    /// the current directory and holds no slash yet.
    pub open spec fn takes_slash(text: Seq<char>, is_dir: bool) -> bool {
        is_dir && path_token(text) != seq!['.'] && !path_token(text).contains('/')
    }

    /// What the names for a path do once they are handed in.
    ///
    /// Nothing, unless they have been asked for. Else a slash goes behind
    /// the line where `takes_slash` says so, and the line is then written
    /// anew. The names become the names to cycle through, in the order of
    /// the dictionary, and are shown below the line when there are any.
    /// Each of them will replace the last `prefix_len` characters of the
    /// line.
    pub open spec fn paths_offered(
        pre: LineEditor,
        names: Seq<Seq<char>>,
        prefix_len: usize,
        is_dir: bool,
        post: LineEditor,
        ops: Seq<Op>,
    ) -> bool {
        if !pre.tab.awaiting {
            post == pre && ops.len() == 0
        } else {
            let width = pre.buffer.screen.width as int;
            let height = pre.buffer.screen.height as int;
            let slash = Self::takes_slash(pre.buffer.text@, is_dir);
            let text = if slash { pre.buffer.text@.push('/') } else { pre.buffer.text@ };
            let end_row = if slash {
                min(pre.buffer.redraw_row() + cell_row(text.len() as int, width), height - 1)
            } else {
                pre.buffer.end_row()
            };
            let written = if slash {
                EditBuffer::redraw_ops(pre.buffer.prompt, text, pre.buffer.redraw_row(), width, height)
            } else {
                Seq::empty()
            };
            let found = post.tab.names();
            &&& sorting_of(found, names)
            &&& post.tab.presses == 1
            &&& post.tab.turn == 0
            &&& post.tab.origin@ == text
            &&& post.tab.is_path
            &&& post.tab.insert_at == (if prefix_len <= text.len() { text.len() - prefix_len } else { 0 })
            &&& !post.tab.awaiting
            &&& post.recall == pre.recall
            &&& post.buffer.text@ == text
            &&& !slash && found.len() == 0 ==> post.buffer == pre.buffer
            &&& slash || found.len() > 0 ==> post.buffer.cursor == text.len()
            &&& found.len() == 0 ==> ops == written && (slash ==> post.buffer.screen.row == end_row)
            &&& found.len() > 0 ==> {
                &&& post.buffer.screen.row == shown_row(end_row, text, found, width, height)
                &&& ops == written + shown_ops(
                    pre.buffer.prompt,
                    text,
                    post.buffer.screen.col as int,
                    end_row,
                    found,
                    width,
                    height,
                )
            }
        }
    }

    /// Takes in the names that complete the path which `get_line` asked
    /// for, how many characters at the end of the line they begin with, and
    /// whether the path names a directory.
    pub fn complete_path(&mut self, names: Vec<String>, prefix_len: usize, is_dir: bool) -> (ops: Vec<TermOp>)
        requires
            old(self).wf(),
        ensures
            final(self).wf(),
            Self::paths_offered(*old(self), strings(names@), prefix_len, is_dir, *final(self), views(ops@)),
            EditBuffer::tracks(old(self).buffer, final(self).buffer, views(ops@)),
    {
        let mut canvas = Canvas::new(self.buffer.screen);
        if !self.tab.awaiting {
            return canvas.ops;
        }
        let token = find_path_token(&self.buffer.text);
        let slash = is_dir && !(token.len() == 1 && token[0] == '.') && !chars_hold(&token, '/');
        proof {
            if token.len() == 1 && token[0] == '.' {
                assert(token@ =~= seq!['.']);
            }
        }
        let found = sort_strings(names);
        let mut text = to_chars(self.buffer.line().as_str());
        if slash {
            text.push('/');
            let row = self.buffer.first_row();
            let shown = to_chars(from_chars(&text).as_str());
            self.buffer.redraw_on(&mut canvas, shown, row);
        }
        if found.len() > 0 {
            self.buffer.show_on(&mut canvas, &found);
        }
        let len = text.len();
        self.tab = TabCycle {
            presses: 1,
            turn: 0,
            candidates: found,
            origin: text,
            is_path: true,
            insert_at: if prefix_len <= len { len - prefix_len } else { 0 },
            awaiting: false,
        };
        canvas.ops
    }

    /// Takes note of a new size of the terminal.
    pub fn resize(&mut self, width: u16, height: u16) -> (ops: Vec<TermOp>)
        requires
            old(self).wf(),
        ensures
            final(self).wf(),
            final(self).recall == old(self).recall,
            final(self).tab == old(self).tab,
            EditBuffer::fitted(old(self).buffer, width, height, final(self).buffer, views(ops@)),
    {
        self.buffer.resize(width, height)
    }
}

} // verus!
