use shsh::autocompletion::{Completion, DirEntry};
use shsh::buffer::EditBuffer;
use shsh::editor::{Key, LineEditor, Step};
use shsh::history::{init, History, Recall};
use shsh::screen::{Screen, TermOp};

fn print(s: &str) -> TermOp {
    TermOp::Print(s.to_string())
}

fn strings(items: &[&str]) -> Vec<String> {
    items.iter().map(|s| s.to_string()).collect()
}

fn index_of(names: &[&str]) -> Completion {
    let mut index = Completion::init();
    let entries = names
        .iter()
        .map(|n| DirEntry { name: n.to_string(), is_file: true, is_dir: false, mode: 0o755 })
        .collect();
    index.get_cmds(&vec![entries]);
    index
}

fn log_of(items: &[&str]) -> History {
    let mut log = init();
    for item in items {
        log.add_to_string(item.to_string());
    }
    log
}

fn editor(row: u16, width: u16, height: u16) -> LineEditor {
    LineEditor::new(row, '$', width, height).unwrap()
}

fn press(e: &mut LineEditor, key: Key) -> (Vec<TermOp>, Step) {
    e.get_line(key, &init(), &Completion::init())
}

fn type_text(e: &mut LineEditor, text: &str) {
    for c in text.chars() {
        press(e, Key::Char(c));
    }
}

fn line(e: &LineEditor) -> String {
    e.buffer.line()
}

fn place(e: &LineEditor) -> (usize, u16, u16, usize) {
    (e.buffer.cursor, e.buffer.screen.col, e.buffer.screen.row, e.buffer.offset)
}

fn follow(screen: &mut Screen, ops: &[TermOp]) {
    for op in ops {
        screen.perform(op);
    }
}

fn check_cursor(e: &LineEditor, terminal: &Screen) {
    let b = &e.buffer;
    assert_eq!(b.screen, *terminal);
    assert!(b.cursor <= b.text.len());
    assert!(b.screen.col < b.screen.width);
    assert!(b.screen.row < b.screen.height);
    assert_eq!(b.screen.col as usize + b.offset * b.screen.width as usize, 2 + b.cursor);
}

#[test]
fn new_editor_is_behind_the_prompt() {
    let e = editor(3, 80, 24);
    assert_eq!(line(&e), "");
    assert_eq!(place(&e), (0, 2, 3, 0));
    assert_eq!(e.recall, Recall::Fresh);
    assert_eq!(e.tab.presses, 0);
    assert_eq!(e.begin(), vec![TermOp::RawMode(true), TermOp::LineWrap(false)]);
}

#[test]
fn new_editor_needs_room() {
    assert!(LineEditor::new(0, '$', 4, 24).is_none());
    assert!(LineEditor::new(0, '$', 5, 1).is_some());
    assert!(LineEditor::new(24, '$', 80, 24).is_none());
    assert!(LineEditor::new(0, '$', 80, 0).is_none());
    assert!(EditBuffer::new(23, '>', 80, 24).is_some());
}

#[test]
fn character_goes_in_at_the_cursor() {
    let mut e = editor(0, 80, 24);
    let (ops, step) = press(&mut e, Key::Char('a'));
    assert_eq!(ops, vec![TermOp::ClearBelow, print("a"), TermOp::MoveTo(3, 0)]);
    assert_eq!(step, Step::Continue);
    type_text(&mut e, "bc");
    assert_eq!(line(&e), "abc");
    assert_eq!(place(&e), (3, 5, 0, 0));
    press(&mut e, Key::Left);
    press(&mut e, Key::Left);
    let (ops, _) = press(&mut e, Key::Char('x'));
    assert_eq!(ops, vec![TermOp::ClearBelow, print("xbc"), TermOp::MoveTo(4, 0)]);
    assert_eq!(line(&e), "axbc");
    assert_eq!(place(&e), (2, 4, 0, 0));
}

#[test]
fn character_in_the_last_column_starts_the_next_row() {
    let mut e = editor(0, 5, 3);
    type_text(&mut e, "ab");
    assert_eq!(place(&e), (2, 4, 0, 0));
    let (ops, _) = press(&mut e, Key::Char('c'));
    assert_eq!(
        ops,
        vec![TermOp::ClearBelow, print("c"), TermOp::MoveTo(0, 1), print(""), TermOp::MoveTo(0, 1)]
    );
    assert_eq!(line(&e), "abc");
    assert_eq!(place(&e), (3, 0, 1, 1));
}

#[test]
fn line_scrolls_the_screen_at_the_bottom() {
    let mut e = editor(0, 5, 1);
    type_text(&mut e, "ab");
    let (ops, _) = press(&mut e, Key::Char('c'));
    assert_eq!(
        ops,
        vec![
            TermOp::ClearBelow,
            print("c"),
            TermOp::LineFeed,
            TermOp::MoveTo(0, 0),
            print(""),
            TermOp::MoveTo(0, 0),
        ]
    );
    assert_eq!(place(&e), (3, 0, 0, 1));
    let (ops, _) = press(&mut e, Key::Left);
    assert!(ops.is_empty());
    assert_eq!(place(&e), (3, 0, 0, 1));
    let (ops, _) = press(&mut e, Key::Backspace);
    assert!(ops.is_empty());
    assert_eq!(line(&e), "abc");
    press(&mut e, Key::Char('d'));
    assert_eq!(line(&e), "abcd");
    assert_eq!(place(&e), (4, 1, 0, 1));
}

#[test]
fn character_is_refused_where_the_cursor_would_leave_the_screen() {
    let mut e = editor(0, 5, 1);
    type_text(&mut e, "abcdefg");
    assert_eq!(place(&e), (7, 4, 0, 1));
    press(&mut e, Key::Left);
    press(&mut e, Key::Left);
    assert_eq!(place(&e), (5, 2, 0, 1));
    let (ops, step) = press(&mut e, Key::Char('x'));
    assert!(ops.is_empty());
    assert_eq!(step, Step::Continue);
    assert_eq!(line(&e), "abcdefg");
    assert_eq!(place(&e), (5, 2, 0, 1));
    press(&mut e, Key::Right);
    press(&mut e, Key::Right);
    press(&mut e, Key::Char('h'));
    assert_eq!(line(&e), "abcdefgh");
    assert_eq!(place(&e), (8, 0, 0, 2));
}

#[test]
fn backspace_takes_out_the_character_before_the_cursor() {
    let mut e = editor(2, 80, 24);
    type_text(&mut e, "abc");
    press(&mut e, Key::Left);
    let (ops, _) = press(&mut e, Key::Backspace);
    assert_eq!(
        ops,
        vec![TermOp::MoveTo(3, 2), TermOp::ClearBelow, print("c"), TermOp::MoveTo(3, 2)]
    );
    assert_eq!(line(&e), "ac");
    assert_eq!(place(&e), (1, 3, 2, 0));
    press(&mut e, Key::Backspace);
    assert_eq!(line(&e), "c");
    assert_eq!(place(&e), (0, 2, 2, 0));
    let (ops, _) = press(&mut e, Key::Backspace);
    assert!(ops.is_empty());
    assert_eq!(line(&e), "c");
    assert_eq!(place(&e), (0, 2, 2, 0));
}

#[test]
fn backspace_at_the_first_column_goes_up_a_row() {
    let mut e = editor(0, 5, 3);
    type_text(&mut e, "abcd");
    press(&mut e, Key::Left);
    assert_eq!(place(&e), (3, 0, 1, 1));
    let (ops, _) = press(&mut e, Key::Backspace);
    assert_eq!(
        ops,
        vec![TermOp::MoveTo(4, 0), TermOp::ClearBelow, print("d"), TermOp::MoveTo(0, 1), print(""), TermOp::MoveTo(4, 0)]
    );
    assert_eq!(line(&e), "abd");
    assert_eq!(place(&e), (2, 4, 0, 0));
}

#[test]
fn arrows_move_within_the_line() {
    let mut e = editor(0, 5, 3);
    type_text(&mut e, "abcd");
    assert_eq!(place(&e), (4, 1, 1, 1));
    let (ops, _) = press(&mut e, Key::Right);
    assert!(ops.is_empty());
    assert_eq!(place(&e), (4, 1, 1, 1));
    let (ops, _) = press(&mut e, Key::Left);
    assert_eq!(ops, vec![TermOp::MoveTo(0, 1)]);
    let (ops, _) = press(&mut e, Key::Left);
    assert_eq!(ops, vec![TermOp::MoveTo(4, 0)]);
    assert_eq!(place(&e), (2, 4, 0, 0));
    press(&mut e, Key::Left);
    press(&mut e, Key::Left);
    assert_eq!(place(&e), (0, 2, 0, 0));
    let (ops, _) = press(&mut e, Key::Left);
    assert!(ops.is_empty());
    assert_eq!(place(&e), (0, 2, 0, 0));
    press(&mut e, Key::Right);
    press(&mut e, Key::Right);
    let (ops, _) = press(&mut e, Key::Right);
    assert_eq!(ops, vec![TermOp::MoveTo(0, 1)]);
    assert_eq!(place(&e), (3, 0, 1, 1));
    assert_eq!(line(&e), "abcd");
}

#[test]
fn ctrl_a_goes_to_the_start_of_the_row() {
    let mut e = editor(1, 5, 4);
    type_text(&mut e, "abcdef");
    assert_eq!(place(&e), (6, 3, 2, 1));
    let (ops, _) = press(&mut e, Key::CtrlA);
    assert_eq!(ops, vec![TermOp::MoveTo(0, 2)]);
    assert_eq!(place(&e), (3, 0, 2, 1));
    press(&mut e, Key::Left);
    let (ops, _) = press(&mut e, Key::CtrlA);
    assert_eq!(ops, vec![TermOp::MoveTo(2, 1)]);
    assert_eq!(place(&e), (0, 2, 1, 0));
    assert_eq!(line(&e), "abcdef");
}

#[test]
fn enter_gives_the_line_as_it_stands() {
    let mut e = editor(0, 80, 24);
    type_text(&mut e, "  ls -l  ");
    press(&mut e, Key::Left);
    let (ops, step) = press(&mut e, Key::Enter);
    assert_eq!(ops, vec![TermOp::RawMode(false), TermOp::LineWrap(true), TermOp::ClearBelow]);
    assert_eq!(step, Step::Line("  ls -l  ".to_string()));
}

#[test]
fn ctrl_c_gives_an_empty_line() {
    let mut e = editor(0, 80, 24);
    type_text(&mut e, "rm -rf");
    let (ops, step) = press(&mut e, Key::CtrlC);
    assert!(ops.is_empty());
    assert_eq!(step, Step::Line(String::new()));
}

#[test]
fn ctrl_d_on_an_empty_line_ends_the_shell() {
    let mut e = editor(4, 80, 24);
    let (ops, step) = press(&mut e, Key::CtrlD);
    assert_eq!(
        ops,
        vec![print("exit"), TermOp::LineFeed, TermOp::RawMode(false), TermOp::LineWrap(true)]
    );
    assert_eq!(step, Step::Exit);
}

#[test]
fn ctrl_d_on_a_line_does_nothing() {
    let mut e = editor(4, 80, 24);
    type_text(&mut e, "x");
    let (ops, step) = press(&mut e, Key::CtrlD);
    assert!(ops.is_empty());
    assert_eq!(step, Step::Continue);
    assert_eq!(line(&e), "x");
}

#[test]
fn other_keys_do_nothing() {
    let mut e = editor(4, 80, 24);
    type_text(&mut e, "x");
    let (ops, step) = press(&mut e, Key::Other);
    assert!(ops.is_empty());
    assert_eq!(step, Step::Continue);
    assert_eq!(line(&e), "x");
    assert_eq!(place(&e), (1, 3, 4, 0));
}

#[test]
fn up_and_down_walk_through_the_history() {
    let log = log_of(&["first", "second", "second"]);
    let index = Completion::init();
    let mut e = editor(2, 80, 24);
    let (ops, step) = e.get_line(Key::Up, &log, &index);
    assert_eq!(
        ops,
        vec![TermOp::MoveTo(0, 2), TermOp::ClearBelow, print("$ "), TermOp::MoveTo(2, 2), print("second")]
    );
    assert_eq!(step, Step::Continue);
    assert_eq!(line(&e), "second");
    assert_eq!(place(&e), (6, 8, 2, 0));
    assert_eq!(e.recall, Recall::At(0));
    e.get_line(Key::Up, &log, &index);
    assert_eq!(line(&e), "first");
    assert_eq!(e.recall, Recall::At(2));
    e.get_line(Key::Up, &log, &index);
    assert_eq!(line(&e), "");
    assert_eq!(e.recall, Recall::Past);
    assert_eq!(place(&e), (0, 2, 2, 0));
    e.get_line(Key::Down, &log, &index);
    assert_eq!(line(&e), "first");
    e.get_line(Key::Down, &log, &index);
    assert_eq!(line(&e), "second");
    assert_eq!(e.recall, Recall::At(1));
    e.get_line(Key::Down, &log, &index);
    assert_eq!(line(&e), "");
    assert_eq!(e.recall, Recall::Fresh);
}

#[test]
fn recalled_record_wraps_and_scrolls() {
    let log = log_of(&["abcdefghijkl"]);
    let index = Completion::init();
    let mut e = editor(1, 5, 2);
    let (ops, _) = e.get_line(Key::Up, &log, &index);
    assert_eq!(
        ops,
        vec![
            TermOp::MoveTo(0, 1),
            TermOp::ClearBelow,
            print("$ "),
            TermOp::MoveTo(2, 1),
            print("abc"),
            TermOp::LineFeed,
            TermOp::MoveTo(0, 1),
            print("defgh"),
            TermOp::LineFeed,
            TermOp::MoveTo(0, 1),
            print("ijkl"),
        ]
    );
    assert_eq!(place(&e), (12, 4, 1, 2));
    let (ops, _) = e.get_line(Key::Down, &log, &index);
    assert_eq!(ops, vec![TermOp::MoveTo(0, 0), TermOp::ClearBelow, print("$ "), TermOp::MoveTo(2, 0), print("")]);
    assert_eq!(place(&e), (0, 2, 0, 0));
}

#[test]
fn resize_writes_the_line_anew() {
    let mut e = editor(3, 80, 24);
    type_text(&mut e, "abcdefgh");
    press(&mut e, Key::Left);
    let ops = e.resize(5, 10);
    assert_eq!(
        ops,
        vec![
            TermOp::MoveTo(0, 3),
            TermOp::ClearBelow,
            print("$ "),
            TermOp::MoveTo(2, 3),
            print("abc"),
            TermOp::MoveTo(0, 4),
            print("defgh"),
            TermOp::MoveTo(0, 5),
            print(""),
        ]
    );
    assert_eq!(line(&e), "abcdefgh");
    assert_eq!(place(&e), (8, 0, 5, 2));
    assert_eq!((e.buffer.screen.width, e.buffer.screen.height), (5, 10));
}

#[test]
fn resize_too_narrow_is_passed_over() {
    let mut e = editor(3, 80, 24);
    type_text(&mut e, "abc");
    assert!(e.resize(4, 24).is_empty());
    assert!(e.resize(80, 0).is_empty());
    assert_eq!((e.buffer.screen.width, e.buffer.screen.height), (80, 24));
    assert_eq!(place(&e), (3, 5, 3, 0));
}

#[test]
fn resize_of_an_empty_line_shows_nothing() {
    let mut e = editor(10, 80, 24);
    assert!(e.resize(40, 5).is_empty());
    assert_eq!((e.buffer.screen.width, e.buffer.screen.height), (40, 5));
    assert_eq!(place(&e), (0, 2, 4, 0));
}

#[test]
fn resize_to_fewer_rows_starts_on_the_last() {
    let mut e = editor(10, 80, 24);
    type_text(&mut e, "abc");
    let ops = e.resize(80, 5);
    assert_eq!(
        ops,
        vec![TermOp::MoveTo(0, 4), TermOp::ClearBelow, print("$ "), TermOp::MoveTo(2, 4), print("abc")]
    );
    assert_eq!(place(&e), (3, 5, 4, 0));
}

#[test]
fn tab_on_an_empty_line_does_nothing() {
    let index = index_of(&["ls"]);
    let mut e = editor(0, 80, 24);
    let (ops, step) = e.get_line(Key::Tab, &init(), &index);
    assert!(ops.is_empty());
    assert_eq!(step, Step::Continue);
    assert_eq!(e.tab.presses, 0);
}

#[test]
fn tab_offers_commands_and_cycles_through_them() {
    let index = index_of(&["ls", "less", "cat"]);
    let log = init();
    let mut e = editor(0, 80, 24);
    e.get_line(Key::Char('l'), &log, &index);
    let (ops, step) = e.get_line(Key::Tab, &log, &index);
    assert_eq!(step, Step::Continue);
    assert_eq!(e.tab.candidates, strings(&["less", "ls"]));
    assert_eq!(
        ops,
        vec![
            TermOp::MoveTo(3, 0),
            TermOp::MoveTo(0, 0),
            TermOp::LineFeed,
            print("less  "),
            print("ls    "),
            TermOp::MoveTo(3, 0),
        ]
    );
    assert_eq!(line(&e), "l");
    let (ops, _) = e.get_line(Key::Tab, &log, &index);
    assert_eq!(
        ops,
        vec![TermOp::MoveTo(0, 0), TermOp::ClearBelow, print("$ "), TermOp::MoveTo(2, 0), print("less")]
    );
    assert_eq!(line(&e), "less");
    e.get_line(Key::Tab, &log, &index);
    assert_eq!(line(&e), "ls");
    e.get_line(Key::Tab, &log, &index);
    assert_eq!(line(&e), "less");
    e.get_line(Key::Tab, &log, &index);
    assert_eq!(line(&e), "ls");
    assert_eq!(place(&e), (2, 4, 0, 0));
}

#[test]
fn tab_without_a_match_shows_nothing() {
    let index = index_of(&["ls", "less", "cat"]);
    let log = init();
    let mut e = editor(0, 80, 24);
    e.get_line(Key::Char('x'), &log, &index);
    for _ in 0..3 {
        let (ops, step) = e.get_line(Key::Tab, &log, &index);
        assert!(ops.is_empty());
        assert_eq!(step, Step::Continue);
        assert_eq!(line(&e), "x");
    }
}

#[test]
fn any_other_key_ends_the_cycle() {
    let index = index_of(&["ls", "less", "cat"]);
    let log = init();
    let mut e = editor(0, 80, 24);
    e.get_line(Key::Char('l'), &log, &index);
    e.get_line(Key::Tab, &log, &index);
    e.get_line(Key::Tab, &log, &index);
    assert_eq!(line(&e), "less");
    e.get_line(Key::Backspace, &log, &index);
    assert_eq!(e.tab.presses, 0);
    assert!(e.tab.candidates.is_empty());
    e.get_line(Key::Tab, &log, &index);
    assert_eq!(e.tab.candidates, strings(&["less"]));
    e.get_line(Key::Tab, &log, &index);
    assert_eq!(line(&e), "less");
}

#[test]
fn grid_goes_to_a_new_row_when_one_is_full() {
    let index = index_of(&["aa", "ab", "ac", "ad", "ae"]);
    let log = init();
    let mut e = editor(0, 13, 24);
    e.get_line(Key::Char('a'), &log, &index);
    let (ops, _) = e.get_line(Key::Tab, &log, &index);
    assert_eq!(
        ops,
        vec![
            TermOp::MoveTo(3, 0),
            TermOp::MoveTo(0, 0),
            TermOp::LineFeed,
            print("aa  "),
            print("ab  "),
            TermOp::MoveTo(0, 2),
            print("ac  "),
            print("ad  "),
            TermOp::MoveTo(0, 3),
            print("ae  "),
            TermOp::MoveTo(3, 0),
        ]
    );
}

#[test]
fn grid_has_one_column_on_a_narrow_terminal() {
    let index = index_of(&["abcdefgh", "abc"]);
    let log = init();
    let mut e = editor(0, 5, 24);
    e.get_line(Key::Char('a'), &log, &index);
    let (ops, _) = e.get_line(Key::Tab, &log, &index);
    assert_eq!(
        ops,
        vec![
            TermOp::MoveTo(3, 0),
            TermOp::MoveTo(0, 0),
            TermOp::LineFeed,
            print("abc       "),
            TermOp::MoveTo(0, 2),
            print("abcdefgh  "),
            TermOp::MoveTo(3, 0),
        ]
    );
}

#[test]
fn grid_that_does_not_fit_moves_the_line_below_it() {
    let index = index_of(&["ls", "less"]);
    let log = init();
    let mut e = editor(1, 80, 2);
    e.get_line(Key::Char('l'), &log, &index);
    let (ops, _) = e.get_line(Key::Tab, &log, &index);
    assert_eq!(
        ops,
        vec![
            TermOp::MoveTo(3, 1),
            TermOp::MoveTo(0, 1),
            TermOp::LineFeed,
            print("less  "),
            print("ls    "),
            TermOp::LineFeed,
            TermOp::MoveTo(0, 1),
            TermOp::MoveTo(0, 1),
            TermOp::ClearBelow,
            print("$ "),
            TermOp::MoveTo(2, 1),
            print("l"),
        ]
    );
    assert_eq!(place(&e), (1, 3, 1, 0));
}

#[test]
fn tab_behind_white_space_asks_for_paths() {
    let index = index_of(&["cat"]);
    let log = init();
    let mut e = editor(0, 80, 24);
    type_text(&mut e, "cat sr");
    let (ops, step) = e.get_line(Key::Tab, &log, &index);
    assert!(ops.is_empty());
    assert_eq!(step, Step::Paths("sr".to_string()));
    assert!(e.tab.awaiting);
    let ops = e.complete_path(strings(&["src/"]), 2, false);
    assert_eq!(
        ops,
        vec![
            TermOp::MoveTo(8, 0),
            TermOp::MoveTo(0, 0),
            TermOp::LineFeed,
            print("src/  "),
            TermOp::MoveTo(8, 0),
        ]
    );
    assert_eq!(line(&e), "cat sr");
    assert!(e.tab.is_path);
    assert_eq!(e.tab.insert_at, 4);
    e.get_line(Key::Tab, &log, &index);
    assert_eq!(line(&e), "cat src/");
    let (ops, step) = e.get_line(Key::Tab, &log, &index);
    assert!(ops.is_empty());
    assert_eq!(step, Step::Continue);
    assert_eq!(line(&e), "cat src/");
    assert_eq!(e.tab.presses, 0);
    let (_, step) = e.get_line(Key::Tab, &log, &index);
    assert_eq!(step, Step::Paths("src/".to_string()));
}

#[test]
fn path_to_a_directory_gets_a_slash() {
    let log = init();
    let index = Completion::init();
    let mut e = editor(0, 80, 24);
    type_text(&mut e, "cd src");
    let (_, step) = e.get_line(Key::Tab, &log, &index);
    assert_eq!(step, Step::Paths("src".to_string()));
    let ops = e.complete_path(strings(&["main.rs", "lib.rs"]), 0, true);
    assert_eq!(
        ops,
        vec![
            TermOp::MoveTo(0, 0),
            TermOp::ClearBelow,
            print("$ "),
            TermOp::MoveTo(2, 0),
            print("cd src/"),
            TermOp::MoveTo(9, 0),
            TermOp::MoveTo(0, 0),
            TermOp::LineFeed,
            print("lib.rs   "),
            print("main.rs  "),
            TermOp::MoveTo(9, 0),
        ]
    );
    assert_eq!(line(&e), "cd src/");
    assert_eq!(e.tab.candidates, strings(&["lib.rs", "main.rs"]));
    e.get_line(Key::Tab, &log, &index);
    assert_eq!(line(&e), "cd src/lib.rs");
    e.get_line(Key::Tab, &log, &index);
    assert_eq!(line(&e), "cd src/main.rs");
    e.get_line(Key::Tab, &log, &index);
    assert_eq!(line(&e), "cd src/lib.rs");
}

#[test]
fn path_with_a_slash_or_the_current_directory_gets_none() {
    let log = init();
    let index = Completion::init();
    let mut e = editor(0, 80, 24);
    type_text(&mut e, "ls a/b");
    e.get_line(Key::Tab, &log, &index);
    e.complete_path(strings(&["x"]), 0, true);
    assert_eq!(line(&e), "ls a/b");
    let mut e = editor(0, 80, 24);
    type_text(&mut e, "ls ");
    let (_, step) = e.get_line(Key::Tab, &log, &index);
    assert_eq!(step, Step::Paths(".".to_string()));
    e.complete_path(strings(&["x", "b"]), 0, true);
    assert_eq!(line(&e), "ls ");
    assert_eq!(e.tab.insert_at, 3);
    e.get_line(Key::Tab, &log, &index);
    assert_eq!(line(&e), "ls b");
    e.get_line(Key::Tab, &log, &index);
    assert_eq!(line(&e), "ls x");
}

#[test]
fn paths_that_were_not_asked_for_are_passed_over() {
    let mut e = editor(0, 80, 24);
    type_text(&mut e, "ls a");
    assert!(e.complete_path(strings(&["abc"]), 1, false).is_empty());
    assert!(e.tab.candidates.is_empty());
    assert_eq!(e.tab.presses, 0);
}

#[test]
fn no_paths_found_shows_nothing() {
    let log = init();
    let index = Completion::init();
    let mut e = editor(0, 80, 24);
    type_text(&mut e, "ls zz");
    e.get_line(Key::Tab, &log, &index);
    assert!(e.complete_path(Vec::new(), 2, false).is_empty());
    assert!(!e.tab.awaiting);
    let (ops, step) = e.get_line(Key::Tab, &log, &index);
    assert!(ops.is_empty());
    assert_eq!(step, Step::Continue);
    assert_eq!(line(&e), "ls zz");
}

#[test]
fn cursor_is_where_the_terminal_has_it() {
    let log = log_of(&["echo one two three four five", "ls", "a very long line that wraps over several rows"]);
    let index = index_of(&["ls", "less", "cat", "latex", "ln"]);
    let mut e = editor(3, 20, 6);
    let mut terminal = e.buffer.screen;
    let mut seed: u32 = 12345;
    for round in 0..4000 {
        seed = seed.wrapping_mul(1103515245).wrapping_add(12345);
        let pick = (seed >> 16) % 16;
        let ops = match pick {
            0 | 1 | 2 | 3 | 4 => e.get_line(Key::Char((b'a' + (round % 26) as u8) as char), &log, &index).0,
            5 => e.get_line(Key::Char(' '), &log, &index).0,
            6 | 7 => e.get_line(Key::Backspace, &log, &index).0,
            8 => e.get_line(Key::Left, &log, &index).0,
            9 => e.get_line(Key::Right, &log, &index).0,
            10 => e.get_line(Key::CtrlA, &log, &index).0,
            11 => e.get_line(Key::Up, &log, &index).0,
            12 => e.get_line(Key::Down, &log, &index).0,
            13 => {
                let (ops, step) = e.get_line(Key::Tab, &log, &index);
                match step {
                    Step::Paths(_) => {
                        assert!(ops.is_empty());
                        e.complete_path(strings(&["src/", "spam", "target/"]), 0, round % 2 == 0)
                    },
                    _ => ops,
                }
            },
            _ => {
                let width = 5 + ((seed >> 8) % 30) as u16;
                let height = 1 + ((seed >> 4) % 8) as u16;
                terminal = Screen {
                    width,
                    height,
                    col: terminal.col.min(width - 1),
                    row: terminal.row.min(height - 1),
                };
                e.resize(width, height)
            },
        };
        follow(&mut terminal, &ops);
        check_cursor(&e, &terminal);
    }
}
