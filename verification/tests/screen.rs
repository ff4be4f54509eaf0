use shsh::screen::{Canvas, Screen, TermOp};

fn chars(s: &str) -> Vec<char> {
    s.chars().collect()
}

fn print(s: &str) -> TermOp {
    TermOp::Print(s.to_string())
}

#[test]
fn move_to_is_clamped_to_the_grid() {
    let mut screen = Screen { width: 10, height: 5, col: 0, row: 0 };
    assert_eq!(screen.perform(&TermOp::MoveTo(3, 4)), 0);
    assert_eq!((screen.col, screen.row), (3, 4));
    screen.perform(&TermOp::MoveTo(10, 5));
    assert_eq!((screen.col, screen.row), (9, 4));
    screen.perform(&TermOp::MoveTo(u16::MAX, u16::MAX));
    assert_eq!((screen.col, screen.row), (9, 4));
}

#[test]
fn print_stops_at_the_last_column() {
    let mut screen = Screen { width: 10, height: 5, col: 7, row: 2 };
    screen.perform(&print("ab"));
    assert_eq!((screen.col, screen.row), (9, 2));
    screen.perform(&print("abc"));
    assert_eq!((screen.col, screen.row), (9, 2));
    screen.perform(&TermOp::MoveTo(0, 2));
    screen.perform(&print("héllo"));
    assert_eq!((screen.col, screen.row), (5, 2));
    screen.perform(&print(""));
    assert_eq!((screen.col, screen.row), (5, 2));
}

#[test]
fn line_feed_scrolls_on_the_last_row() {
    let mut screen = Screen { width: 10, height: 2, col: 4, row: 0 };
    assert_eq!(screen.perform(&TermOp::LineFeed), 0);
    assert_eq!((screen.col, screen.row), (4, 1));
    assert_eq!(screen.perform(&TermOp::LineFeed), 1);
    assert_eq!((screen.col, screen.row), (4, 1));
}

#[test]
fn other_operations_leave_the_cursor() {
    let mut screen = Screen { width: 10, height: 2, col: 4, row: 1 };
    for op in [TermOp::ClearBelow, TermOp::RawMode(true), TermOp::LineWrap(false)] {
        assert_eq!(screen.perform(&op), 0);
        assert_eq!(screen, Screen { width: 10, height: 2, col: 4, row: 1 });
    }
}

#[test]
fn paint_goes_on_in_the_next_row() {
    let mut canvas = Canvas::new(Screen { width: 10, height: 5, col: 8, row: 1 });
    canvas.paint(&chars("abcdef"), 0);
    assert_eq!(canvas.ops, vec![print("ab"), TermOp::MoveTo(0, 2), print("cdef")]);
    assert_eq!((canvas.screen.col, canvas.screen.row), (4, 2));
    assert_eq!(canvas.scrolled, 0);
}

#[test]
fn paint_of_a_full_row_ends_on_the_next() {
    let mut canvas = Canvas::new(Screen { width: 5, height: 2, col: 0, row: 0 });
    canvas.paint(&chars("abcde"), 0);
    assert_eq!(canvas.ops, vec![print("abcde"), TermOp::MoveTo(0, 1), print("")]);
    assert_eq!((canvas.screen.col, canvas.screen.row), (0, 1));
}

#[test]
fn paint_scrolls_at_the_bottom() {
    let mut canvas = Canvas::new(Screen { width: 5, height: 2, col: 0, row: 1 });
    canvas.paint(&chars("xxabcdefghijklm"), 2);
    assert_eq!(
        canvas.ops,
        vec![
            print("abcde"),
            TermOp::LineFeed,
            TermOp::MoveTo(0, 1),
            print("fghij"),
            TermOp::LineFeed,
            TermOp::MoveTo(0, 1),
            print("klm"),
        ]
    );
    assert_eq!((canvas.screen.col, canvas.screen.row), (3, 1));
    assert_eq!(canvas.scrolled, 2);
}

#[test]
fn paint_of_nothing_prints_nothing() {
    let mut canvas = Canvas::new(Screen { width: 5, height: 2, col: 3, row: 1 });
    canvas.paint(&chars("abc"), 3);
    assert_eq!(canvas.ops, vec![print("")]);
    assert_eq!((canvas.screen.col, canvas.screen.row), (3, 1));
}

#[test]
fn canvas_follows_what_it_emits() {
    let mut canvas = Canvas::new(Screen { width: 5, height: 2, col: 3, row: 0 });
    canvas.emit(TermOp::MoveTo(1, 1));
    canvas.emit(print("ab"));
    canvas.next_row();
    assert_eq!(
        canvas.ops,
        vec![TermOp::MoveTo(1, 1), print("ab"), TermOp::LineFeed, TermOp::MoveTo(0, 1)]
    );
    assert_eq!((canvas.screen.col, canvas.screen.row), (0, 1));
    assert_eq!(canvas.scrolled, 1);
}
