use shsh::autocompletion::Completion;
use shsh::editor::{Key, LineEditor};
use shsh::history::{init, History};
use shsh::screen::TermOp;

/// A terminal with line wrapping switched off, as far as the editor uses
/// it.
struct Terminal {
    width: usize,
    height: usize,
    col: usize,
    row: usize,
    cells: Vec<Vec<Option<char>>>,
}

fn terminal(width: usize, height: usize, row: usize) -> Terminal {
    let mut cells = vec![vec![Some('#'); width]; height];
    for r in row..height {
        for c in 0..width {
            cells[r][c] = None;
        }
    }
    cells[row][0] = Some('$');
    cells[row][1] = Some(' ');
    Terminal { width, height, col: 2, row, cells }
}

fn perform(t: &mut Terminal, ops: &[TermOp]) {
    for op in ops {
        match op {
            TermOp::MoveTo(c, r) => {
                t.col = (*c as usize).min(t.width - 1);
                t.row = (*r as usize).min(t.height - 1);
            },
            TermOp::Print(text) => {
                for ch in text.chars() {
                    if t.col < t.width {
                        t.cells[t.row][t.col] = Some(ch);
                    }
                    t.col += 1;
                }
                t.col = t.col.min(t.width - 1);
            },
            TermOp::LineFeed => {
                if t.row + 1 < t.height {
                    t.row += 1;
                } else {
                    t.cells.remove(0);
                    t.cells.push(vec![None; t.width]);
                }
            },
            TermOp::ClearBelow => {
                for c in t.col..t.width {
                    t.cells[t.row][c] = None;
                }
                for r in t.row + 1..t.height {
                    for c in 0..t.width {
                        t.cells[r][c] = None;
                    }
                }
            },
            TermOp::RawMode(_) | TermOp::LineWrap(_) => {},
        }
    }
}

fn check_shown(e: &LineEditor, t: &Terminal) {
    let b = &e.buffer;
    assert_eq!((b.screen.col as usize, b.screen.row as usize), (t.col, t.row));
    let top = b.screen.row as i64 - b.offset as i64;
    let mut line = vec![b.prompt, ' '];
    line.extend(b.text.iter());
    for r in 0..t.height {
        for c in 0..t.width {
            let place = (r as i64 - top) * t.width as i64 + c as i64;
            if place >= 0 {
                let expected = line.get(place as usize).copied();
                assert_eq!(t.cells[r][c], expected, "cell ({}, {}) of {:?}", c, r, b.text);
            }
        }
    }
}

fn log_of(items: &[&str]) -> History {
    let mut log = init();
    for item in items {
        log.add_to_string(item.to_string());
    }
    log
}

#[test]
fn screen_shows_the_line_after_every_edit() {
    let log = log_of(&["echo one two three", "ls", "a line long enough to wrap over some rows"]);
    let index = Completion::init();
    for (width, height, row, seed) in [(20u16, 6u16, 3u16, 7u32), (5, 3, 0, 11), (7, 1, 0, 13), (80, 24, 23, 17)] {
        let mut e = LineEditor::new(row, '$', width, height).unwrap();
        let mut t = terminal(width as usize, height as usize, row as usize);
        let mut seed = seed;
        check_shown(&e, &t);
        for round in 0..3000 {
            seed = seed.wrapping_mul(1103515245).wrapping_add(12345);
            let key = match (seed >> 16) % 14 {
                0 | 1 | 2 | 3 | 4 => Key::Char((b'a' + (round % 26) as u8) as char),
                5 => Key::Char(' '),
                6 | 7 => Key::Backspace,
                8 => Key::Left,
                9 => Key::Right,
                10 => Key::CtrlA,
                11 => Key::Up,
                12 => Key::Down,
                _ => Key::Other,
            };
            let (ops, _) = e.get_line(key, &log, &index);
            perform(&mut t, &ops);
            check_shown(&e, &t);
        }
    }
}

#[test]
fn screen_shows_the_line_after_a_new_size() {
    let log = init();
    let index = Completion::init();
    let mut e = LineEditor::new(2, '$', 30, 10).unwrap();
    let mut t = terminal(30, 10, 2);
    let mut seed: u32 = 99;
    for round in 0..500 {
        for _ in 0..3 {
            let (ops, _) = e.get_line(Key::Char((b'a' + (round % 26) as u8) as char), &log, &index);
            perform(&mut t, &ops);
        }
        let (ops, _) = e.get_line(Key::Backspace, &log, &index);
        perform(&mut t, &ops);
        check_shown(&e, &t);
        seed = seed.wrapping_mul(1103515245).wrapping_add(12345);
        let width = 5 + ((seed >> 16) % 40) as usize;
        let height = 1 + ((seed >> 8) % 12) as usize;
        t = Terminal {
            width,
            height,
            col: t.col.min(width - 1),
            row: t.row.min(height - 1),
            cells: vec![vec![Some('?'); width]; height],
        };
        let ops = e.resize(width as u16, height as u16);
        perform(&mut t, &ops);
        check_shown(&e, &t);
    }
}
