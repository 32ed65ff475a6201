use todo_tui::render::{Piece, Shade};
use todo_tui::task::{ListOptions, Mode};
use todo_tui::todo::Todo;

fn line_text(line: &[Piece]) -> String {
    line.iter().map(|p| p.text.as_str()).collect()
}

#[test]
fn render_table_layout() {
    let todo = Todo::init(b"1Buy milk\n0Clean desk\n").unwrap();
    let frame = todo.list(&ListOptions { mode: Mode::Normal, cur: Some(1) }).unwrap();
    let lines: Vec<String> = frame.iter().map(|l| line_text(l)).collect();
    assert_eq!(
        lines,
        vec![
            "┏━━━━━┳━━━━━━━━━━━━┳━━━━━━━━━━━┓ ",
            "┃ IDs ┃ Tasks      ┃ Status    ┃ ",
            "┣━━━━━╋━━━━━━━━━━━━╋━━━━━━━━━━━┫ ",
            "┃  0  ┃ Buy milk   ┃ Pending   ┃ ",
            "┃  1  ┃ Clean desk ┃ Completed ┃ ",
            "┗━━━━━┻━━━━━━━━━━━━┻━━━━━━━━━━━┛ ",
        ]
    );
    assert!(frame[3].iter().all(|p| p.shade == Shade::Plain || p.shade == Shade::Bold));
    assert_eq!(frame[4][1].shade, Shade::Cursor);
    assert_eq!(frame[4][0].shade, Shade::Plain);
}

#[test]
fn render_insert_mode_shades() {
    let todo = Todo::init(b"1a\n3\n").unwrap();
    let frame = todo.list(&ListOptions { mode: Mode::Insert, cur: Some(1) }).unwrap();
    assert_eq!(frame[3][1].shade, Shade::BoldOnInsert);
    assert_eq!(frame[4][3].shade, Shade::CursorOnInsert);
    assert_eq!(line_text(&frame[4]), "┃  1  ┃       ┃ Create    ┃ ");
}

#[test]
fn render_two_digit_ids() {
    let mut content = Vec::new();
    for _ in 0..11 {
        content.extend_from_slice(b"2t\n");
    }
    let todo = Todo::init(&content).unwrap();
    let frame = todo.list(&ListOptions { mode: Mode::Normal, cur: None }).unwrap();
    assert_eq!(frame.len(), 15);
    assert_eq!(frame[13][1].text, " 10  ");
    assert_eq!(frame[3][1].text, "  0  ");
    assert_eq!(line_text(&frame[13]), "┃ 10  ┃ t     ┃ OnHold    ┃ ");
}

#[test]
fn render_stale_width_is_not_padded() {
    let mut todo = Todo::init(b"1abcdefgh\n").unwrap();
    todo.tasks_cell_width = 3;
    let frame = todo.list(&ListOptions { mode: Mode::Normal, cur: None }).unwrap();
    assert_eq!(line_text(&frame[0]), "┏━━━━━┳━━━━━━━┳━━━━━━━━━━━┓ ");
    assert_eq!(line_text(&frame[3]), "┃  0  ┃ abcdefgh ┃ Pending   ┃ ");
}
