use todo_tui::status::Status;
use todo_tui::task::{ListOptions, Mode, Task, TodoError};
use todo_tui::todo::Todo;

fn task(text: &str, status: Status) -> Task {
    Task { task: text.to_string(), status }
}

fn texts(todo: &Todo) -> Vec<(String, Status)> {
    todo.tasks.iter().map(|t| (t.task.clone(), t.status)).collect()
}

#[test]
fn status_codes_round_trip() {
    for s in [Status::Completed, Status::Pending, Status::OnHold, Status::Create, Status::Invalid] {
        assert_eq!(Status::get_enum(s.get_code()), s);
    }
    assert_eq!(Status::Invalid.get_code(), 9);
    assert_eq!(Status::get_enum(7), Status::Invalid);
    assert_eq!(Status::get_enum(0), Status::Completed);
}

#[test]
fn status_labels() {
    assert_eq!(Status::Completed.get_string(), "Completed");
    assert_eq!(Status::Pending.get_string(), "Pending");
    assert_eq!(Status::OnHold.get_string(), "OnHold");
    assert_eq!(Status::Create.get_string(), "Create");
    assert_eq!(Status::Invalid.get_string(), "Invalid");
}

#[test]
fn status_set_replaces() {
    let mut s = Status::Create;
    s.set(Status::Pending);
    assert_eq!(s, Status::Pending);
}

#[test]
fn status_cycle_returns_after_three_steps() {
    for s in [Status::Completed, Status::Pending, Status::OnHold] {
        assert_ne!(s.next(), s);
        assert_eq!(s.next().next().next(), s);
    }
    assert_eq!(Status::Completed.next(), Status::Pending);
    assert_eq!(Status::Pending.next(), Status::OnHold);
    assert_eq!(Status::OnHold.next(), Status::Completed);
    assert_eq!(Status::Invalid.next(), Status::Invalid);
}

#[test]
fn encode_then_decode_round_trip() {
    let todo = Todo::init(b"").unwrap();
    for s in [Status::Completed, Status::Pending, Status::OnHold] {
        let bytes = todo.add(&task("  Write report ", s));
        let back = Todo::init(&bytes).unwrap();
        assert_eq!(texts(&back), vec![("Write report".to_string(), s)]);
    }
    let bytes = todo.add(&task("café ☕", Status::Pending));
    let back = Todo::init(&bytes).unwrap();
    assert_eq!(texts(&back), vec![("café ☕".to_string(), Status::Pending)]);
}

#[test]
fn add_trims_text() {
    let todo = Todo::init(b"").unwrap();
    assert_eq!(todo.add(&task("  x ", Status::Pending)), b"1x\n".to_vec());
    assert!(todo.tasks.is_empty());
}

#[test]
fn empty_file_loads_empty_list() {
    let todo = Todo::init(b"").unwrap();
    assert!(todo.tasks.is_empty());
    assert_eq!(todo.tasks_cell_width, 5);
}

#[test]
fn unknown_status_digit_loads_as_invalid() {
    let todo = Todo::init(b"7odd\nxweird\n\n").unwrap();
    assert_eq!(
        texts(&todo),
        vec![
            ("odd".to_string(), Status::Invalid),
            ("weird".to_string(), Status::Invalid),
            ("".to_string(), Status::Invalid),
        ]
    );
}

#[test]
fn bytes_after_last_newline_are_ignored() {
    let todo = Todo::init(b"1a\n2b").unwrap();
    assert_eq!(texts(&todo), vec![("a".to_string(), Status::Pending)]);
}

#[test]
fn invalid_utf8_is_decode_error() {
    let r = Todo::init(b"1ok\n1\xff\xfe\n");
    assert_eq!(r.err(), Some(TodoError::DecodeError));
}

#[test]
fn remove_middle_keeps_order_and_rewrites() {
    let mut todo = Todo::init(b"1a\n0b\n2c\n").unwrap();
    let content = todo.remove(1).unwrap();
    assert_eq!(
        texts(&todo),
        vec![("a".to_string(), Status::Pending), ("c".to_string(), Status::OnHold)]
    );
    assert_eq!(content, b"1a\n2c\n".to_vec());
    let reloaded = Todo::init(&content).unwrap();
    assert_eq!(texts(&reloaded), texts(&todo));
}

#[test]
fn remove_out_of_range_is_index_error() {
    let mut todo = Todo::init(b"1a\n0b\n").unwrap();
    assert_eq!(todo.remove(2), Err(TodoError::IndexError));
    assert_eq!(todo.remove(7), Err(TodoError::IndexError));
    assert_eq!(todo.remove(usize::MAX), Err(TodoError::IndexError));
    assert_eq!(todo.tasks.len(), 2);
    assert_eq!(todo.tasks_cell_width, 5);
}

#[test]
fn remove_on_empty_is_index_error() {
    let mut todo = Todo::init(b"").unwrap();
    assert_eq!(todo.remove(0), Err(TodoError::IndexError));
}

#[test]
fn refresh_width_is_longest_text_or_five() {
    let mut todo = Todo::init(b"1ab\n0a much longer task\n2c\n").unwrap();
    assert_eq!(todo.tasks_cell_width, 18);
    todo.tasks.clear();
    todo.refresh();
    assert_eq!(todo.tasks_cell_width, 5);
    let todo = Todo::init(b"1abc\n").unwrap();
    assert_eq!(todo.tasks_cell_width, 5);
    let todo = Todo::init(b"1abcdefg\n").unwrap();
    assert_eq!(todo.tasks_cell_width, 7);
}

#[test]
fn width_counts_bytes() {
    let todo = Todo::init("1ééé\n".as_bytes()).unwrap();
    assert_eq!(todo.tasks_cell_width, 6);
}

#[test]
fn load_empty_then_append_scenario() {
    let mut todo = Todo::init(b"").unwrap();
    let t = task("Buy milk", Status::Pending);
    let mut file = todo.add(&t);
    todo.tasks.push(t);
    assert_eq!(texts(&todo), vec![("Buy milk".to_string(), Status::Pending)]);
    assert_eq!(file, b"1Buy milk\n".to_vec());
    file.clear();
}

#[test]
fn load_then_remove_first_scenario() {
    let mut todo = Todo::init(b"1Buy milk\n0Clean desk\n").unwrap();
    assert_eq!(
        texts(&todo),
        vec![
            ("Buy milk".to_string(), Status::Pending),
            ("Clean desk".to_string(), Status::Completed)
        ]
    );
    let file = todo.remove(0).unwrap();
    assert_eq!(file, b"0Clean desk\n".to_vec());
}

#[test]
fn content_of_store() {
    let todo = Todo::init(b"1 a \n0b\n").unwrap();
    assert_eq!(todo.content(), b"1a\n0b\n".to_vec());
}

#[test]
fn render_empty_is_empty_error() {
    let todo = Todo::init(b"").unwrap();
    let r = todo.list(&ListOptions { mode: Mode::Normal, cur: None });
    assert!(matches!(r, Err(TodoError::EmptyError)));
}

#[test]
fn render_zero_width_is_empty_error() {
    let mut todo = Todo::init(b"1a\n").unwrap();
    todo.tasks_cell_width = 0;
    let r = todo.list(&ListOptions { mode: Mode::Normal, cur: Some(0) });
    assert!(matches!(r, Err(TodoError::EmptyError)));
}

#[test]
fn error_messages_are_not_empty() {
    for e in [TodoError::DecodeError, TodoError::IndexError, TodoError::EmptyError] {
        assert!(!e.message().is_empty());
    }
}
