use todo_tui::controller::{App, Key, Persist};
use todo_tui::status::Status;
use todo_tui::task::Mode;
use todo_tui::todo::Todo;

fn app(content: &[u8]) -> App {
    App::new(Todo::init(content).unwrap())
}

fn texts(app: &App) -> Vec<(String, Status)> {
    app.todo.tasks.iter().map(|t| (t.task.clone(), t.status)).collect()
}

#[test]
fn initial_state() {
    let a = app(b"1a\n");
    assert_eq!(a.options.mode, Mode::Normal);
    assert_eq!(a.options.cur, Some(0));
    assert!(!a.quit);
    let a = app(b"");
    assert_eq!(a.options.cur, None);
}

#[test]
fn navigate_within_bounds() {
    let mut a = app(b"1a\n1b\n1c\n");
    a.handle_key(Key::Char('k'));
    assert_eq!(a.options.cur, Some(0));
    a.handle_key(Key::Char('j'));
    a.handle_key(Key::Char('j'));
    a.handle_key(Key::Char('j'));
    assert_eq!(a.options.cur, Some(2));
    a.handle_key(Key::Char('k'));
    assert_eq!(a.options.cur, Some(1));
}

#[test]
fn quit_keys() {
    let mut a = app(b"1a\n");
    a.handle_key(Key::Char('q'));
    assert!(a.quit);
    let mut a = app(b"1a\n");
    a.handle_key(Key::CtrlC);
    assert!(a.quit);
}

#[test]
fn delete_selected_rewrites_file() {
    let mut a = app(b"1a\n0b\n2c\n");
    a.handle_key(Key::Char('j'));
    let step = a.handle_key(Key::Char('d'));
    assert!(step.clear);
    match step.persist {
        Persist::Rewrite(b) => assert_eq!(b, b"1a\n2c\n".to_vec()),
        other => panic!("unexpected {:?}", other),
    }
    assert_eq!(a.options.cur, Some(1));
    a.handle_key(Key::Char('d'));
    a.handle_key(Key::Char('d'));
    assert!(a.todo.tasks.is_empty());
    assert_eq!(a.options.cur, None);
    let step = a.handle_key(Key::Char('d'));
    assert!(matches!(step.persist, Persist::Nothing));
    assert!(!step.clear);
}

#[test]
fn toggle_status_cycles_and_persists() {
    let mut a = app(b"0a\n");
    let step = a.handle_key(Key::Char(' '));
    assert_eq!(a.todo.tasks[0].status, Status::Pending);
    match step.persist {
        Persist::Rewrite(b) => assert_eq!(b, b"1a\n".to_vec()),
        other => panic!("unexpected {:?}", other),
    }
    a.handle_key(Key::Char(' '));
    a.handle_key(Key::Char(' '));
    assert_eq!(a.todo.tasks[0].status, Status::Completed);
}

#[test]
fn insert_then_enter_appends() {
    let mut a = app(b"1a\n");
    a.handle_key(Key::Char('a'));
    assert_eq!(a.options.mode, Mode::Insert);
    assert_eq!(a.options.cur, Some(1));
    for c in "Buy milkx".chars() {
        let step = a.handle_key(Key::Char(c));
        assert!(matches!(step.persist, Persist::Nothing));
    }
    a.handle_key(Key::Backspace);
    assert_eq!(a.todo.tasks[1].task, "Buy milk");
    assert_eq!(a.todo.tasks[1].status, Status::Create);
    assert_eq!(a.todo.tasks_cell_width, 8);
    let step = a.handle_key(Key::Enter);
    match step.persist {
        Persist::Append(b) => assert_eq!(b, b"1Buy milk\n".to_vec()),
        other => panic!("unexpected {:?}", other),
    }
    assert_eq!(a.options.mode, Mode::Normal);
    assert_eq!(
        texts(&a),
        vec![("a".to_string(), Status::Pending), ("Buy milk".to_string(), Status::Pending)]
    );
}

#[test]
fn insert_types_command_letters() {
    let mut a = app(b"");
    a.handle_key(Key::Char('a'));
    a.handle_key(Key::Char('q'));
    a.handle_key(Key::Char('d'));
    assert!(!a.quit);
    assert_eq!(a.todo.tasks[0].task, "qd");
}

#[test]
fn enter_on_empty_text_drops_task() {
    let mut a = app(b"1a\n");
    a.handle_key(Key::Char('a'));
    a.handle_key(Key::Backspace);
    let step = a.handle_key(Key::Enter);
    assert!(matches!(step.persist, Persist::Nothing));
    assert_eq!(texts(&a), vec![("a".to_string(), Status::Pending)]);
    assert_eq!(a.options.cur, Some(0));
    assert_eq!(a.options.mode, Mode::Normal);
}

#[test]
fn escape_cancels_without_quitting() {
    let mut a = app(b"");
    a.handle_key(Key::Char('a'));
    a.handle_key(Key::Char('x'));
    let step = a.handle_key(Key::Esc);
    assert!(step.clear);
    assert!(matches!(step.persist, Persist::Nothing));
    assert!(a.todo.tasks.is_empty());
    assert_eq!(a.options.cur, None);
    assert_eq!(a.options.mode, Mode::Normal);
    assert!(!a.quit);
}
