//! The interactive view's decisions: a state machine from the current
//! state and one key to the next state and what the backing file needs.
//! Reading keys, drawing and writing the file are left to the caller.
use vstd::prelude::*;

use crate::codec::{encode_all, encoded};
use crate::status::{next_of, Status};
use crate::task::{models, ListOptions, Mode, Task, TaskModel};
use crate::todo::{width_for, Todo};

verus! {

/// A key press, as the view tells them apart.
#[derive(Clone, Copy, Debug, PartialEq, Eq, Structural)]
pub enum Key {
    /// A printable character.
    Char(char),
    /// The interrupt combination.
    CtrlC,
    Enter,
    Backspace,
    Esc,
    /// Any other key.
    Other,
}

/// What the backing file needs after a key.
#[derive(Debug)]
pub enum Persist {
    /// Nothing changes on disk.
    Nothing,
    /// These bytes go at the end of the file.
    Append(Vec<u8>),
    /// The file is truncated and these bytes written from its start.
    Rewrite(Vec<u8>),
}

/// What a key asks of the backing file, as bytes.
pub enum PersistModel {
    Nothing,
    Append(Seq<u8>),
    Rewrite(Seq<u8>),
}

impl View for Persist {
    type V = PersistModel;

    open spec fn view(&self) -> PersistModel {
        match self {
            Persist::Nothing => PersistModel::Nothing,
            Persist::Append(b) => PersistModel::Append(b@),
            Persist::Rewrite(b) => PersistModel::Rewrite(b@),
        }
    }
}

/// The outcome of a key besides the new state.
#[derive(Debug)]
pub struct Step {
    pub persist: Persist,
    /// Whether the rows below the table are to be blanked, the table
    /// having lost a row.
    pub clear: bool,
}

/// The interactive view: the store, the drawing options (mode and
/// selected row) and whether it is to quit after the next drawing.
pub struct App {
    pub todo: Todo,
    pub options: ListOptions,
    pub quit: bool,
}

/// The selection after the list shrank to `n` tasks: the last one, if any.
pub open spec fn last_of(n: nat) -> Option<usize> {
    if n > 0 {
        Some((n - 1) as usize)
    } else {
        None
    }
}

/// The characters of a key that types into a new task.
pub open spec fn typed(k: Key) -> Option<char> {
    match k {
        Key::Char(c) => Some(c),
        _ => None,
    }
}

/// The tasks, mode and selection after a key. While navigating: `j` and
/// `k` move the selection down and up within the list, `d` deletes the
/// selected task and selects the last one, space steps the selected
/// task's status through its cycle, and `a` starts typing a new task at
/// the end. While typing: a character extends the new task's text,
/// backspace shortens it, enter keeps the task as `Pending` if it has
/// text and drops it if not, and escape drops it. Any other key changes
/// none of these.
pub open spec fn after_key(ts: Seq<TaskModel>, mode: Mode, cur: Option<usize>, key: Key) -> (
    Seq<TaskModel>,
    Mode,
    Option<usize>,
) {
    let n = ts.len();
    if mode == Mode::Normal {
        if key == Key::Char('j') {
            (ts, mode, if cur is Some && cur.unwrap() + 1 < n { Some((cur.unwrap() + 1) as usize) } else { cur })
        } else if key == Key::Char('k') {
            (ts, mode, if cur is Some && cur.unwrap() > 0 { Some((cur.unwrap() - 1) as usize) } else { cur })
        } else if key == Key::Char('d') && cur is Some {
            let rest = ts.remove(cur.unwrap() as int);
            (rest, mode, last_of(rest.len()))
        } else if key == Key::Char(' ') && cur is Some {
            let c = cur.unwrap() as int;
            (ts.update(c, (ts[c].0, next_of(ts[c].1))), mode, cur)
        } else if key == Key::Char('a') && n + 2 < usize::MAX {
            (ts.push((Seq::empty(), Status::Create)), Mode::Insert, Some(n as usize))
        } else {
            (ts, mode, cur)
        }
    } else {
        let last = ts[n - 1];
        if key is Char {
            (ts.update(n - 1, (last.0.push(key->Char_0), last.1)), mode, cur)
        } else if key == Key::Backspace {
            let text = if last.0.len() > 0 { last.0.drop_last() } else { last.0 };
            (ts.update(n - 1, (text, last.1)), mode, cur)
        } else if key == Key::Enter && last.0.len() > 0 {
            (ts.update(n - 1, (last.0, Status::Pending)), Mode::Normal, cur)
        } else if key == Key::Enter || key == Key::Esc {
            (ts.drop_last(), Mode::Normal, last_of((n - 1) as nat))
        } else {
            (ts, mode, cur)
        }
    }
}

/// What the backing file needs after a key: the whole new content after a
/// deletion or a change of status, the new task's record once it is kept,
/// and nothing otherwise; a task being typed never reaches the file.
pub open spec fn persist_after(ts: Seq<TaskModel>, mode: Mode, cur: Option<usize>, key: Key) -> PersistModel {
    let next = after_key(ts, mode, cur, key).0;
    if mode == Mode::Normal && cur is Some && (key == Key::Char('d') || key == Key::Char(' ')) {
        PersistModel::Rewrite(encode_all(next))
    } else if mode == Mode::Insert && key == Key::Enter && ts[ts.len() - 1].0.len() > 0 {
        PersistModel::Append(encoded(next[ts.len() - 1]))
    } else {
        PersistModel::Nothing
    }
}

/// Whether the table loses a row that is to be blanked.
pub open spec fn clears_after(mode: Mode, cur: Option<usize>, key: Key) -> bool {
    (mode == Mode::Normal && cur is Some && key == Key::Char('d')) || (mode == Mode::Insert && key
        == Key::Esc)
}

/// Whether a key makes the view quit after its next drawing.
pub open spec fn quits(mode: Mode, key: Key) -> bool {
    key == Key::CtrlC || (mode == Mode::Normal && key == Key::Char('q'))
}

/// Relies on `String::push`: the character is appended.
#[verifier::external_body]
fn push_char(s: &mut String, c: char)
    ensures
        final(s)@ == old(s)@.push(c),
{
    s.push(c)
}

/// Relies on `String::pop`: the last character is removed, if there is one.
#[verifier::external_body]
fn pop_char(s: &mut String) -> (r: Option<char>)
    ensures
        old(s)@.len() == 0 ==> r is None && final(s)@ == old(s)@,
        old(s)@.len() > 0 ==> r == Some(old(s)@.last()) && final(s)@ == old(s)@.drop_last(),
{
    s.pop()
}

impl App {
    /// The tasks, as models.
    pub open spec fn model(&self) -> Seq<TaskModel> {
        self.todo.model()
    }

    /// A selection is an index of the list, and there is one whenever the
    /// list is not empty; while typing, the new task is the last one,
    /// selected and marked `Create`.
    pub open spec fn wf(&self) -> bool {
        let n = self.model().len();
        &&& (self.options.cur.is_some() <==> n > 0)
        &&& (self.options.cur matches Some(c) ==> c < n)
        &&& (self.options.mode == Mode::Insert ==> n > 0 && self.options.cur == Some((n - 1) as usize)
            && self.model()[n - 1].1 == Status::Create)
    }

    /// The view in its first state: navigating, the first task selected.
    pub fn new(todo: Todo) -> (r: Self)
        ensures
            r.todo == todo,
            r.options.mode == Mode::Normal,
            r.options.cur == (if todo.tasks@.len() > 0 { Some(0usize) } else { None }),
            !r.quit,
            r.wf(),
    {
        let cur = if todo.tasks.len() > 0 {
            Some(0)
        } else {
            None
        };
        App { todo, options: ListOptions { mode: Mode::Normal, cur }, quit: false }
    }

    /// Takes one key: updates the tasks, mode, selection and quit flag,
    /// recomputes the column width, and says what the backing file needs.
    pub fn handle_key(&mut self, key: Key) -> (r: Step)
        requires
            old(self).wf(),
        ensures
            final(self).wf(),
            (final(self).model(), final(self).options.mode, final(self).options.cur) == after_key(
                old(self).model(),
                old(self).options.mode,
                old(self).options.cur,
                key,
            ),
            r.persist@ == persist_after(
                old(self).model(),
                old(self).options.mode,
                old(self).options.cur,
                key,
            ),
            r.clear == clears_after(old(self).options.mode, old(self).options.cur, key),
            final(self).quit == (old(self).quit || quits(old(self).options.mode, key)),
            final(self).todo.tasks_cell_width == width_for(final(self).model()),
    {
        if key == Key::CtrlC || (self.options.mode == Mode::Normal && key == Key::Char('q')) {
            self.quit = true;
        }
        let step = if self.options.mode == Mode::Normal {
            self.normal_key(key)
        } else {
            self.insert_key(key)
        };
        self.todo.refresh();
        step
    }

    fn normal_key(&mut self, key: Key) -> (r: Step)
        requires
            old(self).wf(),
            old(self).options.mode == Mode::Normal,
        ensures
            final(self).wf(),
            (final(self).model(), final(self).options.mode, final(self).options.cur) == after_key(
                old(self).model(),
                old(self).options.mode,
                old(self).options.cur,
                key,
            ),
            r.persist@ == persist_after(
                old(self).model(),
                old(self).options.mode,
                old(self).options.cur,
                key,
            ),
            r.clear == clears_after(old(self).options.mode, old(self).options.cur, key),
            final(self).quit == old(self).quit,
    {
        let n = self.todo.tasks.len();
        let nothing = Step { persist: Persist::Nothing, clear: false };
        if key == Key::Char('j') {
            if let Some(c) = self.options.cur {
                if c + 1 < n {
                    self.options.cur = Some(c + 1);
                }
            }
            nothing
        } else if key == Key::Char('k') {
            if let Some(c) = self.options.cur {
                if c > 0 {
                    self.options.cur = Some(c - 1);
                }
            }
            nothing
        } else if key == Key::Char('d') && self.options.cur.is_some() {
            let c = self.options.cur.unwrap();
            let content = match self.todo.remove(c) {
                Ok(bytes) => bytes,
                Err(_) => Vec::new(),
            };
            let m = self.todo.tasks.len();
            self.options.cur = if m > 0 {
                Some(m - 1)
            } else {
                None
            };
            Step { persist: Persist::Rewrite(content), clear: true }
        } else if key == Key::Char(' ') && self.options.cur.is_some() {
            let c = self.options.cur.unwrap();
            let next = self.todo.tasks[c].status.next();
            self.todo.tasks[c].status.set(next);
            proof {
                assert(self.model() =~= old(self).model().update(
                    c as int,
                    (old(self).model()[c as int].0, next_of(old(self).model()[c as int].1)),
                ));
            }
            Step { persist: Persist::Rewrite(self.todo.content()), clear: false }
        } else if key == Key::Char('a') && n < usize::MAX - 2 {
            self.todo.tasks.push(Task { task: String::new(), status: Status::Create });
            self.options.mode = Mode::Insert;
            self.options.cur = Some(n);
            proof {
                assert(self.model() =~= old(self).model().push((Seq::empty(), Status::Create)));
            }
            nothing
        } else {
            nothing
        }
    }

    fn insert_key(&mut self, key: Key) -> (r: Step)
        requires
            old(self).wf(),
            old(self).options.mode == Mode::Insert,
        ensures
            final(self).wf(),
            (final(self).model(), final(self).options.mode, final(self).options.cur) == after_key(
                old(self).model(),
                old(self).options.mode,
                old(self).options.cur,
                key,
            ),
            r.persist@ == persist_after(
                old(self).model(),
                old(self).options.mode,
                old(self).options.cur,
                key,
            ),
            r.clear == clears_after(old(self).options.mode, old(self).options.cur, key),
            final(self).quit == old(self).quit,
    {
        let nothing = Step { persist: Persist::Nothing, clear: false };
        let ghost ts = old(self).model();
        let ghost n = ts.len();
        let mut last = match self.todo.tasks.pop() {
            Some(t) => t,
            None => {
                return nothing;
            },
        };
        let ghost rest = self.todo.tasks@;
        assert(models(rest) =~= ts.drop_last());
        match key {
            Key::Char(ch) => {
                push_char(&mut last.task, ch);
                self.todo.tasks.push(last);
                assert(self.model() =~= ts.update(n - 1, (ts[n - 1].0.push(ch), ts[n - 1].1)));
                nothing
            },
            Key::Backspace => {
                let _ = pop_char(&mut last.task);
                self.todo.tasks.push(last);
                assert(self.model() =~= ts.update(
                    n - 1,
                    (if ts[n - 1].0.len() > 0 { ts[n - 1].0.drop_last() } else { ts[n - 1].0 }, ts[n - 1].1),
                ));
                nothing
            },
            Key::Enter => {
                self.options.mode = Mode::Normal;
                if last.task.as_str().is_empty() {
                    let m = self.todo.tasks.len();
                    self.options.cur = if m > 0 {
                        Some(m - 1)
                    } else {
                        None
                    };
                    nothing
                } else {
                    last.status.set(Status::Pending);
                    let record = self.todo.add(&last);
                    self.todo.tasks.push(last);
                    assert(self.model() =~= ts.update(n - 1, (ts[n - 1].0, Status::Pending)));
                    Step { persist: Persist::Append(record), clear: false }
                }
            },
            Key::Esc => {
                self.options.mode = Mode::Normal;
                let m = self.todo.tasks.len();
                self.options.cur = if m > 0 {
                    Some(m - 1)
                } else {
                    None
                };
                Step { persist: Persist::Nothing, clear: true }
            },
            _ => {
                self.todo.tasks.push(last);
                assert(self.model() =~= ts);
                nothing
            },
        }
    }
}

} // verus!
