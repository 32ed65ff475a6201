//! The task store: the tasks in memory, in file order, and the column
//! width used to draw them. Its operations return the bytes that keep the
//! backing file in step with memory.
use vstd::prelude::*;
use vstd::utf8::encode_utf8;

use crate::codec::{
    decode_tasks, encode_all, encode_task, encode_tasks, encoded, file_ok, file_tasks,
    has_newline, lemma_file_round_trip, trim_of,
};
use crate::task::{models, Task, TaskModel, TodoError};

verus! {

/// The least width of the task column.
pub const MIN_WIDTH: usize = 5;

/// The length of a task's text in bytes.
pub open spec fn text_len(t: TaskModel) -> nat {
    encode_utf8(t.0).len()
}

/// The greatest text length among some tasks; 0 for none.
pub open spec fn max_text_len(ts: Seq<TaskModel>) -> nat
    decreases ts.len(),
{
    if ts.len() == 0 {
        0
    } else {
        let m = max_text_len(ts.drop_last());
        let l = text_len(ts.last());
        if l > m {
            l
        } else {
            m
        }
    }
}

/// The width of the task column for some tasks: the greatest text length,
/// and at least `MIN_WIDTH`.
pub open spec fn width_for(ts: Seq<TaskModel>) -> nat {
    if max_text_len(ts) <= MIN_WIDTH {
        MIN_WIDTH as nat
    } else {
        max_text_len(ts)
    }
}

/// The tasks of the list and the cached width of the task column.
pub struct Todo {
    pub tasks: Vec<Task>,
    pub tasks_cell_width: usize,
}

impl Todo {
    /// The tasks, as models.
    pub open spec fn model(&self) -> Seq<TaskModel> {
        models(self.tasks@)
    }

    /// Recomputes the cached width from the current tasks.
    pub fn refresh(&mut self)
        ensures
            final(self).tasks@ == old(self).tasks@,
            final(self).tasks_cell_width == width_for(old(self).model()),
    {
        let n = self.tasks.len();
        let mut w: usize = 0;
        let mut i: usize = 0;
        while i < n
            invariant
                n == self.tasks@.len(),
                i <= n,
                w == max_text_len(self.model().subrange(0, i as int)),
            decreases n - i,
        {
            let l = self.tasks[i].task.as_str().as_bytes().len();
            proof {
                let ms = self.model();
                assert(ms.subrange(0, i + 1).drop_last() == ms.subrange(0, i as int));
                assert(ms.subrange(0, i + 1).last() == ms[i as int]);
                assert(ms[i as int] == self.tasks@[i as int]@);
                assert(l == text_len(ms[i as int]));
            }
            if l > w {
                w = l;
            }
            i = i + 1;
        }
        assert(self.model().subrange(0, n as int) == self.model());
        self.tasks_cell_width = if w <= MIN_WIDTH {
            MIN_WIDTH
        } else {
            w
        };
    }

    /// Loads the tasks from the backing file's content. Fails with
    /// `DecodeError` exactly when some task's text is not valid UTF-8.
    pub fn init(content: &[u8]) -> (r: Result<Self, TodoError>)
        ensures
            r.is_ok() <==> file_ok(content@),
            r.is_ok() ==> r.unwrap().model() == file_tasks(content@) && r.unwrap().tasks_cell_width
                == width_for(file_tasks(content@)),
            r.is_err() ==> r == Err::<Self, TodoError>(TodoError::DecodeError),
    {
        match decode_tasks(content) {
            Ok(tasks) => {
                let mut todo = Todo { tasks, tasks_cell_width: 0 };
                todo.refresh();
                Ok(todo)
            },
            Err(e) => Err(e),
        }
    }

    /// The bytes to append to the backing file for a new task: its status
    /// digit, its trimmed text and a newline. The list in memory is left
    /// to the caller. A task whose text holds no newline reads back from
    /// these bytes with its status and trimmed text.
    pub fn add(&self, task: &Task) -> (r: Vec<u8>)
        ensures
            r@ == encoded(task@),
            !has_newline(task.task@) ==> file_ok(r@) && file_tasks(r@) == seq![
                (trim_of(task.task@), task.status),
            ],
    {
        encode_task(task)
    }

    /// The whole content of the backing file for the current tasks.
    pub fn content(&self) -> (r: Vec<u8>)
        ensures
            r@ == encode_all(self.model()),
    {
        encode_tasks(&self.tasks)
    }

    /// Removes the task at `taskid` and returns the new content of the
    /// backing file. Fails with `IndexError`, changing nothing, when no
    /// task has that index. The cached width is left as it was.
    pub fn remove(&mut self, taskid: usize) -> (r: Result<Vec<u8>, TodoError>)
        ensures
            r.is_ok() <==> taskid < old(self).tasks@.len(),
            r.is_ok() ==> final(self).tasks@ == old(self).tasks@.remove(taskid as int)
                && final(self).model() == old(self).model().remove(taskid as int)
                && r.unwrap()@ == encode_all(final(self).model()),
            r.is_err() ==> r == Err::<Vec<u8>, TodoError>(TodoError::IndexError)
                && final(self).tasks@ == old(self).tasks@,
            final(self).tasks_cell_width == old(self).tasks_cell_width,
    {
        if taskid >= self.tasks.len() {
            return Err(TodoError::IndexError);
        }
        self.tasks.remove(taskid);
        assert(self.model() =~= old(self).model().remove(taskid as int));
        Ok(self.content())
    }
}

proof fn lemma_max_text_len(ts: Seq<TaskModel>)
    ensures
        forall|k: int| 0 <= k < ts.len() ==> text_len(#[trigger] ts[k]) <= max_text_len(ts),
        ts.len() > 0 ==> exists|k: int|
            0 <= k < ts.len() && text_len(#[trigger] ts[k]) == max_text_len(ts),
    decreases ts.len(),
{
    if ts.len() > 0 {
        let init = ts.drop_last();
        lemma_max_text_len(init);
        assert(forall|k: int| 0 <= k < init.len() ==> #[trigger] init[k] == ts[k]);
        assert forall|k: int| 0 <= k < ts.len() implies text_len(#[trigger] ts[k]) <= max_text_len(
            ts,
        ) by {
            if k < init.len() {
                assert(text_len(init[k]) <= max_text_len(init));
            }
        }
        if max_text_len(ts) != text_len(ts.last()) {
            let k = choose|k: int| 0 <= k < init.len() && text_len(#[trigger] init[k]) == max_text_len(init);
            assert(text_len(ts[k]) == max_text_len(ts));
        }
    }
}

/// The width of the task column is `MIN_WIDTH` for no task; otherwise it
/// is the greatest of `MIN_WIDTH` and the tasks' text lengths.
pub proof fn lemma_width_is_max(ts: Seq<TaskModel>)
    ensures
        ts.len() == 0 ==> width_for(ts) == MIN_WIDTH,
        width_for(ts) >= MIN_WIDTH,
        forall|k: int| 0 <= k < ts.len() ==> text_len(#[trigger] ts[k]) <= width_for(ts),
        width_for(ts) == MIN_WIDTH || exists|k: int|
            0 <= k < ts.len() && text_len(#[trigger] ts[k]) == width_for(ts),
{
    lemma_max_text_len(ts);
}

/// Removing the task at a valid index drops that task alone and keeps the
/// others in order; where every text is free of newlines and of leading
/// and trailing whitespace, the content written for what remains reads
/// back as exactly what remains.
pub proof fn lemma_remove_then_reload(ts: Seq<TaskModel>, i: int)
    requires
        0 <= i < ts.len(),
        forall|k: int|
            0 <= k < ts.len() ==> !has_newline(#[trigger] ts[k].0) && trim_of(ts[k].0) == ts[k].0,
    ensures
        ts.remove(i).len() == ts.len() - 1,
        forall|k: int| 0 <= k < i ==> #[trigger] ts.remove(i)[k] == ts[k],
        forall|k: int| i <= k < ts.len() - 1 ==> #[trigger] ts.remove(i)[k] == ts[k + 1],
        file_ok(encode_all(ts.remove(i))),
        file_tasks(encode_all(ts.remove(i))) == ts.remove(i),
{
    let rest = ts.remove(i);
    assert forall|k: int| 0 <= k < rest.len() implies !has_newline(#[trigger] rest[k].0)
        && trim_of(rest[k].0) == rest[k].0 by {
        if k < i {
            assert(rest[k] == ts[k]);
        } else {
            assert(rest[k] == ts[k + 1]);
        }
    }
    lemma_file_round_trip(rest);
}

} // verus!
