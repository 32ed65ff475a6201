//! Tasks, the options of a table drawing, and the errors of the store.
use vstd::prelude::*;

use crate::status::Status;

verus! {

/// Whether the interactive view is navigating or typing a new task.
#[derive(Clone, Copy, Debug, PartialEq, Eq, Structural)]
pub enum Mode {
    Normal,
    Insert,
}

/// One entry of the list: its text and its state.
#[derive(Debug)]
pub struct Task {
    pub task: String,
    pub status: Status,
}

/// What a task is: its text as characters, and its status.
pub type TaskModel = (Seq<char>, Status);

impl View for Task {
    type V = TaskModel;

    open spec fn view(&self) -> TaskModel {
        (self.task@, self.status)
    }
}

/// The models of a sequence of tasks, position for position.
pub open spec fn models(ts: Seq<Task>) -> Seq<TaskModel> {
    ts.map_values(|t: Task| t@)
}

/// How a table is drawn: which row is selected, and in which mode.
#[derive(Clone, Copy, Debug)]
pub struct ListOptions {
    pub mode: Mode,
    pub cur: Option<usize>,
}

/// Why an operation of the store or of the renderer failed.
#[derive(Clone, Copy, Debug, PartialEq, Eq, Structural)]
pub enum TodoError {
    /// A stored task's text is not valid UTF-8.
    DecodeError,
    /// No task has the given index.
    IndexError,
    /// There is no task to draw.
    EmptyError,
}

impl TodoError {
    /// A message for the user.
    pub fn message(&self) -> (r: &'static str)
        ensures
            r@.len() > 0,
    {
        proof {
            reveal_strlit("Error while reading tasks!");
            reveal_strlit("No task with the provided ID");
            reveal_strlit("No Tasks!");
        }
        match self {
            TodoError::DecodeError => "Error while reading tasks!",
            TodoError::IndexError => "No task with the provided ID",
            TodoError::EmptyError => "No Tasks!",
        }
    }
}

} // verus!
