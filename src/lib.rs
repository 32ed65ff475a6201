//! A personal task list kept in a flat file: the task model, the line
//! format of the backing file, the in-memory store, the table renderer and
//! the keyboard-driven controller of the interactive view.
pub mod status;
pub mod task;
pub mod codec;
pub mod todo;
pub mod render;
pub mod controller;
