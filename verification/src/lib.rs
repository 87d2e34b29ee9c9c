//! Verified core of a terminal process monitor: the application state, the
//! process table and its search, the scroll selection, the line editor and
//! the command language typed at its prompt.

pub mod app_core;
pub mod text;
pub mod number;
pub mod editor;
pub mod system;
pub mod scroll;
pub mod app;
pub mod command;
