//! A task-list manager for the terminal: an immediate-mode layout engine,
//! the session state it draws, and the text format the lists are kept in.

mod curses;
pub mod extent;
pub mod frame;
pub mod layout;
pub mod lists;
pub mod round_trip;
pub mod session;
pub mod state_file;
pub mod status;
pub mod text;
pub mod ui;
