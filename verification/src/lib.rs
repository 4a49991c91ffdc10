//! A keyboard-driven todo manager with groups, subtasks, notes, priorities,
//! fuzzy search, undo and a pomodoro focus timer.
pub mod text;
pub mod model;
pub mod app;
pub mod rows;
pub mod edit;
pub mod focus;
pub mod input;
pub mod nav;
pub mod search;
pub mod ui;
pub mod laws;
