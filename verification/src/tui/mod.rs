//! The terminal interface, up to the terminal itself.
pub mod style;
pub mod wrap;
pub mod help;
pub mod list;
pub mod editor;
pub mod keys;
pub mod driver;
pub mod app;
pub mod actions;
pub mod refresh;
pub mod modal;
pub mod moves;
pub mod overlay;
pub mod lines;
pub mod dispatch;
pub mod laws;
