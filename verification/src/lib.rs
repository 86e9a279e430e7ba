//! Options configurator for ports trees.
pub mod apply;
pub mod cache;
pub mod clean;
pub mod cli;
pub mod config;
pub mod draft;
pub mod glob;
pub mod graph;
pub mod list;
pub mod minimal;
pub mod model;
pub mod moved;
pub mod named;
pub mod optionsfile;
pub mod order;
pub mod path;
pub mod query;
pub mod report;
pub mod session;
pub mod sorted;
pub mod staging;
pub mod sync;
pub mod text;
pub mod tui;
pub mod world;
