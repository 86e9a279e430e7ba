//! What is known about a port: its identity, its options, its dependencies.
pub mod options;
pub mod origin;
pub mod port;
