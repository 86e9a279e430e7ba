//! Querying the ports tree: reading what make prints and following the
//! dependencies it names.
pub mod laws;
pub mod makerunner;
pub mod parse;
pub mod refresher;
pub mod scanner;
pub mod wrapper;
