//! The editing session: scanned ports plus staged option state.
pub mod base;
pub mod edit;
pub mod implies;
pub mod laws;
pub mod layers;
pub mod reach;
pub mod status;
pub mod why;
