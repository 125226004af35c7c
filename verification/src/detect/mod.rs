//! Detection of the local services that can be shared.
pub mod classify;
pub mod laws;
pub mod listeners;
pub mod rank;
pub mod table;
