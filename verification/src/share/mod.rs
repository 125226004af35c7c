//! Shares: what is shared, how it is protected, how it is run and what is remembered of it.
pub mod fields;
pub mod laws;
pub mod protection;
pub mod protection_laws;
pub mod state;
pub mod state_laws;
pub mod status;
pub mod target;
pub mod target_laws;
pub mod worker;
