//! The guard proxy: what it reads of a request, whom it lets in and what it relays back.
pub mod access;
pub mod answer_laws;
pub mod bytes;
pub mod forward_laws;
pub mod guard;
pub mod guard_laws;
pub mod laws;
pub mod relay;
pub mod relay_laws;
pub mod request;
pub mod response;
pub mod tokens;
