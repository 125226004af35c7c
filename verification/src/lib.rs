//! Decision logic of a tool that shares local web services through a guarded tunnel.
pub mod cli;
pub mod config;
pub mod deps;
pub mod detect;
pub mod install;
pub mod order;
pub mod paths;
pub mod proxy;
pub mod routes;
pub mod share;
pub mod text;
