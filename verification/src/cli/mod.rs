//! The command line: what it asks for, and what is answered on it.
pub mod args;
pub mod choice;
pub mod laws;
pub mod report;
pub mod report_laws;
