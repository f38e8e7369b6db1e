//! The Herdr command line: its arguments, its models and the client trait.
pub mod client;
pub mod commands;
pub mod models;
