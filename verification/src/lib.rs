//! Numbers Herdr tab titles by their position inside their workspace.
pub mod config;
pub mod debounce;
pub mod events;
pub mod formatter;
pub mod herdr;
pub mod refresh_lock;
pub mod rename;
pub mod system;
pub mod text;
