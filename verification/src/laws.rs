//! What holds of the library as a whole, for every reply that can come.
pub mod capture;
pub mod commands;
pub mod config;
pub mod discovery;
pub mod failing;
pub mod finding;
pub mod formats;
pub mod history;
pub mod paths;
pub mod recording;
pub mod replay;
pub mod search;
pub mod store;
pub mod succeeding;
pub mod watching;
pub mod worktree;
