//! An always-on, local timeline of a Git worktree.
pub mod capture;
pub mod cli;
pub mod commit;
pub mod config;
pub mod discovery;
pub mod git_store;
pub mod history;
pub mod json;
pub mod laws;
pub mod native;
pub mod numbers;
pub mod opening;
pub mod ordered;
pub mod outside;
pub mod path_set;
pub mod paths;
pub mod platform;
pub mod procedure;
pub mod reconcile;
pub mod registering;
pub mod search;
pub mod select;
pub mod text;
pub mod watchman;
