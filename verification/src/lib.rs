//! Verified core of a session picker that resumes earlier Codex sessions.
pub mod text;
pub mod data;
pub mod query;
pub mod cli;
pub mod config;
pub mod session_index;
pub mod picker;
pub mod ui;
