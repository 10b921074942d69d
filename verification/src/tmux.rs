//! What tmux knows of panes, and what the sidebar asks of tmux.

pub mod codex;
pub mod commands;
pub mod hierarchy;
pub mod options;
pub mod query;
pub mod types;
