//! The panel below the list of agents.

pub mod git;
