//! The decision logic of a tmux sidebar that watches coding agents.

#[allow(unused_imports)]
use vstd::prelude::*;

pub mod activity;
pub mod assoc;
pub mod bytes;
pub mod chain;
pub mod cli;
pub mod cut;
pub mod desktop_notification;
pub mod diff_viewer;
pub mod extension;
pub mod geometry;
pub mod git;
pub mod group;
pub mod json;
pub mod number;
pub mod order;
pub mod paths;
pub mod port;
pub mod process;
pub mod scan;
pub mod state;
pub mod text;
pub mod textmap;
pub mod tmux;
pub mod ui;
pub mod workers;

verus! {

} // verus!
