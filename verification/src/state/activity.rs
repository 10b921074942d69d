//! The activity log that is shown, and messages that go away.

use vstd::prelude::*;

use crate::activity::ActivityEntry;
use crate::git::{GitData, VcsEntry};
use crate::state::{AppState, ScrollState};
use crate::text;

verus! {

/// How long a message is shown, in milliseconds.
pub const FLASH_MS: u64 = 4000;

/// How many entries of the log are read at most.
pub const MAX_ENTRIES: usize = 50;

#[derive(Debug)]
pub struct ActivityState {
    pub entries: Vec<ActivityEntry>,
    pub scroll: ScrollState,
    pub max_entries: usize,
    /// `(focused_pane_id, mtime)` of the activity log most recently rendered
    /// into `entries`. The log is read again only when one of them changes.
    pub log_cache: Option<(String, u64)>,
}

impl ActivityState {
    /// Whether no log has been read yet.
    pub open spec fn fresh(&self) -> bool {
        &&& self.entries@.len() == 0
        &&& self.scroll == (ScrollState { offset: 0, total_lines: 0, visible_height: 0 })
        &&& self.max_entries == MAX_ENTRIES
        &&& self.log_cache is None
    }

    pub fn new() -> (state: Self)
        ensures
            state.fresh(),
    {
        ActivityState {
            entries: Vec::new(),
            scroll: ScrollState::default(),
            max_entries: MAX_ENTRIES,
            log_cache: None,
        }
    }
}

impl Default for ActivityState {
    fn default() -> (state: Self)
        ensures
            state.fresh(),
    {
        ActivityState::new()
    }
}

impl AppState {
    /// Shows a message for a while.
    pub fn set_flash(&mut self, msg: String, now_ms: u64)
        requires
            now_ms + FLASH_MS <= u64::MAX,
        ensures
            *final(self) == (AppState {
                flash: Some((msg, (now_ms + FLASH_MS) as u64)),
                ..*old(self)
            }),
    {
        self.flash = Some((msg, now_ms + FLASH_MS));
    }

    /// Return the current flash text if still valid, clearing it once the
    /// deadline passes. Called by the UI once per frame.
    pub fn take_flash(&mut self, now_ms: u64) -> (shown: Option<String>)
        ensures
            match old(self).flash {
                Some((msg, until)) => if now_ms < until {
                    shown == Some(msg) && *final(self) == *old(self)
                } else {
                    shown is None && *final(self) == (AppState { flash: None, ..*old(self) })
                },
                None => shown is None && *final(self) == *old(self),
            },
    {
        let shown: Option<String> = match &self.flash {
            Some((msg, until)) => if now_ms < *until {
                Some(msg.clone())
            } else {
                None
            },
            None => None,
        };
        if shown.is_none() && self.flash.is_some() {
            self.flash = None;
        }
        shown
    }

    pub fn apply_git_data(&mut self, data: GitData)
        ensures
            *final(self) == (AppState { git: data, ..*old(self) }),
    {
        self.git = data;
    }

    pub fn apply_vcs_entries(&mut self, entries: Vec<VcsEntry>)
        ensures
            *final(self) == (AppState { vcs_entries: entries, ..*old(self) }),
    {
        self.vcs_entries = entries;
    }
}

} // verus!
