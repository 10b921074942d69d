//! Which pane is focused, and which is selected.

use vstd::prelude::*;

use crate::group;
use crate::state::AppState;
use crate::text;
use crate::text::{owned, same};
use crate::tmux::types::PaneInfo;

verus! {

/// The part of the sidebar that takes keys.
#[derive(Debug, Clone, Copy, PartialEq, Eq, Structural)]
pub enum Focus {
    Filter,
    Panes,
    ActivityLog,
}

impl Default for Focus {
    fn default() -> (focus: Self)
        ensures
            focus == Focus::Panes,
    {
        Focus::Panes
    }
}

#[derive(Debug)]
pub struct FocusState {
    pub sidebar_focused: bool,
    pub focus: Focus,
    pub focused_pane_id: Option<String>,
    pub prev_focused_pane_id: Option<String>,
}

impl FocusState {
    /// Whether no pane has been focused yet.
    pub open spec fn fresh(&self) -> bool {
        &&& !self.sidebar_focused
        &&& self.focus == Focus::Panes
        &&& self.focused_pane_id is None
        &&& self.prev_focused_pane_id is None
    }

    pub fn new() -> (state: Self)
        ensures
            state.fresh(),
    {
        FocusState {
            sidebar_focused: false,
            focus: Focus::Panes,
            focused_pane_id: None,
            prev_focused_pane_id: None,
        }
    }
}

impl Default for FocusState {
    fn default() -> (state: Self)
        ensures
            state.fresh(),
    {
        FocusState::new()
    }
}

/// Whether `pane` is the first pane with an id.
pub open spec fn first_pane(panes: Seq<PaneInfo>, id: Seq<char>, pane: Option<PaneInfo>) -> bool {
    match pane {
        Some(found) => exists|k: int|
            0 <= k < panes.len() && #[trigger] panes[k] == found && found.pane_id@ == id
                && forall|j: int| 0 <= j < k ==> (#[trigger] panes[j]).pane_id@ != id,
        None => forall|j: int| 0 <= j < panes.len() ==> (#[trigger] panes[j]).pane_id@ != id,
    }
}

/// The pane behind a reference.
pub open spec fn pane_ref(pane: Option<&PaneInfo>) -> Option<PaneInfo> {
    match pane {
        Some(found) => Some(*found),
        None => None,
    }
}

impl AppState {
    pub fn pane_by_id(&self, pane_id: &str) -> (pane: Option<&PaneInfo>)
        ensures
            first_pane(group::grouped_panes(self.repo_groups@), pane_id@, pane_ref(pane)),
    {
        let panes = group::group_panes(&self.repo_groups);
        let ghost all = group::grouped_panes(self.repo_groups@);
        let mut i: usize = 0;
        while i < panes.len()
            invariant
                i <= panes@.len() == all.len(),
                all == group::grouped_panes(self.repo_groups@),
                forall|k: int| 0 <= k < panes@.len() ==> *(#[trigger] panes@[k]) == all[k],
                forall|k: int| 0 <= k < i ==> (#[trigger] all[k]).pane_id@ != pane_id@,
            decreases panes@.len() - i,
        {
            let pane = panes[i];
            if same(pane.pane_id.as_str(), pane_id) {
                proof {
                    assert(all[i as int] == *pane);
                }
                return Some(pane);
            }
            i = i + 1;
        }
        None
    }

    /// The pane in the selected row.
    pub fn selected_pane(&self) -> (pane: Option<&PaneInfo>)
        ensures
            ({
                let rows = self.layout.pane_row_targets@;
                let row = self.global.selected_pane_row;
                if row < rows.len() {
                    first_pane(
                        group::grouped_panes(self.repo_groups@),
                        rows[row as int].pane_id@,
                        pane_ref(pane),
                    )
                } else {
                    pane is None
                }
            }),
    {
        if self.global.selected_pane_row < self.layout.pane_row_targets.len() {
            let target = &self.layout.pane_row_targets[self.global.selected_pane_row];
            self.pane_by_id(target.pane_id.as_str())
        } else {
            None
        }
    }

    /// Records the active pane that tmux names. While the sidebar has focus tmux
    /// names none, and the pane focused before stays, so that the bottom panel
    /// stays stable.
    pub fn find_focused_pane(&mut self, active: Option<String>)
        ensures
            *final(self) == (AppState {
                focus_state: (FocusState {
                    focused_pane_id: if active is Some {
                        active
                    } else {
                        old(self).focus_state.focused_pane_id
                    },
                    ..old(self).focus_state
                }),
                ..*old(self)
            }),
    {
        if let Some(id) = active {
            self.focus_state.focused_pane_id = Some(id);
        }
    }

    /// The row `delta` rows from the selected one, where there is one.
    pub open spec fn row_at(&self, delta: int) -> Option<int> {
        let next = self.global.selected_pane_row + delta;
        if 0 <= next < self.layout.pane_row_targets@.len() {
            Some(next)
        } else {
            None
        }
    }

    /// Move agent selection. Returns true if moved, false if at boundary.
    pub fn move_pane_selection(&mut self, delta: isize) -> (moved: bool)
        ensures
            moved == (old(self).row_at(delta as int) is Some),
            match old(self).row_at(delta as int) {
                Some(row) => {
                    &&& final(self).global == (crate::state::GlobalState {
                        selected_pane_row: row as usize,
                        ..old(self).global
                    })
                    &&& final(self).extensions.ui.selected is None
                    &&& final(self).selected_subagent_target is None
                    &&& final(self).pane_selection_reveal_pending
                    &&& *final(self) == (AppState {
                        global: final(self).global,
                        extensions: crate::state::extensions::ExtensionsState {
                            ui: crate::state::extensions::CapabilityUiState {
                                selected: None,
                                ..old(self).extensions.ui
                            },
                            ..old(self).extensions
                        },
                        selected_subagent_target: None,
                        pane_selection_reveal_pending: true,
                        ..*old(self)
                    })
                },
                None => *final(self) == *old(self),
            },
    {
        let len: usize = self.layout.pane_row_targets.len();
        if len == 0 {
            return false;
        }
        let next: i128 = self.global.selected_pane_row as i128 + delta as i128;
        if next >= 0 && next < len as i128 {
            self.global.selected_pane_row = next as usize;
            self.extensions.ui.selected = None;
            self.selected_subagent_target = None;
            self.pane_selection_reveal_pending = true;
            true
        } else {
            false
        }
    }

    /// Makes the selected pane the focused one, and says which pane tmux is to
    /// select. The sidebar shows it at once, without waiting for the next
    /// periodic tmux refresh.
    pub fn activate_selected_pane(&mut self) -> (target: Option<String>)
        ensures
            ({
                let rows = old(self).layout.pane_row_targets@;
                let row = old(self).global.selected_pane_row;
                if row < rows.len() {
                    &&& text::opt(target) == Some(rows[row as int].pane_id@)
                    &&& text::opt(final(self).focus_state.focused_pane_id) == Some(
                        rows[row as int].pane_id@,
                    )
                    &&& *final(self) == (AppState {
                        focus_state: FocusState {
                            focused_pane_id: final(self).focus_state.focused_pane_id,
                            ..old(self).focus_state
                        },
                        ..*old(self)
                    })
                } else {
                    target is None && *final(self) == *old(self)
                }
            }),
    {
        if self.global.selected_pane_row < self.layout.pane_row_targets.len() {
            let id = self.layout.pane_row_targets[self.global.selected_pane_row].pane_id.clone();
            self.focus_state.focused_pane_id = Some(id.clone());
            Some(id)
        } else {
            None
        }
    }
}

/// The arguments that summon a sidebar in the window a jump led to, where tmux
/// knows the window. Without a path the home directory is taken.
pub fn follow_arguments(window_id: &str, pane_path: &str) -> (arguments: Option<Vec<String>>)
    ensures
        match arguments {
            Some(list) => window_id@.len() > 0 && text::texts(list@) == seq![
                "--create-only"@,
                window_id@,
                if pane_path@.len() == 0 {
                    "~"@
                } else {
                    pane_path@
                },
            ],
            None => window_id@.len() == 0,
        },
{
    if window_id.is_empty() {
        return None;
    }
    let mut list: Vec<String> = Vec::new();
    list.push(owned("--create-only"));
    list.push(owned(window_id));
    if pane_path.is_empty() {
        list.push(owned("~"));
    } else {
        list.push(owned(pane_path));
    }
    proof {
        assert(text::texts(list@) =~= seq![
            "--create-only"@,
            window_id@,
            if pane_path@.len() == 0 {
                "~"@
            } else {
                pane_path@
            },
        ]);
    }
    Some(list)
}

/// The pane that is looked for is found where there is one of its id, and it is the only one
/// where each has an id of its own.
pub proof fn panes_are_found_by_their_id(
    panes: Seq<PaneInfo>,
    k: int,
    found: Option<PaneInfo>,
)
    requires
        0 <= k < panes.len(),
        forall|i: int, j: int|
            0 <= i < j < panes.len() ==> (#[trigger] panes[i]).pane_id@ != (
            #[trigger] panes[j]).pane_id@,
        first_pane(panes, panes[k].pane_id@, found),
    ensures
        found == Some(panes[k]),
{
    if found is None {
        assert(panes[k].pane_id@ != panes[k].pane_id@);
    } else {
        let at = choose|at: int|
            0 <= at < panes.len() && #[trigger] panes[at] == found->0 && found->0.pane_id@
                == panes[k].pane_id@ && forall|j: int|
                0 <= j < at ==> (#[trigger] panes[j]).pane_id@ != panes[k].pane_id@;
        if at < k {
            assert(panes[at].pane_id@ != panes[k].pane_id@);
        } else if k < at {
            assert(panes[k].pane_id@ != panes[at].pane_id@);
        }
    }
}

} // verus!
