//! What is known of panes while they run.

use vstd::prelude::*;

use crate::activity::{TaskProgress, TaskStatus};
use crate::group;
use crate::group::RepoGroup;
use crate::state::{AppState, BottomTab};
use crate::text;
use crate::text::{borrowed, owned};
use crate::textmap::{TextMap, TextSet};

verus! {

/// Per-pane runtime state that should vanish together with the pane.
#[derive(Debug)]
pub struct PaneRuntimeState {
    pub ports: Vec<u16>,
    pub command: Option<String>,
    pub task_progress: Option<TaskProgress>,
    pub task_dismissed_total: Option<usize>,
    pub inactive_since: Option<u64>,
    /// Last bottom tab the user selected while this pane was focused.
    /// `None` until the user changes tabs at least once.
    pub tab_pref: Option<BottomTab>,
    /// Last observed modification time of this pane's activity log, by which
    /// an unchanged log need not be read again.
    pub task_progress_log_mtime: Option<u64>,
    /// File length complements mtime on filesystems with coarse timestamp
    /// resolution, so an appended task is never hidden by a stale cache.
    pub task_progress_log_len: Option<u64>,
    /// How often in a row the agent process was not found.
    pub process_liveness_misses: u8,
}

impl PaneRuntimeState {
    /// Whether nothing is known.
    pub open spec fn blank(&self) -> bool {
        &&& self.ports@.len() == 0
        &&& self.command is None
        &&& self.task_progress is None
        &&& self.task_dismissed_total is None
        &&& self.inactive_since is None
        &&& self.tab_pref is None
        &&& self.task_progress_log_mtime is None
        &&& self.task_progress_log_len is None
        &&& self.process_liveness_misses == 0
    }
}

impl Default for PaneRuntimeState {
    fn default() -> (state: Self)
        ensures
            state.blank(),
    {
        PaneRuntimeState {
            ports: Vec::new(),
            command: None,
            task_progress: None,
            task_dismissed_total: None,
            inactive_since: None,
            tab_pref: None,
            task_progress_log_mtime: None,
            task_progress_log_len: None,
            process_liveness_misses: 0,
        }
    }
}

/// The model of what is known of a pane.
pub struct RuntimeModel {
    pub ports: Seq<u16>,
    pub command: Option<Seq<char>>,
    pub task_progress: Option<Seq<(Seq<char>, TaskStatus)>>,
    pub task_dismissed_total: Option<usize>,
    pub inactive_since: Option<u64>,
    pub tab_pref: Option<BottomTab>,
    pub task_progress_log_mtime: Option<u64>,
    pub task_progress_log_len: Option<u64>,
    pub process_liveness_misses: u8,
}

/// The model of tasks that may be missing.
pub open spec fn progress_model(progress: Option<TaskProgress>) -> Option<
    Seq<(Seq<char>, TaskStatus)>,
> {
    match progress {
        Some(tasks) => Some(tasks@),
        None => None,
    }
}

impl View for PaneRuntimeState {
    type V = RuntimeModel;

    open spec fn view(&self) -> RuntimeModel {
        RuntimeModel {
            ports: self.ports@,
            command: text::opt(self.command),
            task_progress: progress_model(self.task_progress),
            task_dismissed_total: self.task_dismissed_total,
            inactive_since: self.inactive_since,
            tab_pref: self.tab_pref,
            task_progress_log_mtime: self.task_progress_log_mtime,
            task_progress_log_len: self.task_progress_log_len,
            process_liveness_misses: self.process_liveness_misses,
        }
    }
}

/// The model of a pane of which nothing is known.
pub open spec fn nothing_known() -> RuntimeModel {
    RuntimeModel {
        ports: Seq::<u16>::empty(),
        command: None,
        task_progress: None,
        task_dismissed_total: None,
        inactive_since: None,
        tab_pref: None,
        task_progress_log_mtime: None,
        task_progress_log_len: None,
        process_liveness_misses: 0,
    }
}

/// A blank state is one of which nothing is known.
pub proof fn blank_is_nothing_known(state: PaneRuntimeState)
    ensures
        state.blank() <==> state@ == nothing_known(),
{
    assert(state.ports@.len() == 0 <==> state.ports@ =~= Seq::<u16>::empty());
}

/// What is known of a pane, by the models of the panes.
pub open spec fn known_of(models: Map<Seq<char>, RuntimeModel>, id: Seq<char>) -> RuntimeModel {
    if models.contains_key(id) {
        models[id]
    } else {
        nothing_known()
    }
}

pub struct PaneRuntimeMap {
    pub map: TextMap<PaneRuntimeState>,
    /// Agent pane IDs that have already been seen.
    pub seen: TextSet,
}

impl View for PaneRuntimeMap {
    type V = Map<Seq<char>, PaneRuntimeState>;

    open spec fn view(&self) -> Map<Seq<char>, PaneRuntimeState> {
        self.map@
    }
}

impl PaneRuntimeMap {
    /// The models of what is known.
    pub open spec fn models(&self) -> Map<Seq<char>, RuntimeModel> {
        self@.map_values(|state: PaneRuntimeState| state@)
    }

    pub fn new() -> (map: Self)
        ensures
            map@ == Map::<Seq<char>, PaneRuntimeState>::empty(),
            map.seen@ == Set::<Seq<char>>::empty(),
    {
        PaneRuntimeMap { map: TextMap::new(), seen: TextSet::new() }
    }

    pub fn get(&self, pane_id: &str) -> (state: Option<&PaneRuntimeState>)
        ensures
            match state {
                Some(found) => self@.contains_key(pane_id@) && *found == self@[pane_id@],
                None => !self@.contains_key(pane_id@),
            },
    {
        self.map.get(pane_id)
    }

    pub fn get_mut(&mut self, pane_id: &str) -> (state: Option<&mut PaneRuntimeState>)
        ensures
            match state {
                Some(found) => {
                    &&& old(self)@.contains_key(pane_id@)
                    &&& *found == old(self)@[pane_id@]
                    &&& final(self)@ == old(self)@.insert(pane_id@, *final(found))
                    &&& final(self).seen == old(self).seen
                },
                None => !old(self)@.contains_key(pane_id@) && *final(self) == *old(self),
            },
    {
        self.map.get_mut(pane_id)
    }

    /// The state of a pane, which is blank where nothing was known of it.
    pub fn entry_mut(&mut self, pane_id: &str) -> (state: &mut PaneRuntimeState)
        ensures
            old(self)@.contains_key(pane_id@) ==> *state == old(self)@[pane_id@],
            !old(self)@.contains_key(pane_id@) ==> state.blank(),
            final(self)@ == old(self)@.insert(pane_id@, *final(state)),
            final(self).seen == old(self).seen,
    {
        let ghost before = self@;
        if !self.map.contains_key(pane_id) {
            self.map.insert(owned(pane_id), PaneRuntimeState::default());
        }
        proof {
            assert forall|value: PaneRuntimeState| #[trigger]
                self@.insert(pane_id@, value) == before.insert(pane_id@, value) by {
                assert(self@.insert(pane_id@, value) =~= before.insert(pane_id@, value));
            }
        }
        match self.map.get_mut(pane_id) {
            Some(state) => state,
            None => vstd::pervasive::unreached(),
        }
    }

    pub fn contains_key(&self, pane_id: &str) -> (yes: bool)
        ensures
            yes == self@.contains_key(pane_id@),
    {
        self.map.contains_key(pane_id)
    }

    pub fn remove(&mut self, pane_id: &str) -> (state: Option<PaneRuntimeState>)
        ensures
            final(self)@ == old(self)@.remove(pane_id@),
            final(self).seen == old(self).seen,
            match state {
                Some(found) => old(self)@.contains_key(pane_id@) && found == old(self)@[pane_id@],
                None => !old(self)@.contains_key(pane_id@),
            },
    {
        self.map.remove(pane_id)
    }
}

impl Default for PaneRuntimeMap {
    fn default() -> (map: Self)
        ensures
            map@ == Map::<Seq<char>, PaneRuntimeState>::empty(),
            map.seen@ == Set::<Seq<char>>::empty(),
    {
        PaneRuntimeMap::new()
    }
}

/// Whether `after` is `before` with another state of one pane.
pub open spec fn pane_updated(
    before: AppState,
    after: AppState,
    id: Seq<char>,
    state: PaneRuntimeState,
) -> bool {
    &&& after.pane_states@ == before.pane_states@.insert(id, state)
    &&& after.pane_states.seen == before.pane_states.seen
    &&& after == (AppState { pane_states: after.pane_states, ..before })
}

/// Whether `state` is what is known of a pane, which is blank where nothing is.
pub open spec fn state_of(before: AppState, id: Seq<char>, state: PaneRuntimeState) -> bool {
    if before.pane_states@.contains_key(id) {
        state == before.pane_states@[id]
    } else {
        state.blank()
    }
}

/// The ids of the panes in the groups.
pub open spec fn group_ids(groups: Seq<RepoGroup>) -> Set<Seq<char>> {
    Set::new(
        |id: Seq<char>|
            exists|k: int|
                0 <= k < group::grouped_panes(groups).len() && (#[trigger] group::grouped_panes(
                    groups,
                )[k]).pane_id@ == id,
    )
}

impl AppState {
    /// The state of a pane, which is blank where nothing was known of it.
    pub fn pane_state_mut(&mut self, pane_id: &str) -> (state: &mut PaneRuntimeState)
        ensures
            state_of(*old(self), pane_id@, *state),
            pane_updated(*old(self), *final(self), pane_id@, *final(state)),
    {
        self.pane_states.entry_mut(pane_id)
    }

    pub fn pane_state(&self, pane_id: &str) -> (state: Option<&PaneRuntimeState>)
        ensures
            match state {
                Some(found) => self.pane_states@.contains_key(pane_id@) && *found
                    == self.pane_states@[pane_id@],
                None => !self.pane_states@.contains_key(pane_id@),
            },
    {
        self.pane_states.get(pane_id)
    }

    pub fn set_pane_ports(&mut self, pane_id: &str, ports: Vec<u16>)
        ensures
            exists|state: PaneRuntimeState| #[trigger]
                state_of(*old(self), pane_id@, state) && pane_updated(
                    *old(self),
                    *final(self),
                    pane_id@,
                    (PaneRuntimeState { ports, ..state }),
                ),
    {
        let state = self.pane_state_mut(pane_id);
        let ghost before = *state;
        state.ports = ports;
        proof {
            assert(state_of(*old(self), pane_id@, before));
        }
    }

    pub fn pane_ports(&self, pane_id: &str) -> (ports: Option<&[u16]>)
        ensures
            match ports {
                Some(found) => self.pane_states@.contains_key(pane_id@) && found@
                    == self.pane_states@[pane_id@].ports@,
                None => !self.pane_states@.contains_key(pane_id@),
            },
    {
        match self.pane_state(pane_id) {
            Some(state) => Some(state.ports.as_slice()),
            None => None,
        }
    }

    pub fn set_pane_command(&mut self, pane_id: &str, command: Option<String>)
        ensures
            exists|state: PaneRuntimeState| #[trigger]
                state_of(*old(self), pane_id@, state) && pane_updated(
                    *old(self),
                    *final(self),
                    pane_id@,
                    (PaneRuntimeState { command, ..state }),
                ),
    {
        let state = self.pane_state_mut(pane_id);
        let ghost before = *state;
        state.command = command;
        proof {
            assert(state_of(*old(self), pane_id@, before));
        }
    }

    pub fn pane_command(&self, pane_id: &str) -> (command: Option<&str>)
        ensures
            text::opt_ref(command) == known_of(self.pane_states.models(), pane_id@).command,
    {
        match self.pane_state(pane_id) {
            Some(state) => borrowed(&state.command),
            None => None,
        }
    }

    pub fn set_pane_task_progress(&mut self, pane_id: &str, progress: Option<TaskProgress>)
        ensures
            exists|state: PaneRuntimeState| #[trigger]
                state_of(*old(self), pane_id@, state) && pane_updated(
                    *old(self),
                    *final(self),
                    pane_id@,
                    (PaneRuntimeState { task_progress: progress, ..state }),
                ),
    {
        let state = self.pane_state_mut(pane_id);
        let ghost before = *state;
        state.task_progress = progress;
        proof {
            assert(state_of(*old(self), pane_id@, before));
        }
    }

    pub fn pane_task_progress(&self, pane_id: &str) -> (progress: Option<&TaskProgress>)
        ensures
            match progress {
                Some(found) => self.pane_states@.contains_key(pane_id@)
                    && self.pane_states@[pane_id@].task_progress == Some(*found),
                None => known_of(self.pane_states.models(), pane_id@).task_progress is None,
            },
    {
        match self.pane_state(pane_id) {
            Some(state) => state.task_progress.as_ref(),
            None => None,
        }
    }

    pub fn set_pane_task_dismissed_total(&mut self, pane_id: &str, total: Option<usize>)
        ensures
            exists|state: PaneRuntimeState| #[trigger]
                state_of(*old(self), pane_id@, state) && pane_updated(
                    *old(self),
                    *final(self),
                    pane_id@,
                    (PaneRuntimeState { task_dismissed_total: total, ..state }),
                ),
    {
        let state = self.pane_state_mut(pane_id);
        let ghost before = *state;
        state.task_dismissed_total = total;
        proof {
            assert(state_of(*old(self), pane_id@, before));
        }
    }

    pub fn pane_task_dismissed_total(&self, pane_id: &str) -> (total: Option<usize>)
        ensures
            total == known_of(self.pane_states.models(), pane_id@).task_dismissed_total,
    {
        match self.pane_state(pane_id) {
            Some(state) => state.task_dismissed_total,
            None => None,
        }
    }

    pub fn set_pane_inactive_since(&mut self, pane_id: &str, since: Option<u64>)
        ensures
            exists|state: PaneRuntimeState| #[trigger]
                state_of(*old(self), pane_id@, state) && pane_updated(
                    *old(self),
                    *final(self),
                    pane_id@,
                    (PaneRuntimeState { inactive_since: since, ..state }),
                ),
    {
        let state = self.pane_state_mut(pane_id);
        let ghost before = *state;
        state.inactive_since = since;
        proof {
            assert(state_of(*old(self), pane_id@, before));
        }
    }

    pub fn pane_inactive_since(&self, pane_id: &str) -> (since: Option<u64>)
        ensures
            since == known_of(self.pane_states.models(), pane_id@).inactive_since,
    {
        match self.pane_state(pane_id) {
            Some(state) => state.inactive_since,
            None => None,
        }
    }

    /// Forgets a pane.
    pub fn clear_pane_state(&mut self, pane_id: &str)
        ensures
            final(self).pane_states@ == old(self).pane_states@.remove(pane_id@),
            final(self).pane_states.seen == old(self).pane_states.seen,
            *final(self) == (AppState { pane_states: final(self).pane_states, ..*old(self) }),
    {
        self.pane_states.remove(pane_id);
    }

    /// Forgets every pane that is gone, and no other.
    pub fn prune_pane_states_to_current_panes(&mut self)
        ensures
            final(self).pane_states@ == old(self).pane_states@.restrict(
                group_ids(old(self).repo_groups@),
            ),
            final(self).pane_states.seen == old(self).pane_states.seen,
            *final(self) == (AppState { pane_states: final(self).pane_states, ..*old(self) }),
    {
        let mut active_ids = TextSet::new();
        let panes = group::group_panes(&self.repo_groups);
        let ghost all = group::grouped_panes(self.repo_groups@);
        let mut i: usize = 0;
        while i < panes.len()
            invariant
                i <= panes@.len() == all.len(),
                forall|k: int| 0 <= k < panes@.len() ==> *(#[trigger] panes@[k]) == all[k],
                forall|id: Seq<char>| #[trigger]
                    active_ids@.contains(id) <==> exists|k: int|
                        0 <= k < i && (#[trigger] all[k]).pane_id@ == id,
            decreases panes@.len() - i,
        {
            let ghost before = active_ids@;
            active_ids.insert(panes[i].pane_id.clone());
            proof {
                let mine = all[i as int].pane_id@;
                assert(*panes@[i as int] == all[i as int]);
                assert forall|id: Seq<char>| #[trigger]
                    active_ids@.contains(id) <==> exists|k: int|
                        0 <= k < i + 1 && (#[trigger] all[k]).pane_id@ == id by {
                    if id == mine {
                        assert(all[i as int].pane_id@ == id);
                    } else if before.contains(id) {
                        let k = choose|k: int| 0 <= k < i && (#[trigger] all[k]).pane_id@ == id;
                        assert(0 <= k < i + 1 && all[k].pane_id@ == id);
                    }
                }
            }
            i = i + 1;
        }
        proof {
            assert(active_ids@ =~= group_ids(self.repo_groups@));
        }
        self.pane_states.map.retain(&active_ids);
    }
}

/// What was set for a pane is what is then read, and other panes keep what was
/// known of them.
pub proof fn pane_update_reads_back(
    before: AppState,
    after: AppState,
    id: Seq<char>,
    state: PaneRuntimeState,
    other: Seq<char>,
)
    requires
        pane_updated(before, after, id, state),
    ensures
        known_of(after.pane_states.models(), id) == state@,
        other != id ==> known_of(after.pane_states.models(), other) == known_of(
            before.pane_states.models(),
            other,
        ),
{
}

} // verus!
