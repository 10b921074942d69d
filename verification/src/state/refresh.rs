//! What each tick changes: sessions, liveness, ports, tasks and the log.

use vstd::prelude::*;

use crate::activity;
use crate::activity::{ActivityEntry, TaskProgress, TaskStatus, TASK_RESET_MARKER};
use crate::cli;
use crate::cli::sanitize_tmux_value;
use crate::group;
use crate::group::{PaneGitInfo, RepoGroup};
use crate::port::{scan_session_agent_liveness, scan_session_process_snapshot, PaneProcessSnapshot};
use crate::process;
use crate::process::ProcessSnapshot;
use crate::scan;
use crate::scan::find_chars;
use crate::state::layout;
use crate::state::pane_runtime;
use crate::state::pane_runtime::{PaneRuntimeMap, RuntimeModel};
use crate::state::AppState;
use crate::text;
use crate::text::{chars_of, same, same_opt};
use crate::textmap::{TextMap, TextSet};
use crate::tmux::options;
use crate::tmux::options::{remove_log, set_pane_option, unset_pane_option, PaneOptions};
use crate::tmux::options::{
    PANE_AGENT, PANE_ATTENTION, PANE_BG_CMD, PANE_CWD, PANE_PERMISSION_MODE, PANE_PROMPT,
    PANE_PROMPT_SOURCE, PANE_SESSION_ID, PANE_STARTED_AT, PANE_STATUS, PANE_SUBAGENTS,
    PANE_WAIT_REASON, PANE_WORKTREE_BRANCH, PANE_WORKTREE_NAME,
};
use crate::tmux::query;
use crate::tmux::types;
use crate::tmux::types::{
    all_panes, PaneInfo, PaneModel, PaneStatus, SessionInfo, SessionModel, WindowInfo, WindowModel,
};

verus! {

/// What is to become of the tasks of a pane.
#[derive(Debug, Clone, Copy, PartialEq, Eq, Structural)]
pub enum TaskProgressDecision {
    Clear,
    Show,
    Dismiss { total: usize },
    Skip,
}

/// What is to become of tasks, by the number of tasks that were last dismissed.
pub open spec fn decision_of(
    tasks: Seq<(Seq<char>, TaskStatus)>,
    dismissed_total: Option<usize>,
) -> TaskProgressDecision {
    if tasks.len() == 0 {
        TaskProgressDecision::Clear
    } else if !activity::tasks_done(tasks) {
        TaskProgressDecision::Show
    } else if dismissed_total is Some && dismissed_total->0 == tasks.len() {
        TaskProgressDecision::Skip
    } else {
        TaskProgressDecision::Dismiss { total: tasks.len() as usize }
    }
}

/// What is to become of tasks. Completed tasks are dismissed once.
pub fn classify_task_progress(
    progress: &TaskProgress,
    dismissed_total: Option<usize>,
) -> (decision: TaskProgressDecision)
    ensures
        decision == decision_of(progress@, dismissed_total),
{
    if progress.is_empty() {
        return TaskProgressDecision::Clear;
    }
    if progress.all_completed() {
        if let Some(total) = dismissed_total {
            if total == progress.total() {
                return TaskProgressDecision::Skip;
            }
        }
        TaskProgressDecision::Dismiss { total: progress.total() }
    } else {
        TaskProgressDecision::Show
    }
}

/// The activity log of a pane, as it was found on disk.
pub struct LogRead {
    pub mtime: Option<u64>,
    pub len: Option<u64>,
    /// The tasks in the log. They need not be read from a log that did not
    /// change while the agent is active.
    pub progress: TaskProgress,
}

/// The model of an activity log.
pub struct LogModel {
    pub mtime: Option<u64>,
    pub len: Option<u64>,
    pub tasks: Seq<(Seq<char>, TaskStatus)>,
}

/// The log of a pane; a pane without one has no tasks.
pub open spec fn log_of(logs: Map<Seq<char>, LogRead>, id: Seq<char>) -> LogModel {
    if logs.contains_key(id) {
        LogModel { mtime: logs[id].mtime, len: logs[id].len, tasks: logs[id].progress@ }
    } else {
        LogModel { mtime: None, len: None, tasks: Seq::<(Seq<char>, TaskStatus)>::empty() }
    }
}

/// Whether a log did not change since it was last read.
pub open spec fn log_unchanged(
    prior: RuntimeModel,
    mtime: Option<u64>,
    len: Option<u64>,
) -> bool {
    &&& mtime is Some
    &&& mtime == prior.task_progress_log_mtime
    &&& len == prior.task_progress_log_len
}

/// How long an inactive agent keeps its task list, in seconds.
///
/// The agent status can briefly drop to idle during normal operation. Without a
/// grace period that would hide the task list for a moment.
pub const INACTIVE_GRACE_SECS: u64 = 3;

/// Since when a pane has been inactive.
pub open spec fn inactive_since(prior: RuntimeModel, active: bool, now: u64) -> Option<u64> {
    if active {
        None
    } else if prior.inactive_since is Some {
        prior.inactive_since
    } else {
        Some(now)
    }
}

/// Whether a pane has been inactive for too long to keep its tasks.
pub open spec fn grace_expired(prior: RuntimeModel, active: bool, now: u64) -> bool {
    match inactive_since(prior, active, now) {
        Some(since) => now - since >= INACTIVE_GRACE_SECS,
        None => false,
    }
}

/// What is to become of the tasks in a log that was read.
pub open spec fn task_decision(
    prior: RuntimeModel,
    active: bool,
    now: u64,
    tasks: Seq<(Seq<char>, TaskStatus)>,
) -> TaskProgressDecision {
    if grace_expired(prior, active, now) && tasks.len() > 0 && !activity::tasks_done(tasks) {
        TaskProgressDecision::Dismiss { total: tasks.len() as usize }
    } else {
        decision_of(tasks, prior.task_dismissed_total)
    }
}

/// What is known of a pane once its tasks were looked at.
pub open spec fn task_update(
    prior: RuntimeModel,
    active: bool,
    now: u64,
    log: LogModel,
) -> RuntimeModel {
    let decision = task_decision(prior, active, now, log.tasks);
    if log_unchanged(prior, log.mtime, log.len) && active {
        RuntimeModel {
            inactive_since: None,
            task_progress_log_mtime: log.mtime,
            task_progress_log_len: log.len,
            ..prior
        }
    } else {
        RuntimeModel {
            task_progress: match decision {
                TaskProgressDecision::Clear => None,
                TaskProgressDecision::Show => Some(log.tasks),
                TaskProgressDecision::Dismiss { .. } => None,
                TaskProgressDecision::Skip => prior.task_progress,
            },
            task_dismissed_total: match decision {
                TaskProgressDecision::Clear => None,
                TaskProgressDecision::Show => None,
                TaskProgressDecision::Dismiss { total } => Some(total),
                TaskProgressDecision::Skip => prior.task_dismissed_total,
            },
            inactive_since: inactive_since(prior, active, now),
            task_progress_log_mtime: log.mtime,
            task_progress_log_len: log.len,
            ..prior
        }
    }
}

/// What is known of the panes once the tasks of each were looked at. Every
/// update starts from what was known before.
pub open spec fn tasks_refreshed(
    before: Map<Seq<char>, RuntimeModel>,
    panes: Seq<PaneInfo>,
    now: u64,
    logs: Map<Seq<char>, LogRead>,
) -> Map<Seq<char>, RuntimeModel>
    decreases panes.len(),
{
    if panes.len() == 0 {
        before
    } else {
        let pane = panes.last();
        tasks_refreshed(before, panes.drop_last(), now, logs).insert(
            pane.pane_id@,
            task_update(
                pane_runtime::known_of(before, pane.pane_id@),
                pane.status.active(),
                now,
                log_of(logs, pane.pane_id@),
            ),
        )
    }
}

/// A change of the tasks of a pane that is still to be made.
struct PaneTaskUpdate {
    pane_id: String,
    progress: Option<TaskProgress>,
    dismissed_total: Option<usize>,
    inactive_since: Option<u64>,
    log_mtime: Option<u64>,
    log_len: Option<u64>,
}

impl PaneTaskUpdate {
    /// What is known of a pane once the change was made.
    spec fn applied(self, before: RuntimeModel) -> RuntimeModel {
        RuntimeModel {
            task_progress: pane_runtime::progress_model(self.progress),
            task_dismissed_total: self.dismissed_total,
            inactive_since: self.inactive_since,
            task_progress_log_mtime: self.log_mtime,
            task_progress_log_len: self.log_len,
            ..before
        }
    }

    /// What is known of the panes once changes were made in turn.
    spec fn all_applied(
        before: Map<Seq<char>, RuntimeModel>,
        updates: Seq<PaneTaskUpdate>,
    ) -> Map<Seq<char>, RuntimeModel>
        decreases updates.len(),
    {
        if updates.len() == 0 {
            before
        } else {
            let known = PaneTaskUpdate::all_applied(before, updates.drop_last());
            let id = updates.last().pane_id@;
            known.insert(id, updates.last().applied(pane_runtime::known_of(known, id)))
        }
    }
}

fn same_time(first: Option<u64>, second: Option<u64>) -> (same: bool)
    ensures
        same == (first == second),
{
    match (first, second) {
        (Some(a), Some(b)) => a == b,
        (None, None) => true,
        _ => false,
    }
}

fn copy_progress(progress: &Option<TaskProgress>) -> (copy: Option<TaskProgress>)
    ensures
        pane_runtime::progress_model(copy) == pane_runtime::progress_model(*progress),
{
    match progress {
        Some(tasks) => Some(tasks.clone()),
        None => None,
    }
}

/// Whether tasks that were set aside, or shown, stay as they are.
proof fn shared_fields(before: Map<Seq<char>, RuntimeModel>, updates: Seq<PaneTaskUpdate>, id: Seq<char>)
    ensures
        ({
            let after = pane_runtime::known_of(PaneTaskUpdate::all_applied(before, updates), id);
            let prior = pane_runtime::known_of(before, id);
            &&& after.ports == prior.ports
            &&& after.command == prior.command
            &&& after.tab_pref == prior.tab_pref
            &&& after.process_liveness_misses == prior.process_liveness_misses
        }),
    decreases updates.len(),
{
    if updates.len() > 0 {
        shared_fields(before, updates.drop_last(), id);
        shared_fields(before, updates.drop_last(), updates.last().pane_id@);
    }
}

impl AppState {
    /// Whether the activity log of a pane did not change since it was last read
    /// and need not be read again.
    pub fn task_log_unchanged(&self, pane_id: &str, mtime: Option<u64>, len: Option<u64>) -> (yes:
        bool)
        ensures
            yes == log_unchanged(
                pane_runtime::known_of(self.pane_states.models(), pane_id@),
                mtime,
                len,
            ),
    {
        let (prior_mtime, prior_len) = match self.pane_state(pane_id) {
            Some(state) => (state.task_progress_log_mtime, state.task_progress_log_len),
            None => (None, None),
        };
        mtime.is_some() && same_time(mtime, prior_mtime) && same_time(len, prior_len)
    }

    fn task_update_for(&self, pane: &PaneInfo, logs: &TextMap<LogRead>) -> (update: PaneTaskUpdate)
        ensures
            update.pane_id@ == pane.pane_id@,
            ({
                let prior = pane_runtime::known_of(self.pane_states.models(), pane.pane_id@);
                update.applied(prior) == task_update(
                    prior,
                    pane.status.active(),
                    self.now,
                    log_of(logs@, pane.pane_id@),
                )
            }),
    {
        let none = TaskProgress { tasks: Vec::new() };
        proof {
            assert(none@ =~= Seq::<(Seq<char>, TaskStatus)>::empty());
        }
        let (mtime, len, progress) = match logs.get(pane.pane_id.as_str()) {
            Some(log) => (log.mtime, log.len, &log.progress),
            None => (None, None, &none),
        };
        let (prior_progress, prior_total, prior_since) = match self.pane_state(
            pane.pane_id.as_str(),
        ) {
            Some(state) => (
                copy_progress(&state.task_progress),
                state.task_dismissed_total,
                state.inactive_since,
            ),
            None => (None, None, None),
        };
        let active = pane.status.is_active();
        if active && self.task_log_unchanged(pane.pane_id.as_str(), mtime, len) {
            return PaneTaskUpdate {
                pane_id: pane.pane_id.clone(),
                progress: prior_progress,
                dismissed_total: prior_total,
                inactive_since: None,
                log_mtime: mtime,
                log_len: len,
            };
        }
        let since: Option<u64> = if active {
            None
        } else {
            match prior_since {
                Some(known) => Some(known),
                None => Some(self.now),
            }
        };
        let expired = match since {
            Some(start) => self.now >= start && self.now - start >= INACTIVE_GRACE_SECS,
            None => false,
        };
        let decision = if expired && !progress.is_empty() && !progress.all_completed() {
            TaskProgressDecision::Dismiss { total: progress.total() }
        } else {
            classify_task_progress(progress, prior_total)
        };
        let (next, total) = match decision {
            TaskProgressDecision::Clear => (None, None),
            TaskProgressDecision::Show => (Some(progress.clone()), None),
            TaskProgressDecision::Dismiss { total } => (None, Some(total)),
            TaskProgressDecision::Skip => (prior_progress, prior_total),
        };
        PaneTaskUpdate {
            pane_id: pane.pane_id.clone(),
            progress: next,
            dismissed_total: total,
            inactive_since: since,
            log_mtime: mtime,
            log_len: len,
        }
    }

    /// Shows the tasks in the logs, and hides the tasks of agents that are done
    /// or have been inactive for a while.
    pub fn refresh_task_progress(&mut self, logs: &TextMap<LogRead>)
        ensures
            final(self).pane_states.models() == tasks_refreshed(
                old(self).pane_states.models(),
                group::grouped_panes(old(self).repo_groups@),
                old(self).now,
                logs@,
            ),
            final(self).pane_states.seen == old(self).pane_states.seen,
            *final(self) == (AppState { pane_states: final(self).pane_states, ..*old(self) }),
    {
        let panes = group::group_panes(&self.repo_groups);
        let ghost all = group::grouped_panes(self.repo_groups@);
        let ghost before = self.pane_states.models();
        let ghost now = self.now;
        let mut updates: Vec<PaneTaskUpdate> = Vec::new();
        let mut i: usize = 0;
        proof {
            assert(all.take(0) =~= Seq::<PaneInfo>::empty());
        }
        while i < panes.len()
            invariant
                i <= panes@.len() == all.len(),
                forall|k: int| 0 <= k < panes@.len() ==> *(#[trigger] panes@[k]) == all[k],
                before == self.pane_states.models(),
                now == self.now,
                updates@.len() == i,
                PaneTaskUpdate::all_applied(before, updates@) == tasks_refreshed(
                    before,
                    all.take(i as int),
                    now,
                    logs@,
                ),
            decreases panes@.len() - i,
        {
            let update = self.task_update_for(panes[i], logs);
            let ghost so_far = updates@;
            updates.push(update);
            proof {
                assert(*panes@[i as int] == all[i as int]);
                assert(all.take(i + 1).drop_last() =~= all.take(i as int));
                assert(updates@.drop_last() =~= so_far);
                shared_fields(before, so_far, update.pane_id@);
            }
            i = i + 1;
        }
        proof {
            assert(all.take(i as int) =~= all);
        }
        let mut k: usize = 0;
        proof {
            assert(updates@.take(0) =~= Seq::<PaneTaskUpdate>::empty());
        }
        while k < updates.len()
            invariant
                k <= updates@.len(),
                self.pane_states.models() == PaneTaskUpdate::all_applied(
                    before,
                    updates@.take(k as int),
                ),
                self.pane_states.seen == old(self).pane_states.seen,
                *self == (AppState { pane_states: self.pane_states, ..*old(self) }),
            decreases updates@.len() - k,
        {
            let update = &updates[k];
            let ghost known = self.pane_states.models();
            let progress = copy_progress(&update.progress);
            let state = self.pane_state_mut(update.pane_id.as_str());
            let ghost prior = *state;
            state.inactive_since = update.inactive_since;
            state.task_dismissed_total = update.dismissed_total;
            state.task_progress = progress;
            state.task_progress_log_mtime = update.log_mtime;
            state.task_progress_log_len = update.log_len;
            proof {
                pane_runtime::blank_is_nothing_known(prior);
                assert(updates@.take(k + 1).drop_last() =~= updates@.take(k as int));
                assert(prior@ == pane_runtime::known_of(known, update.pane_id@));
                assert(self.pane_states.models() =~= known.insert(
                    update.pane_id@,
                    update.applied(prior@),
                ));
            }
            k = k + 1;
        }
        proof {
            assert(updates@.take(k as int) =~= updates@);
        }
    }
}

// Liveness of agents.

/// The options of a pane whose agent process is gone.
pub open spec fn dead_keys() -> Seq<Seq<char>> {
    seq![
        PANE_AGENT@,
        PANE_STATUS@,
        PANE_ATTENTION@,
        PANE_PROMPT@,
        PANE_PROMPT_SOURCE@,
        PANE_SUBAGENTS@,
        PANE_CWD@,
        PANE_PERMISSION_MODE@,
        PANE_WORKTREE_NAME@,
        PANE_WORKTREE_BRANCH@,
        PANE_STARTED_AT@,
        PANE_WAIT_REASON@,
        PANE_SESSION_ID@,
        PANE_BG_CMD@,
    ]
}

fn clear_dead_agent_metadata(options: &mut PaneOptions, pane_id: &str)
    ensures
        final(options)@ == old(options)@ + query::clear_writes(pane_id@, dead_keys()),
{
    let ghost before = options@;
    unset_pane_option(options, pane_id, PANE_AGENT);
    unset_pane_option(options, pane_id, PANE_STATUS);
    unset_pane_option(options, pane_id, PANE_ATTENTION);
    unset_pane_option(options, pane_id, PANE_PROMPT);
    unset_pane_option(options, pane_id, PANE_PROMPT_SOURCE);
    unset_pane_option(options, pane_id, PANE_SUBAGENTS);
    unset_pane_option(options, pane_id, PANE_CWD);
    unset_pane_option(options, pane_id, PANE_PERMISSION_MODE);
    unset_pane_option(options, pane_id, PANE_WORKTREE_NAME);
    unset_pane_option(options, pane_id, PANE_WORKTREE_BRANCH);
    unset_pane_option(options, pane_id, PANE_STARTED_AT);
    unset_pane_option(options, pane_id, PANE_WAIT_REASON);
    unset_pane_option(options, pane_id, PANE_SESSION_ID);
    unset_pane_option(options, pane_id, PANE_BG_CMD);
    remove_log(options, pane_id);
    proof {
        assert(options@ =~= before + query::clear_writes(pane_id@, dead_keys()));
    }
}

/// How many samples in a row must miss an agent before its pane is given up.
pub const MISSES_UNTIL_DEAD: u8 = 2;

/// What is known of a pane after a sample that found its agent, or missed it.
/// What a missed agent listened on and ran is forgotten.
pub open spec fn sampled(prior: RuntimeModel, live: bool) -> RuntimeModel {
    if live {
        RuntimeModel { process_liveness_misses: 0, ..prior }
    } else {
        RuntimeModel {
            process_liveness_misses: (if prior.process_liveness_misses < u8::MAX {
                prior.process_liveness_misses + 1
            } else {
                u8::MAX as int
            }) as u8,
            ports: Seq::<u16>::empty(),
            command: None,
            ..prior
        }
    }
}

/// What is known of the panes after a sample. A pane whose process is not known
/// cannot be missed.
pub open spec fn all_sampled(
    before: Map<Seq<char>, RuntimeModel>,
    panes: Seq<PaneInfo>,
    live: Set<Seq<char>>,
) -> Map<Seq<char>, RuntimeModel>
    decreases panes.len(),
{
    if panes.len() == 0 {
        before
    } else {
        let known = all_sampled(before, panes.drop_last(), live);
        let id = panes.last().pane_id@;
        if panes.last().pane_pid is None {
            known
        } else {
            known.insert(id, sampled(pane_runtime::known_of(known, id), live.contains(id)))
        }
    }
}

/// The panes that a sample shows to be dead, in order.
pub open spec fn dead_panes(
    before: Map<Seq<char>, RuntimeModel>,
    panes: Seq<PaneInfo>,
    live: Set<Seq<char>>,
) -> Seq<Seq<char>>
    decreases panes.len(),
{
    if panes.len() == 0 {
        Seq::<Seq<char>>::empty()
    } else {
        let found = dead_panes(before, panes.drop_last(), live);
        let id = panes.last().pane_id@;
        let after = pane_runtime::known_of(all_sampled(before, panes, live), id);
        if panes.last().pane_pid is Some && !live.contains(id) && after.process_liveness_misses
            >= MISSES_UNTIL_DEAD {
            found.push(id)
        } else {
            found
        }
    }
}

/// The changes that forget dead panes.
pub open spec fn dead_writes(dead: Seq<Seq<char>>) -> Seq<options::WriteModel>
    decreases dead.len(),
{
    if dead.len() == 0 {
        Seq::<options::WriteModel>::empty()
    } else {
        dead_writes(dead.drop_last()) + query::clear_writes(dead.last(), dead_keys())
    }
}

/// What a pane is kept for.
#[derive(Clone, Copy)]
pub enum Keep<'a> {
    /// Its agent was found.
    Live(&'a TextSet),
    /// Its agent was not missed too often.
    Unmissed(&'a PaneRuntimeMap),
}

impl<'a> Keep<'a> {
    /// Whether a pane is kept.
    pub open spec fn keeps(self, id: Seq<char>) -> bool {
        match self {
            Keep::Live(live) => live@.contains(id),
            Keep::Unmissed(states) => pane_runtime::known_of(
                states.models(),
                id,
            ).process_liveness_misses < MISSES_UNTIL_DEAD,
        }
    }

    fn keeps_pane(&self, id: &str) -> (yes: bool)
        ensures
            yes == self.keeps(id@),
    {
        match self {
            Keep::Live(live) => live.contains(id),
            Keep::Unmissed(states) => match states.get(id) {
                Some(state) => state.process_liveness_misses < MISSES_UNTIL_DEAD,
                None => true,
            },
        }
    }
}

/// The panes that are kept.
pub open spec fn kept_panes(panes: Seq<PaneModel>, keep: Keep) -> Seq<PaneModel>
    decreases panes.len(),
{
    if panes.len() == 0 {
        Seq::<PaneModel>::empty()
    } else {
        let before = kept_panes(panes.drop_last(), keep);
        if keep.keeps(panes.last().pane_id) {
            before.push(panes.last())
        } else {
            before
        }
    }
}

/// The windows in which a pane is kept, with those panes alone.
pub open spec fn kept_windows(windows: Seq<WindowModel>, keep: Keep) -> Seq<WindowModel>
    decreases windows.len(),
{
    if windows.len() == 0 {
        Seq::<WindowModel>::empty()
    } else {
        let before = kept_windows(windows.drop_last(), keep);
        let panes = kept_panes(windows.last().panes, keep);
        if panes.len() == 0 {
            before
        } else {
            before.push(WindowModel { panes, ..windows.last() })
        }
    }
}

/// The sessions in which a pane is kept, with those panes alone.
pub open spec fn kept_sessions(sessions: Seq<SessionModel>, keep: Keep) -> Seq<SessionModel>
    decreases sessions.len(),
{
    if sessions.len() == 0 {
        Seq::<SessionModel>::empty()
    } else {
        let before = kept_sessions(sessions.drop_last(), keep);
        let windows = kept_windows(sessions.last().windows, keep);
        if windows.len() == 0 {
            before
        } else {
            before.push(SessionModel { windows, ..sessions.last() })
        }
    }
}

fn keep_panes(panes: &mut Vec<PaneInfo>, keep: Keep)
    ensures
        types::pane_models(final(panes)@) == kept_panes(types::pane_models(old(panes)@), keep),
{
    let ghost start = panes@;
    let ghost models = types::pane_models(start);
    let ghost mut seen: int = 0;
    let mut i: usize = 0;
    proof {
        assert(models.take(0) =~= Seq::<PaneModel>::empty());
        assert(types::pane_models(panes@.take(0)) =~= Seq::<PaneModel>::empty());
        assert(start.skip(0) =~= start);
    }
    while i < panes.len()
        invariant
            models == types::pane_models(start),
            i <= panes@.len(),
            0 <= seen <= start.len(),
            panes@.len() - i == start.len() - seen,
            panes@.skip(i as int) == start.skip(seen),
            types::pane_models(panes@.take(i as int)) == kept_panes(models.take(seen), keep),
        decreases panes@.len() - i,
    {
        let ghost before = panes@;
        proof {
            assert(models.take(seen + 1).drop_last() =~= models.take(seen));
            assert(before[i as int] == before.skip(i as int)[0]);
            assert(start[seen] == start.skip(seen)[0]);
        }
        if keep.keeps_pane(panes[i].pane_id.as_str()) {
            i = i + 1;
            proof {
                assert(types::pane_models(panes@.take(i as int)) =~= types::pane_models(
                    before.take(i - 1),
                ).push(start[seen]@));
                assert(panes@.skip(i as int) =~= before.skip(i - 1).skip(1));
            }
        } else {
            panes.remove(i);
            proof {
                assert(panes@.take(i as int) =~= before.take(i as int));
                assert(panes@.skip(i as int) =~= before.skip(i as int).skip(1));
            }
        }
        proof {
            assert(start.skip(seen).skip(1) =~= start.skip(seen + 1));
            seen = seen + 1;
        }
    }
    proof {
        assert(models.take(seen) =~= models);
        assert(panes@.take(i as int) =~= panes@);
    }
}

fn keep_windows(windows: &mut Vec<WindowInfo>, keep: Keep)
    ensures
        types::window_models(final(windows)@) == kept_windows(
            types::window_models(old(windows)@),
            keep,
        ),
{
    let ghost start = windows@;
    let ghost models = types::window_models(start);
    let ghost mut seen: int = 0;
    let mut i: usize = 0;
    proof {
        assert(models.take(0) =~= Seq::<WindowModel>::empty());
        assert(types::window_models(windows@.take(0)) =~= Seq::<WindowModel>::empty());
        assert(start.skip(0) =~= start);
    }
    while i < windows.len()
        invariant
            models == types::window_models(start),
            i <= windows@.len(),
            0 <= seen <= start.len(),
            windows@.len() - i == start.len() - seen,
            windows@.skip(i as int) == start.skip(seen),
            types::window_models(windows@.take(i as int)) == kept_windows(models.take(seen), keep),
        decreases windows@.len() - i,
    {
        let ghost before = windows@;
        proof {
            assert(models.take(seen + 1).drop_last() =~= models.take(seen));
            assert(before[i as int] == before.skip(i as int)[0]);
            assert(start[seen] == start.skip(seen)[0]);
        }
        keep_panes(&mut windows[i].panes, keep);
        let ghost middle = windows@;
        proof {
            assert(types::pane_models(middle[i as int].panes@) == kept_panes(
                start[seen]@.panes,
                keep,
            ));
            assert(types::pane_models(middle[i as int].panes@).len()
                == middle[i as int].panes@.len());
        }
        if windows[i].panes.len() > 0 {
            i = i + 1;
            proof {
                assert(middle[i - 1]@ == (WindowModel {
                    panes: kept_panes(start[seen]@.panes, keep),
                    ..start[seen]@
                }));
                assert(types::window_models(windows@.take(i as int)) =~= types::window_models(
                    before.take(i - 1),
                ).push(middle[i - 1]@));
                assert(windows@.skip(i as int) =~= before.skip(i - 1).skip(1));
            }
        } else {
            windows.remove(i);
            proof {
                assert(windows@.take(i as int) =~= before.take(i as int));
                assert(windows@.skip(i as int) =~= before.skip(i as int).skip(1));
            }
        }
        proof {
            assert(start.skip(seen).skip(1) =~= start.skip(seen + 1));
            seen = seen + 1;
        }
    }
    proof {
        assert(models.take(seen) =~= models);
        assert(windows@.take(i as int) =~= windows@);
    }
}

fn keep_sessions(sessions: &mut Vec<SessionInfo>, keep: Keep)
    ensures
        types::session_models(final(sessions)@) == kept_sessions(
            types::session_models(old(sessions)@),
            keep,
        ),
{
    let ghost start = sessions@;
    let ghost models = types::session_models(start);
    let ghost mut seen: int = 0;
    let mut i: usize = 0;
    proof {
        assert(models.take(0) =~= Seq::<SessionModel>::empty());
        assert(types::session_models(sessions@.take(0)) =~= Seq::<SessionModel>::empty());
        assert(start.skip(0) =~= start);
    }
    while i < sessions.len()
        invariant
            models == types::session_models(start),
            i <= sessions@.len(),
            0 <= seen <= start.len(),
            sessions@.len() - i == start.len() - seen,
            sessions@.skip(i as int) == start.skip(seen),
            types::session_models(sessions@.take(i as int)) == kept_sessions(
                models.take(seen),
                keep,
            ),
        decreases sessions@.len() - i,
    {
        let ghost before = sessions@;
        proof {
            assert(models.take(seen + 1).drop_last() =~= models.take(seen));
            assert(before[i as int] == before.skip(i as int)[0]);
            assert(start[seen] == start.skip(seen)[0]);
        }
        keep_windows(&mut sessions[i].windows, keep);
        let ghost middle = sessions@;
        proof {
            assert(types::window_models(middle[i as int].windows@) == kept_windows(
                start[seen]@.windows,
                keep,
            ));
            assert(types::window_models(middle[i as int].windows@).len()
                == middle[i as int].windows@.len());
        }
        if sessions[i].windows.len() > 0 {
            i = i + 1;
            proof {
                assert(middle[i - 1]@ == (SessionModel {
                    windows: kept_windows(start[seen]@.windows, keep),
                    ..start[seen]@
                }));
                assert(types::session_models(sessions@.take(i as int)) =~= types::session_models(
                    before.take(i - 1),
                ).push(middle[i - 1]@));
                assert(sessions@.skip(i as int) =~= before.skip(i - 1).skip(1));
            }
        } else {
            sessions.remove(i);
            proof {
                assert(sessions@.take(i as int) =~= before.take(i as int));
                assert(sessions@.skip(i as int) =~= before.skip(i as int).skip(1));
            }
        }
        proof {
            assert(start.skip(seen).skip(1) =~= start.skip(seen + 1));
            seen = seen + 1;
        }
    }
    proof {
        assert(models.take(seen) =~= models);
        assert(sessions@.take(i as int) =~= sessions@);
    }
}

impl AppState {
    /// The sessions with the panes alone whose agent was found.
    pub fn filter_sessions_to_live_agent_panes(
        sessions: Vec<SessionInfo>,
        live_agent_panes: &TextSet,
    ) -> (kept: Vec<SessionInfo>)
        ensures
            types::session_models(kept@) == kept_sessions(
                types::session_models(sessions@),
                Keep::Live(live_agent_panes),
            ),
    {
        let mut kept = sessions;
        keep_sessions(&mut kept, Keep::Live(live_agent_panes));
        kept
    }

    /// The sessions without the panes whose agent was missed too often.
    pub fn filter_sessions_after_process_liveness(&self, sessions: Vec<SessionInfo>) -> (kept: Vec<
        SessionInfo,
    >)
        ensures
            types::session_models(kept@) == kept_sessions(
                types::session_models(sessions@),
                Keep::Unmissed(&self.pane_states),
            ),
    {
        let mut kept = sessions;
        keep_sessions(&mut kept, Keep::Unmissed(&self.pane_states));
        kept
    }

    fn sample_pane(&mut self, pane: &PaneInfo, live: bool) -> (dead: bool)
        requires
            pane.pane_pid is Some,
        ensures
            ({
                let known = old(self).pane_states.models();
                let after = sampled(pane_runtime::known_of(known, pane.pane_id@), live);
                &&& final(self).pane_states.models() == known.insert(pane.pane_id@, after)
                &&& final(self).pane_states.seen == old(self).pane_states.seen
                &&& *final(self) == (AppState {
                    pane_states: final(self).pane_states,
                    ..*old(self)
                })
                &&& dead == (!live && after.process_liveness_misses >= MISSES_UNTIL_DEAD)
            }),
    {
        let ghost known = self.pane_states.models();
        let state = self.pane_state_mut(pane.pane_id.as_str());
        let ghost prior = *state;
        let mut dead = false;
        if live {
            state.process_liveness_misses = 0;
        } else {
            state.process_liveness_misses = state.process_liveness_misses.saturating_add(1);
            state.ports = Vec::new();
            state.command = None;
            dead = state.process_liveness_misses >= MISSES_UNTIL_DEAD;
        }
        proof {
            pane_runtime::blank_is_nothing_known(prior);
            assert(prior@ == pane_runtime::known_of(known, pane.pane_id@));
            let after = sampled(prior@, live);
            assert(self.pane_states@[pane.pane_id@]@.ports =~= after.ports);
            assert(self.pane_states.models() =~= known.insert(pane.pane_id@, after));
        }
        dead
    }

    /// Takes in which agents a sample of the processes found. An agent that two
    /// samples in a row missed is dead, and the options of its pane go away. tmux
    /// can omit the process of a pane; such a pane is retained.
    pub fn reconcile_agent_liveness(
        &mut self,
        sessions: &Vec<SessionInfo>,
        scanned: &PaneProcessSnapshot,
    )
        ensures
            ({
                let panes = types::panes_of(sessions@);
                let live = scanned.live_agent_panes@;
                let known = old(self).pane_states.models();
                &&& final(self).pane_states.models() == all_sampled(known, panes, live)
                &&& final(self).pane_states.seen == old(self).pane_states.seen
                &&& final(self).options@ == old(self).options@ + dead_writes(
                    dead_panes(known, panes, live),
                )
                &&& *final(self) == (AppState {
                    pane_states: final(self).pane_states,
                    options: final(self).options,
                    ..*old(self)
                })
            }),
    {
        let panes = all_panes(sessions);
        let ghost all = types::panes_of(sessions@);
        let ghost live = scanned.live_agent_panes@;
        let ghost known = self.pane_states.models();
        let mut dead: Vec<String> = Vec::new();
        let mut i: usize = 0;
        proof {
            assert(all.take(0) =~= Seq::<PaneInfo>::empty());
            assert(text::texts(dead@) =~= Seq::<Seq<char>>::empty());
        }
        while i < panes.len()
            invariant
                i <= panes@.len() == all.len(),
                live == scanned.live_agent_panes@,
                forall|k: int| 0 <= k < panes@.len() ==> *(#[trigger] panes@[k]) == all[k],
                self.pane_states.models() == all_sampled(known, all.take(i as int), live),
                text::texts(dead@) == dead_panes(known, all.take(i as int), live),
                self.pane_states.seen == old(self).pane_states.seen,
                *self == (AppState { pane_states: self.pane_states, ..*old(self) }),
            decreases panes@.len() - i,
        {
            let pane = panes[i];
            proof {
                assert(*panes@[i as int] == all[i as int]);
                assert(all.take(i + 1).drop_last() =~= all.take(i as int));
            }
            if pane.pane_pid.is_some() {
                let found = scanned.live_agent_panes.contains(pane.pane_id.as_str());
                let ghost so_far = text::texts(dead@);
                if self.sample_pane(pane, found) {
                    dead.push(pane.pane_id.clone());
                    proof {
                        assert(text::texts(dead@) =~= so_far.push(pane.pane_id@));
                    }
                }
            }
            i = i + 1;
        }
        let ghost writes = self.options@;
        let ghost ids = text::texts(dead@);
        let mut k: usize = 0;
        proof {
            assert(all.take(i as int) =~= all);
            assert(ids.take(0) =~= Seq::<Seq<char>>::empty());
            assert(writes + dead_writes(ids.take(0)) =~= writes);
        }
        while k < dead.len()
            invariant
                k <= dead@.len(),
                ids == text::texts(dead@),
                self.options@ == writes + dead_writes(ids.take(k as int)),
                self.pane_states.models() == all_sampled(known, all, live),
                self.pane_states.seen == old(self).pane_states.seen,
                *self == (AppState {
                    pane_states: self.pane_states,
                    options: self.options,
                    ..*old(self)
                }),
            decreases dead@.len() - k,
        {
            clear_dead_agent_metadata(&mut self.options, dead[k].as_str());
            proof {
                assert(ids.take(k + 1).drop_last() =~= ids.take(k as int));
                assert(writes + dead_writes(ids.take(k + 1)) =~= writes + dead_writes(
                    ids.take(k as int),
                ) + query::clear_writes(ids[k as int], dead_keys()));
            }
            k = k + 1;
        }
        proof {
            assert(ids.take(k as int) =~= ids);
        }
    }
}

// Ports.

/// The ports that a sample found for a pane.
pub open spec fn sample_ports(scanned: PaneProcessSnapshot, id: Seq<char>) -> Seq<u16> {
    if scanned.ports_by_pane@.contains_key(id) {
        scanned.ports_by_pane@[id]@
    } else {
        Seq::<u16>::empty()
    }
}

/// The command that a sample found for a pane.
pub open spec fn sample_command(scanned: PaneProcessSnapshot, id: Seq<char>) -> Option<Seq<char>> {
    if scanned.command_by_pane@.contains_key(id) {
        Some(scanned.command_by_pane@[id]@)
    } else {
        None
    }
}

/// What is known of the panes once a sample was taken in; without a sample
/// nothing is known of ports and commands.
pub open spec fn ports_applied(
    before: Map<Seq<char>, RuntimeModel>,
    panes: Seq<PaneInfo>,
    scanned: Option<PaneProcessSnapshot>,
) -> Map<Seq<char>, RuntimeModel>
    decreases panes.len(),
{
    if panes.len() == 0 {
        before
    } else {
        let known = ports_applied(before, panes.drop_last(), scanned);
        let id = panes.last().pane_id@;
        known.insert(
            id,
            RuntimeModel {
                ports: match scanned {
                    Some(sample) => sample_ports(sample, id),
                    None => Seq::<u16>::empty(),
                },
                command: match scanned {
                    Some(sample) => sample_command(sample, id),
                    None => None,
                },
                ..pane_runtime::known_of(known, id)
            },
        )
    }
}

/// How often ports are looked for at most, in milliseconds.
pub const PORT_REFRESH_MS: u64 = 10_000;

/// Whether ports are to be looked for.
pub open spec fn ports_due(state: AppState, now_ms: u64) -> bool {
    !state.timers.port_scan_initialized || now_ms - state.timers.last_port_refresh
        >= PORT_REFRESH_MS
}

impl AppState {
    fn set_sample(&mut self, pane_id: &str, ports: Vec<u16>, command: Option<String>)
        ensures
            ({
                let known = old(self).pane_states.models();
                &&& final(self).pane_states.models() == known.insert(
                    pane_id@,
                    RuntimeModel {
                        ports: ports@,
                        command: text::opt(command),
                        ..pane_runtime::known_of(known, pane_id@)
                    },
                )
                &&& final(self).pane_states.seen == old(self).pane_states.seen
                &&& *final(self) == (AppState {
                    pane_states: final(self).pane_states,
                    ..*old(self)
                })
            }),
    {
        let ghost known = self.pane_states.models();
        let state = self.pane_state_mut(pane_id);
        let ghost prior = *state;
        state.ports = ports;
        state.command = command;
        proof {
            pane_runtime::blank_is_nothing_known(prior);
            assert(prior@ == pane_runtime::known_of(known, pane_id@));
            assert(self.pane_states.models() =~= known.insert(
                pane_id@,
                RuntimeModel {
                    ports: ports@,
                    command: text::opt(command),
                    ..pane_runtime::known_of(known, pane_id@)
                },
            ));
        }
    }

    /// Takes in the ports and commands that a sample found.
    pub fn apply_port_sample(
        &mut self,
        sessions: &Vec<SessionInfo>,
        scanned: &PaneProcessSnapshot,
    )
        ensures
            final(self).pane_states.models() == ports_applied(
                old(self).pane_states.models(),
                types::panes_of(sessions@),
                Some(*scanned),
            ),
            final(self).pane_states.seen == old(self).pane_states.seen,
            *final(self) == (AppState { pane_states: final(self).pane_states, ..*old(self) }),
    {
        let panes = all_panes(sessions);
        let ghost all = types::panes_of(sessions@);
        let ghost known = self.pane_states.models();
        let mut i: usize = 0;
        proof {
            assert(all.take(0) =~= Seq::<PaneInfo>::empty());
        }
        while i < panes.len()
            invariant
                i <= panes@.len() == all.len(),
                forall|k: int| 0 <= k < panes@.len() ==> *(#[trigger] panes@[k]) == all[k],
                self.pane_states.models() == ports_applied(
                    known,
                    all.take(i as int),
                    Some(*scanned),
                ),
                self.pane_states.seen == old(self).pane_states.seen,
                *self == (AppState { pane_states: self.pane_states, ..*old(self) }),
            decreases panes@.len() - i,
        {
            let id = panes[i].pane_id.as_str();
            let ports: Vec<u16> = match scanned.ports_by_pane.get(id) {
                Some(found) => found.clone(),
                None => Vec::new(),
            };
            let command: Option<String> = match scanned.command_by_pane.get(id) {
                Some(found) => Some(found.clone()),
                None => None,
            };
            proof {
                assert(*panes@[i as int] == all[i as int]);
                assert(all.take(i + 1).drop_last() =~= all.take(i as int));
                assert(ports@ =~= sample_ports(*scanned, id@));
            }
            self.set_sample(id, ports, command);
            i = i + 1;
        }
        proof {
            assert(all.take(i as int) =~= all);
        }
    }

    /// Forgets ports and commands: a failed sample tells nothing of them, and
    /// nothing of the agents either.
    pub fn invalidate_process_sample(&mut self, sessions: &Vec<SessionInfo>)
        ensures
            final(self).pane_states.models() == ports_applied(
                old(self).pane_states.models(),
                types::panes_of(sessions@),
                None,
            ),
            final(self).pane_states.seen == old(self).pane_states.seen,
            *final(self) == (AppState { pane_states: final(self).pane_states, ..*old(self) }),
    {
        let panes = all_panes(sessions);
        let ghost all = types::panes_of(sessions@);
        let ghost known = self.pane_states.models();
        let mut i: usize = 0;
        proof {
            assert(all.take(0) =~= Seq::<PaneInfo>::empty());
        }
        while i < panes.len()
            invariant
                i <= panes@.len() == all.len(),
                forall|k: int| 0 <= k < panes@.len() ==> *(#[trigger] panes@[k]) == all[k],
                self.pane_states.models() == ports_applied(known, all.take(i as int), None),
                self.pane_states.seen == old(self).pane_states.seen,
                *self == (AppState { pane_states: self.pane_states, ..*old(self) }),
            decreases panes@.len() - i,
        {
            let ports: Vec<u16> = Vec::new();
            proof {
                assert(*panes@[i as int] == all[i as int]);
                assert(all.take(i + 1).drop_last() =~= all.take(i as int));
                assert(ports@ =~= Seq::<u16>::empty());
            }
            self.set_sample(panes[i].pane_id.as_str(), ports, None);
            i = i + 1;
        }
        proof {
            assert(all.take(i as int) =~= all);
        }
    }

    /// Whether ports are to be looked for.
    pub fn port_refresh_due(&self, now_ms: u64) -> (due: bool)
        ensures
            due == ports_due(*self, now_ms),
    {
        !self.timers.port_scan_initialized || (now_ms >= self.timers.last_port_refresh && now_ms
            - self.timers.last_port_refresh >= PORT_REFRESH_MS)
    }

    /// Looks for ports where they are due, by the output of `lsof`.
    pub fn refresh_port_data(
        &mut self,
        sessions: &Vec<SessionInfo>,
        process_snapshot: Option<&ProcessSnapshot>,
        lsof_output: Option<&str>,
        now_ms: u64,
    ) -> (found: Option<PaneProcessSnapshot>)
        ensures
            if ports_due(*old(self), now_ms) {
                let panes = types::panes_of(sessions@);
                &&& crate::port::sample_found(panes, process_snapshot, lsof_output, found)
                &&& final(self).pane_states.models() == ports_applied(
                    old(self).pane_states.models(),
                    panes,
                    found,
                )
                &&& final(self).pane_states.seen == old(self).pane_states.seen
                &&& *final(self) == (AppState {
                    pane_states: final(self).pane_states,
                    timers: crate::state::Timers {
                        port_scan_initialized: true,
                        last_port_refresh: now_ms,
                        ..old(self).timers
                    },
                    ..*old(self)
                })
            } else {
                found is None && *final(self) == *old(self)
            },
    {
        if !self.port_refresh_due(now_ms) {
            return None;
        }
        let found = scan_session_process_snapshot(sessions, process_snapshot, lsof_output);
        match &found {
            Some(scanned) => self.apply_port_sample(sessions, scanned),
            None => self.invalidate_process_sample(sessions),
        }
        self.timers.port_scan_initialized = true;
        self.timers.last_port_refresh = now_ms;
        found
    }

    /// The sessions without the panes whose agent is gone, by the processes that
    /// run. Without a process list every pane stays.
    pub fn reconcile_sessions(
        &mut self,
        sessions: Vec<SessionInfo>,
        process_snapshot: Option<&ProcessSnapshot>,
    ) -> (kept: Vec<SessionInfo>)
        ensures
            reconciled(*old(self), sessions, process_snapshot, *final(self), kept),
    {
        let found = scan_session_agent_liveness(&sessions, process_snapshot);
        let ghost witness = found;
        let kept = match &found {
            Some(liveness) => {
                self.reconcile_agent_liveness(&sessions, liveness);
                self.filter_sessions_after_process_liveness(sessions)
            },
            None => sessions,
        };
        proof {
            assert(crate::port::liveness_found(
                types::panes_of(sessions@),
                process_snapshot,
                witness,
            ));
        }
        kept
    }
}

// Sessions.

/// The label of a session, which is empty for a session without one.
pub open spec fn session_label(
    names: Map<Seq<char>, String>,
    session_id: Option<String>,
) -> Seq<char> {
    match session_id {
        Some(id) => if names.contains_key(id@) {
            names[id@]@
        } else {
            Seq::<char>::empty()
        },
        None => Seq::<char>::empty(),
    }
}

/// Whether `after` is `before` with the label of its session.
pub open spec fn pane_named(
    names: Map<Seq<char>, String>,
    before: (PaneInfo, PaneGitInfo),
    after: (PaneInfo, PaneGitInfo),
) -> bool {
    &&& after.1 == before.1
    &&& after.0.session_name@ == session_label(names, before.0.session_id)
    &&& after.0 == (PaneInfo { session_name: after.0.session_name, ..before.0 })
}

/// Whether `after` is `before` with the label of the session of each pane.
pub open spec fn panes_named(
    names: Map<Seq<char>, String>,
    before: Seq<(PaneInfo, PaneGitInfo)>,
    after: Seq<(PaneInfo, PaneGitInfo)>,
) -> bool {
    &&& after.len() == before.len()
    &&& forall|k: int| 0 <= k < before.len() ==> pane_named(names, before[k], #[trigger] after[k])
}

/// Whether `after` is `before` with the label of the session of each pane.
pub open spec fn groups_named(
    names: Map<Seq<char>, String>,
    before: Seq<RepoGroup>,
    after: Seq<RepoGroup>,
) -> bool {
    &&& after.len() == before.len()
    &&& forall|i: int|
        0 <= i < before.len() ==> {
            &&& panes_named(names, before[i].panes@, (#[trigger] after[i]).panes@)
            &&& after[i] == (RepoGroup { panes: after[i].panes, ..before[i] })
        }
}

fn name_panes(panes: &mut Vec<(PaneInfo, PaneGitInfo)>, names: &TextMap<String>)
    ensures
        panes_named(names@, old(panes)@, final(panes)@),
{
    let ghost start = panes@;
    let mut i: usize = 0;
    while i < panes.len()
        invariant
            i <= panes@.len() == start.len(),
            forall|k: int| 0 <= k < i ==> pane_named(names@, start[k], #[trigger] panes@[k]),
            forall|k: int| i <= k < panes@.len() ==> #[trigger] panes@[k] == start[k],
        decreases panes@.len() - i,
    {
        let label: String = match &panes[i].0.session_id {
            Some(id) => match names.get(id.as_str()) {
                Some(name) => name.clone(),
                None => String::new(),
            },
            None => String::new(),
        };
        proof {
            assert(label@ =~= session_label(names@, start[i as int].0.session_id));
        }
        panes[i].0.session_name = label;
        i = i + 1;
    }
}

/// The session of the last pane with an id, where there is such a pane.
pub open spec fn session_before(panes: Seq<PaneInfo>, id: Seq<char>) -> Option<Option<Seq<char>>>
    decreases panes.len(),
{
    if panes.len() == 0 {
        None
    } else if panes.last().pane_id@ == id {
        Some(text::opt(panes.last().session_id))
    } else {
        session_before(panes.drop_last(), id)
    }
}

/// Whether a pane is new, or has another session than before.
pub open spec fn session_swapped(before: Seq<PaneInfo>, pane: PaneInfo) -> bool {
    session_before(before, pane.pane_id@) != Some(text::opt(pane.session_id))
}

/// Whether a pane is new, or has another session than before.
pub open spec fn sessions_swapped(before: Seq<PaneInfo>, after: Seq<PaneInfo>) -> bool {
    exists|k: int| 0 <= k < after.len() && session_swapped(before, #[trigger] after[k])
}

fn swapped_session(before: &Vec<&PaneInfo>, all: Ghost<Seq<PaneInfo>>, pane: &PaneInfo) -> (yes: bool)
    requires
        before@.len() == all@.len(),
        forall|k: int| 0 <= k < before@.len() ==> *(#[trigger] before@[k]) == all@[k],
    ensures
        yes == session_swapped(all@, *pane),
{
    let mut n: usize = before.len();
    proof {
        assert(all@.take(n as int) =~= all@);
    }
    while n > 0
        invariant
            n <= before@.len() == all@.len(),
            forall|k: int| 0 <= k < before@.len() ==> *(#[trigger] before@[k]) == all@[k],
            session_before(all@, pane.pane_id@) == session_before(
                all@.take(n as int),
                pane.pane_id@,
            ),
        decreases n,
    {
        proof {
            assert(all@.take(n as int).drop_last() =~= all@.take(n - 1));
            assert(*before@[n - 1] == all@[n - 1]);
        }
        if same(before[n - 1].pane_id.as_str(), pane.pane_id.as_str()) {
            return !same_opt(&before[n - 1].session_id, &pane.session_id);
        }
        n = n - 1;
    }
    true
}

fn swapped_sessions(before: &Vec<RepoGroup>, after: &Vec<RepoGroup>) -> (yes: bool)
    ensures
        yes == sessions_swapped(
            group::grouped_panes(before@),
            group::grouped_panes(after@),
        ),
{
    let old_panes = group::group_panes(before);
    let new_panes = group::group_panes(after);
    let ghost old_all = group::grouped_panes(before@);
    let ghost new_all = group::grouped_panes(after@);
    let mut i: usize = 0;
    while i < new_panes.len()
        invariant
            i <= new_panes@.len() == new_all.len(),
            old_panes@.len() == old_all.len(),
            new_all == group::grouped_panes(after@),
            old_all == group::grouped_panes(before@),
            forall|k: int| 0 <= k < new_panes@.len() ==> *(#[trigger] new_panes@[k]) == new_all[k],
            forall|k: int| 0 <= k < old_panes@.len() ==> *(#[trigger] old_panes@[k]) == old_all[k],
            forall|k: int| 0 <= k < i ==> !session_swapped(old_all, #[trigger] new_all[k]),
        decreases new_panes@.len() - i,
    {
        proof {
            assert(*new_panes@[i as int] == new_all[i as int]);
        }
        if swapped_session(&old_panes, Ghost(old_all), new_panes[i]) {
            return true;
        }
        i = i + 1;
    }
    false
}

/// Whether `taken` is `before` with the groups of a new listing, and its rows
/// not listed anew yet.
pub open spec fn listing_taken(
    before: AppState,
    sidebar_focused: bool,
    groups: Vec<RepoGroup>,
    now_ms: u64,
    due: bool,
    taken: AppState,
) -> bool {
    let waited = match before.extensions.last_refresh {
        Some(last) => now_ms - last >= crate::state::extensions::REFRESH_MS,
        None => true,
    };
    &&& due == (waited && before.extensions.config is Some)
    &&& taken.pane_states@ == before.pane_states@.restrict(pane_runtime::group_ids(groups@))
    &&& taken.pane_states.seen == before.pane_states.seen
    &&& taken == (AppState {
        repo_groups: groups,
        focus_state: crate::state::focus::FocusState { sidebar_focused, ..before.focus_state },
        extensions: crate::state::extensions::ExtensionsState {
            last_refresh: if waited {
                Some(now_ms)
            } else {
                before.extensions.last_refresh
            },
            ..before.extensions
        },
        sessions: crate::state::SessionNames {
            dirty: before.sessions.dirty || sessions_swapped(
                group::grouped_panes(before.repo_groups@),
                group::grouped_panes(groups@),
            ),
            ..before.sessions
        },
        pane_states: taken.pane_states,
        ..before
    })
}

impl AppState {
    /// Gives every pane the label of its session, by the labels that are cached.
    pub fn refresh_session_names(&mut self)
        ensures
            groups_named(
                old(self).sessions.names@,
                old(self).repo_groups@,
                final(self).repo_groups@,
            ),
            *final(self) == (AppState { repo_groups: final(self).repo_groups, ..*old(self) }),
    {
        let ghost start = self.repo_groups@;
        let mut i: usize = 0;
        while i < self.repo_groups.len()
            invariant
                i <= self.repo_groups@.len() == start.len(),
                *self == (AppState { repo_groups: self.repo_groups, ..*old(self) }),
                forall|k: int|
                    0 <= k < i ==> {
                        &&& panes_named(
                            old(self).sessions.names@,
                            start[k].panes@,
                            (#[trigger] self.repo_groups@[k]).panes@,
                        )
                        &&& self.repo_groups@[k] == (RepoGroup {
                            panes: self.repo_groups@[k].panes,
                            ..start[k]
                        })
                    },
                forall|k: int|
                    i <= k < start.len() ==> #[trigger] self.repo_groups@[k] == start[k],
            decreases self.repo_groups@.len() - i,
        {
            name_panes(&mut self.repo_groups[i].panes, &self.sessions.names);
            i = i + 1;
        }
    }

    /// Gives the panes the labels of their sessions where panes may lack them.
    pub fn settle_session_names(&mut self)
        ensures
            names_settled(*old(self), *final(self)),
    {
        if self.sessions.dirty {
            self.refresh_session_names();
            self.sessions.dirty = false;
        }
    }

    /// Takes in the groups of a new listing and the pane that tmux has active, and
    /// says whether the panes are to be inspected. Labels of sessions are due
    /// again when a pane appeared or swapped its session.
    pub fn apply_session_snapshot(
        &mut self,
        sidebar_focused: bool,
        groups: Vec<RepoGroup>,
        active: Option<String>,
        now_ms: u64,
    ) -> (due: bool)
        ensures
            snapshot_applied(
                *old(self),
                sidebar_focused,
                groups,
                active,
                now_ms,
                due,
                *final(self),
            ),
    {
        self.focus_state.sidebar_focused = sidebar_focused;
        let swapped = swapped_sessions(&self.repo_groups, &groups);
        self.repo_groups = groups;
        let due = self.extensions.refresh(now_ms);
        if swapped {
            self.sessions.dirty = true;
        }
        self.prune_pane_states_to_current_panes();
        let ghost taken = *self;
        self.rebuild_row_targets();
        let ghost rebuilt = *self;
        self.find_focused_pane(active);
        proof {
            assert(listing_taken(*old(self), sidebar_focused, groups, now_ms, due, taken));
            assert(layout::rows_rebuilt(taken, rebuilt));
        }
        due
    }
}

// Background shells.

/// Whether a character belongs to a word of a command. A hyphen, an underscore
/// and a dot do, so that `cargo-watch` is not found in `cargo-watch-bin`; a slash
/// does not, so that a program is found behind its directory.
pub open spec fn is_command_char(ch: char) -> bool {
    ||| 'a' <= ch <= 'z'
    ||| 'A' <= ch <= 'Z'
    ||| '0' <= ch <= '9'
    ||| ch == '_'
    ||| ch == '-'
    ||| ch == '.'
}

/// Whether what stands at `at` is not part of a longer word.
pub open spec fn stands_alone(line: Seq<char>, command: Seq<char>, at: int) -> bool {
    let end = at + command.len();
    &&& at == 0 || !is_command_char(line[at - 1])
    &&& end == line.len() || !is_command_char(line[end])
}

/// Whether one of the occurrences of a command from `from` on stands alone.
/// Occurrences are taken one behind the other.
pub open spec fn matches_from(line: Seq<char>, command: Seq<char>, from: int) -> bool
    decreases line.len() - from + 1,
{
    if from < 0 || from > line.len() || command.len() == 0 {
        false
    } else {
        match scan::find_from(line, command, from) {
            Some(at) => from <= at <= line.len() - command.len() && (stands_alone(line, command, at) || matches_from(
                line,
                command,
                at + command.len(),
            )),
            None => false,
        }
    }
}

fn command_char(ch: char) -> (yes: bool)
    ensures
        yes == is_command_char(ch),
{
    ('a' <= ch && ch <= 'z') || ('A' <= ch && ch <= 'Z') || ('0' <= ch && ch <= '9') || ch == '_'
        || ch == '-' || ch == '.'
}

/// Whether a line of `ps`, in the form in which tmux options keep values, runs a
/// command.
pub fn ps_line_matches_cmd(normalized_line: &str, cmd: &str) -> (yes: bool)
    ensures
        yes == matches_from(normalized_line@, cmd@, 0),
{
    let line = chars_of(normalized_line);
    let command = chars_of(cmd);
    if command.len() == 0 {
        return false;
    }
    let mut from: usize = 0;
    loop
        invariant
            line@ == normalized_line@,
            command@ == cmd@,
            command@.len() > 0,
            from <= line@.len(),
            matches_from(line@, command@, 0) == matches_from(line@, command@, from as int),
        decreases line@.len() - from,
    {
        match find_chars(line.as_slice(), command.as_slice(), from) {
            Some(at) => {
                let end: usize = at + command.len();
                let before_ok = at == 0 || !command_char(line[at - 1]);
                let after_ok = end == line.len() || !command_char(line[end]);
                if before_ok && after_ok {
                    return true;
                }
                from = end;
            },
            None => {
                return false;
            },
        }
    }
}

/// Whether a process of a tree runs a command.
pub open spec fn shell_runs(snapshot: ProcessSnapshot, root: u32, command: Seq<char>) -> bool {
    exists|line: Seq<char>| #[trigger]
        process::runs_line(snapshot, seq![root], line) && matches_from(
            cli::sanitized(line),
            command,
            0,
        )
}

/// Whether the background shell of a pane is known to be gone. Of a placeholder,
/// or without a process of the pane, nothing is known.
pub open spec fn shell_gone(pane: PaneModel, snapshot: ProcessSnapshot) -> bool {
    &&& pane.bg_shell_cmd is Some
    &&& pane.bg_shell_cmd->0 != options::BG_CMD_PLACEHOLDER@
    &&& pane.pane_pid is Some
    &&& !shell_runs(snapshot, pane.pane_pid->0, pane.bg_shell_cmd->0)
}

/// A pane without its background shell where that is gone.
pub open spec fn shell_cleared(pane: PaneModel, snapshot: ProcessSnapshot) -> PaneModel {
    if shell_gone(pane, snapshot) {
        PaneModel {
            bg_shell_cmd: None,
            status: if pane.status == PaneStatus::Background {
                PaneStatus::Idle
            } else {
                pane.status
            },
            ..pane
        }
    } else {
        pane
    }
}

/// The changes of options with which the background shell of a pane goes away.
pub open spec fn shell_writes(pane: PaneModel, snapshot: ProcessSnapshot) -> Seq<
    options::WriteModel,
> {
    let clear = options::WriteModel::Clear { pane: pane.pane_id, key: PANE_BG_CMD@ };
    if !shell_gone(pane, snapshot) {
        Seq::<options::WriteModel>::empty()
    } else if pane.status == PaneStatus::Background {
        seq![
            clear,
            options::WriteModel::Assign {
                pane: pane.pane_id,
                key: PANE_STATUS@,
                value: "idle"@,
            },
        ]
    } else {
        seq![clear]
    }
}

/// The panes without the background shells that are gone.
pub open spec fn cleared_panes(panes: Seq<PaneModel>, snapshot: ProcessSnapshot) -> Seq<PaneModel> {
    panes.map_values(|pane: PaneModel| shell_cleared(pane, snapshot))
}

/// The windows without the background shells that are gone.
pub open spec fn cleared_windows(windows: Seq<WindowModel>, snapshot: ProcessSnapshot) -> Seq<
    WindowModel,
> {
    windows.map_values(
        |window: WindowModel|
            (WindowModel { panes: cleared_panes(window.panes, snapshot), ..window }),
    )
}

/// The sessions without the background shells that are gone.
pub open spec fn cleared_sessions(sessions: Seq<SessionModel>, snapshot: ProcessSnapshot) -> Seq<
    SessionModel,
> {
    sessions.map_values(
        |session: SessionModel|
            (SessionModel { windows: cleared_windows(session.windows, snapshot), ..session }),
    )
}

/// The changes for a list of panes, in order.
pub open spec fn panes_writes(panes: Seq<PaneModel>, snapshot: ProcessSnapshot) -> Seq<
    options::WriteModel,
>
    decreases panes.len(),
{
    if panes.len() == 0 {
        Seq::<options::WriteModel>::empty()
    } else {
        panes_writes(panes.drop_last(), snapshot) + shell_writes(panes.last(), snapshot)
    }
}

/// The changes for a list of windows, in order.
pub open spec fn windows_writes(windows: Seq<WindowModel>, snapshot: ProcessSnapshot) -> Seq<
    options::WriteModel,
>
    decreases windows.len(),
{
    if windows.len() == 0 {
        Seq::<options::WriteModel>::empty()
    } else {
        windows_writes(windows.drop_last(), snapshot) + panes_writes(
            windows.last().panes,
            snapshot,
        )
    }
}

/// The changes for a list of sessions, in order.
pub open spec fn sessions_writes(sessions: Seq<SessionModel>, snapshot: ProcessSnapshot) -> Seq<
    options::WriteModel,
>
    decreases sessions.len(),
{
    if sessions.len() == 0 {
        Seq::<options::WriteModel>::empty()
    } else {
        sessions_writes(sessions.drop_last(), snapshot) + windows_writes(
            sessions.last().windows,
            snapshot,
        )
    }
}

fn tree_runs(snapshot: &ProcessSnapshot, root: u32, command: &str) -> (yes: bool)
    ensures
        yes == shell_runs(*snapshot, root, command@),
{
    let roots = [root];
    proof {
        assert(roots@ =~= seq![root]);
    }
    let lines = snapshot.command_lines_for_tree(&roots);
    let ghost found = text::texts(lines@);
    let mut i: usize = 0;
    while i < lines.len()
        invariant
            i <= lines@.len(),
            found == text::texts(lines@),
            forall|line: Seq<char>| #[trigger]
                found.contains(line) <==> process::runs_line(*snapshot, seq![root], line),
            forall|k: int|
                0 <= k < i ==> !matches_from(cli::sanitized(#[trigger] found[k]), command@, 0),
        decreases lines@.len() - i,
    {
        let line = sanitize_tmux_value(lines[i].as_str());
        proof {
            assert(found[i as int] == lines@[i as int]@);
            assert(found.contains(found[i as int]));
        }
        if ps_line_matches_cmd(line.as_str(), command) {
            return true;
        }
        i = i + 1;
    }
    proof {
        assert forall|line: Seq<char>| #[trigger]
            process::runs_line(*snapshot, seq![root], line) implies !matches_from(
            cli::sanitized(line),
            command@,
            0,
        ) by {
            assert(found.contains(line));
            let k = found.index_of(line);
            assert(found[k] == line);
        }
    }
    false
}

fn clear_shell(pane: &mut PaneInfo, snapshot: &ProcessSnapshot, options: &mut PaneOptions)
    ensures
        final(pane)@ == shell_cleared(old(pane)@, *snapshot),
        final(options)@ == old(options)@ + shell_writes(old(pane)@, *snapshot),
{
    let ghost before = options@;
    let gone = match (&pane.bg_shell_cmd, pane.pane_pid) {
        (Some(command), Some(root)) => !same(command.as_str(), options::BG_CMD_PLACEHOLDER)
            && !tree_runs(snapshot, root, command.as_str()),
        _ => false,
    };
    if gone {
        unset_pane_option(options, pane.pane_id.as_str(), PANE_BG_CMD);
        if pane.status == PaneStatus::Background {
            set_pane_option(options, pane.pane_id.as_str(), PANE_STATUS, "idle");
            pane.status = PaneStatus::Idle;
        }
        pane.bg_shell_cmd = None;
    }
    proof {
        assert(options@ =~= before + shell_writes(old(pane)@, *snapshot));
    }
}

fn clear_shells_of_panes(
    panes: &mut Vec<PaneInfo>,
    snapshot: &ProcessSnapshot,
    options: &mut PaneOptions,
)
    ensures
        types::pane_models(final(panes)@) == cleared_panes(
            types::pane_models(old(panes)@),
            *snapshot,
        ),
        final(options)@ == old(options)@ + panes_writes(
            types::pane_models(old(panes)@),
            *snapshot,
        ),
{
    let ghost start = panes@;
    let ghost models = types::pane_models(start);
    let ghost before = options@;
    let mut i: usize = 0;
    proof {
        assert(models.take(0) =~= Seq::<PaneModel>::empty());
        assert(before + panes_writes(models.take(0), *snapshot) =~= before);
    }
    while i < panes.len()
        invariant
            i <= panes@.len() == start.len(),
            models == types::pane_models(start),
            options@ == before + panes_writes(models.take(i as int), *snapshot),
            forall|k: int|
                0 <= k < i ==> (#[trigger] panes@[k])@ == shell_cleared(start[k]@, *snapshot),
            forall|k: int| i <= k < panes@.len() ==> #[trigger] panes@[k] == start[k],
        decreases panes@.len() - i,
    {
        let ghost so_far = options@;
        clear_shell(&mut panes[i], snapshot, options);
        proof {
            assert(models.take(i + 1).drop_last() =~= models.take(i as int));
            assert(options@ =~= before + panes_writes(models.take(i + 1), *snapshot));
        }
        i = i + 1;
    }
    proof {
        assert(models.take(i as int) =~= models);
        assert(types::pane_models(panes@) =~= cleared_panes(models, *snapshot));
    }
}

fn clear_shells_of_windows(
    windows: &mut Vec<WindowInfo>,
    snapshot: &ProcessSnapshot,
    options: &mut PaneOptions,
)
    ensures
        types::window_models(final(windows)@) == cleared_windows(
            types::window_models(old(windows)@),
            *snapshot,
        ),
        final(options)@ == old(options)@ + windows_writes(
            types::window_models(old(windows)@),
            *snapshot,
        ),
{
    let ghost start = windows@;
    let ghost models = types::window_models(start);
    let ghost before = options@;
    let mut i: usize = 0;
    proof {
        assert(models.take(0) =~= Seq::<WindowModel>::empty());
        assert(before + windows_writes(models.take(0), *snapshot) =~= before);
    }
    while i < windows.len()
        invariant
            i <= windows@.len() == start.len(),
            models == types::window_models(start),
            options@ == before + windows_writes(models.take(i as int), *snapshot),
            forall|k: int|
                0 <= k < i ==> (#[trigger] windows@[k])@ == (WindowModel {
                    panes: cleared_panes(start[k]@.panes, *snapshot),
                    ..start[k]@
                }),
            forall|k: int| i <= k < windows@.len() ==> #[trigger] windows@[k] == start[k],
        decreases windows@.len() - i,
    {
        clear_shells_of_panes(&mut windows[i].panes, snapshot, options);
        proof {
            assert(models.take(i + 1).drop_last() =~= models.take(i as int));
            assert(options@ =~= before + windows_writes(models.take(i + 1), *snapshot));
        }
        i = i + 1;
    }
    proof {
        assert(models.take(i as int) =~= models);
        assert(types::window_models(windows@) =~= cleared_windows(models, *snapshot));
    }
}

/// Clears the background shells that no longer run. Their panes turn idle where
/// nothing else is running.
pub fn clear_dead_bg_shells(
    sessions: &mut Vec<SessionInfo>,
    process_snapshot: &ProcessSnapshot,
    options: &mut PaneOptions,
)
    ensures
        types::session_models(final(sessions)@) == cleared_sessions(
            types::session_models(old(sessions)@),
            *process_snapshot,
        ),
        final(options)@ == old(options)@ + sessions_writes(
            types::session_models(old(sessions)@),
            *process_snapshot,
        ),
{
    let ghost start = sessions@;
    let ghost models = types::session_models(start);
    let ghost before = options@;
    let mut i: usize = 0;
    proof {
        assert(models.take(0) =~= Seq::<SessionModel>::empty());
        assert(before + sessions_writes(models.take(0), *process_snapshot) =~= before);
    }
    while i < sessions.len()
        invariant
            i <= sessions@.len() == start.len(),
            models == types::session_models(start),
            options@ == before + sessions_writes(models.take(i as int), *process_snapshot),
            forall|k: int|
                0 <= k < i ==> (#[trigger] sessions@[k])@ == (SessionModel {
                    windows: cleared_windows(start[k]@.windows, *process_snapshot),
                    ..start[k]@
                }),
            forall|k: int| i <= k < sessions@.len() ==> #[trigger] sessions@[k] == start[k],
        decreases sessions@.len() - i,
    {
        clear_shells_of_windows(&mut sessions[i].windows, process_snapshot, options);
        proof {
            assert(models.take(i + 1).drop_last() =~= models.take(i as int));
            assert(options@ =~= before + sessions_writes(models.take(i + 1), *process_snapshot));
        }
        i = i + 1;
    }
    proof {
        assert(models.take(i as int) =~= models);
        assert(types::session_models(sessions@) =~= cleared_sessions(models, *process_snapshot));
    }
}

/// Whether a pane has a background shell.
pub open spec fn any_shell(panes: Seq<PaneInfo>) -> bool {
    exists|k: int| 0 <= k < panes.len() && (#[trigger] panes[k]).bg_shell_cmd is Some
}

/// Whether a pane has a background shell, so that a sweep needs the processes.
pub fn has_bg_shells(sessions: &Vec<SessionInfo>) -> (yes: bool)
    ensures
        yes == any_shell(types::panes_of(sessions@)),
{
    let panes = all_panes(sessions);
    let ghost all = types::panes_of(sessions@);
    let mut i: usize = 0;
    while i < panes.len()
        invariant
            i <= panes@.len() == all.len(),
            all == types::panes_of(sessions@),
            forall|k: int| 0 <= k < panes@.len() ==> *(#[trigger] panes@[k]) == all[k],
            forall|k: int| 0 <= k < i ==> (#[trigger] all[k]).bg_shell_cmd is None,
        decreases panes@.len() - i,
    {
        proof {
            assert(*panes@[i as int] == all[i as int]);
        }
        if panes[i].bg_shell_cmd.is_some() {
            return true;
        }
        i = i + 1;
    }
    false
}

/// Sweeps the background shells that no longer run, where a pane has one and the
/// processes are known.
pub fn sweep_dead_bg_shells(
    sessions: &mut Vec<SessionInfo>,
    process_snapshot: Option<&ProcessSnapshot>,
    options: &mut PaneOptions,
)
    ensures
        match process_snapshot {
            Some(snapshot) if any_shell(types::panes_of(old(sessions)@)) => {
                &&& types::session_models(final(sessions)@) == cleared_sessions(
                    types::session_models(old(sessions)@),
                    *snapshot,
                )
                &&& final(options)@ == old(options)@ + sessions_writes(
                    types::session_models(old(sessions)@),
                    *snapshot,
                )
            },
            _ => *final(sessions) == *old(sessions) && *final(options) == *old(options),
        },
{
    if !has_bg_shells(sessions) {
        return ;
    }
    if let Some(snapshot) = process_snapshot {
        clear_dead_bg_shells(sessions, snapshot, options);
    }
}

/// How often background shells are swept at most, in milliseconds.
pub const BG_SHELL_SWEEP_MS: u64 = 5000;

/// Whether background shells are to be swept. The first sweep is always due.
pub open spec fn sweep_due(state: AppState, now_ms: u64) -> bool {
    match state.timers.last_bg_shell_sweep {
        Some(last) => now_ms - last >= BG_SHELL_SWEEP_MS,
        None => true,
    }
}

// The activity log.

/// The entries of a log that are shown.
pub open spec fn shown_entries(entries: Seq<ActivityEntry>) -> Seq<ActivityEntry>
    decreases entries.len(),
{
    if entries.len() == 0 {
        Seq::<ActivityEntry>::empty()
    } else if entries.last().tool@ == TASK_RESET_MARKER@ {
        shown_entries(entries.drop_last())
    } else {
        shown_entries(entries.drop_last()).push(entries.last())
    }
}

/// Whether the log of the focused pane is the one that is shown already.
pub open spec fn log_shown(state: AppState, mtime: Option<u64>) -> bool {
    match (state.focus_state.focused_pane_id, mtime, state.activity.log_cache) {
        (Some(id), Some(time), Some(cache)) => cache.0@ == id@ && cache.1 == time,
        _ => false,
    }
}

fn hide_markers(entries: &mut Vec<ActivityEntry>)
    ensures
        final(entries)@ == shown_entries(old(entries)@),
{
    let ghost start = entries@;
    let ghost mut seen: int = 0;
    let mut i: usize = 0;
    proof {
        assert(start.take(0) =~= Seq::<ActivityEntry>::empty());
        assert(start.skip(0) =~= start);
        assert(entries@.take(0) =~= Seq::<ActivityEntry>::empty());
    }
    while i < entries.len()
        invariant
            i <= entries@.len(),
            0 <= seen <= start.len(),
            entries@.len() - i == start.len() - seen,
            entries@.skip(i as int) == start.skip(seen),
            entries@.take(i as int) == shown_entries(start.take(seen)),
        decreases entries@.len() - i,
    {
        let ghost before = entries@;
        proof {
            assert(start.take(seen + 1).drop_last() =~= start.take(seen));
            assert(before[i as int] == before.skip(i as int)[0]);
            assert(start[seen] == start.skip(seen)[0]);
        }
        if same(entries[i].tool.as_str(), TASK_RESET_MARKER) {
            entries.remove(i);
            proof {
                assert(entries@.take(i as int) =~= before.take(i as int));
                assert(entries@.skip(i as int) =~= before.skip(i as int).skip(1));
            }
        } else {
            i = i + 1;
            proof {
                assert(entries@.take(i as int) =~= before.take(i - 1).push(start[seen]));
                assert(entries@.skip(i as int) =~= before.skip(i - 1).skip(1));
            }
        }
        proof {
            assert(start.skip(seen).skip(1) =~= start.skip(seen + 1));
            seen = seen + 1;
        }
    }
    proof {
        assert(start.take(seen) =~= start);
        assert(entries@.take(i as int) =~= entries@);
    }
}

impl AppState {
    /// Whether background shells are to be swept.
    pub fn bg_sweep_due(&self, now_ms: u64) -> (due: bool)
        ensures
            due == sweep_due(*self, now_ms),
    {
        match self.timers.last_bg_shell_sweep {
            Some(last) => now_ms >= last && now_ms - last >= BG_SHELL_SWEEP_MS,
            None => true,
        }
    }

    /// Sweeps the background shells where that is due.
    pub fn sweep_dead_bg_shells_if_due(
        &mut self,
        sessions: &mut Vec<SessionInfo>,
        process_snapshot: Option<&ProcessSnapshot>,
        now_ms: u64,
    )
        ensures
            swept(
                *old(self),
                *old(sessions),
                process_snapshot,
                now_ms,
                *final(self),
                *final(sessions),
            ),
    {
        if !self.bg_sweep_due(now_ms) {
            return ;
        }
        sweep_dead_bg_shells(sessions, process_snapshot, &mut self.options);
        self.timers.last_bg_shell_sweep = Some(now_ms);
    }

    /// Whether the log of the focused pane is the one that is shown already, so
    /// that it need not be read.
    pub fn activity_log_shown(&self, mtime: Option<u64>) -> (yes: bool)
        ensures
            yes == log_shown(*self, mtime),
    {
        match (&self.focus_state.focused_pane_id, mtime, &self.activity.log_cache) {
            (Some(id), Some(time), Some(cache)) => same(cache.0.as_str(), id.as_str()) && cache.1
                == time,
            _ => false,
        }
    }

    /// Shows the log of the focused pane. Without a focused pane nothing is shown;
    /// a log that is shown already stays.
    pub fn refresh_activity_log(&mut self, mtime: Option<u64>, entries: Vec<ActivityEntry>)
        ensures
            *final(self) == (AppState {
                activity: crate::state::activity::ActivityState {
                    entries: final(self).activity.entries,
                    log_cache: final(self).activity.log_cache,
                    ..old(self).activity
                },
                ..*old(self)
            }),
            match old(self).focus_state.focused_pane_id {
                None => {
                    &&& final(self).activity.entries@.len() == 0
                    &&& final(self).activity.log_cache is None
                },
                Some(id) => if log_shown(*old(self), mtime) {
                    final(self).activity == old(self).activity
                } else {
                    &&& final(self).activity.entries@ == shown_entries(entries@)
                    &&& match mtime {
                        Some(time) => final(self).activity.log_cache matches Some(cache) && cache.0@
                            == id@ && cache.1 == time,
                        None => final(self).activity.log_cache is None,
                    }
                },
            },
    {
        if self.activity_log_shown(mtime) {
            return ;
        }
        match &self.focus_state.focused_pane_id {
            None => {
                self.activity.entries = Vec::new();
                self.activity.log_cache = None;
            },
            Some(id) => {
                let cache: Option<(String, u64)> = match mtime {
                    Some(time) => Some((id.clone(), time)),
                    None => None,
                };
                let mut shown = entries;
                hide_markers(&mut shown);
                self.activity.entries = shown;
                self.activity.log_cache = cache;
            },
        }
    }
}

// Laws.

/// One missed sample never gives a pane up, two in a row always do, and a sample
/// that finds the agent starts the count anew.
pub proof fn two_misses_give_up(prior: RuntimeModel)
    ensures
        sampled(prior, true).process_liveness_misses == 0,
        sampled(sampled(prior, true), false).process_liveness_misses < MISSES_UNTIL_DEAD,
        sampled(sampled(prior, false), false).process_liveness_misses >= MISSES_UNTIL_DEAD,
{
}

/// Every pane that is kept passes, in order and unchanged.
pub proof fn kept_panes_pass(panes: Seq<PaneModel>, keep: Keep)
    ensures
        forall|k: int|
            0 <= k < kept_panes(panes, keep).len() ==> keep.keeps(
                (#[trigger] kept_panes(panes, keep)[k]).pane_id,
            ) && panes.contains(kept_panes(panes, keep)[k]),
    decreases panes.len(),
{
    if panes.len() > 0 {
        kept_panes_pass(panes.drop_last(), keep);
        let before = kept_panes(panes.drop_last(), keep);
        assert forall|k: int| 0 <= k < kept_panes(panes, keep).len() implies keep.keeps(
            (#[trigger] kept_panes(panes, keep)[k]).pane_id,
        ) && panes.contains(kept_panes(panes, keep)[k]) by {
            if k < before.len() {
                assert(kept_panes(panes, keep)[k] == before[k]);
                let at = panes.drop_last().index_of(before[k]);
                assert(panes.drop_last().contains(before[k]));
                assert(panes[at] == before[k]);
            } else {
                assert(panes[panes.len() - 1] == panes.last());
            }
        }
    }
}

/// No window is kept without a pane, and no session without a window.
pub proof fn nothing_kept_is_empty(sessions: Seq<SessionModel>, keep: Keep)
    ensures
        forall|i: int|
            0 <= i < kept_sessions(sessions, keep).len() ==> (#[trigger] kept_sessions(
                sessions,
                keep,
            )[i]).windows.len() > 0,
        forall|i: int, j: int|
            0 <= i < kept_sessions(sessions, keep).len() && 0 <= j < kept_sessions(
                sessions,
                keep,
            )[i].windows.len() ==> (#[trigger] kept_sessions(
                sessions,
                keep,
            )[i].windows[j]).panes.len() > 0,
    decreases sessions.len(),
{
    if sessions.len() > 0 {
        nothing_kept_is_empty(sessions.drop_last(), keep);
        kept_windows_have_panes(sessions.last().windows, keep);
        let before = kept_sessions(sessions.drop_last(), keep);
        let kept = kept_sessions(sessions, keep);
        assert forall|i: int| 0 <= i < kept.len() implies (#[trigger] kept[i]).windows.len()
            > 0 by {
            if i < before.len() {
                assert(kept[i] == before[i]);
            }
        }
        assert forall|i: int, j: int|
            0 <= i < kept.len() && 0 <= j < kept[i].windows.len() implies (
        #[trigger] kept[i].windows[j]).panes.len() > 0 by {
            if i < before.len() {
                assert(kept[i] == before[i]);
                assert(before[i].windows[j].panes.len() > 0);
            } else {
                assert(kept[i].windows == kept_windows(sessions.last().windows, keep));
            }
        }
    }
}

proof fn kept_windows_have_panes(windows: Seq<WindowModel>, keep: Keep)
    ensures
        forall|j: int|
            0 <= j < kept_windows(windows, keep).len() ==> (#[trigger] kept_windows(
                windows,
                keep,
            )[j]).panes.len() > 0,
    decreases windows.len(),
{
    if windows.len() > 0 {
        kept_windows_have_panes(windows.drop_last(), keep);
        let before = kept_windows(windows.drop_last(), keep);
        let kept = kept_windows(windows, keep);
        assert forall|j: int| 0 <= j < kept.len() implies (#[trigger] kept[j]).panes.len() > 0 by {
            if j < before.len() {
                assert(kept[j] == before[j]);
            }
        }
    }
}

/// A sweep finds nothing that an earlier one, by the same processes, left behind.
pub proof fn sweep_is_idempotent(pane: PaneModel, snapshot: ProcessSnapshot)
    ensures
        !shell_gone(shell_cleared(pane, snapshot), snapshot),
        shell_cleared(shell_cleared(pane, snapshot), snapshot) == shell_cleared(pane, snapshot),
{
}

/// Completed tasks are dismissed, and stay dismissed for as long as the log holds
/// them alone.
pub proof fn completed_tasks_stay_dismissed(
    prior: RuntimeModel,
    active: bool,
    now: u64,
    later: u64,
    log: LogModel,
)
    requires
        log.tasks.len() > 0,
        log.tasks.len() <= usize::MAX,
        activity::tasks_done(log.tasks),
        !log_unchanged(prior, log.mtime, log.len),
        prior.task_dismissed_total != Some(log.tasks.len() as usize),
    ensures
        ({
            let once = task_update(prior, active, now, log);
            let twice = task_update(once, active, later, log);
            &&& once.task_progress is None
            &&& twice.task_progress is None
            &&& twice.task_dismissed_total == once.task_dismissed_total
        }),
{
}

/// An agent that is inactive for less than the grace period keeps the tasks that
/// are shown.
pub proof fn tasks_outlast_a_short_pause(prior: RuntimeModel, now: u64, log: LogModel)
    requires
        log.tasks.len() > 0,
        !activity::tasks_done(log.tasks),
        prior.inactive_since matches Some(since) ==> now - since < INACTIVE_GRACE_SECS,
    ensures
        task_update(prior, false, now, log).task_progress == Some(log.tasks),
{
}

/// What becomes of a state when the sessions are named, where that is due.
pub open spec fn names_settled(before: AppState, after: AppState) -> bool {
    if before.sessions.dirty {
        &&& groups_named(before.sessions.names@, before.repo_groups@, after.repo_groups@)
        &&& after == (AppState {
            repo_groups: after.repo_groups,
            sessions: crate::state::SessionNames { dirty: false, ..before.sessions },
            ..before
        })
    } else {
        after == before
    }
}

/// What becomes of a state when the groups of a listing and the active pane are taken
/// in.
pub open spec fn snapshot_applied(
    before: AppState,
    sidebar_focused: bool,
    groups: Vec<RepoGroup>,
    active: Option<String>,
    now_ms: u64,
    due: bool,
    after: AppState,
) -> bool {
    exists|taken: AppState, rebuilt: AppState|
        #![trigger layout::rows_rebuilt(taken, rebuilt)]
        listing_taken(before, sidebar_focused, groups, now_ms, due, taken)
            && layout::rows_rebuilt(taken, rebuilt) && after == (AppState {
            focus_state: crate::state::focus::FocusState {
                focused_pane_id: if active is Some {
                    active
                } else {
                    rebuilt.focus_state.focused_pane_id
                },
                ..rebuilt.focus_state
            },
            ..rebuilt
        })
}

// A listing.

/// What becomes of a state and a listing when the background shells are swept, where
/// that is due.
pub open spec fn swept(
    before: AppState,
    sessions: Vec<SessionInfo>,
    process_snapshot: Option<&ProcessSnapshot>,
    now_ms: u64,
    after: AppState,
    left: Vec<SessionInfo>,
) -> bool {
    if sweep_due(before, now_ms) {
        &&& after == (AppState {
            options: after.options,
            timers: crate::state::Timers { last_bg_shell_sweep: Some(now_ms), ..before.timers },
            ..before
        })
        &&& match process_snapshot {
            Some(snapshot) if any_shell(types::panes_of(sessions@)) => {
                &&& types::session_models(left@) == cleared_sessions(
                    types::session_models(sessions@),
                    *snapshot,
                )
                &&& after.options@ == before.options@ + sessions_writes(
                    types::session_models(sessions@),
                    *snapshot,
                )
            },
            _ => left == sessions && after.options == before.options,
        }
    } else {
        after == before && left == sessions
    }
}

/// What becomes of a state and a listing when the panes whose agent is gone are left
/// out, by the processes that run. Without a process list every pane stays.
pub open spec fn reconciled(
    before: AppState,
    sessions: Vec<SessionInfo>,
    process_snapshot: Option<&ProcessSnapshot>,
    after: AppState,
    kept: Vec<SessionInfo>,
) -> bool {
    exists|found: Option<PaneProcessSnapshot>| #[trigger]
        crate::port::liveness_found(types::panes_of(sessions@), process_snapshot, found)
            && match found {
            Some(scanned) => {
                let panes = types::panes_of(sessions@);
                let live = scanned.live_agent_panes@;
                let known = before.pane_states.models();
                &&& after.pane_states.models() == all_sampled(known, panes, live)
                &&& after.pane_states.seen == before.pane_states.seen
                &&& after.options@ == before.options@ + dead_writes(
                    dead_panes(known, panes, live),
                )
                &&& after == (AppState {
                    pane_states: after.pane_states,
                    options: after.options,
                    ..before
                })
                &&& types::session_models(kept@) == kept_sessions(
                    types::session_models(sessions@),
                    Keep::Unmissed(&after.pane_states),
                )
            },
            None => after == before && kept == sessions,
        }
}

/// What becomes of a state when tmux was asked for its panes. A listing that failed
/// changes nothing and leaves none; the panes of one that did not are swept, and then
/// held against the processes that run.
pub open spec fn taken(
    before: AppState,
    listed: Option<Vec<SessionInfo>>,
    process_snapshot: Option<&ProcessSnapshot>,
    now_ms: u64,
    after: AppState,
    next: Option<Vec<SessionInfo>>,
) -> bool {
    match listed {
        None => next is None && after == before,
        Some(sessions) => next matches Some(kept) && exists|middle: AppState, left: Vec<
            SessionInfo,
        >|
            #![trigger swept(before, sessions, process_snapshot, now_ms, middle, left)]
            swept(before, sessions, process_snapshot, now_ms, middle, left) && reconciled(
                middle,
                left,
                process_snapshot,
                after,
                kept,
            ),
    }
}

/// What becomes of a state when a listing is shown: its panes are taken in, and then
/// the sessions are named where that is due.
pub open spec fn shown(
    before: AppState,
    sidebar_focused: bool,
    groups: Vec<RepoGroup>,
    active: Option<String>,
    now_ms: u64,
    due: bool,
    after: AppState,
) -> bool {
    exists|applied: AppState|
        #![trigger snapshot_applied(before, sidebar_focused, groups, active, now_ms, due, applied)]
        snapshot_applied(before, sidebar_focused, groups, active, now_ms, due, applied)
            && names_settled(applied, after)
}

impl AppState {
    /// Whether the processes are to be looked at before a listing is taken: it has
    /// background shells, and these are to be swept.
    pub fn listing_needs_processes(&self, listed: &Option<Vec<SessionInfo>>, now_ms: u64) -> (yes:
        bool)
        ensures
            yes == (listed matches Some(sessions) && sweep_due(*self, now_ms) && any_shell(
                types::panes_of(sessions@),
            )),
    {
        match listed {
            Some(sessions) => self.bg_sweep_due(now_ms) && has_bg_shells(sessions),
            None => false,
        }
    }

    /// Takes what tmux listed, and gives the panes that stay. The listing counts only
    /// where it succeeded: one that failed keeps every pane, row and runtime state as
    /// it is.
    pub fn take_listing(
        &mut self,
        listed: Option<Vec<SessionInfo>>,
        process_snapshot: Option<&ProcessSnapshot>,
        now_ms: u64,
    ) -> (next: Option<Vec<SessionInfo>>)
        ensures
            listed is None ==> next is None && *final(self) == *old(self),
            taken(*old(self), listed, process_snapshot, now_ms, *final(self), next),
    {
        match listed {
            None => None,
            Some(mut sessions) => {
                let ghost given = sessions;
                self.sweep_dead_bg_shells_if_due(&mut sessions, process_snapshot, now_ms);
                let ghost middle = *self;
                let ghost left = sessions;
                let kept = self.reconcile_sessions(sessions, process_snapshot);
                proof {
                    assert(swept(*old(self), given, process_snapshot, now_ms, middle, left));
                    assert(reconciled(middle, left, process_snapshot, *self, kept));
                }
                Some(kept)
            },
        }
    }

    /// Whether the listening sockets are to be looked at: ports are shown, and due.
    pub fn listing_needs_sockets(&self, now_ms: u64) -> (yes: bool)
        ensures
            yes == (self.show_ports && ports_due(*self, now_ms)),
    {
        self.show_ports && self.port_refresh_due(now_ms)
    }

    /// Shows the panes that stay of a listing, by their groups, with the names of
    /// their sessions, and says whether the panes are to be inspected.
    pub fn show_listing(
        &mut self,
        sidebar_focused: bool,
        groups: Vec<RepoGroup>,
        active: Option<String>,
        now_ms: u64,
    ) -> (due: bool)
        ensures
            shown(*old(self), sidebar_focused, groups, active, now_ms, due, *final(self)),
    {
        let due = self.apply_session_snapshot(sidebar_focused, groups, active, now_ms);
        let ghost applied = *self;
        self.settle_session_names();
        proof {
            assert(snapshot_applied(
                *old(self),
                sidebar_focused,
                groups,
                active,
                now_ms,
                due,
                applied,
            ));
            assert(names_settled(applied, *self));
        }
        due
    }
}

// Laws of what a tick changes.

/// Whether each pane has an id of its own.
pub open spec fn own_ids(panes: Seq<PaneInfo>) -> bool {
    forall|i: int, j: int|
        0 <= i < j < panes.len() ==> (#[trigger] panes[i]).pane_id@ != (#[trigger] panes[j]).pane_id@
}

proof fn own_ids_without_the_last(panes: Seq<PaneInfo>)
    requires
        panes.len() > 0,
        own_ids(panes),
    ensures
        own_ids(panes.drop_last()),
        forall|i: int|
            0 <= i < panes.len() - 1 ==> (#[trigger] panes[i]).pane_id@ != panes.last().pane_id@,
{
    let rest = panes.drop_last();
    assert forall|i: int, j: int| 0 <= i < j < rest.len() implies (#[trigger] rest[i]).pane_id@ != (
    #[trigger] rest[j]).pane_id@ by {
        assert(panes[i].pane_id@ != panes[j].pane_id@);
    }
    assert(panes.last() == panes[panes.len() - 1]);
}

/// The tasks of each pane are refreshed from its own log, and by whether it is at work; of
/// what is no pane nothing changes.
pub proof fn each_pane_has_the_tasks_of_its_log(
    before: Map<Seq<char>, RuntimeModel>,
    panes: Seq<PaneInfo>,
    now: u64,
    logs: Map<Seq<char>, LogRead>,
    k: int,
    other: Seq<char>,
)
    requires
        own_ids(panes),
        0 <= k < panes.len(),
        forall|i: int| 0 <= i < panes.len() ==> (#[trigger] panes[i]).pane_id@ != other,
    ensures
        ({
            let after = tasks_refreshed(before, panes, now, logs);
            let id = panes[k].pane_id@;
            &&& after.contains_key(id)
            &&& after[id] == task_update(
                pane_runtime::known_of(before, id),
                panes[k].status.active(),
                now,
                log_of(logs, id),
            )
            &&& pane_runtime::known_of(after, other) == pane_runtime::known_of(before, other)
        }),
    decreases panes.len(),
{
    let rest = panes.drop_last();
    own_ids_without_the_last(panes);
    assert(panes[panes.len() - 1].pane_id@ != other);
    assert forall|i: int| 0 <= i < rest.len() implies (#[trigger] rest[i]).pane_id@ != other by {
        assert(panes[i].pane_id@ != other);
    }
    if rest.len() > 0 {
        each_pane_has_the_tasks_of_its_log(
            before,
            rest,
            now,
            logs,
            if k < rest.len() {
                k
            } else {
                0
            },
            other,
        );
    }
    if k < rest.len() {
        assert(panes[k].pane_id@ != panes.last().pane_id@);
    }
}

/// The tasks in the log of an agent at work are shown as long as one is open; where none was
/// shown and all are completed, none is. An agent that has rested for three seconds no
/// longer shows open tasks, and one that has rested for less still does.
pub proof fn open_tasks_are_shown(prior: RuntimeModel, now: u64, log: LogModel)
    requires
        !log_unchanged(prior, log.mtime, log.len),
        log.tasks.len() <= usize::MAX,
    ensures
        ({
            let done = forall|i: int|
                0 <= i < log.tasks.len() ==> (#[trigger] log.tasks[i]).1 is Completed;
            let working = task_update(prior, true, now, log);
            let resting = task_update(prior, false, now, log);
            &&& log.tasks.len() == 0 ==> working.task_progress is None && resting.task_progress
                is None
            &&& log.tasks.len() > 0 && !done ==> working.task_progress == Some(log.tasks)
            &&& log.tasks.len() > 0 && !done ==> working.task_dismissed_total is None
            &&& log.tasks.len() > 0 && done && prior.task_progress is None
                ==> working.task_progress is None
            &&& log.tasks.len() > 0 && !done && prior.inactive_since is Some && now
                - prior.inactive_since->0 >= 3 ==> resting.task_progress is None
            &&& log.tasks.len() > 0 && !done && prior.inactive_since is Some && now
                - prior.inactive_since->0 < 3 ==> resting.task_progress == Some(log.tasks)
            &&& log.tasks.len() > 0 && !done && prior.inactive_since is None
                ==> resting.task_progress == Some(log.tasks)
            &&& working.inactive_since is None
            &&& resting.inactive_since == Some(
                match prior.inactive_since {
                    Some(since) => since,
                    None => now,
                },
            )
        }),
{
    let done = forall|i: int|
        0 <= i < log.tasks.len() ==> (#[trigger] log.tasks[i]).1 is Completed;
    assert(done <==> activity::tasks_done(log.tasks)) by {
        if done {
            assert forall|i: int| 0 <= i < log.tasks.len() implies (#[trigger] log.tasks[i]).1
                == TaskStatus::Completed by {
                assert(log.tasks[i].1 is Completed);
            }
        }
        if activity::tasks_done(log.tasks) {
            assert forall|i: int| 0 <= i < log.tasks.len() implies (
            #[trigger] log.tasks[i]).1 is Completed by {
                assert(log.tasks[i].1 == TaskStatus::Completed);
            }
        }
    }
}

/// While an agent works and its log stays as it is, its tasks do.
pub proof fn an_unchanged_log_changes_no_tasks(
    prior: RuntimeModel,
    now: u64,
    log: LogModel,
    mtime: u64,
    len: u64,
)
    requires
        prior.task_progress_log_mtime == Some(mtime),
        prior.task_progress_log_len == Some(len),
        log.mtime == Some(mtime),
        log.len == Some(len),
    ensures
        task_update(prior, true, now, log).task_progress == prior.task_progress,
        task_update(prior, true, now, log).task_dismissed_total == prior.task_dismissed_total,
        !log_unchanged(prior, Some((mtime + 1) as u64), Some(len)) || mtime == u64::MAX,
        !log_unchanged(prior, Some(mtime), Some((len + 1) as u64)) || len == u64::MAX,
        !log_unchanged(prior, None, Some(len)),
{
}

/// What a tick finds of a pane says nothing of the tasks, and what it finds of its tasks
/// nothing of the rest.
pub proof fn ticks_keep_what_they_do_not_find(
    prior: RuntimeModel,
    active: bool,
    now: u64,
    log: LogModel,
    live: bool,
)
    ensures
        ({
            let after = task_update(prior, active, now, log);
            &&& after.ports == prior.ports
            &&& after.command == prior.command
            &&& after.tab_pref == prior.tab_pref
            &&& after.process_liveness_misses == prior.process_liveness_misses
        }),
        ({
            let after = sampled(prior, live);
            &&& after.task_progress == prior.task_progress
            &&& after.task_dismissed_total == prior.task_dismissed_total
            &&& after.inactive_since == prior.inactive_since
            &&& after.tab_pref == prior.tab_pref
            &&& live ==> after.ports == prior.ports && after.command == prior.command
        }),
{
}

/// The agent of a pane is given up the second time in a row that it is not found, and each
/// pane is judged by its own processes; a pane without a process is not judged.
pub proof fn missing_twice_is_dead(
    before: Map<Seq<char>, RuntimeModel>,
    panes: Seq<PaneInfo>,
    live: Set<Seq<char>>,
    k: int,
)
    requires
        own_ids(panes),
        0 <= k < panes.len(),
    ensures
        ({
            let id = panes[k].pane_id@;
            let misses = pane_runtime::known_of(before, id).process_liveness_misses;
            let after = pane_runtime::known_of(all_sampled(before, panes, live), id);
            &&& dead_panes(before, panes, live).contains(id) <==> panes[k].pane_pid is Some
                && !live.contains(id) && misses >= 1
            &&& panes[k].pane_pid is None ==> after == pane_runtime::known_of(before, id)
            &&& panes[k].pane_pid is Some && live.contains(id) ==> after.process_liveness_misses
                == 0
            &&& panes[k].pane_pid is Some && !live.contains(id) && misses < 255
                ==> after.process_liveness_misses == misses + 1
        }),
    decreases panes.len(),
{
    let id = panes[k].pane_id@;
    let rest = panes.drop_last();
    own_ids_without_the_last(panes);
    let found = dead_panes(before, rest, live);
    let all = dead_panes(before, panes, live);
    let last = panes.last().pane_id@;
    if k < rest.len() {
        missing_twice_is_dead(before, rest, live, k);
        assert(panes[k].pane_id@ != last);
        if found.contains(id) {
            assert(all[found.index_of(id)] == id);
        }
        if all.contains(id) {
            let at = all.index_of(id);
            if at < found.len() {
                assert(found[at] == id);
            }
        }
    } else {
        others_are_not_sampled(before, rest, live, id);
        let known = all_sampled(before, rest, live);
        if !found.contains(id) && all.contains(id) {
            let at = all.index_of(id);
            if at < found.len() {
                assert(found[at] == id);
            }
        }
        if all.len() > found.len() {
            assert(all[found.len() as int] == id);
        }
    }
}

proof fn others_are_not_sampled(
    before: Map<Seq<char>, RuntimeModel>,
    panes: Seq<PaneInfo>,
    live: Set<Seq<char>>,
    id: Seq<char>,
)
    requires
        forall|i: int| 0 <= i < panes.len() ==> (#[trigger] panes[i]).pane_id@ != id,
    ensures
        pane_runtime::known_of(all_sampled(before, panes, live), id) == pane_runtime::known_of(
            before,
            id,
        ),
        !dead_panes(before, panes, live).contains(id),
    decreases panes.len(),
{
    if panes.len() > 0 {
        let rest = panes.drop_last();
        assert(panes[panes.len() - 1].pane_id@ != id);
        assert forall|i: int| 0 <= i < rest.len() implies (#[trigger] rest[i]).pane_id@ != id by {
            assert(panes[i].pane_id@ != id);
        }
        others_are_not_sampled(before, rest, live, id);
        let found = dead_panes(before, rest, live);
        let all = dead_panes(before, panes, live);
        if all.contains(id) {
            let at = all.index_of(id);
            if at < found.len() {
                assert(found[at] == id);
            }
        }
    }
}

proof fn one_pane_is_wiped(
    log: Seq<options::WriteModel>,
    pane: Seq<char>,
    other: Seq<char>,
    key: Seq<char>,
)
    ensures
        ({
            let after = log + query::clear_writes(pane, dead_keys());
            &&& options::option_value(after, pane, key) == if dead_keys().contains(key) {
                None
            } else {
                options::option_value(log, pane, key)
            }
            &&& other != pane ==> options::option_value(after, other, key)
                == options::option_value(log, other, key)
        }),
{
    let keys = dead_keys();
    let after = log + query::clear_writes(pane, keys);
    let cleared = log + keys.map_values(
        |key: Seq<char>| (options::WriteModel::Clear { pane, key }),
    );
    assert(after.drop_last() =~= cleared);
    query::cleared_keys_have_no_value(log, pane, keys, pane, key);
    query::cleared_keys_have_no_value(log, pane, keys, other, key);
}

/// A pane whose agent has died has no option left that tells of the agent, and the options
/// of panes whose agents live stay.
pub proof fn dead_panes_are_wiped(
    log: Seq<options::WriteModel>,
    dead: Seq<Seq<char>>,
    pane: Seq<char>,
    key: Seq<char>,
)
    requires
        key == "@pane_agent"@ || key == "@pane_status"@ || key == "@pane_attention"@ || key
            == "@pane_prompt"@ || key == "@pane_prompt_source"@ || key == "@pane_subagents"@ || key
            == "@pane_cwd"@ || key == "@pane_permission_mode"@ || key == "@pane_worktree_name"@
            || key == "@pane_worktree_branch"@ || key == "@pane_started_at"@ || key
            == "@pane_wait_reason"@ || key == "@pane_session_id"@ || key == "@pane_bg_cmd"@,
    ensures
        options::option_value(log + dead_writes(dead), pane, key) == if dead.contains(pane) {
            None
        } else {
            options::option_value(log, pane, key)
        },
    decreases dead.len(),
{
    let keys = dead_keys();
    assert(keys[0] == "@pane_agent"@ && keys[1] == "@pane_status"@ && keys[2] == "@pane_attention"@
        && keys[3] == "@pane_prompt"@ && keys[4] == "@pane_prompt_source"@ && keys[5]
        == "@pane_subagents"@ && keys[6] == "@pane_cwd"@ && keys[7] == "@pane_permission_mode"@
        && keys[8] == "@pane_worktree_name"@ && keys[9] == "@pane_worktree_branch"@ && keys[10]
        == "@pane_started_at"@ && keys[11] == "@pane_wait_reason"@ && keys[12]
        == "@pane_session_id"@ && keys[13] == "@pane_bg_cmd"@);
    assert(keys.contains(key));
    if dead.len() == 0 {
        assert(log + dead_writes(dead) =~= log);
    } else {
        let rest = dead.drop_last();
        let before = log + dead_writes(rest);
        dead_panes_are_wiped(log, rest, pane, key);
        assert(log + dead_writes(dead) =~= before + query::clear_writes(dead.last(), keys));
        one_pane_is_wiped(before, dead.last(), pane, key);
        assert(dead =~= rest.push(dead.last()));
        if dead.contains(pane) {
            let at = dead.index_of(pane);
            if at < rest.len() {
                assert(rest[at] == pane);
            }
        }
        if rest.contains(pane) {
            assert(dead[rest.index_of(pane)] == pane);
        }
        if dead.last() == pane {
            assert(dead[dead.len() - 1] == pane);
        }
    }
}

/// Every pane that passes is kept.
pub proof fn panes_that_pass_are_kept(panes: Seq<PaneModel>, keep: Keep, k: int)
    requires
        0 <= k < panes.len(),
        keep.keeps(panes[k].pane_id),
    ensures
        kept_panes(panes, keep).contains(panes[k]),
    decreases panes.len(),
{
    let rest = panes.drop_last();
    let before = kept_panes(rest, keep);
    let all = kept_panes(panes, keep);
    if k < rest.len() {
        panes_that_pass_are_kept(rest, keep, k);
        assert(all[before.index_of(panes[k])] == panes[k]);
    } else {
        assert(all[before.len() as int] == panes[k]);
    }
}

/// Each pane has the ports and the command that were found for it, and those alone; of
/// what is no pane nothing changes.
pub proof fn each_pane_has_its_ports(
    before: Map<Seq<char>, RuntimeModel>,
    panes: Seq<PaneInfo>,
    scanned: Option<PaneProcessSnapshot>,
    k: int,
    other: Seq<char>,
)
    requires
        0 <= k < panes.len(),
        forall|i: int| 0 <= i < panes.len() ==> (#[trigger] panes[i]).pane_id@ != other,
    ensures
        ({
            let id = panes[k].pane_id@;
            let after = ports_applied(before, panes, scanned);
            &&& after.contains_key(id)
            &&& after[id] == RuntimeModel {
                ports: after[id].ports,
                command: after[id].command,
                ..pane_runtime::known_of(before, id)
            }
            &&& match scanned {
                Some(sample) => {
                    &&& sample.ports_by_pane@.contains_key(id) ==> after[id].ports
                        == sample.ports_by_pane@[id]@
                    &&& !sample.ports_by_pane@.contains_key(id) ==> after[id].ports.len() == 0
                    &&& sample.command_by_pane@.contains_key(id) ==> after[id].command == Some(
                        sample.command_by_pane@[id]@,
                    )
                    &&& !sample.command_by_pane@.contains_key(id) ==> after[id].command is None
                },
                None => after[id].ports.len() == 0 && after[id].command is None,
            }
            &&& pane_runtime::known_of(after, other) == pane_runtime::known_of(before, other)
        }),
    decreases panes.len(),
{
    let rest = panes.drop_last();
    let id = panes[k].pane_id@;
    assert(panes[panes.len() - 1].pane_id@ != other);
    assert forall|i: int| 0 <= i < rest.len() implies (#[trigger] rest[i]).pane_id@ != other by {
        assert(panes[i].pane_id@ != other);
    }
    if rest.len() > 0 {
        each_pane_has_its_ports(
            before,
            rest,
            scanned,
            if k < rest.len() {
                k
            } else {
                0
            },
            other,
        );
    }
    ports_keep_the_rest(before, rest, scanned, panes.last().pane_id@);
}

proof fn ports_keep_the_rest(
    before: Map<Seq<char>, RuntimeModel>,
    panes: Seq<PaneInfo>,
    scanned: Option<PaneProcessSnapshot>,
    id: Seq<char>,
)
    ensures
        ({
            let after = pane_runtime::known_of(ports_applied(before, panes, scanned), id);
            after == RuntimeModel {
                ports: after.ports,
                command: after.command,
                ..pane_runtime::known_of(before, id)
            }
        }),
    decreases panes.len(),
{
    if panes.len() > 0 {
        ports_keep_the_rest(before, panes.drop_last(), scanned, id);
        ports_keep_the_rest(before, panes.drop_last(), scanned, panes.last().pane_id@);
    }
}

/// A line runs a command only where the command stands in it by itself, and does where
/// the first place of the command is such a one.
pub proof fn commands_are_found_by_themselves(line: Seq<char>, command: Seq<char>, at: int)
    requires
        command.len() > 0,
    ensures
        matches_from(line, command, 0) ==> exists|k: int| #[trigger]
            scan::stands_at(line, command, k) && (k == 0 || !is_command_char(line[k - 1])) && (k
                + command.len() == line.len() || !is_command_char(line[k + command.len()])),
        scan::stands_at(line, command, at) && (forall|j: int|
            0 <= j < at ==> !scan::stands_at(line, command, j)) && (at == 0 || !is_command_char(
            line[at - 1],
        )) && (at + command.len() == line.len() || !is_command_char(line[at + command.len()]))
            ==> matches_from(line, command, 0),
        matches_from(command, command, 0),
{
    if matches_from(line, command, 0) {
        a_match_stands_alone(line, command, 0);
    }
    scan::find_from_is_first(line, command, 0);
    scan::find_from_is_first(command, command, 0);
    assert(command.subrange(0, command.len() as int) =~= command);
    assert(scan::stands_at(command, command, 0));
    assert(scan::find_from(command, command, 0) == Some(0int));
    if scan::stands_at(line, command, at) && (forall|j: int|
        0 <= j < at ==> !scan::stands_at(line, command, j)) {
        assert(scan::find_from(line, command, 0) is Some);
        let found = scan::find_from(line, command, 0)->0;
        assert(found == at);
    }
}

proof fn a_match_stands_alone(line: Seq<char>, command: Seq<char>, from: int)
    requires
        0 <= from <= line.len(),
        command.len() > 0,
        matches_from(line, command, from),
    ensures
        exists|k: int| #[trigger]
            scan::stands_at(line, command, k) && (k == 0 || !is_command_char(line[k - 1])) && (k
                + command.len() == line.len() || !is_command_char(line[k + command.len()])),
    decreases line.len() - from,
{
    scan::find_from_is_first(line, command, from);
    let at = scan::find_from(line, command, from)->0;
    assert(scan::stands_at(line, command, at));
    if !stands_alone(line, command, at) {
        a_match_stands_alone(line, command, at + command.len());
    }
}

/// The command of a background shell is kept while a process of its pane runs just it, and
/// goes when it stands in the command line of none; a pane that was only waiting for it is idle then. Nothing else of the
/// pane changes, and what is written of it says the same.
pub proof fn a_shell_that_is_gone_is_forgotten(
    pane: PaneModel,
    snapshot: ProcessSnapshot,
    log: Seq<options::WriteModel>,
    pid: u32,
)
    requires
        pane.bg_shell_cmd is Some,
        pane.pane_pid is Some,
        pane.bg_shell_cmd->0 != options::BG_CMD_PLACEHOLDER@,
        options::option_value(log, pane.pane_id, "@pane_bg_cmd"@) == pane.bg_shell_cmd,
    ensures
        ({
            let after = shell_cleared(pane, snapshot);
            let written = log + shell_writes(pane, snapshot);
            let told = options::option_value(written, pane.pane_id, "@pane_bg_cmd"@);
            &&& after == PaneModel {
                bg_shell_cmd: after.bg_shell_cmd,
                status: after.status,
                ..pane
            }
            &&& told == after.bg_shell_cmd
            &&& process::descends(snapshot, seq![pane.pane_pid->0], pid)
                && snapshot.infos().contains_key(pid) && cli::sanitized(snapshot.infos()[pid].args)
                == pane.bg_shell_cmd->0 && pane.bg_shell_cmd->0.len() > 0 ==> after == pane
                && written == log
            &&& (forall|p: u32| #[trigger]
                process::descends(snapshot, seq![pane.pane_pid->0], p)
                    && snapshot.infos().contains_key(p) ==> !scan::contains_text(
                    cli::sanitized(snapshot.infos()[p].args),
                    pane.bg_shell_cmd->0,
                )) ==> after.bg_shell_cmd is None
            &&& after.bg_shell_cmd is None || after == pane
            &&& after.bg_shell_cmd is None && pane.status is Background ==> after.status is Idle
                && options::option_value(written, pane.pane_id, "@pane_status"@) == Some("idle"@)
            &&& pane.status !is Background ==> after.status == pane.status
        }),
{
    let command = pane.bg_shell_cmd->0;
    let root = pane.pane_pid->0;
    let written = log + shell_writes(pane, snapshot);
    if process::descends(snapshot, seq![root], pid) && snapshot.infos().contains_key(pid)
        && cli::sanitized(snapshot.infos()[pid].args) == command && command.len() > 0 {
        commands_are_found_by_themselves(command, command, 0);
        assert(process::runs_line(snapshot, seq![root], snapshot.infos()[pid].args));
        assert(shell_runs(snapshot, root, command));
        assert(written =~= log);
    }
    if shell_runs(snapshot, root, command) {
        let line = choose|line: Seq<char>| #[trigger]
            process::runs_line(snapshot, seq![root], line) && matches_from(
                cli::sanitized(line),
                command,
                0,
            );
        let p = choose|p: u32| #[trigger]
            process::descends(snapshot, seq![root], p) && snapshot.infos().contains_key(p)
                && snapshot.infos()[p].args == line;
        commands_are_found_by_themselves(cli::sanitized(line), command, 0);
        assert(scan::contains_text(cli::sanitized(snapshot.infos()[p].args), command));
    }
    reveal_strlit("@pane_bg_cmd");
    reveal_strlit("@pane_status");
    assert("@pane_bg_cmd"@[6] == 'b' && "@pane_status"@[6] == 's');
    if shell_gone(pane, snapshot) {
        let clear = options::WriteModel::Clear { pane: pane.pane_id, key: PANE_BG_CMD@ };
        let cleared = log.push(clear);
        options::unset_reads_nothing(
            log,
            pane.pane_id,
            "@pane_bg_cmd"@,
            pane.pane_id,
            "@pane_bg_cmd"@,
        );
        if pane.status == PaneStatus::Background {
            options::set_reads_back(
                cleared,
                pane.pane_id,
                "@pane_status"@,
                "idle"@,
                pane.pane_id,
                "@pane_bg_cmd"@,
            );
            options::set_reads_back(
                cleared,
                pane.pane_id,
                "@pane_status"@,
                "idle"@,
                pane.pane_id,
                "@pane_status"@,
            );
            assert(written =~= cleared.push(
                options::WriteModel::Assign {
                    pane: pane.pane_id,
                    key: PANE_STATUS@,
                    value: "idle"@,
                },
            ));
        } else {
            assert(written =~= cleared);
        }
    } else {
        assert(written =~= log);
    }
}

/// The entries of the log are shown in order, but those that mark a new list of tasks.
pub proof fn entries_are_shown_in_order(
    before: Seq<ActivityEntry>,
    entry: ActivityEntry,
    after: Seq<ActivityEntry>,
)
    ensures
        shown_entries(before + seq![entry] + after) == shown_entries(before) + (if entry.tool@
            == "__task_reset__"@ {
            Seq::<ActivityEntry>::empty()
        } else {
            seq![entry]
        }) + shown_entries(after),
        shown_entries(Seq::<ActivityEntry>::empty()).len() == 0,
    decreases after.len(),
{
    let all = before + seq![entry] + after;
    let middle = if entry.tool@ == "__task_reset__"@ {
        Seq::<ActivityEntry>::empty()
    } else {
        seq![entry]
    };
    if after.len() == 0 {
        assert(all.drop_last() =~= before);
        assert(shown_entries(all) =~= shown_entries(before) + middle + shown_entries(after));
    } else {
        let rest = after.drop_last();
        entries_are_shown_in_order(before, entry, rest);
        assert(all.drop_last() =~= before + seq![entry] + rest);
        assert(all.last() == after.last());
        assert(shown_entries(all) =~= shown_entries(before) + middle + shown_entries(after));
    }
}

/// Ports are looked for at the start and every ten seconds, shells every five.
pub proof fn looking_is_timed(state: AppState, now_ms: u64)
    ensures
        !state.timers.port_scan_initialized ==> ports_due(state, now_ms),
        state.timers.port_scan_initialized ==> (ports_due(state, now_ms) <==> now_ms
            - state.timers.last_port_refresh >= 10000),
        state.timers.last_bg_shell_sweep is None ==> sweep_due(state, now_ms),
        state.timers.last_bg_shell_sweep matches Some(last) ==> (sweep_due(state, now_ms) <==> now_ms
            - last >= 5000),
{
}

/// A pane has the name of its own session, where that has one.
pub proof fn panes_have_the_name_of_their_session(
    names: Map<Seq<char>, String>,
    before: (PaneInfo, PaneGitInfo),
    after: (PaneInfo, PaneGitInfo),
)
    requires
        pane_named(names, before, after),
    ensures
        before.0.session_id is Some && names.contains_key(before.0.session_id->0@)
            ==> after.0.session_name@ == names[before.0.session_id->0@]@,
        before.0.session_id is Some && !names.contains_key(before.0.session_id->0@)
            ==> after.0.session_name@.len() == 0,
        before.0.session_id is None ==> after.0.session_name@.len() == 0,
        after.0.pane_id == before.0.pane_id && after.0.session_id == before.0.session_id,
{
}

/// The session of a pane counts as swapped just where the pane was not there or had another
/// session.
pub proof fn sessions_are_swapped_where_they_differ(
    before: Seq<PaneInfo>,
    pane: PaneInfo,
    k: int,
)
    requires
        own_ids(before),
    ensures
        0 <= k < before.len() && before[k].pane_id@ == pane.pane_id@ ==> (session_swapped(
            before,
            pane,
        ) <==> text::opt(before[k].session_id) != text::opt(pane.session_id)),
        (forall|i: int| 0 <= i < before.len() ==> (#[trigger] before[i]).pane_id@ != pane.pane_id@)
            ==> session_swapped(before, pane),
    decreases before.len(),
{
    if before.len() > 0 {
        let rest = before.drop_last();
        own_ids_without_the_last(before);
        sessions_are_swapped_where_they_differ(rest, pane, k);
        if 0 <= k < rest.len() {
            assert(before[k].pane_id@ != before.last().pane_id@);
        }
        if forall|i: int|
            0 <= i < before.len() ==> (#[trigger] before[i]).pane_id@ != pane.pane_id@ {
            assert(before[before.len() - 1].pane_id@ != pane.pane_id@);
            assert forall|i: int| 0 <= i < rest.len() implies (#[trigger] rest[i]).pane_id@
                != pane.pane_id@ by {
                assert(before[i].pane_id@ != pane.pane_id@);
            }
        }
    }
}

} // verus!
