//! What was drawn where, and what a click or a turn of the wheel does.

use vstd::prelude::*;

use crate::assoc::Assoc;
use crate::geometry::{point_in_rect, Rect};
use crate::git::VcsKind;
use crate::group::{PaneGitInfo, RepoGroup};
use crate::number;
use crate::number::decimal;
use crate::state::extensions::TreeTarget;
use crate::state::{AppState, PopupState, RepoFilter, Save, StatusFilter};
use crate::text;
use crate::text::{chars_of, same, same_opt};
use crate::tmux::types::{PaneInfo, PaneStatus};

verus! {

#[derive(Debug)]
pub struct RowTarget {
    pub pane_id: String,
}

/// A child displayed under a parent pane. Every identifier comes from the
/// provider reply; no activation is resolved from text or a row index.
#[derive(Debug, PartialEq, Eq)]
pub struct SubagentTarget {
    pub parent_pane_id: String,
    pub provider_id: String,
    pub session_id: Option<String>,
    pub agent_id: String,
    pub node_id: String,
}

/// The model of a subagent.
pub struct SubagentModel {
    pub parent_pane_id: Seq<char>,
    pub provider_id: Seq<char>,
    pub session_id: Option<Seq<char>>,
    pub agent_id: Seq<char>,
    pub node_id: Seq<char>,
}

impl View for SubagentTarget {
    type V = SubagentModel;

    open spec fn view(&self) -> SubagentModel {
        SubagentModel {
            parent_pane_id: self.parent_pane_id@,
            provider_id: self.provider_id@,
            session_id: text::opt(self.session_id),
            agent_id: self.agent_id@,
            node_id: self.node_id@,
        }
    }
}

impl Clone for SubagentTarget {
    fn clone(&self) -> (copy: Self)
        ensures
            copy == *self,
    {
        SubagentTarget {
            parent_pane_id: self.parent_pane_id.clone(),
            provider_id: self.provider_id.clone(),
            session_id: self.session_id.clone(),
            agent_id: self.agent_id.clone(),
            node_id: self.node_id.clone(),
        }
    }
}

impl SubagentTarget {
    /// Whether two subagents are the same.
    pub fn same_target(&self, other: &SubagentTarget) -> (yes: bool)
        ensures
            yes == (self@ == other@),
    {
        same(self.parent_pane_id.as_str(), other.parent_pane_id.as_str()) && same(
            self.provider_id.as_str(),
            other.provider_id.as_str(),
        ) && same_opt(&self.session_id, &other.session_id) && same(
            self.agent_id.as_str(),
            other.agent_id.as_str(),
        ) && same(self.node_id.as_str(), other.node_id.as_str())
    }
}

#[derive(Debug, PartialEq, Eq)]
pub enum NavigationTarget {
    Pane { row: usize },
    Subagent(SubagentTarget),
    Tree(TreeTarget),
}

/// Click target for the `+` button rendered at the right edge of each
/// repo-group header in the agents panel. Clicking it opens the spawn
/// modal prefilled for that repo.
#[derive(Debug)]
pub struct RepoSpawnTarget {
    pub rect: Rect,
    pub repo_name: String,
    pub repo_root: String,
}

/// Click target for the red `×` rendered next to the branch of a
/// sidebar-spawned pane. Clicking it opens the close-pane confirmation
/// for that specific pane.
#[derive(Debug)]
pub struct SpawnRemoveTarget {
    pub rect: Rect,
    pub pane_id: String,
}

#[derive(Debug)]
pub struct VcsBranchTarget {
    pub rect: Rect,
    pub kind: VcsKind,
    pub root: String,
}

/// Screen-positioned hyperlink overlay for OSC 8 terminal hyperlinks.
#[derive(Debug)]
pub struct HyperlinkOverlay {
    pub x: u16,
    pub y: u16,
    pub text: String,
    pub url: String,
}

/// Ephemeral render output cached for click hit-testing.
///
/// Every field here is rewritten on every frame by the UI layer and only read
/// by event handlers (mouse/keyboard) before the next render.
pub struct FrameLayout {
    /// Filtered pane list, in the order the UI rendered them. Index
    /// matches `GlobalState::selected_pane_row`.
    pub pane_row_targets: Vec<RowTarget>,
    /// Maps each rendered text line in the agents panel back to a row in
    /// `pane_row_targets`. `None` for header/blank lines that should not
    /// route clicks to a pane.
    pub line_to_row: Vec<Option<usize>>,
    /// Agent-panel source line → exact subagent in its original tmux pane.
    pub subagent_line_targets: Assoc<usize, SubagentTarget>,
    /// Agent and capability tree lines rendered for the selected pane.
    /// Stable `node_id` makes duplicate labels safe to select and disclose.
    pub tree_line_targets: Assoc<usize, TreeTarget>,
    pub navigation_targets: Vec<NavigationTarget>,
    /// X column of the repo filter button in the secondary header. `None`
    /// when the button is hidden.
    pub repo_button_col: Option<u16>,
    /// Click regions for the spawn button of each visible repo group.
    pub repo_spawn_targets: Vec<RepoSpawnTarget>,
    /// Click regions for the `×` remove marker of each visible row.
    pub spawn_remove_targets: Vec<SpawnRemoveTarget>,
    /// Branch rows rendered in the Git/Arc tab.
    pub vcs_branch_targets: Vec<VcsBranchTarget>,
    /// OSC 8 hyperlink overlays the main loop writes after each frame so
    /// terminals can recognise PR numbers as clickable links.
    pub hyperlink_overlays: Vec<HyperlinkOverlay>,
    /// Full-sidebar transcript back affordance.
    pub transcript_back_rect: Option<Rect>,
}

impl FrameLayout {
    /// Whether nothing was drawn yet.
    pub open spec fn blank(&self) -> bool {
        &&& self.pane_row_targets@.len() == 0
        &&& self.line_to_row@.len() == 0
        &&& self.subagent_line_targets@ == Map::<usize, SubagentTarget>::empty()
        &&& self.tree_line_targets@ == Map::<usize, TreeTarget>::empty()
        &&& self.navigation_targets@.len() == 0
        &&& self.repo_button_col is None
        &&& self.repo_spawn_targets@.len() == 0
        &&& self.spawn_remove_targets@.len() == 0
        &&& self.vcs_branch_targets@.len() == 0
        &&& self.hyperlink_overlays@.len() == 0
        &&& self.transcript_back_rect is None
    }
}

impl Default for FrameLayout {
    fn default() -> (layout: Self)
        ensures
            layout.blank(),
    {
        FrameLayout {
            pane_row_targets: Vec::new(),
            line_to_row: Vec::new(),
            subagent_line_targets: Assoc::new(),
            tree_line_targets: Assoc::new(),
            navigation_targets: Vec::new(),
            repo_button_col: None,
            repo_spawn_targets: Vec::new(),
            spawn_remove_targets: Vec::new(),
            vcs_branch_targets: Vec::new(),
            hyperlink_overlays: Vec::new(),
            transcript_back_rect: None,
        }
    }
}

/// The ids of the panes that a status filter lists.
pub open spec fn rows_of_group(
    panes: Seq<(PaneInfo, PaneGitInfo)>,
    filter: StatusFilter,
) -> Seq<Seq<char>>
    decreases panes.len(),
{
    if panes.len() == 0 {
        Seq::<Seq<char>>::empty()
    } else {
        let before = rows_of_group(panes.drop_last(), filter);
        if filter.passes(panes.last().0.status) {
            before.push(panes.last().0.pane_id@)
        } else {
            before
        }
    }
}

/// The ids of the panes that the filters list, in order.
pub open spec fn rows_of(
    groups: Seq<RepoGroup>,
    repo: RepoFilter,
    filter: StatusFilter,
) -> Seq<Seq<char>>
    decreases groups.len(),
{
    if groups.len() == 0 {
        Seq::<Seq<char>>::empty()
    } else {
        let before = rows_of(groups.drop_last(), repo, filter);
        if repo.passes(groups.last().name@) {
            before + rows_of_group(groups.last().panes@, filter)
        } else {
            before
        }
    }
}

/// The ids in a list of rows.
pub open spec fn row_ids(rows: Seq<RowTarget>) -> Seq<Seq<char>> {
    rows.map_values(|row: RowTarget| row.pane_id@)
}

/// Whether a group has a name.
pub open spec fn has_group(groups: Seq<RepoGroup>, name: Seq<char>) -> bool {
    exists|i: int| 0 <= i < groups.len() && (#[trigger] groups[i]).name@ == name
}

/// Whether a filter names a group that is gone.
pub open spec fn filter_is_stale(groups: Seq<RepoGroup>, repo: RepoFilter) -> bool {
    match repo {
        RepoFilter::All => false,
        RepoFilter::Repo(name) => !has_group(groups, name@),
    }
}

/// Whether `after` is `before` with its rows listed anew.
///
/// A filter for a repository that is gone is reset, and the reset is saved. The
/// selected row stays where it can; past the last row it moves to the last row.
pub open spec fn rows_rebuilt(before: AppState, after: AppState) -> bool {
    let stale = filter_is_stale(before.repo_groups@, before.global.repo_filter);
    let rows = rows_of(
        before.repo_groups@,
        after.global.repo_filter,
        before.global.status_filter,
    );
    let row = before.global.selected_pane_row;
    &&& after.global.repo_filter == if stale {
        RepoFilter::All
    } else {
        before.global.repo_filter
    }
    &&& after.global.saves@ == if stale {
        before.global.saves@.push(Save::RepoFilter)
    } else {
        before.global.saves@
    }
    &&& row_ids(after.layout.pane_row_targets@) == rows
    &&& after.global.selected_pane_row == if row >= rows.len() && rows.len() > 0 {
        (rows.len() - 1) as usize
    } else {
        row
    }
    &&& after == (AppState {
        global: crate::state::GlobalState {
            repo_filter: after.global.repo_filter,
            saves: after.global.saves,
            selected_pane_row: after.global.selected_pane_row,
            ..before.global
        },
        layout: FrameLayout { pane_row_targets: after.layout.pane_row_targets, ..before.layout },
        ..before
    })
}

fn knows_group(groups: &Vec<RepoGroup>, name: &str) -> (yes: bool)
    ensures
        yes == has_group(groups@, name@),
{
    let mut i: usize = 0;
    while i < groups.len()
        invariant
            i <= groups@.len(),
            forall|k: int| 0 <= k < i ==> (#[trigger] groups@[k]).name@ != name@,
        decreases groups@.len() - i,
    {
        if same(groups[i].name.as_str(), name) {
            return true;
        }
        i = i + 1;
    }
    false
}

fn list_rows(groups: &Vec<RepoGroup>, repo: &RepoFilter, filter: StatusFilter) -> (rows: Vec<
    RowTarget,
>)
    ensures
        row_ids(rows@) == rows_of(groups@, *repo, filter),
{
    let mut rows: Vec<RowTarget> = Vec::new();
    let mut i: usize = 0;
    proof {
        assert(groups@.take(0) =~= Seq::<RepoGroup>::empty());
        assert(row_ids(rows@) =~= Seq::<Seq<char>>::empty());
    }
    while i < groups.len()
        invariant
            i <= groups@.len(),
            row_ids(rows@) == rows_of(groups@.take(i as int), *repo, filter),
        decreases groups@.len() - i,
    {
        proof {
            assert(groups@.take(i + 1).drop_last() =~= groups@.take(i as int));
        }
        if repo.matches_group(groups[i].name.as_str()) {
            let panes = &groups[i].panes;
            let ghost before = row_ids(rows@);
            let mut k: usize = 0;
            proof {
                assert(panes@.take(0) =~= Seq::<(PaneInfo, PaneGitInfo)>::empty());
                assert(before + rows_of_group(panes@.take(0), filter) =~= before);
            }
            while k < panes.len()
                invariant
                    k <= panes@.len(),
                    row_ids(rows@) == before + rows_of_group(panes@.take(k as int), filter),
                decreases panes@.len() - k,
            {
                let ghost so_far = row_ids(rows@);
                proof {
                    assert(panes@.take(k + 1).drop_last() =~= panes@.take(k as int));
                }
                if filter.matches(&panes[k].0.status) {
                    rows.push(RowTarget { pane_id: panes[k].0.pane_id.clone() });
                    proof {
                        assert(row_ids(rows@) =~= so_far.push(panes@[k as int].0.pane_id@));
                        assert(row_ids(rows@) =~= before + rows_of_group(
                            panes@.take(k + 1),
                            filter,
                        ));
                    }
                }
                k = k + 1;
            }
            proof {
                assert(panes@.take(k as int) =~= panes@);
            }
        }
        i = i + 1;
    }
    proof {
        assert(groups@.take(i as int) =~= groups@);
    }
    rows
}

impl AppState {
    /// Lists the rows anew, after panes or filters changed.
    pub fn rebuild_row_targets(&mut self)
        ensures
            rows_rebuilt(*old(self), *final(self)),
    {
        // Reset stale repo filter if the repo no longer exists, and persist
        // the reset so that fresh sidebars do not reload the dead repo name.
        let stale = match &self.global.repo_filter {
            RepoFilter::All => false,
            RepoFilter::Repo(name) => !knows_group(&self.repo_groups, name.as_str()),
        };
        if stale {
            self.global.repo_filter = RepoFilter::All;
            self.global.saves.push(Save::RepoFilter);
        }
        self.layout.pane_row_targets = list_rows(
            &self.repo_groups,
            &self.global.repo_filter,
            self.global.status_filter,
        );
        let count: usize = self.layout.pane_row_targets.len();
        proof {
            assert(row_ids(self.layout.pane_row_targets@).len() == count);
        }
        if self.global.selected_pane_row >= count && count > 0 {
            self.global.selected_pane_row = count - 1;
        }
    }
}

/// After rows are listed anew, the selected row is one of them, unless there is
/// none.
pub proof fn selection_stays_in_bounds(before: AppState, after: AppState)
    requires
        rows_rebuilt(before, after),
        after.layout.pane_row_targets@.len() > 0,
    ensures
        after.global.selected_pane_row < after.layout.pane_row_targets@.len(),
{
    assert(row_ids(after.layout.pane_row_targets@).len() == after.layout.pane_row_targets@.len());
}

/// The part of the screen that the wheel scrolled.
#[derive(Debug, Clone, Copy, PartialEq, Eq, Structural)]
pub enum Scrolled {
    Transcript,
    Detail,
    Bottom,
    Panes,
}

/// What the wheel scrolls at a row of the screen.
pub open spec fn scrolled_at(
    state: AppState,
    row: u16,
    term_height: u16,
    bottom_panel_height: u16,
) -> Scrolled {
    if state.extensions.ui.transcript.view is Some || state.extensions.ui.transcript.loading is Some {
        Scrolled::Transcript
    } else if state.extensions.ui.detail is Some {
        Scrolled::Detail
    } else if row >= term_height - bottom_panel_height {
        Scrolled::Bottom
    } else {
        Scrolled::Panes
    }
}

/// The filters, as the filter bar shows them from left to right.
pub open spec fn filter_order() -> Seq<StatusFilter> {
    seq![
        StatusFilter::All,
        StatusFilter::Running,
        StatusFilter::Background,
        StatusFilter::Waiting,
        StatusFilter::Idle,
        StatusFilter::Error,
    ]
}

/// How many panes a filter lists.
pub open spec fn status_count(state: AppState, filter: StatusFilter) -> nat {
    rows_of(state.repo_groups@, state.global.repo_filter, filter).len()
}

/// How wide a filter is shown: an icon and a count.
pub open spec fn filter_width(state: AppState, index: int) -> int {
    1 + number::decimal_of(status_count(state, filter_order()[index])).len() as int
}

/// The column at which a filter is shown. A space comes first, and two between
/// filters.
pub open spec fn filter_start(state: AppState, index: int) -> int
    decreases index,
{
    if index <= 0 {
        1
    } else {
        filter_start(state, index - 1) + filter_width(state, index - 1) + 2
    }
}

/// Whether a filter is shown in a column.
pub open spec fn filter_covers(state: AppState, index: int, col: int) -> bool {
    filter_start(state, index) <= col < filter_start(state, index) + filter_width(state, index)
}

/// The first filter, counted from `from`, that is shown in a column.
pub open spec fn filter_under(state: AppState, from: int, col: int) -> Option<StatusFilter>
    decreases 6 - from,
{
    if from < 0 || from >= 6 {
        None
    } else if filter_covers(state, from, col) {
        Some(filter_order()[from])
    } else {
        filter_under(state, from + 1, col)
    }
}

/// No column shows two filters.
pub proof fn filters_do_not_overlap(state: AppState, first: int, second: int, col: int)
    requires
        0 <= first < second < 6,
        filter_covers(state, first, col),
    ensures
        !filter_covers(state, second, col),
    decreases second - first,
{
    if second > first + 1 {
        filters_do_not_overlap(state, first, second - 1, col);
        filter_starts_ascend(state, first, second - 1);
    }
}

proof fn filter_starts_ascend(state: AppState, first: int, second: int)
    requires
        0 <= first < second < 6,
    ensures
        filter_start(state, first) + filter_width(state, first) < filter_start(state, second),
    decreases second - first,
{
    if second > first + 1 {
        filter_starts_ascend(state, first, second - 1);
    }
}

/// How long clicks on the filter bar are ignored after one that counted, in
/// milliseconds. tmux makes up clicks when panes change their size.
pub const DEBOUNCE_MS: u64 = 150;

/// Whether a click on the filter bar comes too early to count.
pub open spec fn debounced(state: AppState, now_ms: u64) -> bool {
    now_ms < state.timers.last_filter_click + DEBOUNCE_MS
}

/// Whether `chosen` is `before` with a filter chosen and still to be saved, and
/// its rows not listed anew yet.
pub open spec fn filter_chosen(
    before: AppState,
    filter: StatusFilter,
    now_ms: u64,
    chosen: AppState,
) -> bool {
    &&& chosen.global.saves@ == before.global.saves@.push(Save::StatusFilter)
    &&& chosen == (AppState {
        global: crate::state::GlobalState {
            status_filter: filter,
            saves: chosen.global.saves,
            ..before.global
        },
        timers: crate::state::Timers { last_filter_click: now_ms, ..before.timers },
        ..before
    })
}

/// Whether `after` is `before` after a click on the filter bar.
pub open spec fn filter_clicked(before: AppState, col: u16, now_ms: u64, after: AppState) -> bool {
    if debounced(before, now_ms) {
        after == before
    } else {
        match filter_under(before, 0, col as int) {
            Some(filter) => exists|chosen: AppState|
                filter_chosen(before, filter, now_ms, chosen) && #[trigger] rows_rebuilt(
                    chosen,
                    after,
                ),
            None => after == (AppState {
                timers: crate::state::Timers { last_filter_click: now_ms, ..before.timers },
                ..before
            }),
        }
    }
}

/// What is left to do after a click.
#[derive(Debug)]
pub enum ClickEffect {
    Nothing,
    CloseTranscript,
    /// The notices popup was clicked: copy the prompt under the cell, if any.
    CopyNotice,
    ToggleNotices,
    ToggleRepo,
    /// The repository selected in the popup was chosen.
    ConfirmRepo,
    OpenSpawn { repo_name: String, repo_root: String, anchor_y: u16 },
    OpenRemove { pane_id: String },
    ActivateSubagent(SubagentTarget),
}

/// What a click hits.
#[derive(Debug, Clone, Copy, PartialEq, Eq, Structural)]
pub enum ClickHit {
    TranscriptBack,
    Transcript,
    Notices,
    RepoItem { index: usize },
    Popup,
    OutsidePopup,
    FilterBar,
    SecondaryHeader,
    SpawnButton { index: usize },
    RemoveMarker { index: usize },
    TreeLine { line: usize },
    SubagentLine { line: usize },
    PaneRow { row: usize },
    Elsewhere,
}

/// The first spawn button, counted from `from`, under a cell.
pub open spec fn spawn_under(
    targets: Seq<RepoSpawnTarget>,
    row: u16,
    col: u16,
    from: int,
) -> Option<int>
    decreases targets.len() - from,
{
    if from < 0 || from >= targets.len() {
        None
    } else if targets[from].rect.covers(col as int, row as int) {
        Some(from)
    } else {
        spawn_under(targets, row, col, from + 1)
    }
}

/// The first remove marker, counted from `from`, under a cell.
pub open spec fn remove_under(
    targets: Seq<SpawnRemoveTarget>,
    row: u16,
    col: u16,
    from: int,
) -> Option<int>
    decreases targets.len() - from,
{
    if from < 0 || from >= targets.len() {
        None
    } else if targets[from].rect.covers(col as int, row as int) {
        Some(from)
    } else {
        remove_under(targets, row, col, from + 1)
    }
}

/// Whether a cell lies in an area that was drawn.
pub open spec fn in_area(area: Option<Rect>, row: u16, col: u16) -> bool {
    area is Some && area->0.covers(col as int, row as int)
}

/// What a click hits while a popup is open, if one is.
pub open spec fn popup_hit(state: AppState, row: u16, col: u16) -> Option<ClickHit> {
    match state.popup {
        PopupState::Closed => None,
        PopupState::Notices { area } => Some(
            if in_area(area, row, col) {
                ClickHit::Notices
            } else {
                ClickHit::OutsidePopup
            },
        ),
        // The first row of the popup is its border.
        PopupState::Repo { area, .. } => Some(
            if !in_area(area, row, col) {
                ClickHit::OutsidePopup
            } else if row > area->0.y && row - area->0.y - 1 < 1 + state.repo_groups@.len() {
                ClickHit::RepoItem { index: (row - area->0.y - 1) as usize }
            } else {
                ClickHit::Popup
            },
        ),
        PopupState::SpawnInput { area, .. } => Some(
            if in_area(area, row, col) {
                ClickHit::Popup
            } else {
                ClickHit::OutsidePopup
            },
        ),
        PopupState::RemoveConfirm { area, .. } => Some(
            if in_area(area, row, col) {
                ClickHit::Popup
            } else {
                ClickHit::OutsidePopup
            },
        ),
    }
}

/// What a click on a line of the agent list hits.
pub open spec fn line_hit(state: AppState, line: int) -> ClickHit {
    if line > usize::MAX {
        ClickHit::Elsewhere
    } else if state.layout.tree_line_targets@.contains_key(line as usize) {
        ClickHit::TreeLine { line: line as usize }
    } else if state.layout.subagent_line_targets@.contains_key(line as usize) {
        ClickHit::SubagentLine { line: line as usize }
    } else if line < state.layout.line_to_row@.len() && state.layout.line_to_row@[line] is Some {
        ClickHit::PaneRow { row: state.layout.line_to_row@[line]->0 }
    } else {
        ClickHit::Elsewhere
    }
}

/// What a click hits.
///
/// A transcript covers everything, and an open popup all but the transcript. The
/// first row is the filter bar and the second the secondary header; below them,
/// buttons come before the lines that they are drawn on.
pub open spec fn hit_of(state: AppState, row: u16, col: u16) -> ClickHit {
    let transcript = state.extensions.ui.transcript;
    if transcript.view is Some || transcript.loading is Some {
        if in_area(state.layout.transcript_back_rect, row, col) {
            ClickHit::TranscriptBack
        } else {
            ClickHit::Transcript
        }
    } else if popup_hit(state, row, col) is Some {
        popup_hit(state, row, col)->0
    } else if row == 0 {
        ClickHit::FilterBar
    } else if row == 1 {
        ClickHit::SecondaryHeader
    } else if spawn_under(state.layout.repo_spawn_targets@, row, col, 0) is Some {
        ClickHit::SpawnButton {
            index: spawn_under(state.layout.repo_spawn_targets@, row, col, 0)->0 as usize,
        }
    } else if remove_under(state.layout.spawn_remove_targets@, row, col, 0) is Some {
        ClickHit::RemoveMarker {
            index: remove_under(state.layout.spawn_remove_targets@, row, col, 0)->0 as usize,
        }
    } else {
        line_hit(state, row - 2 + state.scrolls.panes.offset)
    }
}

/// Whether a subagent is the one that a tree line belongs to.
pub open spec fn owns_line(subagent: Option<SubagentTarget>, target: TreeTarget) -> bool {
    &&& subagent is Some
    &&& subagent->0.parent_pane_id@ == target.parent_pane_id@
    &&& subagent->0.provider_id@ == target.provider_id@
    &&& text::opt(subagent->0.session_id) == text::opt(target.session_id)
    &&& subagent->0.agent_id@ == target.agent_id@
}

/// Whether `after` is `before` after a click on a tree line.
pub open spec fn tree_line_clicked(before: AppState, target: TreeTarget, after: AppState) -> bool {
    let ui = after.extensions.ui;
    &&& ui.selected == Some(target)
    &&& ui.detail == before.extensions.ui.detail
    &&& ui.transcript == before.extensions.ui.transcript
    &&& ui.expanded@ == if target.is_disclosure {
        crate::state::extensions::toggled(
            before.extensions.ui.expanded@,
            crate::state::extensions::node_key(target.parent_pane_id@, target.node_id@),
        )
    } else {
        before.extensions.ui.expanded@
    }
    &&& after == (AppState {
        selected_navigation_target: Some(NavigationTarget::Tree(target)),
        selected_subagent_target: if owns_line(before.selected_subagent_target, target) {
            before.selected_subagent_target
        } else {
            None
        },
        extensions: crate::state::extensions::ExtensionsState { ui, ..before.extensions },
        ..before
    })
}

/// What a click on the secondary header leaves to do.
pub open spec fn header_effect(state: AppState, col: u16) -> ClickEffect {
    if state.notices_button_col == Some(col) {
        ClickEffect::ToggleNotices
    } else if state.layout.repo_button_col is Some && col >= state.layout.repo_button_col->0 {
        ClickEffect::ToggleRepo
    } else {
        ClickEffect::Nothing
    }
}

/// Whether `after` is `before` after a click, which leaves `effect` to do.
pub open spec fn clicked(
    before: AppState,
    row: u16,
    col: u16,
    now_ms: u64,
    after: AppState,
    effect: ClickEffect,
) -> bool {
    match hit_of(before, row, col) {
        ClickHit::TranscriptBack => after == before && effect is CloseTranscript,
        ClickHit::Transcript => after == before && effect is Nothing,
        ClickHit::Notices => after == before && effect is CopyNotice,
        ClickHit::RepoItem { index } => {
            &&& after == (AppState {
                popup: PopupState::Repo { selected: index, area: before.popup->Repo_area },
                ..before
            })
            &&& effect is ConfirmRepo
        },
        ClickHit::Popup => after == before && effect is Nothing,
        ClickHit::OutsidePopup => {
            &&& after == (AppState { popup: PopupState::Closed, ..before })
            &&& effect is Nothing
        },
        ClickHit::FilterBar => filter_clicked(before, col, now_ms, after) && effect is Nothing,
        ClickHit::SecondaryHeader => after == before && effect == header_effect(before, col),
        ClickHit::SpawnButton { index } => {
            let target = before.layout.repo_spawn_targets@[index as int];
            &&& after == before
            &&& effect == (ClickEffect::OpenSpawn {
                repo_name: target.repo_name,
                repo_root: target.repo_root,
                anchor_y: target.rect.y,
            })
        },
        ClickHit::RemoveMarker { index } => {
            let target = before.layout.spawn_remove_targets@[index as int];
            after == before && effect == (ClickEffect::OpenRemove { pane_id: target.pane_id })
        },
        ClickHit::TreeLine { line } => {
            &&& tree_line_clicked(before, before.layout.tree_line_targets@[line], after)
            &&& effect is Nothing
        },
        ClickHit::SubagentLine { line } => {
            let target = before.layout.subagent_line_targets@[line];
            &&& after == (AppState {
                selected_subagent_target: Some(target),
                selected_navigation_target: Some(NavigationTarget::Subagent(target)),
                ..before
            })
            &&& effect == ClickEffect::ActivateSubagent(target)
        },
        ClickHit::PaneRow { row: agent_row } => {
            &&& after.global.saves@ == before.global.saves@.push(Save::Cursor)
            &&& after == (AppState {
                global: crate::state::GlobalState {
                    selected_pane_row: agent_row,
                    saves: after.global.saves,
                    ..before.global
                },
                extensions: crate::state::extensions::ExtensionsState {
                    ui: crate::state::extensions::CapabilityUiState {
                        selected: None,
                        ..before.extensions.ui
                    },
                    ..before.extensions
                },
                selected_subagent_target: None,
                selected_navigation_target: Some(NavigationTarget::Pane { row: agent_row }),
                ..before
            })
            &&& effect is Nothing
        },
        ClickHit::Elsewhere => after == before && effect is Nothing,
    }
}

fn in_drawn_area(area: &Option<Rect>, row: u16, col: u16) -> (yes: bool)
    ensures
        yes == in_area(*area, row, col),
{
    match area {
        Some(rect) => point_in_rect(row, col, *rect),
        None => false,
    }
}

impl AppState {
    /// Routes a turn of the wheel by where it happened, and says what it scrolls.
    /// The agent list scrolls at once.
    pub fn handle_mouse_scroll(
        &mut self,
        row: u16,
        term_height: u16,
        bottom_panel_height: u16,
        delta: isize,
    ) -> (scrolled: Scrolled)
        ensures
            scrolled == scrolled_at(*old(self), row, term_height, bottom_panel_height),
            *final(self) == if scrolled == Scrolled::Panes {
                AppState {
                    scrolls: crate::state::Scrolls {
                        panes: old(self).scrolls.panes.moved(delta as int),
                        ..old(self).scrolls
                    },
                    ..*old(self)
                }
            } else {
                *old(self)
            },
    {
        let bottom_start: u16 = term_height.saturating_sub(bottom_panel_height);
        if self.extensions.ui.transcript.view.is_some()
            || self.extensions.ui.transcript.loading.is_some() {
            Scrolled::Transcript
        } else if self.extensions.ui.detail.is_some() {
            Scrolled::Detail
        } else if row >= bottom_start {
            Scrolled::Bottom
        } else {
            self.scrolls.panes.scroll(delta);
            Scrolled::Panes
        }
    }

    /// How many panes each filter lists, in the order of the filter bar.
    pub fn status_counts(&self) -> (counts: (usize, usize, usize, usize, usize, usize))
        ensures
            counts.0 == status_count(*self, StatusFilter::All),
            counts.1 == status_count(*self, StatusFilter::Running),
            counts.2 == status_count(*self, StatusFilter::Background),
            counts.3 == status_count(*self, StatusFilter::Waiting),
            counts.4 == status_count(*self, StatusFilter::Idle),
            counts.5 == status_count(*self, StatusFilter::Error),
    {
        (
            self.count_rows(StatusFilter::All),
            self.count_rows(StatusFilter::Running),
            self.count_rows(StatusFilter::Background),
            self.count_rows(StatusFilter::Waiting),
            self.count_rows(StatusFilter::Idle),
            self.count_rows(StatusFilter::Error),
        )
    }

    fn count_rows(&self, filter: StatusFilter) -> (count: usize)
        ensures
            count == status_count(*self, filter),
    {
        let rows = list_rows(&self.repo_groups, &self.global.repo_filter, filter);
        proof {
            assert(row_ids(rows@).len() == rows@.len());
        }
        rows.len()
    }

    fn filter_at(&self, col: u16) -> (filter: Option<StatusFilter>)
        ensures
            filter == filter_under(*self, 0, col as int),
    {
        let counts = self.status_counts();
        let items: [(StatusFilter, usize); 6] = [
            (StatusFilter::All, counts.0),
            (StatusFilter::Running, counts.1),
            (StatusFilter::Background, counts.2),
            (StatusFilter::Waiting, counts.3),
            (StatusFilter::Idle, counts.4),
            (StatusFilter::Error, counts.5),
        ];
        let mut x: usize = 1;
        let mut i: usize = 0;
        while i < 6
            invariant
                i <= 6,
                x <= 1 + 30 * i,
                x == filter_start(*self, i as int),
                forall|k: int|
                    0 <= k < 6 ==> (#[trigger] items@[k]).0 == filter_order()[k] && items@[k].1
                        == status_count(*self, filter_order()[k]),
                filter_under(*self, 0, col as int) == filter_under(*self, i as int, col as int),
            decreases 6 - i,
        {
            let (filter, count) = items[i];
            proof {
                assert(items@[i as int] == (filter, count));
                number::decimal_length(count as u64);
                assert(filter_start(*self, i + 1) == filter_start(*self, i as int) + filter_width(
                    *self,
                    i as int,
                ) + 2);
            }
            let width: usize = 1 + chars_of(decimal(count as u64).as_str()).len();
            if col as usize >= x && (col as usize) < x + width {
                return Some(filter);
            }
            x = x + width + 2;
            i = i + 1;
        }
        None
    }

    /// Chooses the filter that was clicked on the filter bar, if one was.
    pub fn handle_filter_click(&mut self, col: u16, now_ms: u64)
        ensures
            filter_clicked(*old(self), col, now_ms, *final(self)),
    {
        if now_ms < self.timers.last_filter_click || now_ms - self.timers.last_filter_click
            < DEBOUNCE_MS {
            return ;
        }
        let filter = self.filter_at(col);
        self.timers.last_filter_click = now_ms;
        match filter {
            Some(filter) => {
                self.global.status_filter = filter;
                self.global.saves.push(Save::StatusFilter);
                let ghost chosen = *self;
                self.rebuild_row_targets();
                proof {
                    assert(filter_chosen(*old(self), filter, now_ms, chosen));
                    assert(rows_rebuilt(chosen, *self));
                }
            },
            None => {},
        }
    }

    /// What a click on the secondary header leaves to do: the notices button, or
    /// the repository filter on the far right.
    pub fn handle_secondary_header_click(&self, col: u16) -> (effect: ClickEffect)
        ensures
            effect == header_effect(*self, col),
    {
        if let Some(notices_col) = self.notices_button_col {
            if col == notices_col {
                return ClickEffect::ToggleNotices;
            }
        }
        match self.layout.repo_button_col {
            Some(button_col) => if col >= button_col {
                ClickEffect::ToggleRepo
            } else {
                ClickEffect::Nothing
            },
            None => ClickEffect::Nothing,
        }
    }

    /// The choices of the repository popup: every group, and before them all.
    pub fn repo_names(&self) -> (names: Vec<String>)
        ensures
            text::texts(names@) == seq!["All"@] + self.repo_groups@.map_values(
                |group: RepoGroup| group.name@,
            ),
    {
        let mut names: Vec<String> = Vec::new();
        names.push(crate::text::owned("All"));
        let mut i: usize = 0;
        let ghost groups = self.repo_groups@.map_values(|group: RepoGroup| group.name@);
        proof {
            assert(text::texts(names@) =~= seq!["All"@] + groups.take(0));
        }
        while i < self.repo_groups.len()
            invariant
                i <= self.repo_groups@.len() == groups.len(),
                groups == self.repo_groups@.map_values(|group: RepoGroup| group.name@),
                text::texts(names@) == seq!["All"@] + groups.take(i as int),
            decreases self.repo_groups@.len() - i,
        {
            let ghost before = text::texts(names@);
            names.push(self.repo_groups[i].name.clone());
            proof {
                assert(text::texts(names@) =~= before.push(groups[i as int]));
                assert(before.push(groups[i as int]) =~= seq!["All"@] + groups.take(i + 1));
            }
            i = i + 1;
        }
        proof {
            assert(groups.take(i as int) =~= groups);
        }
        names
    }

    fn spawn_button_at(&self, row: u16, col: u16) -> (found: Option<usize>)
        ensures
            match spawn_under(self.layout.repo_spawn_targets@, row, col, 0) {
                Some(index) => found is Some && found->0 == index && index
                    < self.layout.repo_spawn_targets@.len(),
                None => found is None,
            },
    {
        let targets = &self.layout.repo_spawn_targets;
        let mut i: usize = 0;
        while i < targets.len()
            invariant
                i <= targets@.len(),
                targets@ == self.layout.repo_spawn_targets@,
                spawn_under(targets@, row, col, 0) == spawn_under(targets@, row, col, i as int),
            decreases targets@.len() - i,
        {
            if point_in_rect(row, col, targets[i].rect) {
                return Some(i);
            }
            i = i + 1;
        }
        None
    }

    fn remove_marker_at(&self, row: u16, col: u16) -> (found: Option<usize>)
        ensures
            match remove_under(self.layout.spawn_remove_targets@, row, col, 0) {
                Some(index) => found is Some && found->0 == index && index
                    < self.layout.spawn_remove_targets@.len(),
                None => found is None,
            },
    {
        let targets = &self.layout.spawn_remove_targets;
        let mut i: usize = 0;
        while i < targets.len()
            invariant
                i <= targets@.len(),
                targets@ == self.layout.spawn_remove_targets@,
                remove_under(targets@, row, col, 0) == remove_under(targets@, row, col, i as int),
            decreases targets@.len() - i,
        {
            if point_in_rect(row, col, targets[i].rect) {
                return Some(i);
            }
            i = i + 1;
        }
        None
    }

    fn popup_under(&self, row: u16, col: u16) -> (hit: Option<ClickHit>)
        ensures
            hit == popup_hit(*self, row, col),
    {
        match &self.popup {
            PopupState::Closed => None,
            PopupState::Notices { area } => if in_drawn_area(area, row, col) {
                Some(ClickHit::Notices)
            } else {
                Some(ClickHit::OutsidePopup)
            },
            PopupState::Repo { area, .. } => match area {
                Some(rect) => {
                    if !point_in_rect(row, col, *rect) {
                        Some(ClickHit::OutsidePopup)
                    } else if row > rect.y && (row - rect.y - 1) as usize
                        <= self.repo_groups.len() {
                        Some(ClickHit::RepoItem { index: (row - rect.y - 1) as usize })
                    } else {
                        Some(ClickHit::Popup)
                    }
                },
                None => Some(ClickHit::OutsidePopup),
            },
            PopupState::SpawnInput { area, .. } => if in_drawn_area(area, row, col) {
                Some(ClickHit::Popup)
            } else {
                Some(ClickHit::OutsidePopup)
            },
            PopupState::RemoveConfirm { area, .. } => if in_drawn_area(area, row, col) {
                Some(ClickHit::Popup)
            } else {
                Some(ClickHit::OutsidePopup)
            },
        }
    }

    fn line_under(&self, row: u16) -> (hit: ClickHit)
        requires
            row >= 2,
        ensures
            hit == line_hit(*self, row - 2 + self.scrolls.panes.offset),
    {
        let line: usize = match self.scrolls.panes.offset.checked_add(row as usize - 2) {
            Some(line) => line,
            None => {
                return ClickHit::Elsewhere;
            },
        };
        if self.layout.tree_line_targets.contains_key(&line) {
            ClickHit::TreeLine { line }
        } else if self.layout.subagent_line_targets.contains_key(&line) {
            ClickHit::SubagentLine { line }
        } else if line < self.layout.line_to_row.len() {
            match self.layout.line_to_row[line] {
                Some(row) => ClickHit::PaneRow { row },
                None => ClickHit::Elsewhere,
            }
        } else {
            ClickHit::Elsewhere
        }
    }

    /// What a click hits.
    pub fn click_hit(&self, row: u16, col: u16) -> (hit: ClickHit)
        ensures
            hit == hit_of(*self, row, col),
    {
        if self.extensions.ui.transcript.view.is_some()
            || self.extensions.ui.transcript.loading.is_some() {
            return if in_drawn_area(&self.layout.transcript_back_rect, row, col) {
                ClickHit::TranscriptBack
            } else {
                ClickHit::Transcript
            };
        }
        if let Some(hit) = self.popup_under(row, col) {
            return hit;
        }
        if row == 0 {
            return ClickHit::FilterBar;
        }
        if row == 1 {
            return ClickHit::SecondaryHeader;
        }
        if let Some(index) = self.spawn_button_at(row, col) {
            return ClickHit::SpawnButton { index };
        }
        if let Some(index) = self.remove_marker_at(row, col) {
            return ClickHit::RemoveMarker { index };
        }
        self.line_under(row)
    }

    fn click_tree_line(&mut self, target: TreeTarget)
        ensures
            tree_line_clicked(*old(self), target, *final(self)),
    {
        self.selected_navigation_target = Some(NavigationTarget::Tree(target.clone()));
        let kept = match &self.selected_subagent_target {
            Some(subagent) => same(
                subagent.parent_pane_id.as_str(),
                target.parent_pane_id.as_str(),
            ) && same(subagent.provider_id.as_str(), target.provider_id.as_str()) && same_opt(
                &subagent.session_id,
                &target.session_id,
            ) && same(subagent.agent_id.as_str(), target.agent_id.as_str()),
            None => false,
        };
        if !kept {
            self.selected_subagent_target = None;
        }
        if target.is_disclosure {
            self.extensions.ui.toggle(&target);
        } else {
            self.extensions.ui.selected = Some(target);
        }
    }

    /// Handles a click, by what it hits. What needs tmux, a collector or another
    /// popup is left to do.
    pub fn handle_mouse_click(&mut self, row: u16, col: u16, now_ms: u64) -> (effect: ClickEffect)
        ensures
            clicked(*old(self), row, col, now_ms, *final(self), effect),
    {
        let hit = self.click_hit(row, col);
        match hit {
            ClickHit::TranscriptBack => ClickEffect::CloseTranscript,
            ClickHit::Transcript => ClickEffect::Nothing,
            ClickHit::Notices => ClickEffect::CopyNotice,
            ClickHit::RepoItem { index } => {
                let area: Option<Rect> = match &self.popup {
                    PopupState::Repo { area, .. } => *area,
                    _ => None,
                };
                self.popup = PopupState::Repo { selected: index, area };
                ClickEffect::ConfirmRepo
            },
            ClickHit::Popup => ClickEffect::Nothing,
            ClickHit::OutsidePopup => {
                self.popup = PopupState::Closed;
                ClickEffect::Nothing
            },
            ClickHit::FilterBar => {
                self.handle_filter_click(col, now_ms);
                ClickEffect::Nothing
            },
            ClickHit::SecondaryHeader => self.handle_secondary_header_click(col),
            ClickHit::SpawnButton { index } => {
                proof {
                    spawn_under_in_bounds(self.layout.repo_spawn_targets@, row, col, 0);
                }
                let target = &self.layout.repo_spawn_targets[index];
                ClickEffect::OpenSpawn {
                    repo_name: target.repo_name.clone(),
                    repo_root: target.repo_root.clone(),
                    anchor_y: target.rect.y,
                }
            },
            ClickHit::RemoveMarker { index } => {
                proof {
                    remove_under_in_bounds(self.layout.spawn_remove_targets@, row, col, 0);
                }
                let target = &self.layout.spawn_remove_targets[index];
                ClickEffect::OpenRemove { pane_id: target.pane_id.clone() }
            },
            ClickHit::TreeLine { line } => {
                if let Some(target) = self.layout.tree_line_targets.get(&line) {
                    let target = target.clone();
                    self.click_tree_line(target);
                }
                ClickEffect::Nothing
            },
            ClickHit::SubagentLine { line } => {
                match self.layout.subagent_line_targets.get(&line) {
                    Some(target) => {
                        let target = target.clone();
                        self.selected_subagent_target = Some(target.clone());
                        self.selected_navigation_target = Some(
                            NavigationTarget::Subagent(target.clone()),
                        );
                        ClickEffect::ActivateSubagent(target)
                    },
                    None => ClickEffect::Nothing,
                }
            },
            ClickHit::PaneRow { row: agent_row } => {
                self.global.selected_pane_row = agent_row;
                self.extensions.ui.selected = None;
                self.selected_subagent_target = None;
                self.selected_navigation_target = Some(NavigationTarget::Pane { row: agent_row });
                self.global.saves.push(Save::Cursor);
                ClickEffect::Nothing
            },
            ClickHit::Elsewhere => ClickEffect::Nothing,
        }
    }
}

proof fn spawn_under_in_bounds(targets: Seq<RepoSpawnTarget>, row: u16, col: u16, from: int)
    requires
        0 <= from,
    ensures
        spawn_under(targets, row, col, from) matches Some(index) ==> from <= index
            < targets.len(),
    decreases targets.len() - from,
{
    if from < targets.len() && !targets[from].rect.covers(col as int, row as int) {
        spawn_under_in_bounds(targets, row, col, from + 1);
    }
}

proof fn remove_under_in_bounds(targets: Seq<SpawnRemoveTarget>, row: u16, col: u16, from: int)
    requires
        0 <= from,
    ensures
        remove_under(targets, row, col, from) matches Some(index) ==> from <= index
            < targets.len(),
    decreases targets.len() - from,
{
    if from < targets.len() && !targets[from].rect.covers(col as int, row as int) {
        remove_under_in_bounds(targets, row, col, from + 1);
    }
}

// Laws.

/// The rows of a group are those of its panes that pass the filter, in order.
pub proof fn rows_are_the_panes_that_pass(
    before: Seq<(PaneInfo, PaneGitInfo)>,
    entry: (PaneInfo, PaneGitInfo),
    after: Seq<(PaneInfo, PaneGitInfo)>,
    filter: StatusFilter,
)
    ensures
        rows_of_group(before + seq![entry] + after, filter) == rows_of_group(before, filter) + (
        if filter.passes(entry.0.status) {
            seq![entry.0.pane_id@]
        } else {
            Seq::<Seq<char>>::empty()
        }) + rows_of_group(after, filter),
        rows_of_group(Seq::<(PaneInfo, PaneGitInfo)>::empty(), filter).len() == 0,
    decreases after.len(),
{
    let all = before + seq![entry] + after;
    let middle = if filter.passes(entry.0.status) {
        seq![entry.0.pane_id@]
    } else {
        Seq::<Seq<char>>::empty()
    };
    if after.len() == 0 {
        assert(all.drop_last() =~= before);
        assert(rows_of_group(all, filter) =~= rows_of_group(before, filter) + middle
            + rows_of_group(after, filter));
    } else {
        let rest = after.drop_last();
        rows_are_the_panes_that_pass(before, entry, rest, filter);
        assert(all.drop_last() =~= before + seq![entry] + rest);
        assert(all.last() == after.last());
        assert(rows_of_group(all, filter) =~= rows_of_group(before, filter) + middle
            + rows_of_group(after, filter));
    }
}

/// The rows of the groups stand behind each other; with a filter for one repository only
/// the groups of that name have rows.
pub proof fn rows_are_those_of_the_groups_that_pass(
    before: Seq<RepoGroup>,
    group: RepoGroup,
    after: Seq<RepoGroup>,
    wanted: String,
    filter: StatusFilter,
)
    ensures
        rows_of(before + seq![group] + after, RepoFilter::All, filter) == rows_of(
            before,
            RepoFilter::All,
            filter,
        ) + rows_of_group(group.panes@, filter) + rows_of(after, RepoFilter::All, filter),
        rows_of(before + seq![group] + after, RepoFilter::Repo(wanted), filter) == rows_of(
            before,
            RepoFilter::Repo(wanted),
            filter,
        ) + (if group.name@ == wanted@ {
            rows_of_group(group.panes@, filter)
        } else {
            Seq::<Seq<char>>::empty()
        }) + rows_of(after, RepoFilter::Repo(wanted), filter),
        rows_of(Seq::<RepoGroup>::empty(), RepoFilter::All, filter).len() == 0,
    decreases after.len(),
{
    let all = before + seq![group] + after;
    let repo = RepoFilter::Repo(wanted);
    let middle = if group.name@ == wanted@ {
        rows_of_group(group.panes@, filter)
    } else {
        Seq::<Seq<char>>::empty()
    };
    if after.len() == 0 {
        assert(all.drop_last() =~= before);
    } else {
        let rest = after.drop_last();
        rows_are_those_of_the_groups_that_pass(before, group, rest, wanted, filter);
        assert(all.drop_last() =~= before + seq![group] + rest);
        assert(all.last() == after.last());
    }
    assert(rows_of(all, RepoFilter::All, filter) =~= rows_of(before, RepoFilter::All, filter)
        + rows_of_group(group.panes@, filter) + rows_of(after, RepoFilter::All, filter));
    assert(rows_of(all, repo, filter) =~= rows_of(before, repo, filter) + middle + rows_of(
        after,
        repo,
        filter,
    ));
}

/// Each pane passes the filter for all; it passes the filter for its own status and no
/// other.
pub proof fn filters_pass_their_own_status(status: PaneStatus)
    ensures
        StatusFilter::All.passes(status),
        StatusFilter::Running.passes(status) <==> status is Running,
        StatusFilter::Background.passes(status) <==> status is Background,
        StatusFilter::Waiting.passes(status) <==> status is Waiting,
        StatusFilter::Idle.passes(status) <==> status is Idle,
        StatusFilter::Error.passes(status) <==> status is Error,
{
}

/// A filter for a repository that is gone is dropped, and any other is kept; where a row is
/// left to select, the row that was selected stays or, beyond the end, becomes the last.
pub proof fn rebuilding_keeps_what_it_can(before: AppState, after: AppState, wanted: String)
    requires
        rows_rebuilt(before, after),
    ensures
        before.global.repo_filter is All ==> after.global.repo_filter is All,
        before.global.repo_filter == RepoFilter::Repo(wanted) && (exists|i: int|
            0 <= i < before.repo_groups@.len() && (#[trigger] before.repo_groups@[i]).name@
                == wanted@) ==> after.global.repo_filter == before.global.repo_filter,
        before.global.repo_filter == RepoFilter::Repo(wanted) && (forall|i: int|
            0 <= i < before.repo_groups@.len() ==> (#[trigger] before.repo_groups@[i]).name@
                != wanted@) ==> after.global.repo_filter is All,
        before.global.selected_pane_row < after.layout.pane_row_targets@.len()
            ==> after.global.selected_pane_row == before.global.selected_pane_row,
        0 < after.layout.pane_row_targets@.len() <= before.global.selected_pane_row
            ==> after.global.selected_pane_row == after.layout.pane_row_targets@.len() - 1,
        after.global.status_filter == before.global.status_filter,
        after.repo_groups == before.repo_groups,
{
    let rows = rows_of(
        before.repo_groups@,
        after.global.repo_filter,
        before.global.status_filter,
    );
    assert(row_ids(after.layout.pane_row_targets@).len() == rows.len());
}

proof fn filter_found(state: AppState, from: int, index: int, col: int)
    requires
        0 <= from <= index < 6,
        filter_covers(state, index, col),
    ensures
        filter_under(state, from, col) == Some(filter_order()[index]),
    decreases index - from,
{
    if from < index {
        if filter_covers(state, from, col) {
            filters_do_not_overlap(state, from, index, col);
        }
        filter_found(state, from + 1, index, col);
    }
}

/// The filters stand in the bar in their order, each with its mark and its number, two
/// columns apart and one from the edge; a click on one of them chooses it.
pub proof fn a_click_chooses_the_filter_under_it(state: AppState, index: int, col: int)
    requires
        0 <= index < 6,
        filter_covers(state, index, col),
    ensures
        filter_under(state, 0, col) == Some(
            seq![
                StatusFilter::All,
                StatusFilter::Running,
                StatusFilter::Background,
                StatusFilter::Waiting,
                StatusFilter::Idle,
                StatusFilter::Error,
            ][index],
        ),
        filter_start(state, 0) == 1,
        index < 5 ==> filter_start(state, index + 1) == filter_start(state, index) + 1
            + number::decimal_of(
            rows_of(
                state.repo_groups@,
                state.global.repo_filter,
                seq![
                    StatusFilter::All,
                    StatusFilter::Running,
                    StatusFilter::Background,
                    StatusFilter::Waiting,
                    StatusFilter::Idle,
                    StatusFilter::Error,
                ][index],
            ).len(),
        ).len() + 2,
{
    filter_found(state, 0, index, col);
}

/// A click on the filter bar within a hundred and fifty milliseconds of the last is not
/// heard; a later one that is on a filter chooses it.
pub proof fn clicks_on_filters_are_debounced(
    before: AppState,
    index: int,
    col: u16,
    now_ms: u64,
    after: AppState,
)
    requires
        filter_clicked(before, col, now_ms, after),
    ensures
        now_ms - before.timers.last_filter_click < 150 ==> after == before,
        now_ms - before.timers.last_filter_click >= 150 ==> after.timers.last_filter_click
            == now_ms,
        now_ms - before.timers.last_filter_click >= 150 && 0 <= index < 6 && filter_covers(
            before,
            index,
            col as int,
        ) ==> after.global.status_filter == filter_order()[index],
{
    if 0 <= index < 6 && filter_covers(before, index, col as int) {
        filter_found(before, 0, index, col as int);
    }
}

/// While the transcript is shown, only the way back is heard; while a popup is open, only
/// the popup, and a click beside it closes it.
pub proof fn what_is_on_top_is_clicked(
    before: AppState,
    row: u16,
    col: u16,
    now_ms: u64,
    after: AppState,
    effect: ClickEffect,
)
    requires
        clicked(before, row, col, now_ms, after, effect),
    ensures
        before.extensions.ui.transcript.view is Some ==> after == before && (effect is Nothing
            || effect is CloseTranscript),
        before.extensions.ui.transcript.view is Some ==> (effect is CloseTranscript <==> (
        before.layout.transcript_back_rect is Some
            && before.layout.transcript_back_rect->0.covers(col as int, row as int))),
        before.extensions.ui.transcript.view is None && before.extensions.ui.transcript.loading
            is None && before.popup !is Closed ==> after == (AppState {
            popup: after.popup,
            ..before
        }),
        ({
            let area = match before.popup {
                PopupState::Closed => None,
                PopupState::Notices { area } => area,
                PopupState::Repo { area, .. } => area,
                PopupState::SpawnInput { area, .. } => area,
                PopupState::RemoveConfirm { area, .. } => area,
            };
            before.extensions.ui.transcript.view is None && before.extensions.ui.transcript.loading
                is None && before.popup !is Closed && !(area is Some && area->0.covers(
                col as int,
                row as int,
            )) ==> after.popup is Closed && effect is Nothing
        }),
{
}

/// An entry of the list of repositories is chosen by a click on its row, below the border.
pub proof fn a_repository_is_chosen_by_its_row(
    before: AppState,
    row: u16,
    col: u16,
    now_ms: u64,
    after: AppState,
    effect: ClickEffect,
    index: int,
)
    requires
        clicked(before, row, col, now_ms, after, effect),
        before.extensions.ui.transcript.view is None,
        before.extensions.ui.transcript.loading is None,
        before.popup is Repo,
        before.popup->Repo_area is Some,
        before.popup->Repo_area->0.covers(col as int, row as int),
        0 <= index <= before.repo_groups@.len(),
        row == before.popup->Repo_area->0.y + 1 + index,
        before.repo_groups@.len() < usize::MAX,
    ensures
        effect is ConfirmRepo,
        after.popup is Repo && after.popup->Repo_selected == index,
{
}

/// A click on a line of the list, with nothing on top and no button there, is one on what
/// was drawn on that line, as far as the list is scrolled: a pane is selected by it, and the
/// selection is kept.
pub proof fn a_click_selects_the_pane_of_its_line(
    before: AppState,
    row: u16,
    col: u16,
    now_ms: u64,
    after: AppState,
    effect: ClickEffect,
    line: usize,
    chosen: usize,
)
    requires
        clicked(before, row, col, now_ms, after, effect),
        before.extensions.ui.transcript.view is None,
        before.extensions.ui.transcript.loading is None,
        before.popup is Closed,
        row >= 2,
        line == row - 2 + before.scrolls.panes.offset,
        forall|i: int|
            0 <= i < before.layout.repo_spawn_targets@.len() ==> !(
            #[trigger] before.layout.repo_spawn_targets@[i]).rect.covers(col as int, row as int),
        forall|i: int|
            0 <= i < before.layout.spawn_remove_targets@.len() ==> !(
            #[trigger] before.layout.spawn_remove_targets@[i]).rect.covers(col as int, row as int),
        !before.layout.tree_line_targets@.contains_key(line),
        !before.layout.subagent_line_targets@.contains_key(line),
        line < before.layout.line_to_row@.len(),
        before.layout.line_to_row@[line as int] == Some(chosen),
    ensures
        after.global.selected_pane_row == chosen,
        after.global.saves@ == before.global.saves@.push(Save::Cursor),
        after.selected_navigation_target == Some(NavigationTarget::Pane { row: chosen }),
        after.selected_subagent_target is None,
        effect is Nothing,
{
    no_button_there(before.layout.repo_spawn_targets@, row, col, 0);
    no_marker_there(before.layout.spawn_remove_targets@, row, col, 0);
}

proof fn no_button_there(targets: Seq<RepoSpawnTarget>, row: u16, col: u16, from: int)
    requires
        0 <= from,
        forall|i: int|
            0 <= i < targets.len() ==> !(#[trigger] targets[i]).rect.covers(
                col as int,
                row as int,
            ),
    ensures
        spawn_under(targets, row, col, from) is None,
    decreases targets.len() - from,
{
    if from < targets.len() {
        assert(!targets[from].rect.covers(col as int, row as int));
        no_button_there(targets, row, col, from + 1);
    }
}

proof fn no_marker_there(targets: Seq<SpawnRemoveTarget>, row: u16, col: u16, from: int)
    requires
        0 <= from,
        forall|i: int|
            0 <= i < targets.len() ==> !(#[trigger] targets[i]).rect.covers(
                col as int,
                row as int,
            ),
    ensures
        remove_under(targets, row, col, from) is None,
    decreases targets.len() - from,
{
    if from < targets.len() {
        assert(!targets[from].rect.covers(col as int, row as int));
        no_marker_there(targets, row, col, from + 1);
    }
}

/// The wheel turns what is on top, and else the panel that the pointer is over.
pub proof fn the_wheel_turns_what_is_under_it(
    state: AppState,
    row: u16,
    term_height: u16,
    bottom_panel_height: u16,
)
    requires
        state.extensions.ui.transcript.view is None,
        state.extensions.ui.transcript.loading is None,
        state.extensions.ui.detail is None,
    ensures
        scrolled_at(state, row, term_height, bottom_panel_height) is Panes <==> row
            + bottom_panel_height < term_height,
        scrolled_at(state, row, term_height, bottom_panel_height) is Bottom <==> row
            + bottom_panel_height >= term_height,
{
}

} // verus!
