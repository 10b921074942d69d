//! The lines of the list, and what each stands for.

use vstd::prelude::*;
use vstd::string::StringExecFns;

use crate::extension;
use crate::extension::{AgentModel, Inspection};
use crate::group::{PaneGitInfo, RepoGroup};
use crate::state::extensions::{KeyModel, TargetModel, TreeTarget};
use crate::state::focus::Focus;
use crate::state::layout;
use crate::state::layout::{SubagentModel, SubagentTarget};
use crate::state::pane_runtime;
use crate::state::{AppState, StatusFilter};
use crate::text;
use crate::text::{borrowed, concat2, owned, same};
use crate::tmux::types;
use crate::tmux::types::PaneInfo;
use crate::ui::line;
use crate::ui::line::{no_texts, one_text, RowText};
use crate::ui::panes::row;
use crate::ui::panes::row::{render_extension_tree, sidebar_remove_marker_col, TreeRow};
use crate::ui::panes::row_text;
use crate::ui::panes::row_text::{pane_texts, status_icon, PaneScene, PaneText};
use crate::ui::panes::SPAWN_BUTTON;

verus! {

/// A line of the list.
#[derive(Debug)]
pub enum ListLine {
    /// Between two repositories.
    Blank,
    /// The name of a repository, with a spawn button where its root is known.
    Header { name: String, root: Option<String>, focused: bool },
    /// A line of a pane. Its second may end in a marker that removes the worktree,
    /// which is given by column and pane.
    Pane { row: usize, line: usize, remove: Option<(u16, String)>, shown: PaneText },
    /// A subagent of the selected pane.
    Subagent { row: usize, text: String, target: SubagentTarget },
    /// What a collector knows of the selected pane.
    Tree { row: usize, entry: TreeRow },
    /// What is wrong with the collectors.
    Notice { row: usize, text: String },
}

/// The model of a line.
pub enum LineModel {
    Blank,
    Header { name: Seq<char>, root: Option<Seq<char>>, focused: bool },
    Pane { row: int, line: int, remove: Option<(int, Seq<char>)>, shown: row_text::TextModel },
    Subagent { row: int, text: Seq<char>, target: SubagentModel },
    Tree { row: int, entry: row::RowModel },
    Notice { row: int, text: Seq<char> },
}

/// The model of a marker.
pub open spec fn marker_model(remove: Option<(u16, String)>) -> Option<(int, Seq<char>)> {
    match remove {
        Some((col, pane_id)) => Some((col as int, pane_id@)),
        None => None,
    }
}

impl View for ListLine {
    type V = LineModel;

    open spec fn view(&self) -> LineModel {
        match self {
            ListLine::Blank => LineModel::Blank,
            ListLine::Header { name, root, focused } => LineModel::Header {
                name: name@,
                root: text::opt(*root),
                focused: *focused,
            },
            ListLine::Pane { row, line, remove, shown } => LineModel::Pane {
                row: *row as int,
                line: *line as int,
                remove: marker_model(*remove),
                shown: shown@,
            },
            ListLine::Subagent { row, text, target } => LineModel::Subagent {
                row: *row as int,
                text: text@,
                target: target@,
            },
            ListLine::Tree { row, entry } => LineModel::Tree { row: *row as int, entry: entry@ },
            ListLine::Notice { row, text } => LineModel::Notice { row: *row as int, text: text@ },
        }
    }
}

/// The models of a list of lines.
pub open spec fn line_models(lines: Seq<ListLine>) -> Seq<LineModel> {
    lines.map_values(|line: ListLine| line@)
}

/// Whether a row is the selected one while the list takes keys.
pub open spec fn is_selected(state: AppState, row: int) -> bool {
    &&& state.focus_state.sidebar_focused
    &&& state.focus_state.focus == Focus::Panes
    &&& row == state.global.selected_pane_row
}

/// Whether a pane is the one that tmux has in focus.
pub open spec fn is_active(state: AppState, pane: PaneInfo) -> bool {
    state.focus_state.focused_pane_id matches Some(id) && id@ == pane.pane_id@
}

/// The cells of a row behind its marker.
pub open spec fn inner_width(width: u16) -> usize {
    (if width > 2 {
        width - 2
    } else {
        0
    }) as usize
}

/// What a pane in a row is drawn with.
pub open spec fn scene_of(state: AppState, pane: PaneInfo, row: int, width: u16) -> PaneScene {
    let models = state.pane_states.models();
    PaneScene {
        ports: if models.contains_key(pane.pane_id@) {
            Some(models[pane.pane_id@].ports)
        } else {
            None
        },
        tasks: pane_runtime::known_of(models, pane.pane_id@).task_progress,
        selected: is_selected(state, row),
        active: is_active(state, pane),
        icon: row_text::icon_of(pane.status),
        inner_width: inner_width(width),
        now: state.now,
    }
}

/// The panes of a group that a filter lists.
pub open spec fn listed_panes(
    panes: Seq<(PaneInfo, PaneGitInfo)>,
    filter: StatusFilter,
) -> Seq<(PaneInfo, PaneGitInfo)>
    decreases panes.len(),
{
    if panes.len() == 0 {
        Seq::<(PaneInfo, PaneGitInfo)>::empty()
    } else {
        let before = listed_panes(panes.drop_last(), filter);
        if filter.passes(panes.last().0.status) {
            before.push(panes.last())
        } else {
            before
        }
    }
}

/// The first known root, counted from `from`, of the panes of a group.
pub open spec fn group_root(panes: Seq<(PaneInfo, PaneGitInfo)>, from: int) -> Option<Seq<char>>
    decreases panes.len() - from,
{
    if from < 0 || from >= panes.len() {
        None
    } else if panes[from].1.repo_root is Some {
        text::opt(panes[from].1.repo_root)
    } else {
        group_root(panes, from + 1)
    }
}

/// Whether the focused pane is one of a group.
pub open spec fn has_focused_pane(state: AppState, panes: Seq<(PaneInfo, PaneGitInfo)>) -> bool {
    &&& state.focus_state.focused_pane_id is Some
    &&& exists|k: int|
        0 <= k < panes.len() && (#[trigger] panes[k]).0.pane_id@
            == state.focus_state.focused_pane_id->0@
}

/// The header of a group.
pub open spec fn header_line(state: AppState, group: RepoGroup) -> LineModel {
    LineModel::Header {
        name: group.name@,
        root: group_root(group.panes@, 0),
        focused: has_focused_pane(state, group.panes@),
    }
}

/// The marker on the branch row of a pane, where it has one.
pub open spec fn remove_marker(
    pane: PaneInfo,
    git_info: PaneGitInfo,
    width: u16,
) -> Option<(int, Seq<char>)> {
    if row::has_remove_marker(git_info, pane.sidebar_spawned) {
        Some(
            (
                (if width > 2 {
                    width - 2
                } else {
                    0
                }) + 1,
                pane.pane_id@,
            ),
        )
    } else {
        None
    }
}

/// The lines of a pane itself.
pub open spec fn own_lines(
    pane: PaneInfo,
    git_info: PaneGitInfo,
    row: int,
    width: u16,
    texts: Seq<row_text::TextModel>,
) -> Seq<LineModel> {
    Seq::new(
        texts.len(),
        |i: int|
            LineModel::Pane {
                row,
                line: i,
                remove: if i == 1 {
                    remove_marker(pane, git_info, width)
                } else {
                    None
                },
                shown: texts[i],
            },
    )
}

/// The name under which a pane is inspected.
pub open spec fn inspection_key(pane: PaneInfo) -> KeyModel {
    KeyModel {
        provider: types::agent_label(pane.agent),
        pane_id: pane.pane_id@,
        session_id: text::opt(pane.session_id),
    }
}

/// What a collector knows of a pane.
pub open spec fn inspection_of(state: AppState, pane: PaneInfo) -> Option<Inspection> {
    if state.extensions.cache@.dom().contains(inspection_key(pane)) {
        Some(state.extensions.cache@[inspection_key(pane)])
    } else {
        None
    }
}

/// The line of a subagent.
pub open spec fn subagent_line(pane: PaneInfo, row: int, agent: AgentModel) -> LineModel {
    LineModel::Subagent {
        row,
        text: "  └ "@ + agent.label + match agent.model {
            Some(model) => "  "@ + model,
            None => Seq::<char>::empty(),
        },
        target: SubagentModel {
            parent_pane_id: pane.pane_id@,
            provider_id: types::agent_label(pane.agent),
            session_id: text::opt(pane.session_id),
            agent_id: agent.id,
            node_id: agent.id,
        },
    }
}

/// The lines of the subagents, which are the agents with a parent.
pub open spec fn subagent_lines(pane: PaneInfo, row: int, agents: Seq<AgentModel>) -> Seq<LineModel>
    decreases agents.len(),
{
    if agents.len() == 0 {
        Seq::<LineModel>::empty()
    } else {
        let before = subagent_lines(pane, row, agents.drop_last());
        if agents.last().parent_id is Some {
            before.push(subagent_line(pane, row, agents.last()))
        } else {
            before
        }
    }
}

/// The agent of a pane that is selected: by subagent, else by tree line.
pub open spec fn selected_agent(state: AppState, pane: PaneInfo) -> Option<Seq<char>> {
    match state.selected_subagent_target {
        Some(target) if target.parent_pane_id@ == pane.pane_id@ => Some(target.agent_id@),
        _ => match state.extensions.ui.selected {
            Some(target) if target.parent_pane_id@ == pane.pane_id@ => Some(target.agent_id@),
            _ => None,
        },
    }
}

/// The lines of what a collector knows.
pub open spec fn tree_lines(row: int, rows: Seq<row::RowModel>) -> Seq<LineModel> {
    rows.map_values(|entry: row::RowModel| (LineModel::Tree { row, entry }))
}

/// The rows of what a collector knows of a pane.
pub open spec fn pane_tree(state: AppState, pane: PaneInfo, width: u16) -> Seq<row::RowModel> {
    match (inspection_of(state, pane), state.extensions.config) {
        (Some(known), Some(config)) => row::tree_rows(
            (row::ScopeModel {
                pane_id: pane.pane_id@,
                provider_id: types::agent_label(pane.agent),
                session_id: text::opt(pane.session_id),
                agent_id: row::shown_agent(known@, pane.pane_id@, selected_agent(state, pane)),
                expanded: state.extensions.ui.expanded@,
                room: row::row_room(width as usize),
            }),
            config,
            known,
        ),
        _ => Seq::<row::RowModel>::empty(),
    }
}

/// The line that says what is wrong with the collectors.
pub open spec fn notice_lines(state: AppState, row: int) -> Seq<LineModel> {
    match state.extensions.config_error {
        Some(error) => seq![LineModel::Notice { row, text: "  × "@ + error@ }],
        None => Seq::<LineModel>::empty(),
    }
}

/// The lines below the selected pane: its subagents, what a collector knows of
/// it, and what is wrong with the collectors.
pub open spec fn selected_lines(state: AppState, pane: PaneInfo, row: int, width: u16) -> Seq<
    LineModel,
> {
    (match inspection_of(state, pane) {
        Some(known) => subagent_lines(pane, row, known@.reply.agents),
        None => Seq::<LineModel>::empty(),
    }) + tree_lines(row, pane_tree(state, pane, width)) + notice_lines(state, row)
}

/// The lines of a pane.
pub open spec fn pane_lines(
    state: AppState,
    pane: (PaneInfo, PaneGitInfo),
    row: int,
    width: u16,
) -> Seq<LineModel> {
    own_lines(
        pane.0,
        pane.1,
        row,
        width,
        row_text::lines_of_pane(pane.0, pane.1, scene_of(state, pane.0, row, width)),
    ) + if is_selected(state, row) {
        selected_lines(state, pane.0, row, width)
    } else {
        Seq::<LineModel>::empty()
    }
}

/// The lines of panes whose rows start at `start`.
pub open spec fn panes_lines(
    state: AppState,
    panes: Seq<(PaneInfo, PaneGitInfo)>,
    start: int,
    width: u16,
) -> Seq<LineModel>
    decreases panes.len(),
{
    if panes.len() == 0 {
        Seq::<LineModel>::empty()
    } else {
        panes_lines(state, panes.drop_last(), start, width) + pane_lines(
            state,
            panes.last(),
            start + panes.len() - 1,
            width,
        )
    }
}

/// The lines of a group whose rows start at `start`. A group without a listed
/// pane has none; a blank separates a group from those before.
pub open spec fn group_lines(
    state: AppState,
    group: RepoGroup,
    start: int,
    width: u16,
) -> Seq<LineModel> {
    let listed = listed_panes(group.panes@, state.global.status_filter);
    if !state.global.repo_filter.passes(group.name@) || listed.len() == 0 {
        Seq::<LineModel>::empty()
    } else {
        (if start == 0 {
            Seq::<LineModel>::empty()
        } else {
            seq![LineModel::Blank]
        }) + seq![header_line(state, group)] + panes_lines(state, listed, start, width)
    }
}

/// The lines of groups.
pub open spec fn list_lines(
    state: AppState,
    groups: Seq<RepoGroup>,
    width: u16,
) -> Seq<LineModel>
    decreases groups.len(),
{
    if groups.len() == 0 {
        Seq::<LineModel>::empty()
    } else {
        let rest = groups.drop_last();
        list_lines(state, rest, width) + group_lines(
            state,
            groups.last(),
            layout::rows_of(
                rest,
                state.global.repo_filter,
                state.global.status_filter,
            ).len() as int,
            width,
        )
    }
}

proof fn listed_panes_are_rows(panes: Seq<(PaneInfo, PaneGitInfo)>, filter: StatusFilter)
    ensures
        layout::rows_of_group(panes, filter) == listed_panes(panes, filter).map_values(
            |entry: (PaneInfo, PaneGitInfo)| entry.0.pane_id@,
        ),
    decreases panes.len(),
{
    let ids = |entry: (PaneInfo, PaneGitInfo)| entry.0.pane_id@;
    if panes.len() > 0 {
        listed_panes_are_rows(panes.drop_last(), filter);
        let before = listed_panes(panes.drop_last(), filter);
        assert(before.push(panes.last()).map_values(ids) =~= before.map_values(ids).push(
            panes.last().0.pane_id@,
        ));
        assert(layout::rows_of_group(panes, filter) =~= listed_panes(panes, filter).map_values(ids));
    } else {
        assert(layout::rows_of_group(panes, filter) =~= listed_panes(panes, filter).map_values(ids));
    }
}

fn push_own_lines(
    pane: &PaneInfo,
    git_info: &PaneGitInfo,
    row: usize,
    width: u16,
    texts: Vec<PaneText>,
    lines: &mut Vec<ListLine>,
)
    ensures
        line_models(final(lines)@) == line_models(old(lines)@) + own_lines(
            *pane,
            *git_info,
            row as int,
            width,
            row_text::text_models(texts@),
        ),
{
    let ghost before = line_models(lines@);
    let ghost all = texts@;
    let ghost wanted = own_lines(
        *pane,
        *git_info,
        row as int,
        width,
        row_text::text_models(texts@),
    );
    let total: usize = texts.len();
    let mut rest = texts;
    let mut i: usize = 0;
    proof {
        assert(rest@ =~= all.skip(0));
        assert(line_models(lines@) =~= before + wanted.take(0));
    }
    while rest.len() > 0
        invariant
            i <= all.len() == total,
            rest@ == all.skip(i as int),
            wanted == own_lines(
                *pane,
                *git_info,
                row as int,
                width,
                row_text::text_models(all),
            ),
            line_models(lines@) == before + wanted.take(i as int),
        decreases rest@.len(),
    {
        let ghost so_far = line_models(lines@);
        let remove: Option<(u16, String)> = if i == 1 {
            match sidebar_remove_marker_col(
                git_info,
                None,
                pane.sidebar_spawned,
                width.saturating_sub(2) as usize,
            ) {
                Some(col) => Some((col, pane.pane_id.clone())),
                None => None,
            }
        } else {
            None
        };
        let shown = rest.remove(0);
        let line = ListLine::Pane { row, line: i, remove, shown };
        let ghost model = line@;
        lines.push(line);
        proof {
            assert(shown == all[i as int]);
            assert(model == wanted[i as int]);
            assert(line_models(lines@) =~= so_far.push(model));
            assert(wanted.take(i + 1) =~= wanted.take(i as int).push(wanted[i as int]));
            assert(rest@ =~= all.skip(i + 1));
        }
        i = i + 1;
    }
    proof {
        assert(wanted.take(i as int) =~= wanted);
    }
}

fn texts_of(state: &AppState, pane: &PaneInfo, git_info: &PaneGitInfo, row: usize, width: u16) -> (
texts: Vec<PaneText>)
    ensures
        row_text::text_models(texts@) == row_text::lines_of_pane(
            *pane,
            *git_info,
            scene_of(*state, *pane, row as int, width),
        ),
{
    let selected = state.focus_state.sidebar_focused && state.focus_state.focus == Focus::Panes
        && row == state.global.selected_pane_row;
    let active = match &state.focus_state.focused_pane_id {
        Some(id) => same(id.as_str(), pane.pane_id.as_str()),
        None => false,
    };
    let ports = state.pane_ports(pane.pane_id.as_str());
    let tasks = state.pane_task_progress(pane.pane_id.as_str());
    let inner: usize = width.saturating_sub(2) as usize;
    proof {
        let scene = scene_of(*state, *pane, row as int, width);
        assert(row::known_ports(ports) == scene.ports);
        assert(row::known_tasks(tasks) == scene.tasks);
    }
    pane_texts(
        pane,
        git_info,
        ports,
        tasks,
        selected,
        active,
        status_icon(pane.status),
        inner,
        state.now,
    )
}

fn push_subagents(pane: &PaneInfo, row: usize, inspection: &Inspection, lines: &mut Vec<ListLine>)
    ensures
        line_models(final(lines)@) == line_models(old(lines)@) + subagent_lines(
            *pane,
            row as int,
            inspection@.reply.agents,
        ),
{
    let ghost before = line_models(lines@);
    let agents = &inspection.reply.agents;
    let ghost models = inspection@.reply.agents;
    let mut i: usize = 0;
    proof {
        assert(models.take(0) =~= Seq::<AgentModel>::empty());
        assert(before + subagent_lines(*pane, row as int, models.take(0)) =~= before);
    }
    while i < agents.len()
        invariant
            i <= agents@.len(),
            models == extension::agent_models(agents@),
            line_models(lines@) == before + subagent_lines(
                *pane,
                row as int,
                models.take(i as int),
            ),
        decreases agents@.len() - i,
    {
        let agent = &agents[i];
        proof {
            assert(models.take(i + 1).drop_last() =~= models.take(i as int));
            assert(models[i as int] == agent@);
        }
        if agent.parent_id.is_some() {
            let ghost so_far = line_models(lines@);
            let mut label = concat2("  └ ", agent.label.as_str());
            if let Some(model) = &agent.model {
                label.append(concat2("  ", model.as_str()).as_str());
            }
            let line = ListLine::Subagent {
                row,
                text: label,
                target: SubagentTarget {
                    parent_pane_id: pane.pane_id.clone(),
                    provider_id: owned(pane.agent.as_str()),
                    session_id: pane.session_id.clone(),
                    agent_id: agent.id.clone(),
                    node_id: agent.id.clone(),
                },
            };
            let ghost wanted = subagent_line(*pane, row as int, agent@);
            proof {
                assert(label@ =~= "  └ "@ + agent@.label + match agent@.model {
                    Some(model) => "  "@ + model,
                    None => Seq::<char>::empty(),
                });
                assert(line@ == wanted);
            }
            lines.push(line);
            proof {
                assert(line_models(lines@) =~= so_far.push(wanted));
                assert(line_models(lines@) =~= before + subagent_lines(
                    *pane,
                    row as int,
                    models.take(i + 1),
                ));
            }
        }
        i = i + 1;
    }
    proof {
        assert(models.take(i as int) =~= models);
    }
}

fn push_tree(row: usize, rows: Vec<TreeRow>, lines: &mut Vec<ListLine>)
    ensures
        line_models(final(lines)@) == line_models(old(lines)@) + tree_lines(
            row as int,
            row::row_models(rows@),
        ),
{
    let ghost before = line_models(lines@);
    let ghost wanted = tree_lines(row as int, row::row_models(rows@));
    let ghost start = rows@;
    let ghost mut done: int = 0;
    let mut rows = rows;
    proof {
        assert(before + wanted.take(0) =~= before);
        assert(rows@ =~= start.skip(0));
    }
    while rows.len() > 0
        invariant
            0 <= done <= start.len(),
            wanted == tree_lines(row as int, row::row_models(start)),
            rows@ == start.skip(done),
            line_models(lines@) == before + wanted.take(done),
        decreases rows@.len(),
    {
        let ghost so_far = line_models(lines@);
        let entry = rows.remove(0);
        lines.push(ListLine::Tree { row, entry });
        proof {
            assert(wanted[done] == (LineModel::Tree { row: row as int, entry: start[done]@ }));
            assert(line_models(lines@) =~= so_far.push(wanted[done]));
            assert(line_models(lines@) =~= before + wanted.take(done + 1));
            assert(rows@ =~= start.skip(done + 1));
            done = done + 1;
        }
    }
    proof {
        assert(wanted.take(done) =~= wanted);
    }
}

fn agent_for_tree<'a>(state: &'a AppState, pane: &PaneInfo) -> (agent_id: Option<&'a str>)
    ensures
        text::opt_ref(agent_id) == selected_agent(*state, *pane),
{
    if let Some(target) = &state.selected_subagent_target {
        if same(target.parent_pane_id.as_str(), pane.pane_id.as_str()) {
            return Some(target.agent_id.as_str());
        }
    }
    if let Some(target) = &state.extensions.ui.selected {
        if same(target.parent_pane_id.as_str(), pane.pane_id.as_str()) {
            return Some(target.agent_id.as_str());
        }
    }
    None
}

fn push_selected(
    state: &AppState,
    pane: &PaneInfo,
    row: usize,
    width: u16,
    lines: &mut Vec<ListLine>,
)
    ensures
        line_models(final(lines)@) == line_models(old(lines)@) + selected_lines(
            *state,
            *pane,
            row as int,
            width,
        ),
{
    let ghost before = line_models(lines@);
    let inspection = state.extensions.inspection(
        pane.pane_id.as_str(),
        pane.agent.as_str(),
        borrowed(&pane.session_id),
    );
    if let Some(known) = inspection {
        push_subagents(pane, row, known, lines);
    }
    let ghost first = match inspection_of(*state, *pane) {
        Some(known) => subagent_lines(*pane, row as int, known@.reply.agents),
        None => Seq::<LineModel>::empty(),
    };
    proof {
        assert(line_models(lines@) =~= before + first);
    }
    let rows = render_extension_tree(
        inspection,
        state.extensions.config.as_ref(),
        pane.pane_id.as_str(),
        pane.agent.as_str(),
        borrowed(&pane.session_id),
        agent_for_tree(state, pane),
        &state.extensions.ui,
        width as usize,
    );
    proof {
        assert(row::row_models(rows@) =~= pane_tree(*state, *pane, width));
    }
    push_tree(row, rows, lines);
    let ghost second = tree_lines(row as int, pane_tree(*state, *pane, width));
    if let Some(error) = &state.extensions.config_error {
        lines.push(ListLine::Notice { row, text: concat2("  × ", error.as_str()) });
    }
    proof {
        assert(line_models(lines@) =~= before + first + second + notice_lines(
            *state,
            row as int,
        ));
        assert(before + first + second + notice_lines(*state, row as int) =~= before
            + selected_lines(*state, *pane, row as int, width));
    }
}

fn push_pane(
    state: &AppState,
    pane: &PaneInfo,
    git_info: &PaneGitInfo,
    row: usize,
    width: u16,
    lines: &mut Vec<ListLine>,
)
    ensures
        line_models(final(lines)@) == line_models(old(lines)@) + pane_lines(
            *state,
            (*pane, *git_info),
            row as int,
            width,
        ),
        final(lines)@.len() > old(lines)@.len(),
{
    let ghost before = line_models(lines@);
    let texts = texts_of(state, pane, git_info, row, width);
    let ghost own = own_lines(
        *pane,
        *git_info,
        row as int,
        width,
        row_text::text_models(texts@),
    );
    push_own_lines(pane, git_info, row, width, texts, lines);
    if state.focus_state.sidebar_focused && state.focus_state.focus == Focus::Panes && row
        == state.global.selected_pane_row {
        push_selected(state, pane, row, width, lines);
    }
    proof {
        row_text::status_and_branch_lead(
            *pane,
            *git_info,
            scene_of(*state, *pane, row as int, width),
        );
        assert(own.len() > 0);
        assert(line_models(lines@) =~= before + pane_lines(
            *state,
            (*pane, *git_info),
            row as int,
            width,
        ));
        assert(line_models(lines@).len() == lines@.len());
    }
}

fn is_listed(panes: &Vec<(PaneInfo, PaneGitInfo)>, filter: StatusFilter) -> (yes: bool)
    ensures
        yes == (listed_panes(panes@, filter).len() > 0),
{
    let mut i: usize = 0;
    proof {
        assert(panes@.take(0) =~= Seq::<(PaneInfo, PaneGitInfo)>::empty());
    }
    while i < panes.len()
        invariant
            i <= panes@.len(),
            listed_panes(panes@.take(i as int), filter).len() == 0,
        decreases panes@.len() - i,
    {
        proof {
            assert(panes@.take(i + 1).drop_last() =~= panes@.take(i as int));
        }
        if filter.matches(&panes[i].0.status) {
            proof {
                listed_grows(panes@, filter, i + 1);
            }
            return true;
        }
        i = i + 1;
    }
    proof {
        assert(panes@.take(i as int) =~= panes@);
    }
    false
}

proof fn listed_grows(panes: Seq<(PaneInfo, PaneGitInfo)>, filter: StatusFilter, count: int)
    requires
        0 <= count <= panes.len(),
    ensures
        listed_panes(panes.take(count), filter).len() <= listed_panes(panes, filter).len(),
    decreases panes.len() - count,
{
    if count < panes.len() {
        assert(panes.take(count + 1).drop_last() =~= panes.take(count));
        listed_grows(panes, filter, count + 1);
    } else {
        assert(panes.take(count) =~= panes);
    }
}

fn find_root(panes: &Vec<(PaneInfo, PaneGitInfo)>) -> (root: Option<String>)
    ensures
        text::opt(root) == group_root(panes@, 0),
{
    let mut i: usize = 0;
    while i < panes.len()
        invariant
            i <= panes@.len(),
            group_root(panes@, 0) == group_root(panes@, i as int),
        decreases panes@.len() - i,
    {
        if let Some(root) = &panes[i].1.repo_root {
            return Some(root.clone());
        }
        i = i + 1;
    }
    None
}

fn focused_in(state: &AppState, panes: &Vec<(PaneInfo, PaneGitInfo)>) -> (yes: bool)
    ensures
        yes == has_focused_pane(*state, panes@),
{
    let id: &String = match &state.focus_state.focused_pane_id {
        Some(id) => id,
        None => {
            return false;
        },
    };
    let mut i: usize = 0;
    while i < panes.len()
        invariant
            i <= panes@.len(),
            state.focus_state.focused_pane_id == Some(*id),
            forall|k: int| 0 <= k < i ==> (#[trigger] panes@[k]).0.pane_id@ != id@,
        decreases panes@.len() - i,
    {
        if same(panes[i].0.pane_id.as_str(), id.as_str()) {
            return true;
        }
        i = i + 1;
    }
    false
}

fn push_group(
    state: &AppState,
    group: &RepoGroup,
    start: usize,
    width: u16,
    lines: &mut Vec<ListLine>,
) -> (next: usize)
    requires
        start <= old(lines)@.len(),
    ensures
        line_models(final(lines)@) == line_models(old(lines)@) + group_lines(
            *state,
            *group,
            start as int,
            width,
        ),
        next == start + if state.global.repo_filter.passes(group.name@) {
            listed_panes(group.panes@, state.global.status_filter).len()
        } else {
            0
        },
        next <= final(lines)@.len(),
{
    let ghost before = line_models(lines@);
    let filter = state.global.status_filter;
    if !state.global.repo_filter.matches_group(group.name.as_str()) || !is_listed(
        &group.panes,
        filter,
    ) {
        proof {
            assert(before + Seq::<LineModel>::empty() =~= before);
        }
        return start;
    }
    if start != 0 {
        lines.push(ListLine::Blank);
    }
    let header = ListLine::Header {
        name: group.name.clone(),
        root: find_root(&group.panes),
        focused: focused_in(state, &group.panes),
    };
    lines.push(header);
    let ghost opening = (if start == 0 {
        Seq::<LineModel>::empty()
    } else {
        seq![LineModel::Blank]
    }) + seq![header_line(*state, *group)];
    proof {
        assert(header@ == header_line(*state, *group));
        assert(line_models(lines@) =~= before + opening);
        assert(line_models(lines@).len() == lines@.len());
        assert(before.len() == old(lines)@.len());
    }
    let panes = &group.panes;
    let mut row: usize = start;
    let mut i: usize = 0;
    let ghost listed = listed_panes(panes@.take(0), filter);
    proof {
        assert(panes@.take(0) =~= Seq::<(PaneInfo, PaneGitInfo)>::empty());
        assert(line_models(lines@) =~= before + opening + panes_lines(
            *state,
            listed_panes(panes@.take(0), filter),
            start as int,
            width,
        ));
    }
    while i < panes.len()
        invariant
            i <= panes@.len(),
            filter == state.global.status_filter,
            row == start + listed_panes(panes@.take(i as int), filter).len(),
            row <= lines@.len(),
            line_models(lines@) == before + opening + panes_lines(
                *state,
                listed_panes(panes@.take(i as int), filter),
                start as int,
                width,
            ),
        decreases panes@.len() - i,
    {
        proof {
            assert(panes@.take(i + 1).drop_last() =~= panes@.take(i as int));
        }
        if filter.matches(&panes[i].0.status) {
            let ghost so_far = line_models(lines@);
            let ghost listed = listed_panes(panes@.take(i as int), filter);
            push_pane(state, &panes[i].0, &panes[i].1, row, width, lines);
            proof {
                assert(lines@.len() > row);
            }
            assert(row < lines.len());
            row = row + 1;
            proof {
                let more = listed.push(panes@[i as int]);
                assert(more.drop_last() =~= listed);
                assert(listed_panes(panes@.take(i + 1), filter) == more);
                assert(line_models(lines@) =~= before + opening + panes_lines(
                    *state,
                    more,
                    start as int,
                    width,
                ));
            }
        }
        i = i + 1;
    }
    proof {
        assert(panes@.take(i as int) =~= panes@);
        assert(line_models(lines@) =~= before + group_lines(
            *state,
            *group,
            start as int,
            width,
        ));
    }
    row
}

/// The lines of the list for the panes that the filters list.
pub fn collect_lines(state: &AppState, width: u16) -> (lines: Vec<ListLine>)
    ensures
        line_models(lines@) == list_lines(*state, state.repo_groups@, width),
{
    let groups = &state.repo_groups;
    let mut lines: Vec<ListLine> = Vec::new();
    let mut row: usize = 0;
    let mut i: usize = 0;
    proof {
        assert(groups@.take(0) =~= Seq::<RepoGroup>::empty());
        assert(line_models(lines@) =~= Seq::<LineModel>::empty());
    }
    while i < groups.len()
        invariant
            i <= groups@.len(),
            row == layout::rows_of(
                groups@.take(i as int),
                state.global.repo_filter,
                state.global.status_filter,
            ).len(),
            row <= lines@.len(),
            line_models(lines@) == list_lines(*state, groups@.take(i as int), width),
        decreases groups@.len() - i,
    {
        let ghost so_far = line_models(lines@);
        row = push_group(state, &groups[i], row, width, &mut lines);
        proof {
            assert(groups@.take(i + 1).drop_last() =~= groups@.take(i as int));
            listed_panes_are_rows(groups@[i as int].panes@, state.global.status_filter);
        }
        i = i + 1;
    }
    proof {
        assert(groups@.take(i as int) =~= groups@);
    }
    lines
}

/// What the header of a group says: its name, and at the right the button that spawns
/// an agent, where the root is known.
pub open spec fn header_text(name: Seq<char>, has_root: bool, width: u16) -> line::RowModel {
    line::spread(
        seq![name],
        if has_root {
            seq![SPAWN_BUTTON@]
        } else {
            Seq::empty()
        },
        width as nat,
    )
}

/// What the header of a group says.
pub fn header_row_text(name: &str, has_root: bool, width: u16) -> (shown: RowText)
    ensures
        shown@ == header_text(name@, has_root, width),
{
    let button = if has_root {
        one_text(owned(SPAWN_BUTTON))
    } else {
        no_texts()
    };
    RowText::new(one_text(owned(name)), button, width as usize)
}

// What the lines stand for.

/// The row that a line belongs to.
pub open spec fn row_of_line(line: LineModel) -> Option<int> {
    match line {
        LineModel::Pane { row, .. } => Some(row),
        LineModel::Subagent { row, .. } => Some(row),
        LineModel::Tree { row, .. } => Some(row),
        LineModel::Notice { row, .. } => Some(row),
        _ => None,
    }
}

/// The rows that lines belong to.
pub open spec fn rows_of_lines(lines: Seq<LineModel>) -> Seq<Option<int>> {
    lines.map_values(|line: LineModel| row_of_line(line))
}

/// A row as a number.
pub open spec fn row_number(row: Option<usize>) -> Option<int> {
    match row {
        Some(value) => Some(value as int),
        None => None,
    }
}

/// The spawn buttons, by line, name and root.
pub open spec fn spawns(lines: Seq<LineModel>) -> Seq<(int, Seq<char>, Seq<char>)>
    decreases lines.len(),
{
    if lines.len() == 0 {
        Seq::<(int, Seq<char>, Seq<char>)>::empty()
    } else {
        let before = spawns(lines.drop_last());
        match lines.last() {
            LineModel::Header { name, root: Some(root), .. } => before.push(
                (lines.len() - 1, name, root),
            ),
            _ => before,
        }
    }
}

/// The remove markers, by line, column and pane.
pub open spec fn removes(lines: Seq<LineModel>) -> Seq<(int, int, Seq<char>)>
    decreases lines.len(),
{
    if lines.len() == 0 {
        Seq::<(int, int, Seq<char>)>::empty()
    } else {
        let before = removes(lines.drop_last());
        match lines.last() {
            LineModel::Pane { remove: Some((col, pane_id)), .. } => before.push(
                (lines.len() - 1, col, pane_id),
            ),
            _ => before,
        }
    }
}

/// The subagents, by line.
pub open spec fn subagents(lines: Seq<LineModel>) -> Seq<(int, SubagentModel)>
    decreases lines.len(),
{
    if lines.len() == 0 {
        Seq::<(int, SubagentModel)>::empty()
    } else {
        let before = subagents(lines.drop_last());
        match lines.last() {
            LineModel::Subagent { target, .. } => before.push((lines.len() - 1, target)),
            _ => before,
        }
    }
}

/// The tree lines, by line.
pub open spec fn trees(lines: Seq<LineModel>) -> Seq<(int, TargetModel)>
    decreases lines.len(),
{
    if lines.len() == 0 {
        Seq::<(int, TargetModel)>::empty()
    } else {
        let before = trees(lines.drop_last());
        match lines.last() {
            LineModel::Tree { entry, .. } => before.push((lines.len() - 1, entry.target)),
            _ => before,
        }
    }
}

/// The lines of the list, and what clicks on them mean.
#[derive(Debug)]
pub struct CollectedRows {
    pub lines: Vec<ListLine>,
    pub line_to_row: Vec<Option<usize>>,
    /// Spawn buttons, by line, name and root of the repository.
    pub pending_spawn: Vec<(usize, String, String)>,
    /// Remove markers, by line, column and pane.
    pub pending_remove: Vec<(usize, u16, String)>,
    pub pending_subagents: Vec<(usize, SubagentTarget)>,
    pub pending_tree: Vec<(usize, TreeTarget)>,
}

impl CollectedRows {
    /// The rows that lines belong to.
    pub open spec fn rows(&self) -> Seq<Option<int>> {
        self.line_to_row@.map_values(|row: Option<usize>| row_number(row))
    }

    /// The models of the spawn buttons.
    pub open spec fn spawn_models(&self) -> Seq<(int, Seq<char>, Seq<char>)> {
        self.pending_spawn@.map_values(
            |entry: (usize, String, String)| (entry.0 as int, entry.1@, entry.2@),
        )
    }

    /// The models of the remove markers.
    pub open spec fn remove_models(&self) -> Seq<(int, int, Seq<char>)> {
        self.pending_remove@.map_values(
            |entry: (usize, u16, String)| (entry.0 as int, entry.1 as int, entry.2@),
        )
    }

    /// The models of the subagents.
    pub open spec fn subagent_models(&self) -> Seq<(int, SubagentModel)> {
        self.pending_subagents@.map_values(
            |entry: (usize, SubagentTarget)| (entry.0 as int, entry.1@),
        )
    }

    /// The models of the tree lines.
    pub open spec fn tree_models(&self) -> Seq<(int, TargetModel)> {
        self.pending_tree@.map_values(|entry: (usize, TreeTarget)| (entry.0 as int, entry.1@))
    }

    /// Whether everything stands for the lines.
    pub open spec fn stands_for(&self, lines: Seq<LineModel>) -> bool {
        &&& self.rows() == rows_of_lines(lines)
        &&& self.spawn_models() == spawns(lines)
        &&& self.remove_models() == removes(lines)
        &&& self.subagent_models() == subagents(lines)
        &&& self.tree_models() == trees(lines)
    }

    fn note_line(&mut self, at: usize, line: &ListLine, seen: Ghost<Seq<LineModel>>)
        requires
            at == seen@.len(),
            old(self).stands_for(seen@),
        ensures
            final(self).stands_for(seen@.push(line@)),
            final(self).lines == old(self).lines,
    {
        let ghost before = *self;
        let ghost more = seen@.push(line@);
        proof {
            assert(more.drop_last() =~= seen@);
            assert(more.last() == line@);
        }
        let row: Option<usize> = match line {
            ListLine::Blank => None,
            ListLine::Header { .. } => None,
            ListLine::Pane { row, .. } => Some(*row),
            ListLine::Subagent { row, .. } => Some(*row),
            ListLine::Tree { row, .. } => Some(*row),
            ListLine::Notice { row, .. } => Some(*row),
        };
        self.line_to_row.push(row);
        match line {
            ListLine::Header { name, root: Some(root), .. } => {
                self.pending_spawn.push((at, name.clone(), root.clone()));
            },
            ListLine::Pane { remove: Some((col, pane_id)), .. } => {
                self.pending_remove.push((at, *col, pane_id.clone()));
            },
            ListLine::Subagent { target, .. } => {
                self.pending_subagents.push((at, target.clone()));
            },
            ListLine::Tree { entry, .. } => {
                self.pending_tree.push((at, entry.target.clone()));
            },
            _ => {},
        }
        proof {
            assert(self.rows() =~= before.rows().push(row_of_line(line@)));
            assert(rows_of_lines(more) =~= rows_of_lines(seen@).push(row_of_line(line@)));
            assert(self.spawn_models() =~= spawns(more));
            assert(self.remove_models() =~= removes(more));
            assert(self.subagent_models() =~= subagents(more));
            assert(self.tree_models() =~= trees(more));
        }
    }
}

/// The lines of the list, and what clicks on them mean. Subagents and what a
/// collector knows are shown for the selected pane alone, and clicks on them are
/// bound to the identities that the collector gave.
pub fn collect(state: &AppState, width: u16) -> (collected: CollectedRows)
    ensures
        ({
            let lines = list_lines(*state, state.repo_groups@, width);
            &&& line_models(collected.lines@) == lines
            &&& collected.stands_for(lines)
        }),
{
    let lines = collect_lines(state, width);
    let mut collected = CollectedRows {
        lines: Vec::new(),
        line_to_row: Vec::new(),
        pending_spawn: Vec::new(),
        pending_remove: Vec::new(),
        pending_subagents: Vec::new(),
        pending_tree: Vec::new(),
    };
    let ghost models = line_models(lines@);
    let mut i: usize = 0;
    proof {
        assert(models.take(0) =~= Seq::<LineModel>::empty());
        assert(collected.rows() =~= rows_of_lines(models.take(0)));
        assert(collected.spawn_models() =~= spawns(models.take(0)));
        assert(collected.remove_models() =~= removes(models.take(0)));
        assert(collected.subagent_models() =~= subagents(models.take(0)));
        assert(collected.tree_models() =~= trees(models.take(0)));
    }
    while i < lines.len()
        invariant
            i <= lines@.len(),
            models == line_models(lines@),
            collected.stands_for(models.take(i as int)),
        decreases lines@.len() - i,
    {
        collected.note_line(i, &lines[i], Ghost(models.take(i as int)));
        proof {
            assert(models.take(i + 1) =~= models.take(i as int).push(models[i as int]));
        }
        i = i + 1;
    }
    proof {
        assert(models.take(i as int) =~= models);
    }
    collected.lines = lines;
    collected
}

// Laws.

/// Whether the rows that lines belong to are those from `from` on below `to`, each
/// with a line.
pub open spec fn rows_fill(lines: Seq<LineModel>, from: int, to: int) -> bool {
    &&& forall|k: int|
        0 <= k < lines.len() ==> match row_of_line(#[trigger] lines[k]) {
            Some(row) => from <= row < to,
            None => true,
        }
    &&& forall|row: int| from <= row < to ==> #[trigger] row_has_line(lines, row)
}

/// Whether a line belongs to a row.
pub open spec fn row_has_line(lines: Seq<LineModel>, row: int) -> bool {
    exists|k: int| 0 <= k < lines.len() && #[trigger] row_of_line(lines[k]) == Some(row)
}

proof fn rows_fill_joined(
    first: Seq<LineModel>,
    second: Seq<LineModel>,
    from: int,
    middle: int,
    to: int,
)
    requires
        from <= middle <= to,
        rows_fill(first, from, middle),
        rows_fill(second, middle, to),
    ensures
        rows_fill(first + second, from, to),
{
    let all = first + second;
    assert forall|k: int| 0 <= k < all.len() implies match row_of_line(#[trigger] all[k]) {
        Some(row) => from <= row < to,
        None => true,
    } by {
        if k < first.len() {
            assert(all[k] == first[k]);
        } else {
            assert(all[k] == second[k - first.len()]);
        }
    }
    assert forall|row: int| from <= row < to implies #[trigger] row_has_line(all, row) by {
        if row < middle {
            assert(row_has_line(first, row));
            let k = choose|k: int|
                0 <= k < first.len() && #[trigger] row_of_line(first[k]) == Some(row);
            assert(all[k] == first[k]);
            assert(row_of_line(all[k]) == Some(row));
        } else {
            assert(row_has_line(second, row));
            let k = choose|k: int|
                0 <= k < second.len() && #[trigger] row_of_line(second[k]) == Some(row);
            assert(all[first.len() + k] == second[k]);
            assert(row_of_line(all[first.len() + k]) == Some(row));
        }
    }
}

proof fn subagent_lines_have_the_row(pane: PaneInfo, row: int, agents: Seq<AgentModel>)
    ensures
        forall|k: int|
            0 <= k < subagent_lines(pane, row, agents).len() ==> row_of_line(
                #[trigger] subagent_lines(pane, row, agents)[k],
            ) == Some(row),
    decreases agents.len(),
{
    if agents.len() > 0 {
        subagent_lines_have_the_row(pane, row, agents.drop_last());
        let before = subagent_lines(pane, row, agents.drop_last());
        let all = subagent_lines(pane, row, agents);
        assert forall|k: int| 0 <= k < all.len() implies row_of_line(#[trigger] all[k]) == Some(
            row,
        ) by {
            if k < before.len() {
                assert(all[k] == before[k]);
            }
        }
    }
}

proof fn pane_lines_fill_the_row(
    state: AppState,
    pane: (PaneInfo, PaneGitInfo),
    row: int,
    width: u16,
)
    ensures
        rows_fill(pane_lines(state, pane, row, width), row, row + 1),
{
    let scene = scene_of(state, pane.0, row, width);
    let own = own_lines(
        pane.0,
        pane.1,
        row,
        width,
        row_text::lines_of_pane(pane.0, pane.1, scene),
    );
    let all = pane_lines(state, pane, row, width);
    row_text::status_and_branch_lead(pane.0, pane.1, scene);
    assert(all[0] == own[0]);
    assert(row_of_line(all[0]) == Some(row));
    assert(row_has_line(all, row));
    let first = match inspection_of(state, pane.0) {
        Some(known) => subagent_lines(pane.0, row, known@.reply.agents),
        None => Seq::<LineModel>::empty(),
    };
    let second = tree_lines(row, pane_tree(state, pane.0, width));
    let third = notice_lines(state, row);
    if inspection_of(state, pane.0) is Some {
        subagent_lines_have_the_row(pane.0, row, inspection_of(state, pane.0)->0@.reply.agents);
    }
    assert forall|k: int| 0 <= k < all.len() implies row_of_line(#[trigger] all[k]) == Some(
        row,
    ) by {
        if k < own.len() {
            assert(all[k] == own[k]);
        } else {
            let rest = selected_lines(state, pane.0, row, width);
            let j = k - own.len();
            assert(all[k] == rest[j]);
            if j < first.len() {
                assert(rest[j] == first[j]);
            } else if j < first.len() + second.len() {
                assert(rest[j] == second[j - first.len()]);
            } else {
                assert(rest[j] == third[j - first.len() - second.len()]);
            }
        }
    }
}

proof fn panes_lines_fill_the_rows(
    state: AppState,
    panes: Seq<(PaneInfo, PaneGitInfo)>,
    start: int,
    width: u16,
)
    ensures
        rows_fill(
            panes_lines(state, panes, start, width),
            start,
            start + panes.len(),
        ),
    decreases panes.len(),
{
    if panes.len() > 0 {
        panes_lines_fill_the_rows(state, panes.drop_last(), start, width);
        let row = start + panes.len() - 1;
        pane_lines_fill_the_row(state, panes.last(), row, width);
        rows_fill_joined(
            panes_lines(state, panes.drop_last(), start, width),
            pane_lines(state, panes.last(), row, width),
            start,
            row,
            row + 1,
        );
    }
}

/// Every row that the filters list has a line, and no line belongs to a row that
/// is not listed.
pub proof fn lines_stand_for_the_listed_rows(
    state: AppState,
    groups: Seq<RepoGroup>,
    width: u16,
)
    ensures
        rows_fill(
            list_lines(state, groups, width),
            0,
            layout::rows_of(
                groups,
                state.global.repo_filter,
                state.global.status_filter,
            ).len() as int,
        ),
    decreases groups.len(),
{
    if groups.len() > 0 {
        let rest = groups.drop_last();
        let group = groups.last();
        let filter = state.global.status_filter;
        lines_stand_for_the_listed_rows(state, rest, width);
        let start = layout::rows_of(rest, state.global.repo_filter, filter).len() as int;
        let own = group_lines(state, group, start, width);
        let listed = listed_panes(group.panes@, filter);
        listed_panes_are_rows(group.panes@, filter);
        if state.global.repo_filter.passes(group.name@) && listed.len() > 0 {
            let opening = (if start == 0 {
                Seq::<LineModel>::empty()
            } else {
                seq![LineModel::Blank]
            }) + seq![header_line(state, group)];
            assert(rows_fill(opening, start, start));
            panes_lines_fill_the_rows(state, listed, start, width);
            rows_fill_joined(
                opening,
                panes_lines(state, listed, start, width),
                start,
                start,
                start + listed.len(),
            );
            rows_fill_joined(
                list_lines(state, rest, width),
                own,
                0,
                start,
                start + listed.len(),
            );
        } else {
            assert(rows_fill(own, start, start));
            rows_fill_joined(list_lines(state, rest, width), own, 0, start, start);
        }
    }
}

/// Whether the rows that lines belong to never fall from line to line.
pub open spec fn rows_never_fall(lines: Seq<LineModel>) -> bool {
    forall|j: int, k: int|
        0 <= j < k < lines.len() ==> match (
            row_of_line(#[trigger] lines[j]),
            row_of_line(#[trigger] lines[k]),
        ) {
            (Some(first), Some(second)) => first <= second,
            _ => true,
        }
}

proof fn rows_never_fall_joined(
    first: Seq<LineModel>,
    second: Seq<LineModel>,
    from: int,
    middle: int,
    to: int,
)
    requires
        rows_fill(first, from, middle),
        rows_fill(second, middle, to),
        rows_never_fall(first),
        rows_never_fall(second),
    ensures
        rows_never_fall(first + second),
{
    let all = first + second;
    assert forall|j: int, k: int| 0 <= j < k < all.len() implies match (
        row_of_line(#[trigger] all[j]),
        row_of_line(#[trigger] all[k]),
    ) {
        (Some(one), Some(other)) => one <= other,
        _ => true,
    } by {
        if k < first.len() {
            assert(all[j] == first[j] && all[k] == first[k]);
        } else if j < first.len() {
            assert(all[j] == first[j] && all[k] == second[k - first.len()]);
        } else {
            assert(all[j] == second[j - first.len()] && all[k] == second[k - first.len()]);
        }
    }
}

proof fn panes_lines_never_fall(
    state: AppState,
    panes: Seq<(PaneInfo, PaneGitInfo)>,
    start: int,
    width: u16,
)
    ensures
        rows_never_fall(panes_lines(state, panes, start, width)),
    decreases panes.len(),
{
    if panes.len() > 0 {
        let rest = panes.drop_last();
        let row = start + panes.len() - 1;
        let own = pane_lines(state, panes.last(), row, width);
        panes_lines_never_fall(state, rest, start, width);
        panes_lines_fill_the_rows(state, rest, start, width);
        pane_lines_fill_the_row(state, panes.last(), row, width);
        assert(rows_never_fall(own));
        rows_never_fall_joined(
            panes_lines(state, rest, start, width),
            own,
            start,
            row,
            row + 1,
        );
    }
}

/// The list starts with the name of a repository, its rows never fall from line to
/// line, and the names of repositories and the blanks between them are the only
/// lines without a row.
pub proof fn lines_are_in_order(
    state: AppState,
    groups: Seq<RepoGroup>,
    width: u16,
)
    ensures
        ({
            let lines = list_lines(state, groups, width);
            &&& rows_never_fall(lines)
            &&& lines.len() > 0 ==> lines[0] is Header
            &&& forall|k: int|
                0 <= k < lines.len() ==> (row_of_line(#[trigger] lines[k]) is None <==> lines[k] is Header
                    || lines[k] is Blank)
        }),
    decreases groups.len(),
{
    if groups.len() > 0 {
        let rest = groups.drop_last();
        let group = groups.last();
        let filter = state.global.status_filter;
        let before = list_lines(state, rest, width);
        let start = layout::rows_of(rest, state.global.repo_filter, filter).len() as int;
        let own = group_lines(state, group, start, width);
        let listed = listed_panes(group.panes@, filter);
        lines_are_in_order(state, rest, width);
        lines_stand_for_the_listed_rows(state, rest, width);
        if state.global.repo_filter.passes(group.name@) && listed.len() > 0 {
            let opening = (if start == 0 {
                Seq::<LineModel>::empty()
            } else {
                seq![LineModel::Blank]
            }) + seq![header_line(state, group)];
            let shown = panes_lines(state, listed, start, width);
            assert(rows_fill(opening, start, start));
            assert(rows_never_fall(opening));
            panes_lines_fill_the_rows(state, listed, start, width);
            panes_lines_never_fall(state, listed, start, width);
            rows_never_fall_joined(opening, shown, start, start, start + listed.len());
            rows_fill_joined(opening, shown, start, start, start + listed.len());
            rows_never_fall_joined(before, own, 0, start, start + listed.len());
            if before.len() == 0 {
                assert(start == 0) by {
                    if start > 0 {
                        assert(row_has_line(before, 0));
                    }
                }
                assert(own[0] == opening[0]);
            }
        } else {
            assert(before + own =~= before);
        }
    }
}

/// The panes that are listed of a group are the rows that the cursor counts.
pub proof fn listed_panes_are_the_rows(
    panes: Seq<(PaneInfo, PaneGitInfo)>,
    filter: StatusFilter,
)
    ensures
        listed_panes(panes, filter).map_values(|entry: (PaneInfo, PaneGitInfo)| entry.0.pane_id@)
            == layout::rows_of_group(panes, filter),
    decreases panes.len(),
{
    let id = |entry: (PaneInfo, PaneGitInfo)| entry.0.pane_id@;
    if panes.len() > 0 {
        listed_panes_are_the_rows(panes.drop_last(), filter);
        assert(listed_panes(panes, filter).map_values(id) =~= layout::rows_of_group(
            panes,
            filter,
        ));
    } else {
        assert(listed_panes(panes, filter).map_values(id) =~= layout::rows_of_group(
            panes,
            filter,
        ));
    }
}

/// Where a line has a button, a marker, a subagent or a node of a tree, this is noted with
/// the number of that line, and no other line is noted.
pub proof fn noted_lines_are_where_they_are_drawn(lines: Seq<LineModel>, k: int)
    requires
        0 <= k < lines.len(),
    ensures
        forall|name: Seq<char>, root: Seq<char>|
            spawns(lines).contains((k, name, root)) <==> (lines[k] matches LineModel::Header {
                name: shown,
                root: Some(at),
                ..
            } && shown == name && at == root),
        forall|col: int, pane_id: Seq<char>|
            removes(lines).contains((k, col, pane_id)) <==> (lines[k] matches LineModel::Pane {
                remove: Some(mark),
                ..
            } && mark == (col, pane_id)),
        forall|target: SubagentModel|
            subagents(lines).contains((k, target)) <==> (lines[k] matches LineModel::Subagent {
                target: shown,
                ..
            } && shown == target),
        forall|target: TargetModel|
            trees(lines).contains((k, target)) <==> (lines[k] matches LineModel::Tree {
                entry,
                ..
            } && entry.target == target),
    decreases lines.len(),
{
    let rest = lines.drop_last();
    if k < rest.len() {
        noted_lines_are_where_they_are_drawn(rest, k);
    }
    noted_lines_lie_inside(rest);
    assert forall|name: Seq<char>, root: Seq<char>|
        spawns(lines).contains((k, name, root)) <==> (lines[k] matches LineModel::Header {
            name: shown,
            root: Some(at),
            ..
        } && shown == name && at == root) by {
        let before = spawns(rest);
        let all = spawns(lines);
        let item = (k, name, root);
        if before.contains(item) {
            let at = before.index_of(item);
            assert(before[at].0 < rest.len());
            assert(all[at] == item);
        }
        if all.contains(item) {
            let at = all.index_of(item);
            if at < before.len() {
                assert(before[at] == item);
                assert(before[at].0 < rest.len());
            }
        }
        if all.len() > before.len() {
            assert(all[before.len() as int].0 == lines.len() - 1);
        }
    }
    assert forall|col: int, pane_id: Seq<char>|
        removes(lines).contains((k, col, pane_id)) <==> (lines[k] matches LineModel::Pane {
            remove: Some(mark),
            ..
        } && mark == (col, pane_id)) by {
        let before = removes(rest);
        let all = removes(lines);
        let item = (k, col, pane_id);
        if before.contains(item) {
            let at = before.index_of(item);
            assert(before[at].0 < rest.len());
            assert(all[at] == item);
        }
        if all.contains(item) {
            let at = all.index_of(item);
            if at < before.len() {
                assert(before[at] == item);
                assert(before[at].0 < rest.len());
            }
        }
        if all.len() > before.len() {
            assert(all[before.len() as int].0 == lines.len() - 1);
        }
    }
    assert forall|target: SubagentModel|
        subagents(lines).contains((k, target)) <==> (lines[k] matches LineModel::Subagent {
            target: shown,
            ..
        } && shown == target) by {
        let before = subagents(rest);
        let all = subagents(lines);
        let item = (k, target);
        if before.contains(item) {
            let at = before.index_of(item);
            assert(before[at].0 < rest.len());
            assert(all[at] == item);
        }
        if all.contains(item) {
            let at = all.index_of(item);
            if at < before.len() {
                assert(before[at] == item);
                assert(before[at].0 < rest.len());
            }
        }
        if all.len() > before.len() {
            assert(all[before.len() as int].0 == lines.len() - 1);
        }
    }
    assert forall|target: TargetModel|
        trees(lines).contains((k, target)) <==> (lines[k] matches LineModel::Tree {
            entry,
            ..
        } && entry.target == target) by {
        let before = trees(rest);
        let all = trees(lines);
        let item = (k, target);
        if before.contains(item) {
            let at = before.index_of(item);
            assert(before[at].0 < rest.len());
            assert(all[at] == item);
        }
        if all.contains(item) {
            let at = all.index_of(item);
            if at < before.len() {
                assert(before[at] == item);
                assert(before[at].0 < rest.len());
            }
        }
        if all.len() > before.len() {
            assert(all[before.len() as int].0 == lines.len() - 1);
        }
    }
}

proof fn noted_lines_lie_inside(lines: Seq<LineModel>)
    ensures
        forall|i: int|
            0 <= i < spawns(lines).len() ==> 0 <= (#[trigger] spawns(lines)[i]).0 < lines.len(),
        forall|i: int|
            0 <= i < removes(lines).len() ==> 0 <= (#[trigger] removes(lines)[i]).0 < lines.len(),
        forall|i: int|
            0 <= i < subagents(lines).len() ==> 0 <= (#[trigger] subagents(lines)[i]).0
                < lines.len(),
        forall|i: int|
            0 <= i < trees(lines).len() ==> 0 <= (#[trigger] trees(lines)[i]).0 < lines.len(),
    decreases lines.len(),
{
    if lines.len() > 0 {
        let rest = lines.drop_last();
        noted_lines_lie_inside(rest);
        assert forall|i: int| 0 <= i < spawns(lines).len() implies 0 <= (
        #[trigger] spawns(lines)[i]).0 < lines.len() by {
            if i < spawns(rest).len() {
                assert(spawns(lines)[i] == spawns(rest)[i]);
            }
        }
        assert forall|i: int| 0 <= i < removes(lines).len() implies 0 <= (
        #[trigger] removes(lines)[i]).0 < lines.len() by {
            if i < removes(rest).len() {
                assert(removes(lines)[i] == removes(rest)[i]);
            }
        }
        assert forall|i: int| 0 <= i < subagents(lines).len() implies 0 <= (
        #[trigger] subagents(lines)[i]).0 < lines.len() by {
            if i < subagents(rest).len() {
                assert(subagents(lines)[i] == subagents(rest)[i]);
            }
        }
        assert forall|i: int| 0 <= i < trees(lines).len() implies 0 <= (
        #[trigger] trees(lines)[i]).0 < lines.len() by {
            if i < trees(rest).len() {
                assert(trees(lines)[i] == trees(rest)[i]);
            }
        }
    }
}

/// A pane is told apart by being the focused one, and a row by being the selected one while
/// the sidebar has the focus.
pub proof fn focus_and_selection_are_told_apart(
    state: AppState,
    pane: PaneInfo,
    row: int,
    width: u16,
)
    ensures
        scene_of(state, pane, row, width).active <==> state.focus_state.focused_pane_id is Some
            && state.focus_state.focused_pane_id->0@ == pane.pane_id@,
        scene_of(state, pane, row, width).selected ==> state.focus_state.sidebar_focused && row
            == state.global.selected_pane_row,
        state.focus_state.sidebar_focused && state.focus_state.focus is Panes && row
            == state.global.selected_pane_row ==> scene_of(state, pane, row, width).selected,
        width > 2 ==> scene_of(state, pane, row, width).inner_width == width - 2,
        state.pane_states.models().contains_key(pane.pane_id@) ==> scene_of(
            state,
            pane,
            row,
            width,
        ).ports == Some(state.pane_states.models()[pane.pane_id@].ports) && scene_of(
            state,
            pane,
            row,
            width,
        ).tasks == state.pane_states.models()[pane.pane_id@].task_progress,
{
}

} // verus!
