//! The list of agents: where its parts are drawn, and how it scrolls.

use vstd::prelude::*;

use crate::assoc::Assoc;
use crate::geometry;
use crate::geometry::Rect;
use crate::state::extensions::TreeTarget;
use crate::state::focus::Focus;
use crate::state::layout::{
    FrameLayout, NavigationTarget, RepoSpawnTarget, SpawnRemoveTarget, SubagentTarget,
};
use crate::state::AppState;
use crate::ui::panes::row_collector::{collect, CollectedRows};

pub mod popups;
pub mod row;
pub mod row_collector;
pub mod row_text;

verus! {

/// The button that spawns an agent in a repository.
pub const SPAWN_BUTTON: &'static str = "+";

/// Width of the clickable region around the `×` marker. One column of slack on
/// either side makes it comfortable to hit without stealing clicks from adjacent
/// branch text.
pub const REMOVE_MARKER_HIT_WIDTH: u16 = 3;

/// The lesser of two numbers.
pub open spec fn lesser(first: int, second: int) -> int {
    if first < second {
        first
    } else {
        second
    }
}

fn least(first: u16, second: u16) -> (value: u16)
    ensures
        value == lesser(first as int, second as int),
{
    if first < second {
        first
    } else {
        second
    }
}

/// The place of a popup in the middle of an area. It is never larger than the
/// area.
pub open spec fn centered(area: Rect, width: u16, height: u16) -> Rect {
    let wide = lesser(width as int, area.width as int);
    let high = lesser(height as int, area.height as int);
    Rect {
        x: (area.x + (area.width - wide) / 2) as u16,
        y: (area.y + (area.height - high) / 2) as u16,
        width: wide as u16,
        height: high as u16,
    }
}

/// Compute a popup centered inside `area`, clamped so it never exceeds the
/// parent: a narrow sidebar can't end up with a popup wider than its own pane.
pub fn center_popup(area: Rect, desired_width: u16, desired_height: u16) -> (rect: Rect)
    requires
        area.x + area.width <= u16::MAX,
        area.y + area.height <= u16::MAX,
    ensures
        rect == centered(area, desired_width, desired_height),
{
    let width: u16 = least(desired_width, area.width);
    let height: u16 = least(desired_height, area.height);
    let x: u16 = area.x + (area.width - width) / 2;
    let y: u16 = area.y + (area.height - height) / 2;
    Rect::new(x, y, width, height)
}

/// A popup in the middle of an area lies in it.
pub proof fn centered_lies_in_area(area: Rect, width: u16, height: u16)
    requires
        area.x + area.width <= u16::MAX,
        area.y + area.height <= u16::MAX,
    ensures
        centered(area, width, height).lies_in(area),
{
}

/// The place of a popup below a row, at the left of an area, and higher where it
/// would pass the lower edge.
pub open spec fn anchored(area: Rect, anchor_y: u16, width: u16, height: u16) -> Rect {
    let high = lesser(height as int, area.height as int);
    let below = lesser(anchor_y + 1, u16::MAX as int);
    Rect {
        x: area.x,
        y: (if below + high <= area.y + area.height {
            below
        } else {
            area.y + area.height - high
        }) as u16,
        width: lesser(width as int, area.width as int) as u16,
        height: high as u16,
    }
}

/// Place a popup directly below screen row `anchor_y`, left-aligned to `area`, and
/// shift upward when it would overflow the bottom edge.
pub fn anchor_below(area: Rect, anchor_y: u16, desired_width: u16, desired_height: u16) -> (rect:
    Rect)
    requires
        area.x + area.width <= u16::MAX,
        area.y + area.height <= u16::MAX,
    ensures
        rect == anchored(area, anchor_y, desired_width, desired_height),
{
    let width: u16 = least(desired_width, area.width);
    let height: u16 = least(desired_height, area.height);
    let below: u16 = anchor_y.saturating_add(1);
    let bottom: u16 = area.y + area.height;
    let y: u16 = if below as u32 + height as u32 <= bottom as u32 {
        below
    } else {
        bottom - height
    };
    Rect::new(area.x, y, width, height)
}

/// A popup below a row of an area, or below the row above it, lies in the area.
pub proof fn anchored_lies_in_area(area: Rect, anchor_y: u16, width: u16, height: u16)
    requires
        area.x + area.width <= u16::MAX,
        area.y + area.height <= u16::MAX,
        area.y <= anchor_y + 1,
    ensures
        anchored(area, anchor_y, width, height).lies_in(area),
{
}

/// The parts of the list of agents.
#[derive(Debug, Clone, Copy, PartialEq, Eq, Structural)]
pub struct PaneLayout {
    pub filter_area: Rect,
    pub secondary_area: Rect,
    pub list_area: Rect,
}

impl PaneLayout {
    /// The parts of an area: a row for the filters, a row for the secondary header,
    /// and the rest for the list.
    pub open spec fn of(area: Rect) -> PaneLayout {
        PaneLayout {
            filter_area: Rect { height: lesser(1, area.height as int) as u16, ..area },
            secondary_area: Rect {
                y: (area.y + 1) as u16,
                height: if area.height >= 2 {
                    1
                } else {
                    0
                },
                ..area
            },
            list_area: Rect {
                y: (area.y + 2) as u16,
                height: (if area.height > 2 {
                    area.height - 2
                } else {
                    0
                }) as u16,
                ..area
            },
        }
    }

    /// The parts of an area.
    pub fn compute(area: Rect) -> (layout: PaneLayout)
        requires
            area.y + 2 <= u16::MAX,
        ensures
            layout == PaneLayout::of(area),
    {
        PaneLayout {
            filter_area: Rect {
                x: area.x,
                y: area.y,
                width: area.width,
                height: least(1, area.height),
            },
            secondary_area: Rect {
                x: area.x,
                y: area.y + 1,
                width: area.width,
                height: least(1, area.height.saturating_sub(1)),
            },
            list_area: Rect {
                x: area.x,
                y: area.y + 2,
                width: area.width,
                height: area.height.saturating_sub(2),
            },
        }
    }
}

/// The parts of an area take all of its rows, and no row belongs to two parts.
pub proof fn parts_cover_the_area(area: Rect, row: int)
    requires
        area.y + area.height <= u16::MAX,
        area.y + 2 <= u16::MAX,
    ensures
        ({
            let parts = PaneLayout::of(area);
            let in_filter = parts.filter_area.y <= row < parts.filter_area.bottom();
            let in_header = parts.secondary_area.y <= row < parts.secondary_area.bottom();
            let in_list = parts.list_area.y <= row < parts.list_area.bottom();
            &&& (area.y <= row < area.bottom()) == (in_filter || in_header || in_list)
            &&& !(in_filter && in_header)
            &&& !(in_filter && in_list)
            &&& !(in_header && in_list)
        }),
{
}

// Scrolling.

/// The first line, counted from `from`, that belongs to a row.
pub open spec fn first_line(lines: Seq<Option<usize>>, row: usize, from: int) -> Option<int>
    decreases lines.len() - from,
{
    if from < 0 || from >= lines.len() {
        None
    } else if lines[from] == Some(row) {
        Some(from)
    } else {
        first_line(lines, row, from + 1)
    }
}

/// The last line that belongs to a row.
pub open spec fn last_line(lines: Seq<Option<usize>>, row: usize) -> Option<int>
    decreases lines.len(),
{
    if lines.len() == 0 {
        None
    } else if lines.last() == Some(row) {
        Some(lines.len() - 1)
    } else {
        last_line(lines.drop_last(), row)
    }
}

fn find_line(lines: &Vec<Option<usize>>, row: usize) -> (found: Option<usize>)
    ensures
        match first_line(lines@, row, 0) {
            Some(at) => found is Some && found->0 == at && at < lines@.len() && lines@[at] == Some(
                row,
            ),
            None => found is None,
        },
{
    let mut i: usize = 0;
    while i < lines.len()
        invariant
            i <= lines@.len(),
            first_line(lines@, row, 0) == first_line(lines@, row, i as int),
        decreases lines@.len() - i,
    {
        if let Some(mapped) = lines[i] {
            if mapped == row {
                return Some(i);
            }
        }
        i = i + 1;
    }
    None
}

fn find_last_line(lines: &Vec<Option<usize>>, row: usize) -> (found: Option<usize>)
    ensures
        match last_line(lines@, row) {
            Some(at) => found is Some && found->0 == at && 0 <= at < lines@.len(),
            None => found is None,
        },
        found is None ==> forall|k: int| 0 <= k < lines@.len() ==> #[trigger] lines@[k] != Some(row),
        found matches Some(at) ==> forall|k: int|
            at < k < lines@.len() ==> #[trigger] lines@[k] != Some(row),
{
    let mut n: usize = lines.len();
    proof {
        assert(lines@.take(n as int) =~= lines@);
    }
    while n > 0
        invariant
            n <= lines@.len(),
            last_line(lines@, row) == last_line(lines@.take(n as int), row),
            forall|k: int| n <= k < lines@.len() ==> #[trigger] lines@[k] != Some(row),
        decreases n,
    {
        proof {
            assert(lines@.take(n as int).drop_last() =~= lines@.take(n - 1));
        }
        if let Some(mapped) = lines[n - 1] {
            if mapped == row {
                return Some(n - 1);
            }
        }
        n = n - 1;
    }
    None
}

/// The first and the last line of the selected row.
pub open spec fn selected_block(state: AppState) -> Option<(int, int)> {
    let lines = state.layout.line_to_row@;
    let row = state.global.selected_pane_row;
    match (first_line(lines, row, 0), last_line(lines, row)) {
        (Some(first), Some(last)) => Some((first, last)),
        _ => None,
    }
}

/// The first and the last line of the selected row.
pub fn selected_block_lines(state: &AppState) -> (block: Option<(usize, usize)>)
    ensures
        match selected_block(*state) {
            Some((first, last)) => block matches Some((start, end)) && start == first && end == last
                && first <= last < state.layout.line_to_row@.len(),
            None => block is None,
        },
{
    let row: usize = state.global.selected_pane_row;
    let first: usize = match find_line(&state.layout.line_to_row, row) {
        Some(at) => at,
        None => {
            return None;
        },
    };
    match find_last_line(&state.layout.line_to_row, row) {
        Some(last) => {
            proof {
                assert(state.layout.line_to_row@[first as int] == Some(row));
            }
            Some((first, last))
        },
        None => None,
    }
}

/// The line of the first entry, counted from `from`, with a tree target.
pub open spec fn tree_line(
    entries: Seq<(usize, TreeTarget)>,
    target: TreeTarget,
    from: int,
) -> Option<usize>
    decreases entries.len() - from,
{
    if from < 0 || from >= entries.len() {
        None
    } else if entries[from].1@ == target@ {
        Some(entries[from].0)
    } else {
        tree_line(entries, target, from + 1)
    }
}

/// The line of the first entry, counted from `from`, with a subagent.
pub open spec fn subagent_line(
    entries: Seq<(usize, SubagentTarget)>,
    target: SubagentTarget,
    from: int,
) -> Option<usize>
    decreases entries.len() - from,
{
    if from < 0 || from >= entries.len() {
        None
    } else if entries[from].1@ == target@ {
        Some(entries[from].0)
    } else {
        subagent_line(entries, target, from + 1)
    }
}

fn find_tree_line(entries: &Assoc<usize, TreeTarget>, target: &TreeTarget) -> (line: Option<usize>)
    ensures
        line == tree_line(entries.listed(), *target, 0),
{
    let mut i: usize = 0;
    while i < entries.len()
        invariant
            i <= entries.listed().len(),
            tree_line(entries.listed(), *target, 0) == tree_line(
                entries.listed(),
                *target,
                i as int,
            ),
        decreases entries.listed().len() - i,
    {
        if entries.value_at(i).same_target(target) {
            return Some(*entries.key_at(i));
        }
        i = i + 1;
    }
    None
}

fn find_subagent_line(
    entries: &Assoc<usize, SubagentTarget>,
    target: &SubagentTarget,
) -> (line: Option<usize>)
    ensures
        line == subagent_line(entries.listed(), *target, 0),
{
    let mut i: usize = 0;
    while i < entries.len()
        invariant
            i <= entries.listed().len(),
            subagent_line(entries.listed(), *target, 0) == subagent_line(
                entries.listed(),
                *target,
                i as int,
            ),
        decreases entries.listed().len() - i,
    {
        if entries.value_at(i).same_target(target) {
            return Some(*entries.key_at(i));
        }
        i = i + 1;
    }
    None
}

/// The line of a row as a number.
pub open spec fn row_line(lines: Seq<Option<usize>>, row: usize) -> Option<usize> {
    match first_line(lines, row, 0) {
        Some(at) => Some(at as usize),
        None => None,
    }
}

/// The line of what is selected: the navigation target, and without one the
/// selected tree line, the selected subagent or the selected row.
pub open spec fn navigation_line(state: AppState) -> Option<usize> {
    let layout = state.layout;
    match state.selected_navigation_target {
        Some(NavigationTarget::Tree(target)) => tree_line(
            layout.tree_line_targets.listed(),
            target,
            0,
        ),
        Some(NavigationTarget::Subagent(target)) => subagent_line(
            layout.subagent_line_targets.listed(),
            target,
            0,
        ),
        Some(NavigationTarget::Pane { row }) => row_line(layout.line_to_row@, row),
        None => {
            let tree = match state.extensions.ui.selected {
                Some(target) => tree_line(layout.tree_line_targets.listed(), target, 0),
                None => None,
            };
            let subagent = match state.selected_subagent_target {
                Some(target) => subagent_line(layout.subagent_line_targets.listed(), target, 0),
                None => None,
            };
            if tree is Some {
                tree
            } else if subagent is Some {
                subagent
            } else {
                row_line(layout.line_to_row@, state.global.selected_pane_row)
            }
        },
    }
}

/// The line of what is selected.
pub fn selected_navigation_line(state: &AppState) -> (line: Option<usize>)
    ensures
        line == navigation_line(*state),
{
    match &state.selected_navigation_target {
        Some(NavigationTarget::Tree(target)) => find_tree_line(
            &state.layout.tree_line_targets,
            target,
        ),
        Some(NavigationTarget::Subagent(target)) => find_subagent_line(
            &state.layout.subagent_line_targets,
            target,
        ),
        Some(NavigationTarget::Pane { row }) => find_line(&state.layout.line_to_row, *row),
        None => {
            if let Some(target) = &state.extensions.ui.selected {
                let line = find_tree_line(&state.layout.tree_line_targets, target);
                if line.is_some() {
                    return line;
                }
            }
            if let Some(target) = &state.selected_subagent_target {
                let line = find_subagent_line(&state.layout.subagent_line_targets, target);
                if line.is_some() {
                    return line;
                }
            }
            find_line(&state.layout.line_to_row, state.global.selected_pane_row)
        },
    }
}

/// The greatest offset at which the last line is not passed.
pub open spec fn last_offset(total: int, visible: int) -> int {
    if total > visible {
        total - visible
    } else {
        0
    }
}

/// The offset at which a block of lines is seen.
///
/// A block that fits is brought into view, with the line before it when it lies
/// above. A block that is taller than the view stays where it is as long as some
/// of it is seen: keeping its trailing edge visible would make the next frame
/// scroll back to its leading edge. When it is not seen, `anchor` comes first.
pub open spec fn offset_for(
    offset: int,
    total: int,
    visible: int,
    first: int,
    last: int,
    anchor: int,
) -> int {
    if last - first + 1 > visible {
        if offset <= last && offset + visible > first {
            offset
        } else {
            lesser(anchor, last_offset(total, visible))
        }
    } else if first < offset {
        if first > 0 {
            first - 1
        } else {
            0
        }
    } else if last >= offset + visible {
        last + 1 - visible
    } else {
        offset
    }
}

/// The line that comes first where the selected block is taller than the view.
pub open spec fn anchor_line(state: AppState, first: int, last: int) -> int {
    match navigation_line(state) {
        Some(line) => if first <= line <= last {
            line as int
        } else {
            first
        },
        None => first,
    }
}

/// The offset of the list: within bounds, and with the selected row in view while
/// the list takes keys.
pub open spec fn list_offset(state: AppState, total: int, visible: int) -> int {
    let offset = lesser(state.scrolls.panes.offset as int, last_offset(total, visible));
    match selected_block(state) {
        Some((first, last)) => if state.focus_state.sidebar_focused && state.focus_state.focus
            == Focus::Panes && visible > 0 {
            offset_for(offset, total, visible, first, last, anchor_line(state, first, last))
        } else {
            offset
        },
        None => offset,
    }
}

/// Scrolls the list so that the selected row is in view, and says how far.
pub fn compute_scroll_offset(state: &mut AppState, total_lines: usize, list_area: Rect) -> (offset:
    usize)
    ensures
        ({
            let wanted = list_offset(*old(state), total_lines as int, list_area.height as int);
            &&& offset == lesser(wanted, last_offset(total_lines as int, list_area.height as int))
            &&& *final(state) == (AppState {
                scrolls: crate::state::Scrolls {
                    panes: crate::state::ScrollState {
                        offset: wanted as usize,
                        total_lines,
                        visible_height: list_area.height as usize,
                    },
                    ..old(state).scrolls
                },
                ..*old(state)
            })
        }),
{
    let visible: usize = list_area.height as usize;
    state.scrolls.panes.total_lines = total_lines;
    state.scrolls.panes.visible_height = visible;
    let max_offset: usize = total_lines.saturating_sub(visible);
    if state.scrolls.panes.offset > max_offset {
        state.scrolls.panes.offset = max_offset;
    }
    proof {
        assert(selected_block(*state) == selected_block(*old(state)));
        assert(navigation_line(*state) == navigation_line(*old(state)));
    }
    if state.focus_state.sidebar_focused && state.focus_state.focus == Focus::Panes && visible > 0 {
        if let Some((first, last)) = selected_block_lines(state) {
            let offset: usize = state.scrolls.panes.offset;
            let end: usize = offset.saturating_add(visible);
            if last - first >= visible {
                if !(offset <= last && end > first) {
                    let anchor: usize = match selected_navigation_line(state) {
                        Some(line) => if first <= line && line <= last {
                            line
                        } else {
                            first
                        },
                        None => first,
                    };
                    state.scrolls.panes.offset = if anchor < max_offset {
                        anchor
                    } else {
                        max_offset
                    };
                }
            } else if first < offset {
                state.scrolls.panes.offset = first.saturating_sub(1);
            } else if last >= end {
                state.scrolls.panes.offset = last - visible + 1;
            }
        }
    }
    if state.scrolls.panes.offset < max_offset {
        state.scrolls.panes.offset
    } else {
        max_offset
    }
}

/// Scrolling once is enough: a second frame over the same lines does not move the
/// list, and its offset is within bounds. A block that is exactly as tall as the
/// view is left out, since the line before it comes into view first.
pub proof fn scrolling_settles(
    offset: int,
    total: int,
    visible: int,
    first: int,
    last: int,
    anchor: int,
)
    requires
        0 <= offset <= last_offset(total, visible),
        0 <= first <= last < total,
        first <= anchor <= last,
        0 < visible,
        last - first + 1 != visible,
    ensures
        ({
            let once = offset_for(offset, total, visible, first, last, anchor);
            &&& 0 <= once <= last_offset(total, visible)
            &&& offset_for(once, total, visible, first, last, anchor) == once
        }),
{
}

/// A block that is exactly as tall as the view is settled after two frames.
pub proof fn scrolling_settles_on_a_full_view(
    offset: int,
    total: int,
    visible: int,
    first: int,
    last: int,
    anchor: int,
)
    requires
        0 <= offset <= last_offset(total, visible),
        0 <= first <= last < total,
        0 < visible,
        last - first + 1 == visible,
    ensures
        ({
            let once = offset_for(offset, total, visible, first, last, anchor);
            let twice = offset_for(once, total, visible, first, last, anchor);
            offset_for(twice, total, visible, first, last, anchor) == twice
        }),
{
}

// What was drawn where.

/// The map of entries, of which the last of a line counts.
pub open spec fn line_map<T>(entries: Seq<(usize, T)>) -> Map<usize, T>
    decreases entries.len(),
{
    if entries.len() == 0 {
        Map::<usize, T>::empty()
    } else {
        line_map(entries.drop_last()).insert(entries.last().0, entries.last().1)
    }
}

/// The row that a line selects: the row it belongs to, unless it stands for a
/// subagent or a tree line.
pub open spec fn selectable_row(
    rows: Seq<Option<usize>>,
    subagents: Map<usize, SubagentTarget>,
    trees: Map<usize, TreeTarget>,
    line: int,
) -> Option<usize> {
    if subagents.contains_key(line as usize) || trees.contains_key(line as usize) {
        None
    } else {
        rows[line]
    }
}

/// What keys move through, from the first line on: subagents, tree lines, and
/// each row once.
pub open spec fn navigation(
    rows: Seq<Option<usize>>,
    subagents: Map<usize, SubagentTarget>,
    trees: Map<usize, TreeTarget>,
    count: int,
) -> Seq<NavigationTarget>
    decreases count,
{
    if count <= 0 {
        Seq::<NavigationTarget>::empty()
    } else {
        let line = count - 1;
        let before = navigation(rows, subagents, trees, line);
        let row = selectable_row(rows, subagents, trees, line);
        if subagents.contains_key(line as usize) {
            before.push(NavigationTarget::Subagent(subagents[line as usize]))
        } else if trees.contains_key(line as usize) {
            before.push(NavigationTarget::Tree(trees[line as usize]))
        } else if row is Some && !row_came_before(rows, subagents, trees, row->0, line) {
            before.push(NavigationTarget::Pane { row: row->0 })
        } else {
            before
        }
    }
}

/// Whether a line before `count` selects a row.
pub open spec fn row_came_before(
    rows: Seq<Option<usize>>,
    subagents: Map<usize, SubagentTarget>,
    trees: Map<usize, TreeTarget>,
    row: usize,
    count: int,
) -> bool {
    exists|k: int|
        0 <= k < count && #[trigger] selectable_row(rows, subagents, trees, k) == Some(row)
}

fn row_seen(
    rows: &Vec<Option<usize>>,
    subagents: &Assoc<usize, SubagentTarget>,
    trees: &Assoc<usize, TreeTarget>,
    row: usize,
    count: usize,
) -> (yes: bool)
    requires
        count <= rows@.len(),
    ensures
        yes == row_came_before(rows@, subagents@, trees@, row, count as int),
{
    let mut i: usize = 0;
    while i < count
        invariant
            i <= count <= rows@.len(),
            forall|k: int|
                0 <= k < i ==> #[trigger] selectable_row(rows@, subagents@, trees@, k) != Some(row),
        decreases count - i,
    {
        if !subagents.contains_key(&i) && !trees.contains_key(&i) {
            if let Some(mapped) = rows[i] {
                if mapped == row {
                    proof {
                        assert(selectable_row(rows@, subagents@, trees@, i as int) == Some(row));
                    }
                    return true;
                }
            }
        }
        i = i + 1;
    }
    false
}

/// What keys move through.
pub fn navigation_targets(
    rows: &Vec<Option<usize>>,
    subagents: &Assoc<usize, SubagentTarget>,
    trees: &Assoc<usize, TreeTarget>,
) -> (targets: Vec<NavigationTarget>)
    ensures
        targets@ == navigation(rows@, subagents@, trees@, rows@.len() as int),
{
    let mut targets: Vec<NavigationTarget> = Vec::new();
    let mut line: usize = 0;
    while line < rows.len()
        invariant
            line <= rows@.len(),
            targets@ == navigation(rows@, subagents@, trees@, line as int),
        decreases rows@.len() - line,
    {
        let ghost before = targets@;
        match subagents.get(&line) {
            Some(target) => {
                targets.push(NavigationTarget::Subagent(target.clone()));
            },
            None => match trees.get(&line) {
                Some(target) => {
                    targets.push(NavigationTarget::Tree(target.clone()));
                },
                None => {
                    if let Some(row) = rows[line] {
                        if !row_seen(rows, subagents, trees, row, line) {
                            targets.push(NavigationTarget::Pane { row });
                        }
                    }
                },
            },
        }
        line = line + 1;
    }
    targets
}

fn subagent_map(entries: &Vec<(usize, SubagentTarget)>) -> (map: Assoc<usize, SubagentTarget>)
    ensures
        map@ == line_map(entries@),
{
    let mut map: Assoc<usize, SubagentTarget> = Assoc::new();
    let mut i: usize = 0;
    proof {
        assert(entries@.take(0) =~= Seq::<(usize, SubagentTarget)>::empty());
    }
    while i < entries.len()
        invariant
            i <= entries@.len(),
            map@ == line_map(entries@.take(i as int)),
        decreases entries@.len() - i,
    {
        map.insert(entries[i].0, entries[i].1.clone());
        proof {
            assert(entries@.take(i + 1).drop_last() =~= entries@.take(i as int));
        }
        i = i + 1;
    }
    proof {
        assert(entries@.take(i as int) =~= entries@);
    }
    map
}

fn tree_map(entries: &Vec<(usize, TreeTarget)>) -> (map: Assoc<usize, TreeTarget>)
    ensures
        map@ == line_map(entries@),
{
    let mut map: Assoc<usize, TreeTarget> = Assoc::new();
    let mut i: usize = 0;
    proof {
        assert(entries@.take(0) =~= Seq::<(usize, TreeTarget)>::empty());
    }
    while i < entries.len()
        invariant
            i <= entries@.len(),
            map@ == line_map(entries@.take(i as int)),
        decreases entries@.len() - i,
    {
        map.insert(entries[i].0, entries[i].1.clone());
        proof {
            assert(entries@.take(i + 1).drop_last() =~= entries@.take(i as int));
        }
        i = i + 1;
    }
    proof {
        assert(entries@.take(i as int) =~= entries@);
    }
    map
}

/// Whether `placed` is `before` with the lines that were collected, not scrolled
/// yet.
pub open spec fn lines_placed(before: AppState, collected: CollectedRows, placed: AppState) -> bool {
    let layout = placed.layout;
    &&& layout.line_to_row@ == collected.line_to_row@
    &&& layout.subagent_line_targets@ == line_map(collected.pending_subagents@)
    &&& layout.tree_line_targets@ == line_map(collected.pending_tree@)
    &&& layout.navigation_targets@ == navigation(
        collected.line_to_row@,
        line_map(collected.pending_subagents@),
        line_map(collected.pending_tree@),
        collected.line_to_row@.len() as int,
    )
    &&& placed == (AppState {
        layout: FrameLayout {
            line_to_row: layout.line_to_row,
            subagent_line_targets: layout.subagent_line_targets,
            tree_line_targets: layout.tree_line_targets,
            navigation_targets: layout.navigation_targets,
            ..before.layout
        },
        ..before
    })
}

/// Takes in the lines that were collected, scrolls the list, and says how far.
pub fn place_lines(state: &mut AppState, collected: &CollectedRows, list_area: Rect) -> (offset:
    usize)
    ensures
        exists|placed: AppState|
            {
                let total = collected.line_to_row@.len() as int;
                let visible = list_area.height as int;
                let wanted = list_offset(placed, total, visible);
                &&& #[trigger] lines_placed(*old(state), *collected, placed)
                &&& offset == lesser(wanted, last_offset(total, visible))
                &&& *final(state) == (AppState {
                    scrolls: crate::state::Scrolls {
                        panes: crate::state::ScrollState {
                            offset: wanted as usize,
                            total_lines: total as usize,
                            visible_height: visible as usize,
                        },
                        ..placed.scrolls
                    },
                    ..placed
                })
            },
{
    let mut rows: Vec<Option<usize>> = Vec::new();
    let mut i: usize = 0;
    while i < collected.line_to_row.len()
        invariant
            i <= collected.line_to_row@.len(),
            rows@ == collected.line_to_row@.take(i as int),
        decreases collected.line_to_row@.len() - i,
    {
        rows.push(collected.line_to_row[i]);
        i = i + 1;
        proof {
            assert(collected.line_to_row@.take(i as int) =~= collected.line_to_row@.take(
                i - 1,
            ).push(collected.line_to_row@[i - 1]));
        }
    }
    proof {
        assert(rows@ =~= collected.line_to_row@);
    }
    let subagents = subagent_map(&collected.pending_subagents);
    let trees = tree_map(&collected.pending_tree);
    let targets = navigation_targets(&rows, &subagents, &trees);
    let total: usize = rows.len();
    state.layout.line_to_row = rows;
    state.layout.subagent_line_targets = subagents;
    state.layout.tree_line_targets = trees;
    state.layout.navigation_targets = targets;
    let ghost placed = *state;
    proof {
        assert(lines_placed(*old(state), *collected, placed));
    }
    compute_scroll_offset(state, total, list_area)
}

/// The row of the screen on which a line is seen, where it is.
pub open spec fn line_on_screen(line: int, offset: int, list_area: Rect) -> Option<int> {
    if offset <= line < offset + list_area.height {
        Some(list_area.y + line - offset)
    } else {
        None
    }
}

fn screen_row(line: usize, offset: usize, list_area: Rect) -> (row: Option<u16>)
    requires
        list_area.roomy(),
    ensures
        match row {
            Some(y) => line_on_screen(line as int, offset as int, list_area) == Some(y as int),
            None => line_on_screen(line as int, offset as int, list_area) is None,
        },
{
    if line < offset || line - offset >= list_area.height as usize {
        return None;
    }
    Some(list_area.y + (line - offset) as u16)
}

/// Whether `target` is the button of a repository, at the right end of its row.
pub open spec fn spawn_placed(
    entry: (usize, String, String),
    y: int,
    list_area: Rect,
    target: RepoSpawnTarget,
) -> bool {
    &&& target.repo_name@ == entry.1@
    &&& target.repo_root@ == entry.2@
    &&& target.rect.x == list_area.x + (if list_area.width > 0 {
        list_area.width - 1
    } else {
        0
    })
    &&& target.rect.y == y
    &&& target.rect.width == 1
    &&& target.rect.height == 1
}

/// Whether `targets` are the buttons that are seen, in order.
pub open spec fn spawns_placed(
    entries: Seq<(usize, String, String)>,
    offset: int,
    list_area: Rect,
    targets: Seq<RepoSpawnTarget>,
) -> bool
    decreases entries.len(),
{
    if entries.len() == 0 {
        targets.len() == 0
    } else {
        match line_on_screen(entries.last().0 as int, offset, list_area) {
            Some(y) => targets.len() > 0 && spawn_placed(
                entries.last(),
                y,
                list_area,
                targets.last(),
            ) && spawns_placed(entries.drop_last(), offset, list_area, targets.drop_last()),
            None => spawns_placed(entries.drop_last(), offset, list_area, targets),
        }
    }
}

/// Whether `target` is the region around a marker, one column wider on either
/// side.
pub open spec fn remove_placed(
    entry: (usize, u16, String),
    y: int,
    list_area: Rect,
    target: SpawnRemoveTarget,
) -> bool {
    let x = lesser(
        list_area.x + (if entry.1 > 0 {
            entry.1 - 1
        } else {
            0
        }),
        u16::MAX as int,
    );
    &&& target.pane_id@ == entry.2@
    &&& target.rect == geometry::rect_of(x as u16, y as u16, REMOVE_MARKER_HIT_WIDTH as int, 1)
}

/// Whether `targets` are the regions around the markers that are seen, in order.
pub open spec fn removes_placed(
    entries: Seq<(usize, u16, String)>,
    offset: int,
    list_area: Rect,
    targets: Seq<SpawnRemoveTarget>,
) -> bool
    decreases entries.len(),
{
    if entries.len() == 0 {
        targets.len() == 0
    } else {
        match line_on_screen(entries.last().0 as int, offset, list_area) {
            Some(y) => targets.len() > 0 && remove_placed(
                entries.last(),
                y,
                list_area,
                targets.last(),
            ) && removes_placed(entries.drop_last(), offset, list_area, targets.drop_last()),
            None => removes_placed(entries.drop_last(), offset, list_area, targets),
        }
    }
}

/// Places the buttons and markers that are seen at an offset.
pub fn materialize(state: &mut AppState, collected: &CollectedRows, offset: usize, list_area: Rect)
    requires
        list_area.roomy(),
    ensures
        spawns_placed(
            collected.pending_spawn@,
            offset as int,
            list_area,
            final(state).layout.repo_spawn_targets@,
        ),
        removes_placed(
            collected.pending_remove@,
            offset as int,
            list_area,
            final(state).layout.spawn_remove_targets@,
        ),
        *final(state) == (AppState {
            layout: FrameLayout {
                repo_spawn_targets: final(state).layout.repo_spawn_targets,
                spawn_remove_targets: final(state).layout.spawn_remove_targets,
                ..old(state).layout
            },
            ..*old(state)
        }),
{
    let mut spawn: Vec<RepoSpawnTarget> = Vec::new();
    let entries = &collected.pending_spawn;
    let mut i: usize = 0;
    proof {
        assert(entries@.take(0) =~= Seq::<(usize, String, String)>::empty());
    }
    while i < entries.len()
        invariant
            i <= entries@.len(),
            list_area.roomy(),
            spawns_placed(entries@.take(i as int), offset as int, list_area, spawn@),
        decreases entries@.len() - i,
    {
        proof {
            assert(entries@.take(i + 1).drop_last() =~= entries@.take(i as int));
        }
        if let Some(y) = screen_row(entries[i].0, offset, list_area) {
            let ghost before = spawn@;
            spawn.push(
                RepoSpawnTarget {
                    rect: Rect::new(
                        list_area.x + list_area.width.saturating_sub(1),
                        y,
                        1,
                        1,
                    ),
                    repo_name: entries[i].1.clone(),
                    repo_root: entries[i].2.clone(),
                },
            );
            proof {
                assert(spawn@.drop_last() =~= before);
            }
        }
        i = i + 1;
    }
    let mut remove: Vec<SpawnRemoveTarget> = Vec::new();
    let markers = &collected.pending_remove;
    let mut k: usize = 0;
    proof {
        assert(entries@.take(i as int) =~= entries@);
        assert(markers@.take(0) =~= Seq::<(usize, u16, String)>::empty());
    }
    while k < markers.len()
        invariant
            k <= markers@.len(),
            list_area.roomy(),
            removes_placed(markers@.take(k as int), offset as int, list_area, remove@),
        decreases markers@.len() - k,
    {
        proof {
            assert(markers@.take(k + 1).drop_last() =~= markers@.take(k as int));
        }
        if let Some(y) = screen_row(markers[k].0, offset, list_area) {
            let ghost before = remove@;
            let x: u16 = list_area.x.saturating_add(markers[k].1.saturating_sub(1));
            remove.push(
                SpawnRemoveTarget {
                    rect: Rect::new(x, y, REMOVE_MARKER_HIT_WIDTH, 1),
                    pane_id: markers[k].2.clone(),
                },
            );
            proof {
                assert(remove@.drop_last() =~= before);
            }
        }
        k = k + 1;
    }
    proof {
        assert(markers@.take(k as int) =~= markers@);
    }
    state.layout.repo_spawn_targets = spawn;
    state.layout.spawn_remove_targets = remove;
}


/// What is drawn of the agents.
pub struct AgentsView {
    /// Where the parts are drawn.
    pub layout: PaneLayout,
    /// The lines of the list, and what clicks on them mean.
    pub collected: CollectedRows,
    /// The first line that is seen.
    pub offset: usize,
}

/// Whether `after` is `before` with the list drawn: its lines noted, scrolled, and
/// the buttons and markers that are seen placed.
pub open spec fn list_drawn(
    before: AppState,
    placed: AppState,
    view: AgentsView,
    after: AppState,
) -> bool {
    let total = view.collected.line_to_row@.len() as int;
    let area = view.layout.list_area;
    let wanted = list_offset(placed, total, area.height as int);
    &&& lines_placed(before, view.collected, placed)
    &&& view.offset == lesser(wanted, last_offset(total, area.height as int))
    &&& spawns_placed(
        view.collected.pending_spawn@,
        view.offset as int,
        area,
        after.layout.repo_spawn_targets@,
    )
    &&& removes_placed(
        view.collected.pending_remove@,
        view.offset as int,
        area,
        after.layout.spawn_remove_targets@,
    )
    &&& after == (AppState {
        scrolls: crate::state::Scrolls {
            panes: crate::state::ScrollState {
                offset: wanted as usize,
                total_lines: total as usize,
                visible_height: area.height as usize,
            },
            ..placed.scrolls
        },
        layout: FrameLayout {
            repo_spawn_targets: after.layout.repo_spawn_targets,
            spawn_remove_targets: after.layout.spawn_remove_targets,
            ..placed.layout
        },
        ..placed
    })
}

/// Decides what is drawn of the agents in an area.
pub fn draw_agents(state: &mut AppState, area: Rect) -> (view: AgentsView)
    requires
        area.y + 2 <= u16::MAX,
        PaneLayout::of(area).list_area.roomy(),
    ensures
        view.layout == PaneLayout::of(area),
        row_collector::line_models(view.collected.lines@) == row_collector::list_lines(
            *old(state),
            old(state).repo_groups@,
            view.layout.list_area.width,
        ),
        view.collected.stands_for(row_collector::line_models(view.collected.lines@)),
        exists|placed: AppState| #[trigger] list_drawn(*old(state), placed, view, *final(state)),
{
    let layout = PaneLayout::compute(area);
    let collected = collect(state, layout.list_area.width);
    let ghost before = *state;
    let offset = place_lines(state, &collected, layout.list_area);
    let ghost scrolled = *state;
    materialize(state, &collected, offset, layout.list_area);
    let view = AgentsView { layout, collected, offset };
    proof {
        let total = view.collected.line_to_row@.len() as int;
        let visible = view.layout.list_area.height as int;
        let placed = choose|placed: AppState|
            {
                let wanted = list_offset(placed, total, visible);
                &&& #[trigger] lines_placed(before, view.collected, placed)
                &&& offset == lesser(wanted, last_offset(total, visible))
                &&& scrolled == (AppState {
                    scrolls: crate::state::Scrolls {
                        panes: crate::state::ScrollState {
                            offset: wanted as usize,
                            total_lines: total as usize,
                            visible_height: visible as usize,
                        },
                        ..placed.scrolls
                    },
                    ..placed
                })
            };
        assert(list_drawn(before, placed, view, *state));
    }
    view
}

// Laws of what is in view.

/// The block of lines of the selected pane comes into view: whole, where it takes fewer
/// lines than are visible, and else with a part of it, unless both are a single line. A
/// list that shows it already does not move.
pub proof fn the_selected_block_is_in_view(
    offset: int,
    total: int,
    visible: int,
    first: int,
    last: int,
    anchor: int,
)
    requires
        0 <= offset <= last_offset(total, visible),
        0 <= first <= last < total,
        first <= anchor <= last,
        0 < visible,
    ensures
        ({
            let moved = offset_for(offset, total, visible, first, last, anchor);
            &&& last - first + 1 < visible ==> moved <= first && last < moved + visible
            &&& visible > 1 || last > first ==> moved <= last && first < moved + visible
            &&& offset <= first && last < offset + visible ==> moved == offset
        }),
{
}

/// A popup in the middle has the same room on both sides, up to one column and one row, and
/// the size that was asked for as far as there is room.
pub proof fn popups_stand_in_the_middle(area: Rect, width: u16, height: u16)
    requires
        area.x + area.width <= u16::MAX,
        area.y + area.height <= u16::MAX,
    ensures
        ({
            let place = centered(area, width, height);
            let left = place.x - area.x;
            let right = area.x + area.width - (place.x + place.width);
            let above = place.y - area.y;
            let below = area.y + area.height - (place.y + place.height);
            &&& left <= right <= left + 1
            &&& above <= below <= above + 1
            &&& width <= area.width ==> place.width == width
            &&& width > area.width ==> place.width == area.width
            &&& height <= area.height ==> place.height == height
            &&& height > area.height ==> place.height == area.height
        }),
{
}

/// A popup of a line stands right below it where it fits there, and else at the lower end
/// of the area.
pub proof fn popups_stand_below_their_line(area: Rect, anchor_y: u16, width: u16, height: u16)
    requires
        area.x + area.width <= u16::MAX,
        area.y + area.height <= u16::MAX,
        area.y <= anchor_y + 1,
        anchor_y < u16::MAX,
        height <= area.height,
    ensures
        ({
            let place = anchored(area, anchor_y, width, height);
            &&& place.x == area.x
            &&& place.height == height
            &&& anchor_y + 1 + height <= area.y + area.height ==> place.y == anchor_y + 1
            &&& anchor_y + 1 + height > area.y + area.height ==> place.y + place.height == area.y
                + area.height
        }),
{
}

/// A line that is drawn on a row of the list is the one that a click on this row means.
pub proof fn drawn_lines_are_the_clicked_ones(line: int, offset: int, area: Rect, row: int)
    requires
        area.y + area.height <= u16::MAX,
        area.y + 2 <= u16::MAX,
        area.y == 0,
        offset >= 0,
    ensures
        ({
            let list = PaneLayout::of(area).list_area;
            line_on_screen(line, offset, list) == Some(row) <==> list.y <= row < list.bottom()
                && line == row - 2 + offset
        }),
{
}

proof fn first_line_leads(lines: Seq<Option<usize>>, row: usize, from: int)
    requires
        0 <= from,
    ensures
        match first_line(lines, row, from) {
            Some(at) => from <= at < lines.len() && lines[at] == Some(row) && forall|i: int|
                from <= i < at ==> lines[i] != Some(row),
            None => forall|i: int| from <= i < lines.len() ==> lines[i] != Some(row),
        },
    decreases lines.len() - from,
{
    if from < lines.len() && lines[from] != Some(row) {
        first_line_leads(lines, row, from + 1);
    }
}

proof fn last_line_ends(lines: Seq<Option<usize>>, row: usize)
    ensures
        match last_line(lines, row) {
            Some(at) => 0 <= at < lines.len() && lines[at] == Some(row) && forall|i: int|
                at < i < lines.len() ==> lines[i] != Some(row),
            None => forall|i: int| 0 <= i < lines.len() ==> lines[i] != Some(row),
        },
    decreases lines.len(),
{
    if lines.len() > 0 && lines.last() != Some(row) {
        last_line_ends(lines.drop_last(), row);
        let rest = lines.drop_last();
        assert forall|i: int| 0 <= i < rest.len() implies rest[i] == lines[i] by {}
    }
}

/// The block of the selected pane reaches from the first to the last of its lines.
pub proof fn the_block_holds_all_lines_of_the_pane(state: AppState, i: int)
    requires
        0 <= i < state.layout.line_to_row@.len(),
        state.layout.line_to_row@[i] == Some(state.global.selected_pane_row),
    ensures
        match selected_block(state) {
            Some((first, last)) => {
                &&& 0 <= first <= i <= last < state.layout.line_to_row@.len()
                &&& state.layout.line_to_row@[first] == Some(state.global.selected_pane_row)
                &&& state.layout.line_to_row@[last] == Some(state.global.selected_pane_row)
            },
            None => false,
        },
{
    first_line_leads(state.layout.line_to_row@, state.global.selected_pane_row, 0);
    last_line_ends(state.layout.line_to_row@, state.global.selected_pane_row);
}

/// The cursor can go to each line of a subagent and of a tree, and to just the panes that
/// have a line of their own.
pub proof fn the_cursor_reaches_each_target(
    rows: Seq<Option<usize>>,
    subagents: Map<usize, SubagentTarget>,
    trees: Map<usize, TreeTarget>,
    count: int,
    line: int,
    row: usize,
)
    requires
        0 <= line < count <= rows.len(),
        count <= usize::MAX,
    ensures
        ({
            let all = navigation(rows, subagents, trees, count);
            &&& subagents.contains_key(line as usize) ==> all.contains(
                NavigationTarget::Subagent(subagents[line as usize]),
            )
            &&& trees.contains_key(line as usize) && !subagents.contains_key(line as usize)
                ==> all.contains(NavigationTarget::Tree(trees[line as usize]))
            &&& all.contains(NavigationTarget::Pane { row }) <==> row_came_before(
                rows,
                subagents,
                trees,
                row,
                count,
            )
        }),
        !subagents.contains_key(line as usize) && !trees.contains_key(line as usize) && rows[line]
            == Some(row) ==> navigation(rows, subagents, trees, count).contains(
            NavigationTarget::Pane { row },
        ),
    decreases count,
{
    pane_targets(rows, subagents, trees, count, row);
    if !subagents.contains_key(line as usize) && !trees.contains_key(line as usize) && rows[line]
        == Some(row) {
        assert(selectable_row(rows, subagents, trees, line) == Some(row));
    }
    line_targets(rows, subagents, trees, count, line);
}

proof fn line_targets(
    rows: Seq<Option<usize>>,
    subagents: Map<usize, SubagentTarget>,
    trees: Map<usize, TreeTarget>,
    count: int,
    line: int,
)
    requires
        0 <= line < count <= rows.len(),
    ensures
        ({
            let all = navigation(rows, subagents, trees, count);
            &&& subagents.contains_key(line as usize) ==> all.contains(
                NavigationTarget::Subagent(subagents[line as usize]),
            )
            &&& trees.contains_key(line as usize) && !subagents.contains_key(line as usize)
                ==> all.contains(NavigationTarget::Tree(trees[line as usize]))
        }),
    decreases count,
{
    let before = navigation(rows, subagents, trees, count - 1);
    let all = navigation(rows, subagents, trees, count);
    let subagent = NavigationTarget::Subagent(subagents[line as usize]);
    let tree = NavigationTarget::Tree(trees[line as usize]);
    if line < count - 1 {
        line_targets(rows, subagents, trees, count - 1, line);
        if before.contains(subagent) {
            assert(all[before.index_of(subagent)] == subagent);
        }
        if before.contains(tree) {
            assert(all[before.index_of(tree)] == tree);
        }
    } else if all.len() > before.len() {
        assert(all[before.len() as int] == all.last());
    }
}

proof fn pane_targets(
    rows: Seq<Option<usize>>,
    subagents: Map<usize, SubagentTarget>,
    trees: Map<usize, TreeTarget>,
    count: int,
    row: usize,
)
    requires
        count <= rows.len(),
    ensures
        navigation(rows, subagents, trees, count).contains(NavigationTarget::Pane { row })
            <==> row_came_before(rows, subagents, trees, row, count),
    decreases count,
{
    let target = NavigationTarget::Pane { row };
    let all = navigation(rows, subagents, trees, count);
    if count > 0 {
        let line = count - 1;
        let before = navigation(rows, subagents, trees, line);
        pane_targets(rows, subagents, trees, line, row);
        if before.contains(target) {
            assert(all[before.index_of(target)] == target);
            let k = choose|k: int|
                0 <= k < line && #[trigger] selectable_row(rows, subagents, trees, k) == Some(row);
            assert(0 <= k < count && selectable_row(rows, subagents, trees, k) == Some(row));
        }
        if all.contains(target) && !before.contains(target) {
            let at = all.index_of(target);
            if at < before.len() {
                assert(before[at] == target);
            }
            assert(selectable_row(rows, subagents, trees, line) == Some(row));
        }
        if row_came_before(rows, subagents, trees, row, count) && !row_came_before(
            rows,
            subagents,
            trees,
            row,
            line,
        ) {
            let k = choose|k: int|
                0 <= k < count && #[trigger] selectable_row(rows, subagents, trees, k) == Some(row);
            assert(k == line);
            assert(all[before.len() as int] == target);
        }
    }
}

/// The button of a header that is in view stands in the last column of its row.
pub proof fn buttons_stand_at_the_end_of_their_row(
    entries: Seq<(usize, String, String)>,
    offset: int,
    list_area: Rect,
    targets: Seq<RepoSpawnTarget>,
    k: int,
)
    requires
        spawns_placed(entries, offset, list_area, targets),
        0 <= k < entries.len(),
        offset <= entries[k].0 < offset + list_area.height,
        list_area.width > 0,
        list_area.x + list_area.width <= u16::MAX,
        list_area.y + list_area.height <= u16::MAX,
    ensures
        exists|i: int|
            0 <= i < targets.len() && {
                &&& (#[trigger] targets[i]).repo_name@ == entries[k].1@
                &&& targets[i].repo_root@ == entries[k].2@
                &&& targets[i].rect.covers(
                    list_area.x + list_area.width - 1,
                    list_area.y + entries[k].0 - offset,
                )
            },
    decreases entries.len(),
{
    let rest = entries.drop_last();
    if k < rest.len() {
        let fewer = match line_on_screen(entries.last().0 as int, offset, list_area) {
            Some(_) => targets.drop_last(),
            None => targets,
        };
        buttons_stand_at_the_end_of_their_row(rest, offset, list_area, fewer, k);
        let i = choose|i: int|
            0 <= i < fewer.len() && {
                &&& (#[trigger] fewer[i]).repo_name@ == rest[k].1@
                &&& fewer[i].repo_root@ == rest[k].2@
                &&& fewer[i].rect.covers(
                    list_area.x + list_area.width - 1,
                    list_area.y + rest[k].0 - offset,
                )
            };
        assert(targets[i] == fewer[i]);
    } else {
        let i = targets.len() - 1;
        assert(targets[i] == targets.last());
    }
}

} // verus!
