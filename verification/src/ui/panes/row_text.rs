//! What the rows of a pane say, to the right of its marker.

use vstd::prelude::*;

use crate::activity::{TaskProgress, TaskStatus};
use crate::cut;
use crate::cut::words;
use crate::group::PaneGitInfo;
use crate::number;
use crate::number::decimal;
use crate::scan;
use crate::scan::contains;
use crate::text;
use crate::text::{chars_of, concat2, concat3, owned, same, text_of};
use crate::tmux::types;
use crate::tmux::types::{PaneInfo, PaneStatus, PermissionMode};
use crate::ui::line;
use crate::ui::line::{
    no_texts, one_text, room_left, three_texts, two_texts, RowModel, RowText,
};
use crate::ui::panes::row;
use crate::ui::panes::row::{
    render_pane_lines_with_ports, sidebar_remove_marker_col, PaneLine, PaneRow,
};
use crate::ui::text as cells;
use crate::ui::text::{char_widths, display_width, truncate_to_width};

verus! {

/// What stands before the rows below the status.
pub const INDENT: &'static str = "  ";

// The status.

/// The icon of a status.
pub open spec fn icon_of(status: PaneStatus) -> Seq<char> {
    match status {
        PaneStatus::Running => "●"@,
        PaneStatus::Background => "◎"@,
        PaneStatus::Waiting => "◐"@,
        PaneStatus::Idle => "○"@,
        PaneStatus::Error => "✕"@,
        PaneStatus::Unknown => "·"@,
    }
}

/// The icon of a status, unless another is configured.
pub fn status_icon(status: PaneStatus) -> (icon: &'static str)
    ensures
        icon@ == icon_of(status),
{
    match status {
        PaneStatus::Running => "●",
        PaneStatus::Background => "◎",
        PaneStatus::Waiting => "◐",
        PaneStatus::Idle => "○",
        PaneStatus::Error => "✕",
        PaneStatus::Unknown => "·",
    }
}

/// The badge of a permission mode: none for the default, a warning where nothing is
/// asked, else the label of the mode.
pub open spec fn badge_of(mode: PermissionMode) -> Seq<char> {
    match mode {
        PermissionMode::Default => Seq::empty(),
        PermissionMode::Plan => " plan"@,
        PermissionMode::AcceptEdits => " acceptEdits"@,
        PermissionMode::Auto => " auto"@,
        PermissionMode::DontAsk => " dontAsk"@,
        PermissionMode::BypassPermissions => " !"@,
        PermissionMode::Defer => " defer"@,
    }
}

fn badge(mode: PermissionMode) -> (shown: String)
    ensures
        shown@ == badge_of(mode),
{
    match mode {
        PermissionMode::Default => {
            let none = String::new();
            proof {
                assert(none@ =~= Seq::<char>::empty());
            }
            none
        },
        PermissionMode::Plan => owned(" plan"),
        PermissionMode::AcceptEdits => owned(" acceptEdits"),
        PermissionMode::Auto => owned(" auto"),
        PermissionMode::DontAsk => owned(" dontAsk"),
        PermissionMode::BypassPermissions => owned(" !"),
        PermissionMode::Defer => owned(" defer"),
    }
}

/// A span of time by its two greatest units.
pub open spec fn span_text(seconds: nat) -> Seq<char> {
    if seconds < 60 {
        number::decimal_of(seconds) + "s"@
    } else if seconds < 3600 {
        number::decimal_of(seconds / 60) + "m"@ + number::decimal_of(seconds % 60) + "s"@
    } else {
        number::decimal_of(seconds / 3600) + "h"@ + number::decimal_of((seconds % 3600) / 60)
            + "m"@
    }
}

/// How long an agent has been at work, where that is known.
pub open spec fn elapsed_of(started_at: Option<u64>, now: u64) -> Seq<char> {
    match started_at {
        Some(start) => if 0 < start <= now {
            span_text((now - start) as nat)
        } else {
            Seq::empty()
        },
        None => Seq::empty(),
    }
}

fn two_units(first: u64, unit: &str, second: u64, lesser: &str) -> (shown: String)
    ensures
        shown@ == number::decimal_of(first as nat) + unit@ + number::decimal_of(second as nat)
            + lesser@,
{
    let head = concat3(decimal(first).as_str(), unit, decimal(second).as_str());
    concat2(head.as_str(), lesser)
}

/// How long an agent has been at work, where that is known.
pub fn elapsed_label(started_at: Option<u64>, now: u64) -> (shown: String)
    ensures
        shown@ == elapsed_of(started_at, now),
{
    if let Some(start) = started_at {
        if 0 < start && start <= now {
            let seconds: u64 = now - start;
            return if seconds < 60 {
                concat2(decimal(seconds).as_str(), "s")
            } else if seconds < 3600 {
                two_units(seconds / 60, "m", seconds % 60, "s")
            } else {
                two_units(seconds / 3600, "h", (seconds % 3600) / 60, "m")
            };
        }
    }
    let none = String::new();
    proof {
        assert(none@ =~= Seq::<char>::empty());
    }
    none
}

/// What a pane is called: the name of its session, or else its agent.
pub open spec fn title_of(pane: PaneInfo) -> Seq<char> {
    if pane.session_name@.len() > 0 {
        pane.session_name@
    } else {
        types::agent_label(pane.agent)
    }
}

/// How many cells the title may take, so that the badge and the time stay in view.
pub open spec fn title_width(pane: PaneInfo, icon: Seq<char>, inner_width: usize, now: u64) -> nat {
    let elapsed = elapsed_of(pane.started_at, now);
    let fixed = seq![icon, badge_of(pane.permission_mode), elapsed];
    line::less(
        line::room_behind(inner_width as nat, fixed),
        if elapsed.len() == 0 {
            1
        } else {
            2
        },
    )
}

/// What the status row says: the icon, the title, the badge, and at the right how long
/// the agent has been at work.
pub open spec fn status_text(
    pane: PaneInfo,
    icon: Seq<char>,
    inner_width: usize,
    now: u64,
) -> RowModel {
    let title = cells::cut_to(title_of(pane), title_width(pane, icon, inner_width, now) as usize);
    line::spread(
        seq![icon, " "@ + title, badge_of(pane.permission_mode)],
        seq![elapsed_of(pane.started_at, now)],
        inner_width as nat,
    )
}

/// What the status row says. The title is cut so that the badge and the time stay in
/// view.
pub fn status_row(pane: &PaneInfo, icon: &str, inner_width: usize, now: u64) -> (shown: RowText)
    ensures
        shown@ == status_text(*pane, icon@, inner_width, now),
{
    let elapsed = elapsed_label(pane.started_at, now);
    let fixed = three_texts(owned(icon), badge(pane.permission_mode), elapsed.clone());
    let apart: usize = if elapsed.as_str().is_empty() {
        1
    } else {
        2
    };
    let room: usize = room_left(inner_width, &fixed).saturating_sub(apart);
    let title = if pane.session_name.as_str().is_empty() {
        truncate_to_width(pane.agent.as_str(), room)
    } else {
        truncate_to_width(pane.session_name.as_str(), room)
    };
    let left = three_texts(
        owned(icon),
        concat2(" ", title.as_str()),
        badge(pane.permission_mode),
    );
    RowText::new(left, one_text(elapsed), inner_width)
}

// The branch.

/// A branch as it is shown: that of a worktree has a mark before it.
pub open spec fn branch_text(git_info: PaneGitInfo) -> Seq<char> {
    match git_info.branch {
        Some(branch) => if branch@.len() > 0 && git_info.is_worktree {
            "+ "@ + branch@
        } else {
            branch@
        },
        None => Seq::empty(),
    }
}

/// Ports, one behind the other.
pub open spec fn port_list(ports: Seq<u16>) -> Seq<char>
    decreases ports.len(),
{
    if ports.len() == 0 {
        Seq::empty()
    } else if ports.len() == 1 {
        number::decimal_of(ports[0] as nat)
    } else {
        port_list(ports.drop_last()) + ", "@ + number::decimal_of(ports.last() as nat)
    }
}

/// The mark that removes a worktree.
pub const REMOVE_MARKER: &'static str = "×";

/// What stands at the right of the branch: the ports, and the mark that removes the
/// worktree, in the last column.
pub open spec fn branch_right(
    git_info: PaneGitInfo,
    ports: Option<Seq<u16>>,
    sidebar_spawned: bool,
) -> Seq<Seq<char>> {
    let listed = match ports {
        Some(list) => if list.len() > 0 {
            seq![":"@ + port_list(list)]
        } else {
            Seq::<Seq<char>>::empty()
        },
        None => Seq::<Seq<char>>::empty(),
    };
    if row::has_remove_marker(git_info, sidebar_spawned) {
        if listed.len() == 0 {
            seq![REMOVE_MARKER@]
        } else {
            listed + seq![" "@, REMOVE_MARKER@]
        }
    } else {
        listed
    }
}

/// What the branch row says: the branch, which is cut so that what stands at its right
/// stays in view, two blanks behind it.
pub open spec fn branch_ports_text(
    git_info: PaneGitInfo,
    ports: Option<Seq<u16>>,
    sidebar_spawned: bool,
    inner_width: usize,
) -> RowModel {
    let right = branch_right(git_info, ports, sidebar_spawned);
    let room = line::less(
        line::room_behind(inner_width as nat, right),
        if right.len() == 0 {
            2
        } else {
            4
        },
    );
    line::spread(
        seq![INDENT@, cells::cut_to(branch_text(git_info), room as usize)],
        right,
        inner_width as nat,
    )
}

fn branch_shown(git_info: &PaneGitInfo) -> (shown: String)
    ensures
        shown@ == branch_text(*git_info),
{
    match &git_info.branch {
        Some(branch) => if !branch.as_str().is_empty() && git_info.is_worktree {
            concat2("+ ", branch.as_str())
        } else {
            owned(branch.as_str())
        },
        None => {
            let none = String::new();
            proof {
                assert(none@ =~= Seq::<char>::empty());
            }
            none
        },
    }
}

fn ports_shown(ports: &[u16]) -> (shown: String)
    ensures
        shown@ == port_list(ports@),
{
    let mut shown = String::new();
    let mut i: usize = 0;
    proof {
        assert(ports@.take(0) =~= Seq::empty());
        assert(shown@ =~= port_list(ports@.take(0)));
    }
    while i < ports.len()
        invariant
            i <= ports@.len(),
            shown@ == port_list(ports@.take(i as int)),
        decreases ports@.len() - i,
    {
        proof {
            assert(ports@.take(i + 1).drop_last() =~= ports@.take(i as int));
        }
        let port = decimal(ports[i] as u64);
        shown = if i == 0 {
            port
        } else {
            concat3(shown.as_str(), ", ", port.as_str())
        };
        i = i + 1;
    }
    proof {
        assert(ports@.take(i as int) =~= ports@);
    }
    shown
}

fn marker_shown(git_info: &PaneGitInfo, sidebar_spawned: bool) -> (shown: bool)
    ensures
        shown == row::has_remove_marker(*git_info, sidebar_spawned),
{
    let column = sidebar_remove_marker_col(git_info, None, sidebar_spawned, 0);
    column.is_some()
}

fn right_of_branch(git_info: &PaneGitInfo, ports: Option<&[u16]>, sidebar_spawned: bool) -> (right:
    Vec<String>)
    ensures
        text::texts(right@) == branch_right(*git_info, row::known_ports(ports), sidebar_spawned),
{
    let mut right = no_texts();
    if let Some(list) = ports {
        if list.len() > 0 {
            right = one_text(concat2(":", ports_shown(list).as_str()));
        }
    }
    let ghost listed = text::texts(right@);
    if marker_shown(git_info, sidebar_spawned) {
        if right.len() > 0 {
            right.push(owned(" "));
        }
        right.push(owned(REMOVE_MARKER));
    }
    proof {
        assert(listed.len() == 0 ==> listed =~= Seq::<Seq<char>>::empty());
        assert(text::texts(right@) =~= branch_right(*git_info, row::known_ports(ports), sidebar_spawned));
    }
    right
}

/// What the branch row says, where there is a branch or a port.
pub fn branch_ports_row(
    git_info: &PaneGitInfo,
    ports: Option<&[u16]>,
    sidebar_spawned: bool,
    inner_width: usize,
) -> (shown: Option<RowText>)
    ensures
        match shown {
            Some(found) => {
                &&& row::has_branch_row(*git_info, row::known_ports(ports))
                &&& found@ == branch_ports_text(
                    *git_info,
                    row::known_ports(ports),
                    sidebar_spawned,
                    inner_width,
                )
            },
            None => !row::has_branch_row(*git_info, row::known_ports(ports)),
        },
{
    if !row::branch_row_shown(git_info, ports) {
        return None;
    }
    let right = right_of_branch(git_info, ports, sidebar_spawned);
    let apart: usize = if right.len() == 0 {
        2
    } else {
        4
    };
    let room: usize = room_left(inner_width, &right).saturating_sub(apart);
    proof {
        assert(text::texts(right@).len() == right@.len());
    }
    let branch = truncate_to_width(branch_shown(git_info).as_str(), room);
    Some(RowText::new(two_texts(owned(INDENT), branch), right, inner_width))
}

/// The mark that removes a worktree is the last thing in its row where there is one, so
/// that it is drawn in the column where it can be clicked.
pub proof fn the_remove_marker_comes_last(
    git_info: PaneGitInfo,
    ports: Option<Seq<u16>>,
    sidebar_spawned: bool,
    inner_width: usize,
)
    ensures
        row::has_remove_marker(git_info, sidebar_spawned) ==> {
            let shown = branch_ports_text(git_info, ports, sidebar_spawned, inner_width);
            shown.right.len() > 0 && shown.right.last() == REMOVE_MARKER@
        },
{
}

// What stands below.

/// The mark of a task.
pub open spec fn task_mark(status: TaskStatus) -> char {
    match status {
        TaskStatus::Completed => '✔',
        TaskStatus::InProgress => '◼',
        TaskStatus::Pending => '◻',
    }
}

/// How many tasks are completed.
pub open spec fn completed(tasks: Seq<(Seq<char>, TaskStatus)>) -> nat
    decreases tasks.len(),
{
    if tasks.len() == 0 {
        0
    } else {
        completed(tasks.drop_last()) + if tasks.last().1 == TaskStatus::Completed {
            1nat
        } else {
            0nat
        }
    }
}

/// What the row of the tasks says: a mark for each, and how many are completed.
pub open spec fn tasks_text(tasks: Seq<(Seq<char>, TaskStatus)>) -> RowModel {
    let marks = Seq::new(tasks.len(), |i: int| task_mark(tasks[i].1));
    let count = number::decimal_of(completed(tasks)) + "/"@ + number::decimal_of(tasks.len());
    line::spread(seq![INDENT@, marks, " "@ + count], Seq::empty(), 0)
}

/// What the row of the tasks says, where there are any.
pub fn task_progress_row(task_progress: Option<&TaskProgress>) -> (shown: Option<RowText>)
    ensures
        match shown {
            Some(found) => task_progress matches Some(progress) && progress@.len() > 0 && found@
                == tasks_text(progress@),
            None => task_progress matches Some(progress) ==> progress@.len() == 0,
        },
{
    let progress = match task_progress {
        Some(progress) => progress,
        None => {
            return None;
        },
    };
    if progress.is_empty() {
        return None;
    }
    let ghost tasks = progress@;
    let ghost all = Seq::new(tasks.len(), |i: int| task_mark(tasks[i].1));
    let mut marks = String::new();
    let mut done: usize = 0;
    let mut i: usize = 0;
    proof {
        assert(tasks.take(0) =~= Seq::empty());
        assert(marks@ =~= all.take(0));
    }
    while i < progress.tasks.len()
        invariant
            i <= progress.tasks@.len() == tasks.len(),
            tasks == progress@,
            all == Seq::new(tasks.len(), |i: int| task_mark(tasks[i].1)),
            marks@ == all.take(i as int),
            done == completed(tasks.take(i as int)),
            done <= i,
        decreases progress.tasks@.len() - i,
    {
        proof {
            assert(tasks.take(i + 1).drop_last() =~= tasks.take(i as int));
            assert(tasks[i as int].1 == progress.tasks@[i as int].1);
        }
        let mark = match progress.tasks[i].1 {
            TaskStatus::Completed => '✔',
            TaskStatus::InProgress => '◼',
            TaskStatus::Pending => '◻',
        };
        marks.push(mark);
        if progress.tasks[i].1 == TaskStatus::Completed {
            done = done + 1;
        }
        i = i + 1;
        proof {
            assert(marks@ =~= all.take(i as int));
        }
    }
    proof {
        assert(all.take(i as int) =~= all);
        assert(tasks.take(i as int) =~= tasks);
    }
    let count = concat3(decimal(done as u64).as_str(), "/", decimal(i as u64).as_str());
    let left = three_texts(owned(INDENT), marks, concat2(" ", count.as_str()));
    Some(RowText::new(left, no_texts(), 0))
}

/// The name of a subagent with its number, by its place, unless it has one.
pub open spec fn numbered(name: Seq<char>, index: int) -> Seq<char> {
    if scan::contains_text(name, "#"@) {
        name
    } else {
        name + " #"@ + number::decimal_of((index + 1) as nat)
    }
}

/// What the row of a subagent says.
pub open spec fn subagent_text(name: Seq<char>, index: int, count: int) -> RowModel {
    let branch = if index + 1 == count {
        "└ "@
    } else {
        "├ "@
    };
    line::spread(seq![INDENT@, branch, numbered(name, index)], Seq::empty(), 0)
}

/// The models of rows.
pub open spec fn models(rows: Seq<RowText>) -> Seq<RowModel> {
    rows.map_values(|shown: RowText| shown@)
}

/// What the rows of the subagents say.
pub open spec fn subagent_texts(names: Seq<Seq<char>>) -> Seq<RowModel> {
    Seq::new(names.len(), |i: int| subagent_text(names[i], i, names.len() as int))
}

/// What the rows of the subagents say, as a tree.
pub fn subagent_rows(subagents: &Vec<String>) -> (shown: Vec<RowText>)
    ensures
        models(shown@) == subagent_texts(text::texts(subagents@)),
{
    let ghost all = subagent_texts(text::texts(subagents@));
    let mut shown: Vec<RowText> = Vec::new();
    let mut i: usize = 0;
    proof {
        assert(models(shown@) =~= all.take(0));
    }
    while i < subagents.len()
        invariant
            i <= subagents@.len(),
            all == subagent_texts(text::texts(subagents@)),
            all.len() == subagents@.len(),
            models(shown@) == all.take(i as int),
        decreases subagents@.len() - i,
    {
        let ghost before = models(shown@);
        let name = subagents[i].as_str();
        proof {
            assert(text::texts(subagents@)[i as int] == name@);
        }
        let branch = if i + 1 == subagents.len() {
            "└ "
        } else {
            "├ "
        };
        let label = if contains(name, "#") {
            owned(name)
        } else {
            concat3(name, " #", decimal((i + 1) as u64).as_str())
        };
        let left = three_texts(owned(INDENT), owned(branch), label);
        let next = RowText::new(left, no_texts(), 0);
        let ghost model = next@;
        shown.push(next);
        proof {
            assert(model == all[i as int]);
            assert(models(shown@) =~= before.push(model));
            assert(all.take(i + 1) =~= all.take(i as int).push(all[i as int]));
        }
        i = i + 1;
    }
    proof {
        assert(all.take(i as int) =~= all);
    }
    shown
}

/// What an agent waits for, in words.
pub open spec fn reason_text(reason: Seq<char>) -> Seq<char> {
    if reason == "permission_prompt"@ {
        "permission required"@
    } else {
        reason
    }
}

/// What the row of the reason to wait says.
pub fn wait_reason_row(reason: &str) -> (shown: Option<RowText>)
    ensures
        match shown {
            Some(found) => reason@.len() > 0 && found@ == line::spread(
                seq![INDENT@, reason_text(reason@)],
                Seq::empty(),
                0,
            ),
            None => reason@.len() == 0,
        },
{
    if reason.is_empty() {
        return None;
    }
    let words = if same(reason, "permission_prompt") {
        owned("permission required")
    } else {
        owned(reason)
    };
    Some(RowText::new(two_texts(owned(INDENT), words), no_texts(), 0))
}

/// What the row of a background shell says.
pub open spec fn background_text(command: Seq<char>, inner_width: usize) -> RowModel {
    let room = line::less(inner_width as nat, 2);
    line::spread(seq![INDENT@, cells::cut_to(command, room as usize)], Seq::empty(), 0)
}

/// What the row of a background shell says: its command, cut to the width.
pub fn background_hint_row(command: &str, inner_width: usize) -> (shown: RowText)
    ensures
        shown@ == background_text(command@, inner_width),
{
    let cut = truncate_to_width(command, inner_width.saturating_sub(2));
    RowText::new(two_texts(owned(INDENT), cut), no_texts(), 0)
}

/// Where a line that starts at `from` ends: behind the characters that fit, of which
/// there is at least one.
pub open spec fn break_at(widths: Seq<usize>, from: int, width: usize) -> int {
    let end = cells::head_end(widths, from, width as int);
    if end <= from {
        from + 1
    } else if end > widths.len() {
        widths.len() as int
    } else {
        end
    }
}

/// A text in lines of a width, broken between any two characters.
pub open spec fn char_lines(
    text: Seq<char>,
    widths: Seq<usize>,
    from: int,
    width: usize,
) -> Seq<Seq<char>>
    decreases widths.len() - from,
{
    if from >= widths.len() {
        Seq::empty()
    } else {
        let end = break_at(widths, from, width);
        seq![text.subrange(from, end)] + char_lines(text, widths, end, width)
    }
}

/// Words in lines of a width, broken between words. A word that does not fit has a line
/// of its own.
pub open spec fn word_lines(words: Seq<Seq<char>>, width: usize) -> Seq<Seq<char>>
    decreases words.len(),
{
    if words.len() == 0 {
        Seq::empty()
    } else {
        let above = word_lines(words.drop_last(), width);
        if above.len() == 0 {
            seq![words.last()]
        } else {
            let longer = above.last() + " "@ + words.last();
            if cells::text_cells(longer) <= width {
                above.drop_last().push(longer)
            } else {
                above.push(words.last())
            }
        }
    }
}

/// The lines of a prompt or a response. A prompt is broken between words; a response,
/// with an arrow before it, between any two characters, so that its blanks stay.
pub open spec fn prompt_lines(pane: PaneInfo, inner_width: usize) -> Seq<Seq<char>> {
    let room = line::less(inner_width as nat, 2) as usize;
    if pane.prompt_is_response {
        let shown = "▷ "@ + pane.prompt@;
        char_lines(shown, cells::cells_of(shown), 0, room)
    } else {
        word_lines(cut::words_of(pane.prompt@), room)
    }
}

/// What the rows of a prompt say.
pub open spec fn prompt_texts(pane: PaneInfo, inner_width: usize) -> Seq<RowModel> {
    let lines = prompt_lines(pane, inner_width);
    Seq::new(lines.len(), |i: int| line::spread(seq![INDENT@, lines[i]], Seq::empty(), 0))
}

proof fn joined_from_the_left(first: Seq<char>, rest: Seq<Seq<char>>)
    ensures
        line::joined(seq![first] + rest) == first + line::joined(rest),
    decreases rest.len(),
{
    let all = seq![first] + rest;
    if rest.len() == 0 {
        assert(all.drop_last() =~= Seq::<Seq<char>>::empty());
        assert(all.last() == first);
        assert(line::joined(all.drop_last()) =~= Seq::<char>::empty());
        assert(line::joined(all) =~= first + line::joined(rest));
    } else {
        joined_from_the_left(first, rest.drop_last());
        assert(all.drop_last() =~= seq![first] + rest.drop_last());
        assert(all.last() == rest.last());
        assert(line::joined(all) =~= first + line::joined(rest));
    }
}

proof fn char_lines_keep_the_rest(text: Seq<char>, widths: Seq<usize>, from: int, width: usize)
    requires
        widths.len() == text.len(),
        0 <= from <= text.len(),
    ensures
        line::joined(char_lines(text, widths, from, width)) == text.skip(from),
    decreases widths.len() - from,
{
    if from < widths.len() {
        let end = break_at(widths, from, width);
        char_lines_keep_the_rest(text, widths, end, width);
        joined_from_the_left(text.subrange(from, end), char_lines(text, widths, end, width));
        assert(text.subrange(from, end) + text.skip(end) =~= text.skip(from));
    } else {
        assert(text.skip(from) =~= Seq::<char>::empty());
    }
}

/// The lines of a response hold every character of it, blanks too.
pub proof fn responses_lose_nothing(pane: PaneInfo, inner_width: usize)
    requires
        pane.prompt_is_response,
    ensures
        line::joined(prompt_lines(pane, inner_width)) == "▷ "@ + pane.prompt@,
{
    let shown = "▷ "@ + pane.prompt@;
    let room = line::less(inner_width as nat, 2) as usize;
    char_lines_keep_the_rest(shown, cells::cells_of(shown), 0, room);
    assert(shown.skip(0) =~= shown);
}

fn break_chars(text: &str, width: usize) -> (lines: Vec<String>)
    ensures
        text::texts(lines@) == char_lines(text@, cells::cells_of(text@), 0, width),
{
    let widths = char_widths(text);
    let chars = chars_of(text);
    let ghost all = char_lines(text@, widths@, 0, width);
    let mut lines: Vec<String> = Vec::new();
    let mut from: usize = 0;
    proof {
        assert(text::texts(lines@) + char_lines(text@, widths@, 0, width) =~= all);
    }
    while from < chars.len()
        invariant
            from <= chars@.len() == widths@.len(),
            chars@ == text@,
            all == char_lines(text@, widths@, 0, width),
            text::texts(lines@) + char_lines(text@, widths@, from as int, width) == all,
        decreases chars@.len() - from,
    {
        let mut end: usize = from;
        let mut budget: usize = width;
        while end < chars.len() && widths[end] <= budget
            invariant
                from <= end <= chars@.len() == widths@.len(),
                cells::head_end(widths@, from as int, width as int) == cells::head_end(
                    widths@,
                    end as int,
                    budget as int,
                ),
            decreases chars@.len() - end,
        {
            budget = budget - widths[end];
            end = end + 1;
        }
        if end == from {
            end = end + 1;
        }
        let ghost before = text::texts(lines@);
        let next = text_of(chars.as_slice(), from, end);
        let ghost model = next@;
        lines.push(next);
        proof {
            assert(end == break_at(widths@, from as int, width));
            assert(text::texts(lines@) =~= before.push(model));
            assert(text::texts(lines@) + char_lines(text@, widths@, end as int, width) =~= before
                + char_lines(text@, widths@, from as int, width));
        }
        from = end;
    }
    proof {
        assert(text::texts(lines@) =~= all);
    }
    lines
}

fn break_words(text: &str, width: usize) -> (lines: Vec<String>)
    ensures
        text::texts(lines@) == word_lines(cut::words_of(text@), width),
{
    let list = words(text);
    let ghost all = text::texts(list@);
    let mut lines: Vec<String> = Vec::new();
    let mut i: usize = 0;
    proof {
        assert(all.take(0) =~= Seq::empty());
        assert(text::texts(lines@) =~= word_lines(all.take(0), width));
    }
    while i < list.len()
        invariant
            i <= list@.len(),
            all == text::texts(list@),
            text::texts(lines@) == word_lines(all.take(i as int), width),
        decreases list@.len() - i,
    {
        let ghost above = text::texts(lines@);
        proof {
            assert(all.take(i + 1).drop_last() =~= all.take(i as int));
            assert(all[i as int] == list@[i as int]@);
            assert(above.len() == lines@.len());
        }
        match lines.pop() {
            None => {
                lines.push(owned(list[i].as_str()));
            },
            Some(line) => {
                let longer = concat3(line.as_str(), " ", list[i].as_str());
                proof {
                    assert(text::texts(lines@) =~= above.drop_last());
                }
                if display_width(longer.as_str()) <= width {
                    lines.push(longer);
                } else {
                    lines.push(line);
                    lines.push(owned(list[i].as_str()));
                }
            },
        }
        i = i + 1;
        proof {
            assert(text::texts(lines@) =~= word_lines(all.take(i as int), width));
        }
    }
    proof {
        assert(all.take(i as int) =~= all);
    }
    lines
}

/// What the rows of a prompt or a response say.
pub fn prompt_rows(pane: &PaneInfo, inner_width: usize) -> (shown: Vec<RowText>)
    ensures
        models(shown@) == prompt_texts(*pane, inner_width),
{
    let room: usize = inner_width.saturating_sub(2);
    let lines = if pane.prompt_is_response {
        break_chars(concat2("▷ ", pane.prompt.as_str()).as_str(), room)
    } else {
        break_words(pane.prompt.as_str(), room)
    };
    let ghost wanted = prompt_lines(*pane, inner_width);
    let ghost all = prompt_texts(*pane, inner_width);
    let mut shown: Vec<RowText> = Vec::new();
    let mut i: usize = 0;
    proof {
        assert(models(shown@) =~= all.take(0));
        assert(text::texts(lines@).len() == lines@.len());
    }
    while i < lines.len()
        invariant
            i <= lines@.len() == wanted.len() == all.len(),
            wanted == text::texts(lines@),
            wanted == prompt_lines(*pane, inner_width),
            all == prompt_texts(*pane, inner_width),
            models(shown@) == all.take(i as int),
        decreases lines@.len() - i,
    {
        let ghost before = models(shown@);
        let left = two_texts(owned(INDENT), owned(lines[i].as_str()));
        let next = RowText::new(left, no_texts(), 0);
        let ghost model = next@;
        shown.push(next);
        proof {
            assert(wanted[i as int] == lines@[i as int]@);
            assert(model == all[i as int]);
            assert(models(shown@) =~= before.push(model));
            assert(all.take(i + 1) =~= all.take(i as int).push(all[i as int]));
        }
        i = i + 1;
    }
    proof {
        assert(all.take(i as int) =~= all);
    }
    shown
}

/// What is said of an idle agent without a prompt.
pub open spec fn idle_text() -> RowModel {
    line::spread(seq![INDENT@, "Waiting for prompt…"@], Seq::empty(), 0)
}

/// What is said of an idle agent without a prompt.
pub fn idle_hint_row() -> (shown: RowText)
    ensures
        shown@ == idle_text(),
{
    RowText::new(two_texts(owned(INDENT), owned("Waiting for prompt…")), no_texts(), 0)
}

// All of them.

/// What a part of a pane says, from top to bottom. A part that is not shown says
/// nothing.
pub open spec fn part_texts(
    pane: PaneInfo,
    git_info: PaneGitInfo,
    ports: Option<Seq<u16>>,
    tasks: Option<Seq<(Seq<char>, TaskStatus)>>,
    part: PaneRow,
    icon: Seq<char>,
    inner_width: usize,
    now: u64,
) -> Seq<RowModel> {
    if !row::pane_rows(pane, git_info, ports, tasks).contains(part) {
        Seq::empty()
    } else {
        match part {
            PaneRow::Status => seq![status_text(pane, icon, inner_width, now)],
            PaneRow::Branch => seq![
                branch_ports_text(git_info, ports, pane.sidebar_spawned, inner_width),
            ],
            PaneRow::Tasks => seq![tasks_text(tasks->0)],
            PaneRow::Subagents => subagent_texts(text::texts(pane.subagents@)),
            PaneRow::WaitReason => seq![
                line::spread(seq![INDENT@, reason_text(pane.wait_reason@)], Seq::empty(), 0),
            ],
            PaneRow::Background => seq![background_text(pane.bg_shell_cmd->0@, inner_width)],
            PaneRow::Prompt => prompt_texts(pane, inner_width),
            PaneRow::IdleHint => seq![idle_text()],
        }
    }
}

proof fn parts_are_shown_where_they_have_something(
    pane: PaneInfo,
    git_info: PaneGitInfo,
    ports: Option<Seq<u16>>,
    tasks: Option<Seq<(Seq<char>, TaskStatus)>>,
    part: PaneRow,
)
    ensures
        row::pane_rows(pane, git_info, ports, tasks).contains(part) <==> match part {
            PaneRow::Status => true,
            PaneRow::Branch => row::has_branch_row(git_info, ports),
            PaneRow::Tasks => tasks matches Some(list) && list.len() > 0,
            PaneRow::Subagents => pane.subagents@.len() > 0,
            PaneRow::WaitReason => pane.wait_reason@.len() > 0,
            PaneRow::Background => pane.bg_shell_cmd is Some,
            PaneRow::Prompt => pane.prompt@.len() > 0,
            PaneRow::IdleHint => pane.prompt@.len() == 0 && pane.status == PaneStatus::Idle,
        },
{
    let first = seq![PaneRow::Status];
    let second = first + row::row_if(row::has_branch_row(git_info, ports), PaneRow::Branch);
    let third = second + row::row_if(
        tasks matches Some(list) && list.len() > 0,
        PaneRow::Tasks,
    );
    let fourth = third + row::row_if(pane.subagents@.len() > 0, PaneRow::Subagents);
    let fifth = fourth + row::row_if(pane.wait_reason@.len() > 0, PaneRow::WaitReason);
    let sixth = fifth + row::row_if(pane.bg_shell_cmd is Some, PaneRow::Background);
    let seventh = sixth + row::row_if(pane.prompt@.len() > 0, PaneRow::Prompt);
    assert(first[0] == PaneRow::Status);
    one_more(first, row::has_branch_row(git_info, ports), PaneRow::Branch, part);
    one_more(
        second,
        tasks matches Some(list) && list.len() > 0,
        PaneRow::Tasks,
        part,
    );
    one_more(third, pane.subagents@.len() > 0, PaneRow::Subagents, part);
    one_more(fourth, pane.wait_reason@.len() > 0, PaneRow::WaitReason, part);
    one_more(fifth, pane.bg_shell_cmd is Some, PaneRow::Background, part);
    one_more(sixth, pane.prompt@.len() > 0, PaneRow::Prompt, part);
    one_more(
        seventh,
        pane.prompt@.len() == 0 && pane.status == PaneStatus::Idle,
        PaneRow::IdleHint,
        part,
    );
}

proof fn one_more(rows: Seq<PaneRow>, shown: bool, next: PaneRow, part: PaneRow)
    ensures
        (rows + row::row_if(shown, next)).contains(part) <==> rows.contains(part) || (shown && next
            == part),
{
    let longer = rows + row::row_if(shown, next);
    if rows.contains(part) {
        let at = rows.index_of(part);
        assert(longer[at] == part);
    }
    if shown && next == part {
        assert(longer[rows.len() as int] == part);
    }
    if longer.contains(part) && !rows.contains(part) {
        let at = longer.index_of(part);
        assert(at >= rows.len());
    }
}

fn one_row(shown: RowText) -> (rows: Vec<RowText>)
    ensures
        models(rows@) == seq![shown@],
{
    let ghost model = shown@;
    let mut rows: Vec<RowText> = Vec::new();
    rows.push(shown);
    proof {
        assert(models(rows@) =~= seq![model]);
    }
    rows
}

fn row_or_none(shown: Option<RowText>) -> (rows: Vec<RowText>)
    ensures
        models(rows@) == match shown {
            Some(found) => seq![found@],
            None => Seq::empty(),
        },
{
    match shown {
        Some(found) => one_row(found),
        None => {
            let rows: Vec<RowText> = Vec::new();
            proof {
                assert(models(rows@) =~= Seq::<RowModel>::empty());
            }
            rows
        },
    }
}

/// What a part of a pane says, from top to bottom, in a row of some width behind its
/// marker. A part that is not shown says nothing.
pub fn pane_row_texts(
    pane: &PaneInfo,
    git_info: &PaneGitInfo,
    ports: Option<&[u16]>,
    task_progress: Option<&TaskProgress>,
    part: PaneRow,
    icon: &str,
    inner_width: usize,
    now: u64,
) -> (rows: Vec<RowText>)
    ensures
        models(rows@) == part_texts(
            *pane,
            *git_info,
            row::known_ports(ports),
            row::known_tasks(task_progress),
            part,
            icon@,
            inner_width,
            now,
        ),
{
    proof {
        parts_are_shown_where_they_have_something(
            *pane,
            *git_info,
            row::known_ports(ports),
            row::known_tasks(task_progress),
            part,
        );
    }
    match part {
        PaneRow::Status => one_row(status_row(pane, icon, inner_width, now)),
        PaneRow::Branch => row_or_none(
            branch_ports_row(git_info, ports, pane.sidebar_spawned, inner_width),
        ),
        PaneRow::Tasks => row_or_none(task_progress_row(task_progress)),
        PaneRow::Subagents => {
            let rows = subagent_rows(&pane.subagents);
            proof {
                assert(pane.subagents@.len() == 0 ==> models(rows@) =~= Seq::<RowModel>::empty());
            }
            rows
        },
        PaneRow::WaitReason => row_or_none(wait_reason_row(pane.wait_reason.as_str())),
        PaneRow::Background => match &pane.bg_shell_cmd {
            Some(command) => one_row(background_hint_row(command.as_str(), inner_width)),
            None => row_or_none(None),
        },
        PaneRow::Prompt => if pane.prompt.as_str().is_empty() {
            row_or_none(None)
        } else {
            prompt_rows(pane, inner_width)
        },
        PaneRow::IdleHint => if pane.prompt.as_str().is_empty() && pane.status == PaneStatus::Idle {
            one_row(idle_hint_row())
        } else {
            row_or_none(None)
        },
    }
}

/// A line of a pane: how it stands out, and what it says.
#[derive(Debug)]
pub struct PaneText {
    pub line: PaneLine,
    pub text: RowText,
    /// Whether it tells of an error.
    pub failed: bool,
}

/// The model of a line of a pane.
pub struct TextModel {
    pub line: PaneLine,
    pub text: RowModel,
    pub failed: bool,
}

impl View for PaneText {
    type V = TextModel;

    open spec fn view(&self) -> TextModel {
        TextModel { line: self.line, text: self.text@, failed: self.failed }
    }
}

/// The models of lines of a pane.
pub open spec fn text_models(lines: Seq<PaneText>) -> Seq<TextModel> {
    lines.map_values(|line: PaneText| line@)
}

/// What a pane is drawn with.
pub struct PaneScene {
    pub ports: Option<Seq<u16>>,
    pub tasks: Option<Seq<(Seq<char>, TaskStatus)>>,
    pub selected: bool,
    pub active: bool,
    pub icon: Seq<char>,
    pub inner_width: usize,
    pub now: u64,
}

/// The lines of a part of a pane.
pub open spec fn lines_of_part(
    pane: PaneInfo,
    git_info: PaneGitInfo,
    scene: PaneScene,
    part: PaneRow,
) -> Seq<TextModel> {
    part_texts(
        pane,
        git_info,
        scene.ports,
        scene.tasks,
        part,
        scene.icon,
        scene.inner_width,
        scene.now,
    ).map_values(
        |text: RowModel|
            (TextModel {
                line: row::styled(part, scene.selected, scene.active),
                text,
                failed: part is WaitReason && pane.status == PaneStatus::Error,
            }),
    )
}

/// The lines of parts of a pane, one behind the other.
pub open spec fn lines_of_parts(
    pane: PaneInfo,
    git_info: PaneGitInfo,
    scene: PaneScene,
    parts: Seq<PaneRow>,
) -> Seq<TextModel>
    decreases parts.len(),
{
    if parts.len() == 0 {
        Seq::empty()
    } else {
        lines_of_parts(pane, git_info, scene, parts.drop_last()) + lines_of_part(
            pane,
            git_info,
            scene,
            parts.last(),
        )
    }
}

/// The lines of a pane, from top to bottom.
pub open spec fn lines_of_pane(pane: PaneInfo, git_info: PaneGitInfo, scene: PaneScene) -> Seq<
    TextModel,
> {
    lines_of_parts(
        pane,
        git_info,
        scene,
        row::pane_rows(pane, git_info, scene.ports, scene.tasks),
    )
}

fn push_texts(lines: &mut Vec<PaneText>, line: PaneLine, failed: bool, texts: Vec<RowText>)
    ensures
        text_models(final(lines)@) == text_models(old(lines)@) + models(texts@).map_values(
            |text: RowModel| (TextModel { line, text, failed }),
        ),
{
    let ghost before = text_models(lines@);
    let ghost wanted = models(texts@).map_values(|text: RowModel| (TextModel { line, text, failed }));
    let ghost all = texts@;
    let mut rest = texts;
    let ghost mut done: int = 0;
    proof {
        assert(rest@ =~= all.skip(0));
        assert(text_models(lines@) =~= before + wanted.take(0));
    }
    while rest.len() > 0
        invariant
            0 <= done <= all.len(),
            rest@ == all.skip(done),
            wanted == models(all).map_values(|text: RowModel| (TextModel { line, text, failed })),
            text_models(lines@) == before + wanted.take(done),
        decreases rest@.len(),
    {
        let ghost so_far = text_models(lines@);
        let text = rest.remove(0);
        let next = PaneText { line, text, failed };
        let ghost model = next@;
        lines.push(next);
        proof {
            assert(text == all[done]);
            assert(model == wanted[done]);
            assert(text_models(lines@) =~= so_far.push(model));
            assert(wanted.take(done + 1) =~= wanted.take(done).push(wanted[done]));
            assert(rest@ =~= all.skip(done + 1));
            done = done + 1;
        }
    }
    proof {
        assert(wanted.take(done) =~= wanted);
    }
}

/// The lines of a pane, from top to bottom: how each stands out, and what it says in a
/// row of some width behind its marker.
pub fn pane_texts(
    pane: &PaneInfo,
    git_info: &PaneGitInfo,
    ports: Option<&[u16]>,
    task_progress: Option<&TaskProgress>,
    selected: bool,
    active: bool,
    icon: &str,
    inner_width: usize,
    now: u64,
) -> (lines: Vec<PaneText>)
    ensures
        text_models(lines@) == lines_of_pane(
            *pane,
            *git_info,
            (PaneScene {
                ports: row::known_ports(ports),
                tasks: row::known_tasks(task_progress),
                selected,
                active,
                icon: icon@,
                inner_width,
                now,
            }),
        ),
{
    let ghost scene = PaneScene {
        ports: row::known_ports(ports),
        tasks: row::known_tasks(task_progress),
        selected,
        active,
        icon: icon@,
        inner_width,
        now,
    };
    let ghost parts = row::pane_rows(*pane, *git_info, scene.ports, scene.tasks);
    let shown = render_pane_lines_with_ports(
        pane,
        git_info,
        ports,
        task_progress,
        selected,
        active,
    );
    let mut lines: Vec<PaneText> = Vec::new();
    let mut i: usize = 0;
    proof {
        assert(parts.take(0) =~= Seq::empty());
        assert(text_models(lines@) =~= Seq::<TextModel>::empty());
    }
    while i < shown.len()
        invariant
            i <= shown@.len() == parts.len(),
            shown@ == row::all_styled(parts, selected, active),
            parts == row::pane_rows(*pane, *git_info, scene.ports, scene.tasks),
            scene == (PaneScene {
                ports: row::known_ports(ports),
                tasks: row::known_tasks(task_progress),
                selected,
                active,
                icon: icon@,
                inner_width,
                now,
            }),
            text_models(lines@) == lines_of_parts(*pane, *git_info, scene, parts.take(i as int)),
        decreases shown@.len() - i,
    {
        proof {
            assert(parts.take(i + 1).drop_last() =~= parts.take(i as int));
            assert(shown@[i as int] == row::styled(parts[i as int], selected, active));
        }
        let texts = pane_row_texts(
            pane,
            git_info,
            ports,
            task_progress,
            shown[i].row,
            icon,
            inner_width,
            now,
        );
        let failed = shown[i].row == PaneRow::WaitReason && pane.status == PaneStatus::Error;
        push_texts(&mut lines, shown[i], failed, texts);
        i = i + 1;
    }
    proof {
        assert(parts.take(i as int) =~= parts);
    }
    lines
}

proof fn parts_above_stay_above(
    pane: PaneInfo,
    git_info: PaneGitInfo,
    scene: PaneScene,
    parts: Seq<PaneRow>,
    count: int,
)
    requires
        0 <= count <= parts.len(),
    ensures
        ({
            let above = lines_of_parts(pane, git_info, scene, parts.take(count));
            let all = lines_of_parts(pane, git_info, scene, parts);
            above.len() <= all.len() && all.take(above.len() as int) == above
        }),
    decreases parts.len() - count,
{
    let above = lines_of_parts(pane, git_info, scene, parts.take(count));
    let all = lines_of_parts(pane, git_info, scene, parts);
    if count < parts.len() {
        parts_above_stay_above(pane, git_info, scene, parts, count + 1);
        assert(parts.take(count + 1).drop_last() =~= parts.take(count));
        let more = lines_of_parts(pane, git_info, scene, parts.take(count + 1));
        assert(all.take(above.len() as int) =~= all.take(more.len() as int).take(
            above.len() as int,
        ));
        assert(more.take(above.len() as int) =~= above);
    } else {
        assert(parts.take(count) =~= parts);
        assert(all.take(above.len() as int) =~= above);
    }
}

/// The first line of a pane is its status, and the second its branch, where it has one:
/// this is the line in which the mark that removes a worktree can be clicked.
pub proof fn status_and_branch_lead(pane: PaneInfo, git_info: PaneGitInfo, scene: PaneScene)
    ensures
        ({
            let lines = lines_of_pane(pane, git_info, scene);
            &&& lines.len() > 0
            &&& lines[0].line.row == PaneRow::Status
            &&& row::has_branch_row(git_info, scene.ports) ==> lines.len() > 1
                && lines[1].line.row == PaneRow::Branch
        }),
{
    let parts = row::pane_rows(pane, git_info, scene.ports, scene.tasks);
    let lines = lines_of_pane(pane, git_info, scene);
    let status = lines_of_part(pane, git_info, scene, PaneRow::Status);
    parts_are_shown_where_they_have_something(
        pane,
        git_info,
        scene.ports,
        scene.tasks,
        PaneRow::Status,
    );
    assert(parts[0] == PaneRow::Status);
    assert(parts.take(0) =~= Seq::<PaneRow>::empty());
    assert(parts.take(1).drop_last() =~= parts.take(0));
    assert(lines_of_parts(pane, git_info, scene, parts.take(0)) =~= Seq::<TextModel>::empty());
    assert(lines_of_parts(pane, git_info, scene, parts.take(1)) =~= status);
    parts_above_stay_above(pane, git_info, scene, parts, 1);
    assert(lines[0] == lines.take(1)[0]);
    if row::has_branch_row(git_info, scene.ports) {
        let branch = lines_of_part(pane, git_info, scene, PaneRow::Branch);
        parts_are_shown_where_they_have_something(
            pane,
            git_info,
            scene.ports,
            scene.tasks,
            PaneRow::Branch,
        );
        assert(parts[1] == PaneRow::Branch);
        assert(parts.take(2).drop_last() =~= parts.take(1));
        assert(lines_of_parts(pane, git_info, scene, parts.take(2)) =~= status + branch);
        parts_above_stay_above(pane, git_info, scene, parts, 2);
        assert(lines[1] == lines.take(2)[1]);
    }
}

// Laws of what is shown.

/// A span is shown in its two greatest units: hours and minutes, minutes and seconds, or
/// seconds alone.
pub proof fn spans_are_shown_in_their_units(hours: nat, minutes: nat, seconds: nat)
    requires
        minutes < 60 && seconds < 60,
    ensures
        hours > 0 ==> span_text(hours * 3600 + minutes * 60 + seconds) == number::decimal_of(hours)
            + "h"@ + number::decimal_of(minutes) + "m"@,
        minutes > 0 ==> span_text(minutes * 60 + seconds) == number::decimal_of(minutes) + "m"@
            + number::decimal_of(seconds) + "s"@,
        span_text(seconds) == number::decimal_of(seconds) + "s"@,
{
    if hours > 0 {
        let total = hours * 3600 + minutes * 60 + seconds;
        assert(total / 3600 == hours && total % 3600 == minutes * 60 + seconds);
        assert((minutes * 60 + seconds) / 60 == minutes);
    }
    if minutes > 0 {
        let total = minutes * 60 + seconds;
        assert(total / 60 == minutes && total % 60 == seconds);
    }
}

/// The time since the start is shown where the start is known and past.
pub proof fn elapsed_time_counts_from_the_start(start: u64, now: u64)
    ensures
        0 < start <= now ==> elapsed_of(Some(start), now) == span_text((now - start) as nat),
        start == 0 || start > now ==> elapsed_of(Some(start), now).len() == 0,
        elapsed_of(None, now).len() == 0,
{
}

/// Ports are listed in order, with a comma and a blank between.
pub proof fn ports_are_listed_in_order(ports: Seq<u16>)
    ensures
        port_list(ports) == cut::joined(
            ports.map_values(|port: u16| number::decimal_of(port as nat)),
            ", "@,
        ),
    decreases ports.len(),
{
    let words = ports.map_values(|port: u16| number::decimal_of(port as nat));
    if ports.len() > 1 {
        ports_are_listed_in_order(ports.drop_last());
        assert(words.drop_last() =~= ports.drop_last().map_values(
            |port: u16| number::decimal_of(port as nat),
        ));
        assert(port_list(ports) =~= cut::joined(words, ", "@));
    } else if ports.len() == 1 {
        reveal_with_fuel(cut::joined, 2);
        assert(port_list(ports) =~= cut::joined(words, ", "@));
    } else {
        assert(port_list(ports) =~= cut::joined(words, ", "@));
    }
}

/// Each status has an icon of its own.
pub proof fn icons_tell_the_status(first: PaneStatus, second: PaneStatus)
    ensures
        icon_of(first) == icon_of(second) <==> first == second,
        icon_of(first).len() == 1,
{
    reveal_strlit("●");
    reveal_strlit("◎");
    reveal_strlit("◐");
    reveal_strlit("○");
    reveal_strlit("✕");
    reveal_strlit("·");
    assert("●"@[0] == '●' && "◎"@[0] == '◎' && "◐"@[0] == '◐' && "○"@[0] == '○' && "✕"@[0] == '✕'
        && "·"@[0] == '·');
}

/// Each mark tells one state of a task; as many tasks count as completed as there are.
pub proof fn completed_tasks_are_counted(
    before: Seq<(Seq<char>, TaskStatus)>,
    task: (Seq<char>, TaskStatus),
    after: Seq<(Seq<char>, TaskStatus)>,
    other: TaskStatus,
)
    ensures
        completed(before + seq![task] + after) == completed(before) + completed(after) + if task.1
            is Completed {
            1nat
        } else {
            0nat
        },
        completed(Seq::<(Seq<char>, TaskStatus)>::empty()) == 0,
        task_mark(task.1) == task_mark(other) <==> task.1 == other,
        tasks_text(before + seq![task] + after).left[1][before.len() as int] == task_mark(task.1),
        tasks_text(before + seq![task] + after).left[1].len() == before.len() + 1 + after.len(),
    decreases after.len(),
{
    let all = before + seq![task] + after;
    if after.len() == 0 {
        assert(all.drop_last() =~= before);
    } else {
        let rest = after.drop_last();
        completed_tasks_are_counted(before, task, rest, other);
        assert(all.drop_last() =~= before + seq![task] + rest);
        assert(all.last() == after.last());
    }
    assert(all[before.len() as int] == task);
}

/// A subagent that has no number gets that of its place, counted from one.
pub proof fn subagents_are_numbered(name: Seq<char>, tail: Seq<char>, index: nat)
    requires
        !name.contains('#'),
    ensures
        numbered(name, index as int) == name + " #"@ + number::decimal_of(index + 1),
        numbered(name + "#"@ + tail, index as int) == name + "#"@ + tail,
{
    reveal_strlit("#");
    assert("#"@[0] == '#');
    assert forall|at: int| !scan::stands_at(name, "#"@, at) by {
        if scan::stands_at(name, "#"@, at) {
            assert(name.subrange(at, at + 1)[0] == name[at]);
            assert(name.contains(name[at]));
        }
    }
    let given = name + "#"@ + tail;
    let at = name.len() as int;
    assert(given.subrange(at, at + 1) =~= "#"@);
    assert(scan::stands_at(given, "#"@, at));
}

/// The lines of a prompt hold all of its words in order, and each line fits unless it is a
/// single word.
pub proof fn prompts_lose_no_words(words: Seq<Seq<char>>, width: usize)
    requires
        words.len() > 0,
    ensures
        word_lines(words, width).len() > 0,
        cut::joined(word_lines(words, width), " "@) == cut::joined(words, " "@),
        forall|i: int|
            0 <= i < word_lines(words, width).len() ==> cells::text_cells(
                #[trigger] word_lines(words, width)[i],
            ) <= width || words.contains(word_lines(words, width)[i]),
    decreases words.len(),
{
    let lines = word_lines(words, width);
    let word = words.last();
    assert(words[words.len() - 1] == word);
    if words.len() == 1 {
        assert(words.drop_last() =~= Seq::<Seq<char>>::empty());
        reveal_with_fuel(word_lines, 2);
        assert(lines =~= words);
    } else {
        let rest = words.drop_last();
        let above = word_lines(rest, width);
        prompts_lose_no_words(rest, width);
        let longer = above.last() + " "@ + word;
        assert forall|i: int| 0 <= i < lines.len() implies cells::text_cells(#[trigger] lines[i])
            <= width || words.contains(lines[i]) by {
            if i < above.len() - 1 || (i < above.len() && cells::text_cells(longer) > width) {
                assert(lines[i] == above[i]);
                if rest.contains(above[i]) {
                    assert(words[rest.index_of(above[i])] == above[i]);
                }
            }
        }
        if cells::text_cells(longer) <= width {
            assert(lines.drop_last() =~= above.drop_last());
            assert(lines.last() == longer);
            if above.len() == 1 {
                assert(above.drop_last() =~= Seq::<Seq<char>>::empty());
                reveal_with_fuel(cut::joined, 2);
                assert(cut::joined(lines, " "@) =~= longer);
                assert(cut::joined(above, " "@) =~= above.last());
            } else {
                assert(cut::joined(lines, " "@) =~= cut::joined(above, " "@) + " "@ + word);
            }
        } else {
            assert(lines.drop_last() =~= above);
            assert(lines.last() == word);
        }
        assert(cut::joined(lines, " "@) =~= cut::joined(rest, " "@) + " "@ + word);
    }
}

/// A worktree shows its branch behind a mark, any other checkout the branch alone.
pub proof fn worktrees_mark_their_branch(git_info: PaneGitInfo, branch: String)
    requires
        git_info.branch == Some(branch),
        branch@.len() > 0,
    ensures
        git_info.is_worktree ==> branch_text(git_info) == "+ "@ + branch@,
        !git_info.is_worktree ==> branch_text(git_info) == branch@,
        row::has_remove_marker(git_info, true) <==> git_info.is_worktree,
        !row::has_remove_marker(git_info, false),
{
}

} // verus!
