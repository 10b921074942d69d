//! The popups over the list: where they are, and what their rows hold.

use vstd::prelude::*;

use crate::geometry;
use crate::geometry::Rect;
use crate::scan;
use crate::scan::contains;
use crate::state::{AppState, PopupState, RepoFilter, SpawnField};
use crate::text;
use crate::text::{concat2, concat3, owned, same};
use crate::ui::panes;
use crate::ui::panes::{anchor_below, center_popup};
use crate::ui::text as cells;
use crate::ui::text::{display_width, tail_fit, truncate_to_width};

verus! {

/// Minimum height that the expanded spawn popup needs. Below this the popup falls
/// back to a compact layout without labels, to avoid clipping rows.
pub const SPAWN_MODAL_EXPANDED_MIN_HEIGHT: u16 = 12;

/// Border rows contributed to the total popup height (top + bottom).
pub const POPUP_BORDER_ROWS: u16 = 2;

// Row offsets inside the inner area of the compact popup.

pub const COMPACT_TASK_Y: u16 = 0;
pub const COMPACT_AGENT_Y: u16 = 1;
pub const COMPACT_MODE_Y: u16 = 2;
pub const COMPACT_ERROR_Y: u16 = 3;

// Row offsets inside the inner area of the expanded popup. Each section is label
// and value, with a blank between sections.

pub const EXP_TASK_LABEL_Y: u16 = 1;
pub const EXP_TASK_VALUE_Y: u16 = 2;
pub const EXP_AGENT_LABEL_Y: u16 = 4;
pub const EXP_AGENT_VALUE_Y: u16 = 5;
pub const EXP_MODE_LABEL_Y: u16 = 7;
pub const EXP_MODE_VALUE_Y: u16 = 8;
pub const EXP_ERROR_Y: u16 = 10;

/// What a row of a popup holds. Text is cut to the width of the row.
#[derive(Debug)]
pub enum PopupContent {
    /// The name of a field.
    Label(SpawnField),
    /// The task that is typed, and whether a cursor follows it.
    Input { text: String, cursor: bool },
    /// The value of a field.
    Value { field: SpawnField, text: String },
    Error(String),
}

/// The model of what a row holds.
pub enum ContentModel {
    Label(SpawnField),
    Input { text: Seq<char>, cursor: bool },
    Value { field: SpawnField, text: Seq<char> },
    Error(Seq<char>),
}

impl View for PopupContent {
    type V = ContentModel;

    open spec fn view(&self) -> ContentModel {
        match self {
            PopupContent::Label(field) => ContentModel::Label(*field),
            PopupContent::Input { text, cursor } => ContentModel::Input {
                text: text@,
                cursor: *cursor,
            },
            PopupContent::Value { field, text } => ContentModel::Value {
                field: *field,
                text: text@,
            },
            PopupContent::Error(text) => ContentModel::Error(text@),
        }
    }
}

/// A row of a popup.
#[derive(Debug)]
pub struct PopupRow {
    pub area: Rect,
    pub content: PopupContent,
}

/// The model of a row.
pub struct PopupRowModel {
    pub area: Rect,
    pub content: ContentModel,
}

impl View for PopupRow {
    type V = PopupRowModel;

    open spec fn view(&self) -> PopupRowModel {
        PopupRowModel { area: self.area, content: self.content@ }
    }
}

/// The models of a list of rows.
pub open spec fn popup_rows(rows: Seq<PopupRow>) -> Seq<PopupRowModel> {
    rows.map_values(|row: PopupRow| row@)
}

/// The popup in which an agent is spawned.
#[derive(Debug)]
pub struct SpawnPopup {
    pub rect: Rect,
    pub inner: Rect,
    pub title: String,
    pub field: SpawnField,
    pub rows: Vec<PopupRow>,
}

/// The label of a field.
pub open spec fn label_of(field: SpawnField) -> Seq<char> {
    match field {
        SpawnField::Task => "NAME"@,
        SpawnField::Agent => "AGENT"@,
        SpawnField::Mode => "MODE"@,
    }
}

/// The label of a field.
pub fn field_label(field: SpawnField) -> (label: &'static str)
    ensures
        label@ == label_of(field),
{
    match field {
        SpawnField::Task => "NAME",
        SpawnField::Agent => "AGENT",
        SpawnField::Mode => "MODE",
    }
}

/// How many cells a title has in the border of a popup.
pub open spec fn title_room(width: u16) -> usize {
    (if width > 2 {
        width - 2
    } else {
        0
    }) as usize
}

/// Whether the spawn popup is shown without labels.
pub open spec fn is_compact(area: Rect) -> bool {
    area.height < SPAWN_MODAL_EXPANDED_MIN_HEIGHT
}

/// The place of the spawn popup: below the button that opened it, else in the
/// middle.
pub open spec fn spawn_rect(area: Rect, anchor_y: Option<u16>, has_error: bool) -> Rect {
    let width = panes::lesser(area.width as int, 32) as u16;
    let height = ((if is_compact(area) {
        4int
    } else {
        10
    }) + (if has_error {
        1int
    } else {
        0
    }) + POPUP_BORDER_ROWS) as u16;
    match anchor_y {
        Some(y) => panes::anchored(area, y, width, height),
        None => panes::centered(area, width, height),
    }
}

/// The row `y` rows below the top of a popup, one column in from its sides.
pub open spec fn padded_row(inner: Rect, y: u16) -> Rect {
    geometry::rect_of(
        (inner.x + 1) as u16,
        (inner.y + y) as u16,
        if inner.width > 2 {
            inner.width - 2
        } else {
            0
        },
        1,
    )
}

/// A row where it is inside of a popup.
pub open spec fn row_at(inner: Rect, y: u16, content: ContentModel) -> Seq<PopupRowModel> {
    if y < inner.height {
        seq![PopupRowModel { area: padded_row(inner, y), content }]
    } else {
        Seq::<PopupRowModel>::empty()
    }
}

/// The row of an error, where there is one.
pub open spec fn error_at(inner: Rect, y: u16, error: Option<Seq<char>>) -> Seq<PopupRowModel> {
    match error {
        Some(message) => row_at(inner, y, ContentModel::Error(message)),
        None => Seq::<PopupRowModel>::empty(),
    }
}

/// The rows of the spawn popup.
pub open spec fn spawn_row_models(
    inner: Rect,
    compact: bool,
    field: SpawnField,
    input: Seq<char>,
    agent: Seq<char>,
    mode: Seq<char>,
    error: Option<Seq<char>>,
) -> Seq<PopupRowModel> {
    let task = ContentModel::Input { text: input, cursor: field == SpawnField::Task };
    let agent_value = ContentModel::Value { field: SpawnField::Agent, text: agent };
    let mode_value = ContentModel::Value { field: SpawnField::Mode, text: mode };
    if compact {
        row_at(inner, COMPACT_TASK_Y, task) + row_at(inner, COMPACT_AGENT_Y, agent_value) + row_at(
            inner,
            COMPACT_MODE_Y,
            mode_value,
        ) + error_at(inner, COMPACT_ERROR_Y, error)
    } else {
        row_at(inner, EXP_TASK_LABEL_Y, ContentModel::Label(SpawnField::Task)) + row_at(
            inner,
            EXP_TASK_VALUE_Y,
            task,
        ) + row_at(inner, EXP_AGENT_LABEL_Y, ContentModel::Label(SpawnField::Agent)) + row_at(
            inner,
            EXP_AGENT_VALUE_Y,
            agent_value,
        ) + row_at(inner, EXP_MODE_LABEL_Y, ContentModel::Label(SpawnField::Mode)) + row_at(
            inner,
            EXP_MODE_VALUE_Y,
            mode_value,
        ) + error_at(inner, EXP_ERROR_Y, error)
    }
}

fn push_row(rows: &mut Vec<PopupRow>, inner: Rect, y: u16, content: PopupContent)
    requires
        inner.x < u16::MAX,
        inner.y + inner.height <= u16::MAX,
    ensures
        popup_rows(final(rows)@) == popup_rows(old(rows)@) + row_at(inner, y, content@),
{
    let ghost before = popup_rows(rows@);
    if y < inner.height {
        let area = Rect::new(inner.x + 1, inner.y + y, inner.width.saturating_sub(2), 1);
        rows.push(PopupRow { area, content });
    }
    proof {
        assert(popup_rows(rows@) =~= before + row_at(inner, y, content@));
    }
}

/// The rows of the spawn popup, by what fits into each.
pub fn spawn_rows(
    inner: Rect,
    compact: bool,
    field: SpawnField,
    shown_input: String,
    agent: &str,
    mode: &str,
    error: &Option<String>,
) -> (rows: Vec<PopupRow>)
    requires
        inner.x < u16::MAX,
        inner.y + inner.height <= u16::MAX,
    ensures
        popup_rows(rows@) == spawn_row_models(
            inner,
            compact,
            field,
            shown_input@,
            agent@,
            mode@,
            text::opt(*error),
        ),
{
    let mut rows: Vec<PopupRow> = Vec::new();
    let task = PopupContent::Input { text: shown_input, cursor: field == SpawnField::Task };
    let agent_value = PopupContent::Value { field: SpawnField::Agent, text: owned(agent) };
    let mode_value = PopupContent::Value { field: SpawnField::Mode, text: owned(mode) };
    proof {
        assert(popup_rows(rows@) =~= Seq::<PopupRowModel>::empty());
    }
    if compact {
        push_row(&mut rows, inner, COMPACT_TASK_Y, task);
        push_row(&mut rows, inner, COMPACT_AGENT_Y, agent_value);
        push_row(&mut rows, inner, COMPACT_MODE_Y, mode_value);
        push_error(&mut rows, inner, COMPACT_ERROR_Y, error);
    } else {
        push_row(&mut rows, inner, EXP_TASK_LABEL_Y, PopupContent::Label(SpawnField::Task));
        push_row(&mut rows, inner, EXP_TASK_VALUE_Y, task);
        push_row(&mut rows, inner, EXP_AGENT_LABEL_Y, PopupContent::Label(SpawnField::Agent));
        push_row(&mut rows, inner, EXP_AGENT_VALUE_Y, agent_value);
        push_row(&mut rows, inner, EXP_MODE_LABEL_Y, PopupContent::Label(SpawnField::Mode));
        push_row(&mut rows, inner, EXP_MODE_VALUE_Y, mode_value);
        push_error(&mut rows, inner, EXP_ERROR_Y, error);
    }
    proof {
        assert(popup_rows(rows@) =~= spawn_row_models(
            inner,
            compact,
            field,
            shown_input@,
            agent@,
            mode@,
            text::opt(*error),
        ));
    }
    rows
}

fn push_error(rows: &mut Vec<PopupRow>, inner: Rect, y: u16, error: &Option<String>)
    requires
        inner.x < u16::MAX,
        inner.y + inner.height <= u16::MAX,
    ensures
        popup_rows(final(rows)@) == popup_rows(old(rows)@) + error_at(inner, y, text::opt(*error)),
{
    let ghost before = popup_rows(rows@);
    match error {
        Some(message) => push_row(rows, inner, y, PopupContent::Error(message.clone())),
        None => {
            proof {
                assert(popup_rows(rows@) =~= before + error_at(inner, y, None));
            }
        },
    }
}

/// How many cells a row of a popup has.
pub open spec fn content_room(inner: Rect) -> usize {
    (if inner.width > 2 {
        inner.width - 2
    } else {
        0
    }) as usize
}

/// An error as it is shown in a popup.
pub open spec fn shown_error(error: Option<String>, inner: Rect) -> Option<Seq<char>> {
    match error {
        Some(message) => Some(cells::cut_to(message@, content_room(inner))),
        None => None,
    }
}

/// What of the task is shown in a popup: as much of its end as fits beside the
/// cursor.
pub open spec fn task_room(inner: Rect) -> usize {
    (if inner.width > 3 {
        inner.width - 3
    } else {
        0
    }) as usize
}

/// Places the spawn popup, where it is open, and says what its rows hold. `agent`
/// and `mode` are the names of what is chosen.
pub fn render_spawn_input_popup(state: &mut AppState, area: Rect, agent: &str, mode: &str) -> (popup:
    Option<SpawnPopup>)
    requires
        area.roomy(),
    ensures
        match old(state).popup {
            PopupState::SpawnInput {
                input,
                agent_idx,
                mode_idx,
                field,
                repo_name,
                repo_root,
                anchor_y,
                error,
                area: _,
            } => {
                let rect = spawn_rect(area, anchor_y, error is Some);
                let room = task_room(rect.inside());
                &&& popup matches Some(shown) && {
                    &&& shown.rect == rect
                    &&& shown.inner == rect.inside()
                    &&& shown.title@ == cells::cut_to(
                        " Spawn worktree "@,
                        title_room(rect.width),
                    )
                    &&& shown.field == field
                    &&& popup_rows(shown.rows@) == spawn_row_models(
                        rect.inside(),
                        is_compact(area),
                        field,
                        cells::fitted_tail(
                            input@,
                            room,
                            cells::text_cells(input@),
                            cells::cells_of(input@),
                        ),
                        cells::cut_to(agent@, content_room(rect.inside())),
                        cells::cut_to(mode@, content_room(rect.inside())),
                        shown_error(error, rect.inside()),
                    )
                }
                &&& *final(state) == (AppState {
                    popup: PopupState::SpawnInput {
                        input,
                        agent_idx,
                        mode_idx,
                        field,
                        repo_name,
                        repo_root,
                        anchor_y,
                        error,
                        area: Some(rect),
                    },
                    ..*old(state)
                })
            },
            _ => popup is None && *final(state) == *old(state),
        },
{
    let compact = area.height < SPAWN_MODAL_EXPANDED_MIN_HEIGHT;
    let mut shown: Option<SpawnPopup> = None;
    if let PopupState::SpawnInput { input, field, anchor_y, error, area: slot, .. } =
        &mut state.popup {
        let width: u16 = if area.width < 32 {
            area.width
        } else {
            32
        };
        let content_rows: u16 = if compact {
            4
        } else {
            10
        };
        let error_rows: u16 = if error.is_some() {
            1
        } else {
            0
        };
        let height: u16 = content_rows + error_rows + POPUP_BORDER_ROWS;
        let rect = match *anchor_y {
            Some(y) => anchor_below(area, y, width, height),
            None => center_popup(area, width, height),
        };
        let inner = rect.inner();
        let room: usize = inner.width.saturating_sub(2) as usize;
        let shown_input = tail_fit(input.as_str(), room.saturating_sub(1));
        let agent_value = truncate_to_width(agent, room);
        let mode_value = truncate_to_width(mode, room);
        let told: Option<String> = match error {
            Some(message) => Some(truncate_to_width(message.as_str(), room)),
            None => None,
        };
        let rows = spawn_rows(
            inner,
            compact,
            *field,
            shown_input,
            agent_value.as_str(),
            mode_value.as_str(),
            &told,
        );
        let title = truncate_to_width(" Spawn worktree ", rect.width.saturating_sub(2) as usize);
        *slot = Some(rect);
        shown = Some(SpawnPopup { rect, inner, title, field: *field, rows });
    }
    shown
}

// The popup that asks before a worktree is removed.

/// A choice of the remove popup, or what went wrong.
#[derive(Debug)]
pub enum RemoveContent {
    RemoveWorktree,
    CloseWindow,
    Cancel,
    Error(String),
}

/// The text of a choice.
pub open spec fn remove_text(content: RemoveContent) -> Seq<char> {
    match content {
        RemoveContent::RemoveWorktree => "[y] remove worktree"@,
        RemoveContent::CloseWindow => "[c] close window only"@,
        RemoveContent::Cancel => "[n] cancel"@,
        RemoveContent::Error(message) => message@,
    }
}

impl RemoveContent {
    /// The text of a choice.
    pub fn label(&self) -> (label: &str)
        ensures
            label@ == remove_text(*self),
    {
        match self {
            RemoveContent::RemoveWorktree => "[y] remove worktree",
            RemoveContent::CloseWindow => "[c] close window only",
            RemoveContent::Cancel => "[n] cancel",
            RemoveContent::Error(message) => message.as_str(),
        }
    }

    /// The text of a choice as it is shown in a row.
    pub fn shown_in(&self, row: Rect) -> (shown: String)
        ensures
            shown@ == cells::cut_to(remove_text(*self), row.width as usize),
    {
        truncate_to_width(self.label(), row.width as usize)
    }
}

/// The popup that asks before a worktree is removed. The branch is its title.
#[derive(Debug)]
pub struct RemovePopup {
    pub rect: Rect,
    pub inner: Rect,
    pub title: String,
    pub rows: Vec<(Rect, RemoveContent)>,
}

/// The place of the remove popup. An error takes one more row.
pub open spec fn remove_rect(area: Rect, has_error: bool) -> Rect {
    panes::centered(
        area,
        panes::lesser(area.width as int, 28) as u16,
        if has_error {
            7
        } else {
            6
        },
    )
}

/// The row `y` rows below the top of a popup.
pub open spec fn full_row(inner: Rect, y: u16) -> Rect {
    geometry::rect_of(inner.x, (inner.y + y) as u16, inner.width as int, 1)
}

/// A row of the remove popup where it is inside.
pub open spec fn remove_row(inner: Rect, y: u16, content: RemoveContent) -> Seq<
    (Rect, RemoveContent),
> {
    if y < inner.height {
        seq![(full_row(inner, y), content)]
    } else {
        Seq::<(Rect, RemoveContent)>::empty()
    }
}

/// The rows of the remove popup.
pub open spec fn remove_rows(inner: Rect, error: Option<String>) -> Seq<(Rect, RemoveContent)> {
    remove_row(inner, 0, RemoveContent::RemoveWorktree) + remove_row(
        inner,
        1,
        RemoveContent::CloseWindow,
    ) + remove_row(inner, 2, RemoveContent::Cancel) + match error {
        Some(message) => remove_row(inner, 4, RemoveContent::Error(message)),
        None => Seq::<(Rect, RemoveContent)>::empty(),
    }
}

fn push_remove(rows: &mut Vec<(Rect, RemoveContent)>, inner: Rect, y: u16, content: RemoveContent)
    requires
        inner.y + inner.height <= u16::MAX,
    ensures
        final(rows)@ == old(rows)@ + remove_row(inner, y, content),
{
    let ghost before = rows@;
    if y < inner.height {
        rows.push((Rect::new(inner.x, inner.y + y, inner.width, 1), content));
    }
    proof {
        assert(rows@ =~= before + remove_row(inner, y, content));
    }
}

/// Places the remove popup, where it is open, and says what its rows hold.
pub fn render_remove_confirm_popup(state: &mut AppState, area: Rect) -> (popup: Option<RemovePopup>)
    requires
        area.roomy(),
    ensures
        match old(state).popup {
            PopupState::RemoveConfirm { pane_id, branch, error, area: _ } => {
                let rect = remove_rect(area, error is Some);
                &&& popup matches Some(shown) && {
                    &&& shown.rect == rect
                    &&& shown.inner == rect.inside()
                    &&& shown.title@ == cells::cut_to(
                        " "@ + branch@ + " "@,
                        title_room(rect.width),
                    )
                    &&& shown.rows@ == remove_rows(rect.inside(), error)
                }
                &&& *final(state) == (AppState {
                    popup: PopupState::RemoveConfirm { pane_id, branch, error, area: Some(rect) },
                    ..*old(state)
                })
            },
            _ => popup is None && *final(state) == *old(state),
        },
{
    let mut shown: Option<RemovePopup> = None;
    if let PopupState::RemoveConfirm { branch, error, area: slot, .. } = &mut state.popup {
        let width: u16 = if area.width < 28 {
            area.width
        } else {
            28
        };
        let height: u16 = if error.is_some() {
            7
        } else {
            6
        };
        let rect = center_popup(area, width, height);
        let inner = rect.inner();
        let mut rows: Vec<(Rect, RemoveContent)> = Vec::new();
        proof {
            assert(rows@ =~= Seq::<(Rect, RemoveContent)>::empty());
        }
        push_remove(&mut rows, inner, 0, RemoveContent::RemoveWorktree);
        push_remove(&mut rows, inner, 1, RemoveContent::CloseWindow);
        push_remove(&mut rows, inner, 2, RemoveContent::Cancel);
        if let Some(message) = error {
            push_remove(&mut rows, inner, 4, RemoveContent::Error(message.clone()));
        }
        proof {
            assert(rows@ =~= remove_rows(rect.inside(), *error));
        }
        let title = truncate_to_width(
            concat3(" ", branch.as_str(), " ").as_str(),
            rect.width.saturating_sub(2) as usize,
        );
        *slot = Some(rect);
        shown = Some(RemovePopup { rect, inner, title, rows });
    }
    shown
}

// The popup in which a repository is chosen.

/// A choice of the repository popup.
#[derive(Debug)]
pub struct RepoItem {
    pub area: Rect,
    pub name: String,
    /// The name as it is shown, behind a blank.
    pub text: String,
    pub highlighted: bool,
    pub current: bool,
}

/// The popup in which a repository is chosen.
#[derive(Debug)]
pub struct RepoPopup {
    pub rect: Rect,
    pub inner: Rect,
    pub items: Vec<RepoItem>,
}

/// The place of the repository popup: at the right, below the two rows of the
/// header. `widest` is how many cells the widest name takes.
pub open spec fn repo_rect(area: Rect, widest: usize, count: usize) -> Rect {
    let fitting = panes::lesser(widest + 4, area.width as int);
    let width = if fitting < 10 {
        10
    } else {
        fitting
    };
    let height = panes::lesser(
        count + POPUP_BORDER_ROWS,
        if area.height > 2 {
            area.height - 2
        } else {
            0
        },
    );
    geometry::rect_of(
        (area.x + (if area.width > width {
            area.width - width
        } else {
            0
        })) as u16,
        (area.y + 2) as u16,
        width,
        height,
    )
}

/// The place of the repository popup.
pub fn repo_popup_rect(area: Rect, widest: usize, count: usize) -> (rect: Rect)
    requires
        area.x + area.width <= u16::MAX,
        area.y + 2 <= u16::MAX,
    ensures
        rect == repo_rect(area, widest, count),
{
    let wanted: usize = widest.saturating_add(4);
    let fitting: u16 = if wanted < area.width as usize {
        wanted as u16
    } else {
        area.width
    };
    let width: u16 = if fitting < 10 {
        10
    } else {
        fitting
    };
    let room: u16 = area.height.saturating_sub(2);
    let rows: usize = count.saturating_add(POPUP_BORDER_ROWS as usize);
    let height: u16 = if rows < room as usize {
        rows as u16
    } else {
        room
    };
    Rect::new(area.x + area.width.saturating_sub(width), area.y + 2, width, height)
}

/// The greatest number of cells that a name takes.
pub open spec fn widest_of(names: Seq<Seq<char>>) -> usize
    decreases names.len(),
{
    if names.len() == 0 {
        0
    } else {
        let before = widest_of(names.drop_last());
        if cells::text_cells(names.last()) > before {
            cells::text_cells(names.last())
        } else {
            before
        }
    }
}

fn widest_name(names: &Vec<String>) -> (widest: usize)
    ensures
        widest == widest_of(text::texts(names@)),
{
    let ghost all = text::texts(names@);
    let mut widest: usize = 0;
    let mut i: usize = 0;
    proof {
        assert(all.take(0) =~= Seq::<Seq<char>>::empty());
    }
    while i < names.len()
        invariant
            i <= names@.len(),
            all == text::texts(names@),
            widest == widest_of(all.take(i as int)),
        decreases names@.len() - i,
    {
        proof {
            assert(all.take(i + 1).drop_last() =~= all.take(i as int));
            assert(all[i as int] == names@[i as int]@);
        }
        let width: usize = display_width(names[i].as_str());
        if width > widest {
            widest = width;
        }
        i = i + 1;
    }
    proof {
        assert(all.take(i as int) =~= all);
    }
    widest
}

/// Whether a choice is the filter in force.
pub open spec fn is_current(filter: RepoFilter, index: int, name: Seq<char>) -> bool {
    match filter {
        RepoFilter::All => index == 0,
        RepoFilter::Repo(wanted) => wanted@ == name,
    }
}

/// Whether an item is the choice of an index.
pub open spec fn item_at(
    filter: RepoFilter,
    names: Seq<Seq<char>>,
    selected: usize,
    inner: Rect,
    index: int,
    item: RepoItem,
) -> bool {
    &&& item.area == full_row(inner, index as u16)
    &&& item.name@ == names[index]
    &&& item.text@ == " "@ + cells::cut_to(
        names[index],
        (if inner.width > 0 {
            inner.width - 1
        } else {
            0
        }) as usize,
    )
    &&& item.highlighted == (index == selected)
    &&& item.current == is_current(filter, index, names[index])
}

/// The choices that are seen in the repository popup.
pub fn repo_items(filter: &RepoFilter, names: &Vec<String>, selected: usize, inner: Rect) -> (items:
    Vec<RepoItem>)
    requires
        inner.y + inner.height <= u16::MAX,
    ensures
        items@.len() == panes::lesser(names@.len() as int, inner.height as int),
        forall|k: int|
            0 <= k < items@.len() ==> item_at(
                *filter,
                text::texts(names@),
                selected,
                inner,
                k,
                #[trigger] items@[k],
            ),
{
    let ghost all = text::texts(names@);
    let mut items: Vec<RepoItem> = Vec::new();
    let mut i: usize = 0;
    while i < names.len() && i < inner.height as usize
        invariant
            i <= names@.len(),
            i <= inner.height,
            inner.y + inner.height <= u16::MAX,
            all == text::texts(names@),
            items@.len() == i,
            forall|k: int|
                0 <= k < items@.len() ==> item_at(
                    *filter,
                    all,
                    selected,
                    inner,
                    k,
                    #[trigger] items@[k],
                ),
        decreases names@.len() - i,
    {
        let name = &names[i];
        proof {
            assert(all[i as int] == name@);
        }
        let current = match filter {
            RepoFilter::All => i == 0,
            RepoFilter::Repo(wanted) => same(wanted.as_str(), name.as_str()),
        };
        let room: usize = inner.width.saturating_sub(1) as usize;
        let shown = concat2(" ", truncate_to_width(name.as_str(), room).as_str());
        items.push(
            RepoItem {
                area: Rect::new(inner.x, inner.y + i as u16, inner.width, 1),
                name: name.clone(),
                text: shown,
                highlighted: i == selected,
                current,
            },
        );
        i = i + 1;
    }
    items
}

/// The names in the repository popup.
pub open spec fn popup_names(state: AppState) -> Seq<Seq<char>> {
    seq!["All"@] + state.repo_groups@.map_values(
        |group: crate::group::RepoGroup| group.name@,
    )
}

/// The choice that stands out in the repository popup: the first while it is closed.
pub open spec fn chosen(popup: PopupState) -> usize {
    match popup {
        PopupState::Repo { selected, area: _ } => selected,
        _ => 0,
    }
}

/// Places the repository popup and says what its rows hold. Its place is noted where it
/// is open.
pub fn render_repo_popup(state: &mut AppState, area: Rect) -> (popup: RepoPopup)
    requires
        area.roomy(),
        area.y + 2 <= u16::MAX,
    ensures
        ({
            let names = popup_names(*old(state));
            let rect = repo_rect(area, widest_of(names), names.len() as usize);
            let inner = rect.inside();
            &&& popup.rect == rect
            &&& popup.inner == inner
            &&& popup.items@.len() == panes::lesser(names.len() as int, inner.height as int)
            &&& forall|k: int|
                0 <= k < popup.items@.len() ==> item_at(
                    old(state).global.repo_filter,
                    names,
                    chosen(old(state).popup),
                    inner,
                    k,
                    #[trigger] popup.items@[k],
                )
            &&& *final(state) == (AppState {
                popup: match old(state).popup {
                    PopupState::Repo { selected, area: _ } => PopupState::Repo {
                        selected,
                        area: Some(rect),
                    },
                    other => other,
                },
                ..*old(state)
            })
        }),
{
    let names = state.repo_names();
    proof {
        assert(text::texts(names@) == popup_names(*old(state)));
        assert(text::texts(names@).len() == names@.len());
    }
    let rect = repo_popup_rect(area, widest_name(&names), names.len());
    let inner = rect.inner();
    let mut choice: usize = 0;
    if let PopupState::Repo { selected, area: slot } = &mut state.popup {
        choice = *selected;
        *slot = Some(rect);
    }
    let items = repo_items(&state.global.repo_filter, &names, choice, inner);
    RepoPopup { rect, inner, items }
}

// What is shown over the whole list.

/// A message at the lower edge.
#[derive(Debug)]
pub struct FlashBanner {
    pub area: Rect,
    pub text: String,
    pub is_error: bool,
}

/// The last row of an area.
pub open spec fn last_row(area: Rect) -> Rect {
    geometry::rect_of(
        area.x,
        (area.y + (if area.height > 0 {
            area.height - 1
        } else {
            0
        })) as u16,
        area.width as int,
        1,
    )
}

/// The message that is shown now, if any. One that says that something failed is
/// an error.
pub fn render_flash_banner(state: &mut AppState, area: Rect, now_ms: u64) -> (banner: Option<
    FlashBanner,
>)
    requires
        area.y + area.height <= u16::MAX,
    ensures
        match old(state).flash {
            Some((message, until)) => if now_ms < until {
                &&& banner matches Some(shown) && {
                    &&& shown.area == last_row(area)
                    &&& shown.text == message
                    &&& shown.is_error == scan::contains_text(message@, "failed"@)
                }
                &&& *final(state) == *old(state)
            } else {
                banner is None && *final(state) == (AppState { flash: None, ..*old(state) })
            },
            None => banner is None && *final(state) == *old(state),
        },
{
    match state.take_flash(now_ms) {
        Some(message) => {
            let y: u16 = area.y + area.height.saturating_sub(1);
            let is_error = contains(message.as_str(), "failed");
            Some(FlashBanner { area: Rect::new(area.x, y, area.width, 1), text: message, is_error })
        },
        None => None,
    }
}

/// Where a detail is shown, which takes over the complete sidebar.
#[derive(Debug)]
pub struct DetailLayout {
    pub inner: Rect,
    pub title: String,
    pub source: String,
    pub source_area: Rect,
    pub text_area: Rect,
    /// How many lines of the text are scrolled past.
    pub scroll: u16,
}

/// The line that says where a detail comes from.
pub open spec fn source_line(source: Seq<char>) -> Seq<char> {
    if source.len() == 0 {
        "Source: unavailable"@
    } else {
        "Source: "@ + source
    }
}

/// Where the detail is shown, where there is one. Without room inside its border
/// nothing of it is seen.
pub fn draw_detail(state: &AppState, area: Rect) -> (layout: Option<DetailLayout>)
    ensures
        match (state.extensions.ui.detail, layout) {
            (Some(detail), Some(shown)) => {
                let inner = area.inside();
                &&& shown.inner == inner
                &&& shown.title@ == cells::cut_to(
                    " "@ + detail.title@ + " "@,
                    title_room(area.width),
                )
                &&& shown.source@ == cells::cut_to(
                    source_line(detail.source@),
                    inner.width as usize,
                )
                &&& shown.source_area == geometry::rect_of(
                    inner.x,
                    inner.y,
                    inner.width as int,
                    if inner.width == 0 || inner.height == 0 {
                        0
                    } else {
                        1
                    },
                )
                &&& shown.text_area == geometry::rect_of(
                    inner.x,
                    panes::lesser(inner.y + 1, u16::MAX as int) as u16,
                    inner.width as int,
                    if inner.width == 0 || inner.height == 0 {
                        0
                    } else {
                        inner.height - 1
                    },
                )
                &&& shown.scroll == panes::lesser(detail.scroll as int, u16::MAX as int)
            },
            (None, None) => true,
            _ => false,
        },
{
    let detail = match &state.extensions.ui.detail {
        Some(detail) => detail,
        None => {
            return None;
        },
    };
    let inner = area.inner();
    let seen = inner.width != 0 && inner.height != 0;
    let source = if detail.source.as_str().is_empty() {
        owned("Source: unavailable")
    } else {
        concat2("Source: ", detail.source.as_str())
    };
    let source_height: u16 = if seen {
        1
    } else {
        0
    };
    let text_height: u16 = if seen {
        inner.height - 1
    } else {
        0
    };
    let scroll: u16 = if detail.scroll < u16::MAX as usize {
        detail.scroll as u16
    } else {
        u16::MAX
    };
    Some(
        DetailLayout {
            inner,
            title: truncate_to_width(
                concat3(" ", detail.title.as_str(), " ").as_str(),
                area.width.saturating_sub(2) as usize,
            ),
            source: truncate_to_width(source.as_str(), inner.width as usize),
            source_area: Rect::new(inner.x, inner.y, inner.width, source_height),
            text_area: Rect::new(inner.x, inner.y.saturating_add(1), inner.width, text_height),
            scroll,
        },
    )
}

/// The spawn popup lies in its area, wherever the button is that opened it.
pub proof fn spawn_popup_lies_in_area(area: Rect, anchor_y: Option<u16>, has_error: bool)
    requires
        area.roomy(),
        anchor_y matches Some(y) ==> area.y <= y + 1,
    ensures
        spawn_rect(area, anchor_y, has_error).lies_in(area),
{
}

/// The remove popup lies in its area.
pub proof fn remove_popup_lies_in_area(area: Rect, has_error: bool)
    requires
        area.roomy(),
    ensures
        remove_rect(area, has_error).lies_in(area),
{
}

/// The entries of the list of repositories are all of them together and then each group in
/// order, and each stands on the row on which a click chooses it.
pub proof fn repositories_are_listed_on_their_rows(state: AppState, area: Rect, index: u16)
    requires
        area.x + area.width <= u16::MAX,
        area.y + area.height <= u16::MAX,
        index < area.inside().height,
        index <= state.repo_groups@.len(),
    ensures
        index == 0 ==> popup_names(state)[0] == "All"@,
        index > 0 ==> popup_names(state)[index as int] == state.repo_groups@[index - 1].name@,
        popup_names(state).len() == state.repo_groups@.len() + 1,
        full_row(area.inside(), index).y == area.y + 1 + index,
        full_row(area.inside(), index).height == 1,
{
}

/// The widest name has the width that is reckoned with.
pub proof fn the_widest_name_counts(names: Seq<Seq<char>>, k: int)
    requires
        0 <= k < names.len(),
    ensures
        cells::text_cells(names[k]) <= widest_of(names),
        widest_of(names) > 0 ==> exists|i: int|
            0 <= i < names.len() && cells::text_cells(#[trigger] names[i]) == widest_of(names),
    decreases names.len(),
{
    let rest = names.drop_last();
    if rest.len() > 0 {
        the_widest_name_counts(
            rest,
            if k < rest.len() {
                k
            } else {
                0
            },
        );
        if widest_of(rest) > 0 {
            let i = choose|i: int|
                0 <= i < rest.len() && cells::text_cells(#[trigger] rest[i]) == widest_of(rest);
            assert(cells::text_cells(names[i]) == widest_of(rest));
        }
    }
    reveal_with_fuel(widest_of, 2);
    assert(names[names.len() - 1] == names.last());
}

/// The repository that is filtered for is marked as the current one, and without a filter
/// the entry for all.
pub proof fn the_current_repository_is_marked(wanted: String, index: int, name: Seq<char>)
    ensures
        is_current(RepoFilter::Repo(wanted), index, name) <==> name == wanted@,
        is_current(RepoFilter::All, index, name) <==> index == 0,
{
}

} // verus!
