//! What the bottom panel shows of repositories.

use vstd::prelude::*;

use crate::geometry::Rect;
use crate::git;
use crate::git::vcs;
use crate::git::{GitData, GitFileEntry, VcsEntry, VcsKind};
use crate::number;
use crate::number::decimal;
use crate::state::layout::{FrameLayout, HyperlinkOverlay, VcsBranchTarget};
use crate::state::{AppState, ScrollState, Scrolls};
use crate::text;
use crate::text::{concat2, concat3, owned};
use crate::ui;
use crate::ui::line;
use crate::ui::line::{
    no_texts, one_text, push_repeated, room_left, two_texts, RowModel, RowText,
};
use crate::ui::text as cells;
use crate::ui::text::{display_width, truncate_to_width};

verus! {

/// How many files a section lists before it only counts them.
pub const LISTED_FILES: usize = 10;

/// The lines added and removed, as they are written.
pub open spec fn stat_texts(added: nat, removed: nat) -> Seq<Seq<char>> {
    seq!["+"@ + number::decimal_of(added), "/"@, "-"@ + number::decimal_of(removed)]
}

/// Build the `+ins/-del` trio that appears in both the git header's
/// diff-summary line and each changed file row. Returns the texts along with
/// their total rendered width so callers can pad the surrounding gap correctly.
pub fn diff_stat_spans(ins: usize, del: usize) -> (spans: (Vec<String>, usize))
    ensures
        text::texts(spans.0@) == stat_texts(ins as nat, del as nat),
        spans.1 == stat_texts(ins as nat, del as nat)[0].len() + 1 + stat_texts(
            ins as nat,
            del as nat,
        )[2].len(),
{
    let added = concat2("+", decimal(ins as u64).as_str());
    let removed = concat2("-", decimal(del as u64).as_str());
    proof {
        number::decimal_length(ins as u64);
        number::decimal_length(del as u64);
        number::decimal_reads_back(ins as nat);
        number::decimal_reads_back(del as nat);
        reveal_strlit("+");
        reveal_strlit("-");
        assert(ui::text::is_plain(added@));
        assert(ui::text::is_plain(removed@));
    }
    let width: usize = display_width(added.as_str()) + 1 + display_width(removed.as_str());
    let mut texts: Vec<String> = Vec::new();
    texts.push(added);
    texts.push(owned("/"));
    texts.push(removed);
    proof {
        assert(text::texts(texts@) =~= stat_texts(ins as nat, del as nat));
    }
    (texts, width)
}

// Repositories.

/// A row that shows a repository.
#[derive(Debug)]
pub struct EntryRow {
    pub label: String,
    pub branch: String,
    pub summary: String,
}

/// The model of such a row.
pub struct EntryRowModel {
    pub label: Seq<char>,
    pub branch: Seq<char>,
    pub summary: Seq<char>,
}

impl View for EntryRow {
    type V = EntryRowModel;

    open spec fn view(&self) -> EntryRowModel {
        EntryRowModel { label: self.label@, branch: self.branch@, summary: self.summary@ }
    }
}

/// The models of such rows.
pub open spec fn row_models(rows: Seq<EntryRow>) -> Seq<EntryRowModel> {
    rows.map_values(|row: EntryRow| row@)
}

/// What a row says of the size of changes.
pub open spec fn summary_text(stat: Option<(usize, usize)>) -> Seq<char> {
    match stat {
        Some((added, removed)) => "  +"@ + number::decimal_of(added as nat) + "/-"@
            + number::decimal_of(removed as nat),
        None => "  clean"@,
    }
}

/// The row of a repository.
pub open spec fn row_of(entry: vcs::EntryModel) -> EntryRowModel {
    EntryRowModel {
        label: git::kind_label(entry.kind) + " "@,
        branch: entry.branch,
        summary: summary_text(entry.diff_stat),
    }
}

/// The rows of repositories.
pub open spec fn rows_of(entries: Seq<VcsEntry>) -> Seq<EntryRowModel> {
    entries.map_values(|entry: VcsEntry| row_of(entry@))
}

/// Where a repository can be clicked.
pub struct BranchTargetModel {
    pub rect: Rect,
    pub kind: VcsKind,
    pub root: Seq<char>,
}

impl View for VcsBranchTarget {
    type V = BranchTargetModel;

    open spec fn view(&self) -> BranchTargetModel {
        BranchTargetModel { rect: self.rect, kind: self.kind, root: self.root@ }
    }
}

/// The models of such places.
pub open spec fn branch_targets(targets: Seq<VcsBranchTarget>) -> Seq<BranchTargetModel> {
    targets.map_values(|target: VcsBranchTarget| target@)
}

/// How many of some repositories are in view.
pub open spec fn shown_entries(count: nat, height: u16) -> int {
    let wrapped = count as u16;
    if height < wrapped {
        height as int
    } else {
        wrapped as int
    }
}

/// The places of the repositories in view, one row each.
pub open spec fn targets_of(entries: Seq<VcsEntry>, inner: Rect) -> Seq<BranchTargetModel> {
    Seq::new(
        shown_entries(entries.len(), inner.height) as nat,
        |i: int|
            BranchTargetModel {
                rect: Rect { x: inner.x, y: (inner.y + i) as u16, width: inner.width, height: 1 },
                kind: entries[i].kind,
                root: entries[i].root@,
            },
    )
}

fn summary_of(stat: Option<(usize, usize)>) -> (summary: String)
    ensures
        summary@ == summary_text(stat),
{
    match stat {
        Some((added, removed)) => {
            let first = concat2("  +", decimal(added as u64).as_str());
            concat3(first.as_str(), "/-", decimal(removed as u64).as_str())
        },
        None => owned("  clean"),
    }
}

fn entry_rows(entries: &Vec<VcsEntry>) -> (rows: Vec<EntryRow>)
    ensures
        row_models(rows@) == rows_of(entries@),
{
    let mut rows: Vec<EntryRow> = Vec::new();
    let mut i: usize = 0;
    while i < entries.len()
        invariant
            i <= entries@.len(),
            row_models(rows@) =~= rows_of(entries@).take(i as int),
        decreases entries@.len() - i,
    {
        let ghost before = row_models(rows@);
        let row = EntryRow {
            label: concat2(entries[i].kind.label(), " "),
            branch: owned(entries[i].branch.as_str()),
            summary: summary_of(entries[i].diff_stat),
        };
        let ghost model = row@;
        rows.push(row);
        proof {
            assert(model == rows_of(entries@)[i as int]);
            assert(row_models(rows@) =~= before.push(model));
            assert(rows_of(entries@).take(i + 1) =~= before.push(model));
        }
        i = i + 1;
    }
    rows
}

fn entry_targets(entries: &Vec<VcsEntry>, inner: Rect) -> (targets: Vec<VcsBranchTarget>)
    requires
        inner.x + inner.width <= u16::MAX,
        inner.y + inner.height <= u16::MAX,
    ensures
        branch_targets(targets@) == targets_of(entries@, inner),
{
    let count: usize = entries.len();
    #[verifier::truncate]
    let wrapped: u16 = count as u16;
    proof {
        assert((count as u16) <= count) by (bit_vector);
    }
    let visible: u16 = if inner.height < wrapped {
        inner.height
    } else {
        wrapped
    };
    let mut targets: Vec<VcsBranchTarget> = Vec::new();
    let mut i: u16 = 0;
    while i < visible
        invariant
            i <= visible,
            visible <= inner.height,
            visible <= entries@.len(),
            visible == shown_entries(entries@.len(), inner.height),
            inner.x + inner.width <= u16::MAX,
            inner.y + inner.height <= u16::MAX,
            branch_targets(targets@) =~= targets_of(entries@, inner).take(i as int),
        decreases visible - i,
    {
        let ghost before = branch_targets(targets@);
        let at: usize = i as usize;
        let target = VcsBranchTarget {
            rect: Rect::new(inner.x, inner.y + i, inner.width, 1),
            kind: entries[at].kind,
            root: owned(entries[at].root.as_str()),
        };
        let ghost model = target@;
        targets.push(target);
        proof {
            assert(model == targets_of(entries@, inner)[i as int]);
            assert(branch_targets(targets@) =~= before.push(model));
            assert(targets_of(entries@, inner).take(i + 1) =~= before.push(model));
        }
        i = i + 1;
    }
    proof {
        assert(targets_of(entries@, inner).take(i as int) =~= targets_of(entries@, inner));
    }
    targets
}

// One checkout.

/// A row of the header.
#[derive(Debug, Clone, Copy, PartialEq, Eq, Structural)]
pub enum HeaderRow {
    Blank,
    /// The branch, how far it is ahead and behind, and its pull request.
    Branch,
    /// The size of the changes, and how many files they touch.
    Summary,
    /// The line that ends the header.
    Rule,
}

/// Whether anything differs from HEAD.
pub open spec fn has_changes(data: git::DataModel) -> bool {
    data.diff_stat is Some || data.staged_files.len() > 0 || data.unstaged_files.len() > 0
        || data.untracked_files.len() > 0
}

/// The rows of the header.
pub open spec fn header_rows(data: git::DataModel) -> Seq<HeaderRow> {
    if has_changes(data) {
        seq![HeaderRow::Blank, HeaderRow::Branch, HeaderRow::Summary, HeaderRow::Rule]
    } else {
        seq![HeaderRow::Blank, HeaderRow::Branch, HeaderRow::Rule]
    }
}

/// The rows of the header: the size of the changes is left out where there are none.
pub fn render_git_header(data: &GitData) -> (rows: Vec<HeaderRow>)
    ensures
        rows@ == header_rows(data@),
{
    let mut rows: Vec<HeaderRow> = Vec::new();
    rows.push(HeaderRow::Blank);
    rows.push(HeaderRow::Branch);
    if data.diff_stat.is_some() || data.staged_files.len() > 0 || data.unstaged_files.len() > 0
        || data.untracked_files.len() > 0 {
        rows.push(HeaderRow::Summary);
    }
    rows.push(HeaderRow::Rule);
    proof {
        assert(rows@ =~= header_rows(data@));
    }
    rows
}

/// A link on the screen.
pub struct OverlayModel {
    pub x: u16,
    pub y: u16,
    pub text: Seq<char>,
    pub url: Seq<char>,
}

impl View for HyperlinkOverlay {
    type V = OverlayModel;

    open spec fn view(&self) -> OverlayModel {
        OverlayModel { x: self.x, y: self.y, text: self.text@, url: self.url@ }
    }
}

/// The models of links.
pub open spec fn overlays(links: Seq<HyperlinkOverlay>) -> Seq<OverlayModel> {
    links.map_values(|link: HyperlinkOverlay| link@)
}

/// The text of a link to a pull request, where the remote is known.
pub open spec fn pr_text(data: git::DataModel) -> Option<Seq<char>> {
    match data.pr_number {
        Some(number) => if data.remote_url.len() > 0 {
            Some("#"@ + number)
        } else {
            None
        },
        None => None,
    }
}

/// The link to a pull request: at the right of the second row, `cells` wide.
pub open spec fn pr_link(data: git::DataModel, inner: Rect, cells: usize) -> OverlayModel {
    OverlayModel {
        x: (inner.x + if cells < inner.width {
            inner.width - cells
        } else {
            0
        }) as u16,
        y: (inner.y + 1) as u16,
        text: "#"@ + data.pr_number->0,
        url: data.remote_url + "/pull/"@ + data.pr_number->0,
    }
}

/// The link to a pull request whose text takes `cells` cells.
pub fn place_pr_link(number: &str, remote_url: &str, inner: Rect, cells: usize) -> (link:
    HyperlinkOverlay)
    requires
        inner.x + inner.width <= u16::MAX,
        inner.y < u16::MAX,
    ensures
        link@.x == inner.x + if cells < inner.width {
            inner.width - cells
        } else {
            0
        },
        link@.y == inner.y + 1,
        link@.text == "#"@ + number@,
        link@.url == remote_url@ + "/pull/"@ + number@,
{
    let offset: usize = (inner.width as usize).saturating_sub(cells);
    HyperlinkOverlay {
        x: inner.x + offset as u16,
        y: inner.y + 1,
        text: concat2("#", number),
        url: concat3(remote_url, "/pull/", number),
    }
}

/// The sections of the list of files.
#[derive(Debug, Clone, Copy, PartialEq, Eq, Structural)]
pub enum Section {
    Staged,
    Unstaged,
    Untracked,
}

/// A row of the list of files.
#[derive(Debug, Clone, Copy, PartialEq, Eq, Structural)]
pub enum FileRow {
    Title(Section),
    /// A file, by its place in its section.
    File(Section, usize),
    /// How many files are not listed.
    More(Section, usize),
    Blank,
}

/// The rows of a section.
pub open spec fn section_rows(section: Section, count: int) -> Seq<FileRow> {
    if count == 0 {
        Seq::empty()
    } else if count <= LISTED_FILES {
        seq![FileRow::Title(section)] + Seq::new(
            count as nat,
            |i: int| FileRow::File(section, i as usize),
        )
    } else {
        (seq![FileRow::Title(section)] + Seq::new(
            LISTED_FILES as nat,
            |i: int| FileRow::File(section, i as usize),
        )).push(FileRow::More(section, (count - LISTED_FILES) as usize))
    }
}

/// Rows with a section below them; a blank row stands between.
pub open spec fn with_section(rows: Seq<FileRow>, section: Section, count: int) -> Seq<FileRow> {
    if count == 0 {
        rows
    } else if rows.len() == 0 {
        section_rows(section, count)
    } else {
        rows.push(FileRow::Blank) + section_rows(section, count)
    }
}

/// The rows of the list of files.
pub open spec fn file_rows(data: git::DataModel) -> Seq<FileRow> {
    let staged = with_section(Seq::empty(), Section::Staged, data.staged_files.len() as int);
    let changed = with_section(staged, Section::Unstaged, data.unstaged_files.len() as int);
    with_section(changed, Section::Untracked, data.untracked_files.len() as int)
}

fn push_section(rows: &mut Vec<FileRow>, section: Section, count: usize)
    ensures
        final(rows)@ == with_section(old(rows)@, section, count as int),
{
    if count == 0 {
        return ;
    }
    let ghost before = rows@;
    if rows.len() > 0 {
        rows.push(FileRow::Blank);
    }
    rows.push(FileRow::Title(section));
    let ghost head = rows@;
    let listed: usize = if count <= LISTED_FILES {
        count
    } else {
        LISTED_FILES
    };
    let ghost files = Seq::new(listed as nat, |i: int| FileRow::File(section, i as usize));
    let mut i: usize = 0;
    proof {
        assert(rows@ =~= head + files.take(0));
    }
    while i < listed
        invariant
            i <= listed,
            files == Seq::new(listed as nat, |i: int| FileRow::File(section, i as usize)),
            rows@ == head + files.take(i as int),
        decreases listed - i,
    {
        rows.push(FileRow::File(section, i));
        i = i + 1;
        proof {
            assert(files.take(i as int) =~= files.take(i - 1).push(files[i - 1]));
            assert(rows@ =~= head + files.take(i as int));
        }
    }
    proof {
        assert(files.take(i as int) =~= files);
    }
    if count > LISTED_FILES {
        rows.push(FileRow::More(section, count - LISTED_FILES));
    }
    proof {
        assert(rows@ =~= with_section(before, section, count as int));
    }
}

fn list_files(data: &GitData) -> (rows: Vec<FileRow>)
    ensures
        rows@ == file_rows(data@),
{
    let mut rows: Vec<FileRow> = Vec::new();
    proof {
        assert(rows@ =~= Seq::<FileRow>::empty());
    }
    push_section(&mut rows, Section::Staged, data.staged_files.len());
    push_section(&mut rows, Section::Unstaged, data.unstaged_files.len());
    push_section(&mut rows, Section::Untracked, data.untracked_files.len());
    rows
}

// What the rows say.

/// How far a branch is ahead of what it follows, and behind it. A side that is even is
/// not told.
pub open spec fn drift_text(ahead: usize, behind: usize) -> Seq<char> {
    (if ahead == 0 {
        Seq::<char>::empty()
    } else {
        "↑"@ + number::decimal_of(ahead as nat)
    }) + (if behind == 0 {
        Seq::<char>::empty()
    } else {
        "↓"@ + number::decimal_of(behind as nat)
    })
}

/// What stands at the right of the branch: how far it has drifted, and its pull request.
pub open spec fn branch_right(data: git::DataModel) -> Seq<Seq<char>> {
    let drift = match data.ahead_behind {
        Some((ahead, behind)) => if ahead == 0 && behind == 0 {
            Seq::<Seq<char>>::empty()
        } else {
            seq![drift_text(ahead, behind)]
        },
        None => Seq::<Seq<char>>::empty(),
    };
    match data.pr_number {
        Some(number) => if drift.len() == 0 {
            seq!["#"@ + number]
        } else {
            drift + seq![" "@, "#"@ + number]
        },
        None => drift,
    }
}

/// How many cells the branch may take: all of them, or those that what stands at its
/// right leaves behind two blanks.
pub open spec fn branch_room(data: git::DataModel, width: nat) -> nat {
    if branch_right(data).len() == 0 {
        width
    } else {
        line::less(line::room_behind(width, branch_right(data)), 2)
    }
}

/// The number of files that differ from HEAD.
pub open spec fn changed_files(data: git::DataModel) -> nat {
    data.staged_files.len() + data.unstaged_files.len() + data.untracked_files.len()
}

/// What a row of the header says.
pub open spec fn header_text(data: git::DataModel, row: HeaderRow, width: usize) -> RowModel {
    match row {
        HeaderRow::Blank => line::spread(Seq::empty(), Seq::empty(), width as nat),
        HeaderRow::Branch => line::spread(
            seq![cells::cut_to(data.branch, branch_room(data, width as nat) as usize)],
            branch_right(data),
            width as nat,
        ),
        HeaderRow::Summary => line::spread(
            match data.diff_stat {
                Some((added, removed)) => stat_texts(added as nat, removed as nat),
                None => Seq::empty(),
            },
            seq![number::decimal_of(changed_files(data)) + " files"@],
            width as nat,
        ),
        HeaderRow::Rule => line::spread(
            seq![line::repeated('─', width as nat)],
            Seq::empty(),
            width as nat,
        ),
    }
}

/// The name of a section.
pub open spec fn section_name(section: Section) -> Seq<char> {
    match section {
        Section::Staged => "Staged"@,
        Section::Unstaged => "Unstaged"@,
        Section::Untracked => "Untracked"@,
    }
}

/// How many files a section has.
pub open spec fn section_len(data: git::DataModel, section: Section) -> nat {
    match section {
        Section::Staged => data.staged_files.len(),
        Section::Unstaged => data.unstaged_files.len(),
        Section::Untracked => data.untracked_files.len(),
    }
}

/// What the row of a changed file says: its status and its name, which is cut so that
/// the lines added and removed stay in view. A file without any has all of the width.
pub open spec fn changed_text(file: git::FileModel, width: usize) -> RowModel {
    let right = if file.additions == 0 && file.deletions == 0 {
        Seq::<Seq<char>>::empty()
    } else {
        stat_texts(file.additions as nat, file.deletions as nat)
    };
    let room = if right.len() == 0 {
        line::less(width as nat, 2)
    } else {
        line::less(line::room_behind(width as nat, right), 3)
    };
    line::spread(
        seq![seq![file.status, ' '], cells::cut_to(file.name, room as usize)],
        right,
        width as nat,
    )
}

/// What the row of a file that is not tracked says.
pub open spec fn untracked_text(name: Seq<char>, width: usize) -> RowModel {
    line::spread(
        seq!["? "@, cells::cut_to(name, line::less(width as nat, 2) as usize)],
        Seq::empty(),
        width as nat,
    )
}

/// What a row of the list of files says. One that names no file of its section says
/// nothing.
pub open spec fn file_text(data: git::DataModel, row: FileRow, width: usize) -> RowModel {
    let nothing = line::spread(Seq::empty(), Seq::empty(), width as nat);
    match row {
        FileRow::Blank => nothing,
        FileRow::Title(section) => line::spread(
            seq![
                section_name(section) + " ("@ + number::decimal_of(section_len(data, section))
                    + ")"@,
            ],
            Seq::empty(),
            width as nat,
        ),
        FileRow::More(_, count) => line::spread(
            Seq::empty(),
            seq!["+"@ + number::decimal_of(count as nat) + " more"@],
            width as nat,
        ),
        FileRow::File(section, index) => if index >= section_len(data, section) {
            nothing
        } else {
            match section {
                Section::Staged => changed_text(data.staged_files[index as int], width),
                Section::Unstaged => changed_text(data.unstaged_files[index as int], width),
                Section::Untracked => untracked_text(data.untracked_files[index as int], width),
            }
        },
    }
}

fn drift_of(ahead: usize, behind: usize) -> (text: String)
    ensures
        text@ == drift_text(ahead, behind),
{
    let first = if ahead == 0 {
        String::new()
    } else {
        concat2("↑", decimal(ahead as u64).as_str())
    };
    let second = if behind == 0 {
        String::new()
    } else {
        concat2("↓", decimal(behind as u64).as_str())
    };
    proof {
        assert(ahead == 0 ==> first@ =~= Seq::<char>::empty());
        assert(behind == 0 ==> second@ =~= Seq::<char>::empty());
    }
    concat2(first.as_str(), second.as_str())
}

fn right_of_branch(data: &GitData) -> (right: Vec<String>)
    ensures
        text::texts(right@) == branch_right(data@),
{
    let mut right = no_texts();
    if let Some((ahead, behind)) = data.ahead_behind {
        if ahead != 0 || behind != 0 {
            right = one_text(drift_of(ahead, behind));
        }
    }
    let ghost drift = text::texts(right@);
    if let Some(number) = &data.pr_number {
        if right.len() > 0 {
            right.push(owned(" "));
        }
        right.push(concat2("#", number.as_str()));
    }
    proof {
        assert(drift.len() == 0 ==> drift =~= Seq::<Seq<char>>::empty());
        assert(text::texts(right@) =~= branch_right(data@));
    }
    right
}

/// What a row of the header says in a width. The branch is cut so that what stands at
/// its right stays in view.
pub fn header_row_text(data: &GitData, row: HeaderRow, width: usize) -> (shown: RowText)
    requires
        changed_files(data@) <= usize::MAX,
    ensures
        shown@ == header_text(data@, row, width),
{
    match row {
        HeaderRow::Blank => RowText::new(no_texts(), no_texts(), width),
        HeaderRow::Branch => {
            let right = right_of_branch(data);
            let room: usize = if right.len() == 0 {
                width
            } else {
                room_left(width, &right).saturating_sub(2)
            };
            proof {
                assert(text::texts(right@).len() == right@.len());
                assert(room == branch_room(data@, width as nat));
            }
            RowText::new(one_text(truncate_to_width(data.branch.as_str(), room)), right, width)
        },
        HeaderRow::Summary => {
            let left = match data.diff_stat {
                Some((added, removed)) => diff_stat_spans(added, removed).0,
                None => no_texts(),
            };
            let files = decimal(data.changed_file_count() as u64);
            RowText::new(left, one_text(concat2(files.as_str(), " files")), width)
        },
        HeaderRow::Rule => {
            let mut rule = String::new();
            push_repeated(&mut rule, '─', width);
            proof {
                assert(rule@ =~= line::repeated('─', width as nat));
            }
            RowText::new(one_text(rule), no_texts(), width)
        },
    }
}

fn changed_row(file: &GitFileEntry, width: usize) -> (shown: RowText)
    ensures
        shown@ == changed_text(file@, width),
{
    let right = if file.additions == 0 && file.deletions == 0 {
        no_texts()
    } else {
        diff_stat_spans(file.additions, file.deletions).0
    };
    let room: usize = if right.len() == 0 {
        width.saturating_sub(2)
    } else {
        room_left(width, &right).saturating_sub(3)
    };
    let mut status = String::new();
    status.push(file.status);
    status.push(' ');
    let name = truncate_to_width(file.name.as_str(), room);
    proof {
        assert(text::texts(right@).len() == right@.len());
        assert(status@ =~= seq![file.status, ' ']);
    }
    RowText::new(two_texts(status, name), right, width)
}

fn untracked_row(file: &str, width: usize) -> (shown: RowText)
    ensures
        shown@ == untracked_text(file@, width),
{
    let name = truncate_to_width(file, width.saturating_sub(2));
    RowText::new(two_texts(owned("? "), name), no_texts(), width)
}

fn title_of(section: Section, count: usize) -> (title: String)
    ensures
        title@ == section_name(section) + " ("@ + number::decimal_of(count as nat) + ")"@,
{
    let name = match section {
        Section::Staged => "Staged",
        Section::Unstaged => "Unstaged",
        Section::Untracked => "Untracked",
    };
    let head = concat3(name, " (", decimal(count as u64).as_str());
    concat2(head.as_str(), ")")
}

/// What a row of the list of files says in a width.
pub fn file_row_text(data: &GitData, row: FileRow, width: usize) -> (shown: RowText)
    ensures
        shown@ == file_text(data@, row, width),
{
    match row {
        FileRow::Blank => RowText::new(no_texts(), no_texts(), width),
        FileRow::Title(section) => {
            let count: usize = match section {
                Section::Staged => data.staged_files.len(),
                Section::Unstaged => data.unstaged_files.len(),
                Section::Untracked => data.untracked_files.len(),
            };
            RowText::new(one_text(title_of(section, count)), no_texts(), width)
        },
        FileRow::More(_, count) => {
            let more = concat3("+", decimal(count as u64).as_str(), " more");
            RowText::new(no_texts(), one_text(more), width)
        },
        FileRow::File(Section::Staged, index) => if index < data.staged_files.len() {
            changed_row(&data.staged_files[index], width)
        } else {
            RowText::new(no_texts(), no_texts(), width)
        },
        FileRow::File(Section::Unstaged, index) => if index < data.unstaged_files.len() {
            changed_row(&data.unstaged_files[index], width)
        } else {
            RowText::new(no_texts(), no_texts(), width)
        },
        FileRow::File(Section::Untracked, index) => if index < data.untracked_files.len() {
            untracked_row(data.untracked_files[index].as_str(), width)
        } else {
            RowText::new(no_texts(), no_texts(), width)
        },
    }
}

/// What is said where nothing differs from HEAD.
pub const CLEAN_TEXT: &'static str = "Working tree clean";

/// Where it is said that nothing differs from HEAD: in the middle row of an area, in
/// the middle of it.
pub open spec fn clean_place(area: Rect) -> Rect {
    let shown = CLEAN_TEXT@.len();
    let width = if shown < area.width {
        shown as u16
    } else {
        area.width
    };
    Rect {
        x: (area.x + (area.width - width) / 2) as u16,
        y: (area.y + (if area.height == 0 {
            0
        } else {
            (area.height - 1) / 2
        })) as u16,
        width,
        height: if area.height == 0 {
            0
        } else {
            1
        },
    }
}

/// Where it is said that nothing differs from HEAD.
pub fn place_clean(area: Rect) -> (place: Rect)
    requires
        area.x + area.width <= u16::MAX,
        area.y + area.height <= u16::MAX,
    ensures
        place == clean_place(area),
{
    proof {
        reveal_strlit("Working tree clean");
    }
    let width: u16 = if area.width < 18 {
        area.width
    } else {
        18
    };
    let height: u16 = if area.height == 0 {
        0
    } else {
        1
    };
    let above: u16 = area.height.saturating_sub(1) / 2;
    Rect { x: area.x + (area.width - width) / 2, y: area.y + above, width, height }
}

// The panel.

/// What stands below the header.
#[derive(Debug)]
pub enum GitContent {
    /// The header takes the whole panel.
    NoRoom,
    /// That nothing differs from HEAD, in the middle of an area.
    Clean { area: Rect },
    /// The files that differ, scrolled.
    Files { area: Rect, rows: Vec<FileRow>, offset: u16 },
}

/// What the panel shows.
#[derive(Debug)]
pub enum GitView {
    /// The repositories of the panes, scrolled.
    Entries { rows: Vec<EntryRow>, offset: u16 },
    /// That nothing differs from HEAD, in the middle of the panel.
    Clean,
    /// One checkout.
    Checkout { header: Vec<HeaderRow>, header_area: Rect, content: GitContent },
}

/// Whether nothing is known of a checkout.
pub open spec fn nothing_loaded(data: git::DataModel) -> bool {
    data.branch.len() == 0 && !has_changes(data)
}

/// How the list of files is scrolled.
pub open spec fn files_scrolled(scroll: ScrollState, total: int, height: int) -> ScrollState {
    (ScrollState {
        offset: scroll.offset,
        total_lines: total as usize,
        visible_height: height as usize,
    }).moved(0)
}

/// The area below a header.
pub open spec fn below_header(inner: Rect, header: int) -> Rect {
    Rect {
        x: inner.x,
        y: (inner.y + header) as u16,
        width: inner.width,
        height: (inner.height - header) as u16,
    }
}

/// The area of a header.
pub open spec fn header_part(inner: Rect, header: int) -> Rect {
    Rect {
        x: inner.x,
        y: inner.y,
        width: inner.width,
        height: if header < inner.height {
            header as u16
        } else {
            inner.height
        },
    }
}

/// How the panel is scrolled after it is drawn.
pub open spec fn scrolled_after(state: AppState, inner: Rect) -> ScrollState {
    let data = state.git@;
    let header = header_rows(data).len() as int;
    if state.vcs_entries@.len() > 0 {
        ScrollState {
            offset: state.scrolls.git.offset,
            total_lines: state.vcs_entries@.len() as usize,
            visible_height: inner.height as usize,
        }
    } else if nothing_loaded(data) || inner.height <= header || file_rows(data).len() == 0 {
        state.scrolls.git
    } else {
        files_scrolled(state.scrolls.git, file_rows(data).len() as int, inner.height - header)
    }
}

/// What the panel shows of a state.
pub open spec fn shows(view: GitView, state: AppState, inner: Rect) -> bool {
    let data = state.git@;
    let header = header_rows(data).len() as int;
    if state.vcs_entries@.len() > 0 {
        view matches GitView::Entries { rows, offset } && row_models(rows@) == rows_of(
            state.vcs_entries@,
        ) && offset == state.scrolls.git.offset as u16
    } else if nothing_loaded(data) {
        view is Clean
    } else {
        view matches GitView::Checkout { header: rows, header_area, content } && rows@
            == header_rows(data) && header_area == header_part(inner, header)
            && if inner.height <= header {
            content is NoRoom
        } else if file_rows(data).len() == 0 {
            content matches GitContent::Clean { area } && area == below_header(inner, header)
        } else {
            content matches GitContent::Files { area, rows: listed, offset } && area
                == below_header(inner, header) && listed@ == file_rows(data) && offset
                == scrolled_after(state, inner).offset as u16
        }
    }
}

/// The links after the panel is drawn.
pub open spec fn links_after(state: AppState, inner: Rect) -> Seq<OverlayModel> {
    let before = overlays(state.layout.hyperlink_overlays@);
    let data = state.git@;
    if state.vcs_entries@.len() > 0 || nothing_loaded(data) {
        before
    } else {
        match pr_text(data) {
            Some(text) => before.push(pr_link(data, inner, ui::text::text_cells(text))),
            None => before,
        }
    }
}

/// The repositories that can be clicked after the panel is drawn.
pub open spec fn targets_after(state: AppState, inner: Rect) -> Seq<BranchTargetModel> {
    targets_of(state.vcs_entries@, inner)
}

fn add_pr_link(state: &mut AppState, inner: Rect)
    requires
        inner.x + inner.width <= u16::MAX,
        inner.y < u16::MAX,
    ensures
        overlays(final(state).layout.hyperlink_overlays@) == match pr_text(old(state).git@) {
            Some(text) => overlays(old(state).layout.hyperlink_overlays@).push(
                pr_link(old(state).git@, inner, ui::text::text_cells(text)),
            ),
            None => overlays(old(state).layout.hyperlink_overlays@),
        },
        *final(state) == (AppState {
            layout: FrameLayout {
                hyperlink_overlays: final(state).layout.hyperlink_overlays,
                ..old(state).layout
            },
            ..*old(state)
        }),
{
    let ghost before = overlays(state.layout.hyperlink_overlays@);
    if state.git.remote_url.as_str().is_empty() {
        return ;
    }
    let found = match &state.git.pr_number {
        Some(number) => {
            let shown = concat2("#", number.as_str());
            let cells = display_width(shown.as_str());
            Some(place_pr_link(number.as_str(), state.git.remote_url.as_str(), inner, cells))
        },
        None => None,
    };
    if let Some(link) = found {
        let ghost model = link@;
        state.layout.hyperlink_overlays.push(link);
        proof {
            assert(overlays(state.layout.hyperlink_overlays@) =~= before.push(model));
        }
    }
}

/// Decides what the panel shows in an area, and records where it can be clicked and
/// how far it is scrolled. The offset is held to the list of files: without this,
/// shrinking content can leave it scrolled past its last line.
pub fn draw_git_content(state: &mut AppState, inner: Rect) -> (view: GitView)
    requires
        inner.x + inner.width <= u16::MAX,
        inner.y + inner.height <= u16::MAX,
        inner.y + 4 <= u16::MAX,
    ensures
        shows(view, *old(state), inner),
        branch_targets(final(state).layout.vcs_branch_targets@) == targets_after(
            *old(state),
            inner,
        ),
        overlays(final(state).layout.hyperlink_overlays@) == links_after(*old(state), inner),
        *final(state) == (AppState {
            layout: FrameLayout {
                vcs_branch_targets: final(state).layout.vcs_branch_targets,
                hyperlink_overlays: final(state).layout.hyperlink_overlays,
                ..old(state).layout
            },
            scrolls: Scrolls { git: scrolled_after(*old(state), inner), ..old(state).scrolls },
            ..*old(state)
        }),
{
    state.layout.vcs_branch_targets = entry_targets(&state.vcs_entries, inner);
    if state.vcs_entries.len() > 0 {
        let rows = entry_rows(&state.vcs_entries);
        state.scrolls.git.total_lines = state.vcs_entries.len();
        state.scrolls.git.visible_height = inner.height as usize;
        #[verifier::truncate]
        let offset: u16 = state.scrolls.git.offset as u16;
        return GitView::Entries { rows, offset };
    }
    let header = render_git_header(&state.git);
    if state.git.branch.as_str().is_empty() && header.len() == 3 {
        return GitView::Clean;
    }
    let header_height: u16 = header.len() as u16;
    let header_area = Rect {
        x: inner.x,
        y: inner.y,
        width: inner.width,
        height: if header_height < inner.height {
            header_height
        } else {
            inner.height
        },
    };
    add_pr_link(state, inner);
    if inner.height <= header_height {
        return GitView::Checkout { header, header_area, content: GitContent::NoRoom };
    }
    let area = Rect {
        x: inner.x,
        y: inner.y + header_height,
        width: inner.width,
        height: inner.height - header_height,
    };
    let rows = list_files(&state.git);
    if rows.len() == 0 {
        return GitView::Checkout { header, header_area, content: GitContent::Clean { area } };
    }
    state.scrolls.git.total_lines = rows.len();
    state.scrolls.git.visible_height = area.height as usize;
    state.scrolls.git.scroll(0);
    #[verifier::truncate]
    let offset: u16 = state.scrolls.git.offset as u16;
    GitView::Checkout { header, header_area, content: GitContent::Files { area, rows, offset } }
}

/// The list of files is never scrolled past its last line.
pub proof fn files_stay_in_view(state: AppState, inner: Rect)
    requires
        state.vcs_entries@.len() == 0,
        !nothing_loaded(state.git@),
        inner.height > header_rows(state.git@).len(),
        0 < file_rows(state.git@).len() <= usize::MAX,
    ensures
        scrolled_after(state, inner).offset + scrolled_after(state, inner).visible_height
            <= file_rows(state.git@).len() || scrolled_after(state, inner).offset == 0,
{
}

/// Each repository in view can be clicked in a row of its own inside the panel.
pub proof fn repositories_have_rows_of_their_own(
    entries: Seq<VcsEntry>,
    inner: Rect,
    i: int,
    j: int,
)
    requires
        inner.x + inner.width <= u16::MAX,
        inner.y + inner.height <= u16::MAX,
        0 <= i < j < targets_of(entries, inner).len(),
    ensures
        targets_of(entries, inner)[i].rect.lies_in(inner),
        targets_of(entries, inner)[i].rect.y < targets_of(entries, inner)[j].rect.y,
{
}

/// A section lists its first ten files in order below its title, and says how many more
/// there are: none is left out of the count.
pub proof fn sections_count_all_of_their_files(section: Section, count: int, i: int)
    requires
        0 < count <= usize::MAX,
        0 <= i < count,
    ensures
        ({
            let rows = section_rows(section, count);
            &&& rows[0] == FileRow::Title(section)
            &&& i < 10 ==> rows[i + 1] == FileRow::File(section, i as usize)
            &&& count <= 10 ==> rows.len() == count + 1
            &&& count > 10 ==> rows.len() == 12 && rows[11] == FileRow::More(
                section,
                (count - 10) as usize,
            )
        }),
        section_rows(section, 0).len() == 0,
{
}

/// The sections stand in their order: what is staged, what is not, and what is not tracked.
pub proof fn sections_stand_in_order(data: git::DataModel)
    requires
        data.staged_files.len() > 0,
        data.unstaged_files.len() > 0,
        data.untracked_files.len() > 0,
        data.staged_files.len() < 10,
        data.unstaged_files.len() < 10,
        data.untracked_files.len() < 10,
    ensures
        ({
            let rows = file_rows(data);
            let second = data.staged_files.len() + 2;
            let third = second + data.unstaged_files.len() + 2;
            &&& rows[0] == FileRow::Title(Section::Staged)
            &&& rows[second - 1] is Blank
            &&& rows[second as int] == FileRow::Title(Section::Unstaged)
            &&& rows[third - 1] is Blank
            &&& rows[third as int] == FileRow::Title(Section::Untracked)
            &&& rows.len() == third + 1 + data.untracked_files.len()
        }),
{
}

/// A checkout shows by how many commits it is ahead and behind, where it is either.
pub proof fn drift_is_shown_where_there_is_any(ahead: usize, behind: usize)
    ensures
        drift_text(0, 0).len() == 0,
        ahead > 0 ==> drift_text(ahead, 0) == "↑"@ + number::decimal_of(ahead as nat),
        behind > 0 ==> drift_text(0, behind) == "↓"@ + number::decimal_of(behind as nat),
        ahead > 0 && behind > 0 ==> drift_text(ahead, behind) == drift_text(ahead, 0) + drift_text(
            0,
            behind,
        ),
{
    let none = Seq::<char>::empty();
    assert(none + none =~= none);
    assert(drift_text(ahead, 0) + none =~= drift_text(ahead, 0));
    if ahead > 0 {
        assert("↑"@ + number::decimal_of(ahead as nat) + none =~= "↑"@ + number::decimal_of(
            ahead as nat,
        ));
    }
    if behind > 0 {
        assert(none + ("↓"@ + number::decimal_of(behind as nat)) =~= "↓"@ + number::decimal_of(
            behind as nat,
        ));
    }
}

/// The link of a pull request leads to its page below that of the repository, and stands at
/// the end of the row of the branch.
pub proof fn pull_requests_lead_to_their_page(
    data: git::DataModel,
    inner: Rect,
    cells: usize,
    number: Seq<char>,
)
    requires
        data.pr_number == Some(number),
        inner.x + inner.width <= u16::MAX,
        inner.y < u16::MAX,
        cells <= inner.width,
    ensures
        pr_link(data, inner, cells).url == data.remote_url + "/pull/"@ + number,
        pr_link(data, inner, cells).text == "#"@ + number,
        pr_link(data, inner, cells).x + cells == inner.x + inner.width,
        pr_link(data, inner, cells).y == inner.y + 1,
        data.remote_url.len() > 0 ==> pr_text(data) == Some("#"@ + number),
        data.remote_url.len() == 0 ==> pr_text(data) is None,
{
}

/// A checkout shows a summary just where it has changes, and its branch in any case.
pub proof fn summaries_stand_for_changes(data: git::DataModel)
    ensures
        header_rows(data).contains(HeaderRow::Summary) <==> data.diff_stat is Some
            || changed_files(data) > 0,
        header_rows(data)[1] is Branch,
        changed_files(data) == data.staged_files.len() + data.unstaged_files.len()
            + data.untracked_files.len(),
{
    if has_changes(data) {
        assert(header_rows(data)[2] == HeaderRow::Summary);
    } else {
        assert(header_rows(data)[0] == HeaderRow::Blank);
    }
}

} // verus!
