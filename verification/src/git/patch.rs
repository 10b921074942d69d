//! Patches as bytes: their sections, the paths these name, and how paths are
//! quoted.

use vstd::prelude::*;

use crate::bytes;
use crate::bytes::{append, copy_all, copy_opt, copy_range, same_bytes, same_opt, split};
use crate::number;
use crate::number::decimal;
use crate::scan;
use crate::scan::bytes_at;

verus! {

/// The bytes of a text.
pub open spec fn utf8(text: Seq<char>) -> Seq<u8> {
    vstd::utf8::encode_utf8(text)
}

/// What the first line of a section starts with.
pub const SECTION_HEADER: &'static str = "diff --git ";

/// A name that stands for no file.
pub const DEV_NULL: &'static str = "/dev/null";

/// The paths that a section of a patch is about.
#[derive(Debug, PartialEq, Eq)]
pub struct PatchPaths {
    pub old: Option<Vec<u8>>,
    pub new: Option<Vec<u8>>,
}

/// The model of the paths.
pub struct PathsModel {
    pub old: Option<Seq<u8>>,
    pub new: Option<Seq<u8>>,
}

impl View for PatchPaths {
    type V = PathsModel;

    open spec fn view(&self) -> PathsModel {
        PathsModel { old: bytes::opt(self.old), new: bytes::opt(self.new) }
    }
}

/// The model of paths that may be missing.
pub open spec fn paths_model(paths: Option<PatchPaths>) -> Option<PathsModel> {
    match paths {
        Some(known) => Some(known@),
        None => None,
    }
}

/// A section of a patch: what it says of one file.
#[derive(Debug)]
pub struct PatchSection {
    pub path: Option<PatchPaths>,
    pub bytes: Vec<u8>,
}

/// The model of a section.
pub struct SectionModel {
    pub path: Option<PathsModel>,
    pub bytes: Seq<u8>,
}

impl View for PatchSection {
    type V = SectionModel;

    open spec fn view(&self) -> SectionModel {
        SectionModel { path: paths_model(self.path), bytes: self.bytes@ }
    }
}

/// The models of a list of sections.
pub open spec fn section_models(sections: Seq<PatchSection>) -> Seq<SectionModel> {
    sections.map_values(|section: PatchSection| section@)
}

// Path tokens.

/// What a byte behind a backslash stands for, and how many bytes it takes.
pub open spec fn escape(value: Seq<u8>, at: int) -> Option<(u8, int)> {
    let next = value[at];
    if at >= value.len() {
        None
    } else if next == 0x6e {
        Some((0x0au8, 1int))
    } else if next == 0x74 {
        Some((0x09u8, 1int))
    } else if next == 0x5c || next == 0x22 {
        Some((next, 1int))
    } else if is_octal(next) && at + 2 < value.len() && is_octal(value[at + 1]) && is_octal(
        value[at + 2],
    ) {
        Some((octal_value(next, value[at + 1], value[at + 2]), 3int))
    } else {
        None
    }
}

/// Whether a byte is an octal digit.
pub open spec fn is_octal(byte: u8) -> bool {
    0x30 <= byte <= 0x37
}

/// The byte that three octal digits stand for. What does not fit is cut off.
pub open spec fn octal_value(first: u8, second: u8, third: u8) -> u8 {
    (((first - 0x30) * 64 + (second - 0x30) * 8 + (third - 0x30)) % 256) as u8
}

/// What a quoted path stands for, from `at` up to the closing quote.
pub open spec fn unquoted(value: Seq<u8>, at: int) -> Option<Seq<u8>>
    decreases value.len() - at,
{
    if at < 0 || at >= value.len() {
        None
    } else if value[at] == 0x22 {
        Some(Seq::<u8>::empty())
    } else if value[at] == 0x5c {
        match escape(value, at + 1) {
            Some((byte, taken)) => if taken > 0 {
                match unquoted(value, at + 1 + taken) {
                    Some(rest) => Some(seq![byte] + rest),
                    None => None,
                }
            } else {
                None
            },
            None => None,
        }
    } else {
        match unquoted(value, at + 1) {
            Some(rest) => Some(seq![value[at]] + rest),
            None => None,
        }
    }
}

/// The path at the front of a value: up to a blank, or in quotes.
pub open spec fn path_token(value: Seq<u8>) -> Option<Seq<u8>> {
    if value.len() > 0 && value[0] == 0x22 {
        unquoted(value, 1)
    } else {
        Some(bytes::pieces(value, 0x20)[0])
    }
}

fn octal(byte: u8) -> (yes: bool)
    ensures
        yes == is_octal(byte),
{
    0x30 <= byte && byte <= 0x37
}

/// The path at the front of a value: up to a blank, or in quotes, with what
/// backslashes stand for.
pub fn parse_git_path_token(value: &[u8]) -> (path: Option<Vec<u8>>)
    ensures
        bytes::opt(path) == path_token(value@),
{
    if value.len() == 0 || value[0] != 0x22 {
        let mut list = split(value, 0x20);
        let first = list.remove(0);
        return Some(first);
    }
    let mut path: Vec<u8> = Vec::new();
    let mut index: usize = 1;
    proof {
        assert(path@ =~= Seq::<u8>::empty());
        if unquoted(value@, 1) is Some {
            assert(path@ + unquoted(value@, 1)->0 =~= unquoted(value@, 1)->0);
        }
    }
    while index < value.len()
        invariant
            1 <= index <= value@.len(),
            value@[0] == 0x22,
            unquoted(value@, 1) == match unquoted(value@, index as int) {
                Some(rest) => Some(path@ + rest),
                None => None::<Seq<u8>>,
            },
        decreases value@.len() - index,
    {
        let ghost before = path@;
        let ghost at = index as int;
        let byte: u8 = value[index];
        if byte == 0x22 {
            proof {
                assert(path@ + Seq::<u8>::empty() =~= path@);
            }
            return Some(path);
        }
        if byte == 0x5c {
            index = index + 1;
            if index >= value.len() {
                return None;
            }
            let next: u8 = value[index];
            let meant: u8 = if next == 0x6e {
                0x0a
            } else if next == 0x74 {
                0x09
            } else if next == 0x5c || next == 0x22 {
                next
            } else if octal(next) && value.len() - index > 2 && octal(value[index + 1]) && octal(
                value[index + 2],
            ) {
                let sum: u16 = (next - 0x30) as u16 * 64 + (value[index + 1] - 0x30) as u16 * 8
                    + (value[index + 2] - 0x30) as u16;
                index = index + 2;
                (sum % 256) as u8
            } else {
                return None;
            };
            path.push(meant);
            index = index + 1;
            proof {
                let (wanted, taken) = escape(value@, at + 1)->0;
                assert(meant == wanted);
                assert(index == at + 1 + taken);
                if unquoted(value@, index as int) is Some {
                    let rest = unquoted(value@, index as int)->0;
                    assert(before + (seq![meant] + rest) =~= path@ + rest);
                }
            }
        } else {
            path.push(byte);
            index = index + 1;
            proof {
                if unquoted(value@, index as int) is Some {
                    let rest = unquoted(value@, index as int)->0;
                    assert(before + (seq![byte] + rest) =~= path@ + rest);
                }
            }
        }
    }
    None
}

/// The end of a quoted path, from `at` on; `escaped` says whether a backslash came
/// before.
pub open spec fn quoted_end(value: Seq<u8>, at: int, escaped: bool) -> Option<int>
    decreases value.len() - at,
{
    if at < 0 || at >= value.len() {
        None
    } else if !escaped && value[at] == 0x22 {
        Some(at + 1)
    } else {
        quoted_end(value, at + 1, !escaped && value[at] == 0x5c)
    }
}

/// The first blank from `at` on.
pub open spec fn blank_from(value: Seq<u8>, at: int) -> Option<int>
    decreases value.len() - at,
{
    if at < 0 || at >= value.len() {
        None
    } else if value[at] == 0x20 {
        Some(at)
    } else {
        blank_from(value, at + 1)
    }
}

/// How many bytes the path at the front of a value takes.
pub open spec fn token_len(value: Seq<u8>) -> Option<int> {
    if value.len() > 0 && value[0] == 0x22 {
        quoted_end(value, 1, false)
    } else {
        blank_from(value, 0)
    }
}

/// How many bytes the path at the front of a value takes, where a blank or a
/// quote ends it.
pub fn git_path_token_len(value: &[u8]) -> (len: Option<usize>)
    ensures
        match token_len(value@) {
            Some(end) => len is Some && len->0 == end && end <= value@.len(),
            None => len is None,
        },
{
    if value.len() == 0 || value[0] != 0x22 {
        let mut at: usize = 0;
        while at < value.len()
            invariant
                at <= value@.len(),
                value@.len() == 0 || value@[0] != 0x22,
                blank_from(value@, 0) == blank_from(value@, at as int),
            decreases value@.len() - at,
        {
            if value[at] == 0x20 {
                return Some(at);
            }
            at = at + 1;
        }
        return None;
    }
    let mut escaped = false;
    let mut at: usize = 1;
    while at < value.len()
        invariant
            1 <= at <= value@.len(),
            value@[0] == 0x22,
            quoted_end(value@, 1, false) == quoted_end(value@, at as int, escaped),
        decreases value@.len() - at,
    {
        if !escaped && value[at] == 0x22 {
            return Some(at + 1);
        }
        escaped = !escaped && value[at] == 0x5c;
        at = at + 1;
    }
    None
}

// Sections.

/// A path without the letter that tells the old side from the new, unless it
/// stands for no file.
pub open spec fn side_path(token: Seq<u8>, prefix: Seq<char>) -> Option<Seq<u8>> {
    if token == utf8(DEV_NULL@) {
        None
    } else if scan::starts(token, utf8(prefix)) {
        Some(token.skip(utf8(prefix).len() as int))
    } else {
        Some(token)
    }
}

/// The paths that a section is about, by its first line. A side that the section
/// says is no file has no path.
pub open spec fn section_paths(section: Seq<u8>) -> Option<PathsModel> {
    let line = bytes::pieces(section, 0x0a)[0];
    let value = line.skip(utf8(SECTION_HEADER@).len() as int);
    if !scan::starts(line, utf8(SECTION_HEADER@)) || path_token(value) is None || token_len(
        value,
    ) is None {
        None
    } else {
        let remainder = value.skip(token_len(value)->0);
        if remainder.len() == 0 || remainder[0] != 0x20 || path_token(remainder.skip(1)) is None {
            None
        } else {
            Some(
                PathsModel {
                    old: if scan::contains_text(section, utf8("\n--- /dev/null\n"@)) {
                        None
                    } else {
                        side_path(path_token(value)->0, "a/"@)
                    },
                    new: if scan::contains_text(section, utf8("\n+++ /dev/null\n"@)) {
                        None
                    } else {
                        side_path(path_token(remainder.skip(1))->0, "b/"@)
                    },
                },
            )
        }
    }
}

fn side(token: Vec<u8>, prefix: &str) -> (path: Option<Vec<u8>>)
    ensures
        bytes::opt(path) == side_path(token@, prefix@),
{
    if same_bytes(token.as_slice(), DEV_NULL.as_bytes()) {
        return None;
    }
    let lead = prefix.as_bytes();
    if bytes_at(token.as_slice(), lead, 0) {
        let rest = copy_range(token.as_slice(), lead.len(), token.len());
        proof {
            assert(rest@ =~= token@.skip(lead@.len() as int));
        }
        Some(rest)
    } else {
        Some(token)
    }
}

/// The paths that a section is about, by its first line.
pub fn patch_section_paths(section: &[u8]) -> (paths: Option<PatchPaths>)
    ensures
        paths_model(paths) == section_paths(section@),
{
    let list = split(section, 0x0a);
    let line = &list[0];
    let ghost first = bytes::pieces(section@, 0x0a)[0];
    proof {
        assert(bytes::lists(list@)[0] == line@);
    }
    let header = SECTION_HEADER.as_bytes();
    if !bytes_at(line.as_slice(), header, 0) {
        return None;
    }
    let value = copy_range(line.as_slice(), header.len(), line.len());
    proof {
        assert(value@ =~= first.skip(utf8(SECTION_HEADER@).len() as int));
    }
    let old = match parse_git_path_token(value.as_slice()) {
        Some(token) => token,
        None => {
            return None;
        },
    };
    let taken: usize = match git_path_token_len(value.as_slice()) {
        Some(len) => len,
        None => {
            return None;
        },
    };
    proof {
        assert(value@.skip(taken as int).len() == value@.len() - taken);
    }
    if taken >= value.len() || value[taken] != 0x20 {
        return None;
    }
    let remainder = copy_range(value.as_slice(), taken + 1, value.len());
    proof {
        assert(remainder@ =~= value@.skip(taken as int).skip(1));
    }
    let new = match parse_git_path_token(remainder.as_slice()) {
        Some(token) => token,
        None => {
            return None;
        },
    };
    let old = if bytes::contains(section, "\n--- /dev/null\n".as_bytes()) {
        None
    } else {
        side(old, "a/")
    };
    let new = if bytes::contains(section, "\n+++ /dev/null\n".as_bytes()) {
        None
    } else {
        side(new, "b/")
    };
    Some(PatchPaths { old, new })
}

/// Whether a section starts at an index: its header stands there, at the start of
/// a line.
pub open spec fn starts_section(patch: Seq<u8>, at: int) -> bool {
    (at == 0 || patch[at - 1] == 0x0a) && scan::stands_at(patch, utf8(SECTION_HEADER@), at)
}

/// The first index at or after `from` at which a section starts; the end of the
/// patch where none does.
pub open spec fn next_section(patch: Seq<u8>, from: int) -> int
    decreases patch.len() - from,
{
    if from < 0 || from >= patch.len() {
        patch.len() as int
    } else if starts_section(patch, from) {
        from
    } else {
        next_section(patch, from + 1)
    }
}

/// The section that starts at an index.
pub open spec fn section_at(patch: Seq<u8>, at: int) -> SectionModel {
    let section = patch.subrange(at, next_section(patch, at + 1));
    SectionModel { path: section_paths(section), bytes: section }
}

/// The next section lies ahead, and starts where it is said to.
pub proof fn next_section_is_later(patch: Seq<u8>, from: int)
    requires
        0 <= from <= patch.len(),
    ensures
        from <= next_section(patch, from) <= patch.len(),
        next_section(patch, from) < patch.len() ==> starts_section(
            patch,
            next_section(patch, from),
        ),
    decreases patch.len() - from,
{
    if from < patch.len() && !starts_section(patch, from) {
        next_section_is_later(patch, from + 1);
    }
}

/// The sections from `at` on, where one starts unless the patch ends.
pub open spec fn sections_from(patch: Seq<u8>, at: int) -> Seq<SectionModel>
    decreases patch.len() - at,
{
    proof {
        if 0 <= at < patch.len() {
            next_section_is_later(patch, at + 1);
        }
    }
    if at < 0 || at >= patch.len() {
        Seq::<SectionModel>::empty()
    } else {
        seq![section_at(patch, at)] + sections_from(patch, next_section(patch, at + 1))
    }
}

/// The sections of a patch. What comes before the first is left out; a patch
/// without a header is one section without paths.
pub open spec fn sections_of(patch: Seq<u8>) -> Seq<SectionModel> {
    let first = next_section(patch, 0);
    if patch.len() == 0 {
        Seq::<SectionModel>::empty()
    } else if first == patch.len() {
        seq![SectionModel { path: None, bytes: patch }]
    } else {
        sections_from(patch, first)
    }
}

fn find_section(patch: &[u8], from: usize) -> (at: usize)
    requires
        from <= patch@.len(),
    ensures
        at == next_section(patch@, from as int),
        from <= at <= patch@.len(),
{
    let header = SECTION_HEADER.as_bytes();
    let mut at: usize = from;
    while at < patch.len()
        invariant
            from <= at <= patch@.len(),
            header@ == utf8(SECTION_HEADER@),
            next_section(patch@, from as int) == next_section(patch@, at as int),
        decreases patch@.len() - at,
    {
        if (at == 0 || patch[at - 1] == 0x0a) && bytes_at(patch, header, at) {
            return at;
        }
        at = at + 1;
    }
    at
}

/// The sections of a patch.
pub fn patch_sections(patch: &[u8]) -> (sections: Vec<PatchSection>)
    ensures
        section_models(sections@) == sections_of(patch@),
{
    let mut sections: Vec<PatchSection> = Vec::new();
    proof {
        assert(section_models(sections@) =~= Seq::<SectionModel>::empty());
    }
    if patch.len() == 0 {
        return sections;
    }
    let first: usize = find_section(patch, 0);
    if first == patch.len() {
        sections.push(PatchSection { path: None, bytes: copy_all(patch) });
        proof {
            assert(section_models(sections@) =~= seq![
                SectionModel { path: None::<PathsModel>, bytes: patch@ },
            ]);
        }
        return sections;
    }
    let mut at: usize = first;
    proof {
        assert(section_models(sections@) + sections_from(patch@, first as int) =~= sections_from(
            patch@,
            first as int,
        ));
    }
    while at < patch.len()
        invariant
            first <= at <= patch@.len(),
            section_models(sections@) + sections_from(patch@, at as int) == sections_from(
                patch@,
                first as int,
            ),
        decreases patch@.len() - at,
    {
        let ghost before = section_models(sections@);
        let end: usize = find_section(patch, at + 1);
        let section = copy_range(patch, at, end);
        let path = patch_section_paths(section.as_slice());
        sections.push(PatchSection { path, bytes: section });
        proof {
            let model = section_at(patch@, at as int);
            assert(section_models(sections@) =~= before.push(model));
            assert(before.push(model) + sections_from(patch@, end as int) =~= before
                + sections_from(patch@, at as int));
        }
        at = end;
    }
    proof {
        assert(section_models(sections@) + sections_from(patch@, at as int) =~= section_models(
            sections@,
        ));
    }
    sections
}

/// The bytes of sections, one after the other.
pub open spec fn joined_sections(sections: Seq<SectionModel>) -> Seq<u8>
    decreases sections.len(),
{
    if sections.len() == 0 {
        Seq::<u8>::empty()
    } else {
        sections[0].bytes + joined_sections(sections.skip(1))
    }
}

proof fn sections_from_cover(patch: Seq<u8>, at: int)
    requires
        0 <= at <= patch.len(),
    ensures
        joined_sections(sections_from(patch, at)) == patch.skip(at),
    decreases patch.len() - at,
{
    let sections = sections_from(patch, at);
    if at < patch.len() {
        next_section_is_later(patch, at + 1);
        let end = next_section(patch, at + 1);
        sections_from_cover(patch, end);
        assert(sections.skip(1) =~= sections_from(patch, end));
        assert(patch.subrange(at, end) + patch.skip(end) =~= patch.skip(at));
    } else {
        assert(patch.skip(at) =~= Seq::<u8>::empty());
    }
}

/// The sections of a patch hold all of it from the first header on, unchanged and
/// in order; of a patch without a header they hold everything.
pub proof fn sections_cover_the_patch(patch: Seq<u8>)
    ensures
        joined_sections(sections_of(patch)) == if next_section(patch, 0) == patch.len() {
            patch
        } else {
            patch.skip(next_section(patch, 0))
        },
{
    next_section_is_later(patch, 0);
    let first = next_section(patch, 0);
    if patch.len() == 0 {
        assert(joined_sections(sections_of(patch)) =~= patch);
    } else if first == patch.len() {
        let only = sections_of(patch);
        assert(only.skip(1) =~= Seq::<SectionModel>::empty());
        assert(joined_sections(only.skip(1)) =~= Seq::<u8>::empty());
        assert(joined_sections(only) =~= patch);
    } else {
        sections_from_cover(patch, first);
    }
}

// Files that both the index and the worktree change.

/// A file that is shown from its state at HEAD to its final state.
#[derive(Debug)]
pub struct SnapshotPath {
    pub before: Option<Vec<u8>>,
    pub after: Option<Vec<u8>>,
}

/// The model of such a file.
pub struct SnapshotModel {
    pub before: Option<Seq<u8>>,
    pub after: Option<Seq<u8>>,
}

impl View for SnapshotPath {
    type V = SnapshotModel;

    open spec fn view(&self) -> SnapshotModel {
        SnapshotModel { before: bytes::opt(self.before), after: bytes::opt(self.after) }
    }
}

/// The models of a list of such files.
pub open spec fn snapshot_models(list: Seq<SnapshotPath>) -> Seq<SnapshotModel> {
    list.map_values(|item: SnapshotPath| item@)
}

/// Whether a file is one that a section is about.
pub open spec fn snapshot_is(snapshot: SnapshotModel, paths: PathsModel) -> bool {
    ||| paths.old is Some && (snapshot.before == paths.old || snapshot.after == paths.old)
    ||| paths.new is Some && (snapshot.before == paths.new || snapshot.after == paths.new)
}

impl SnapshotPath {
    /// Whether the file is one that a section is about.
    pub fn matches(&self, paths: &PatchPaths) -> (yes: bool)
        ensures
            yes == snapshot_is(self@, paths@),
    {
        (paths.old.is_some() && (same_opt(&self.before, &paths.old) || same_opt(
            &self.after,
            &paths.old,
        ))) || (paths.new.is_some() && (same_opt(&self.before, &paths.new) || same_opt(
            &self.after,
            &paths.new,
        )))
    }
}

/// The first of two paths, and the second where there is no first.
pub open spec fn either(first: Option<Seq<u8>>, second: Option<Seq<u8>>) -> Option<Seq<u8>> {
    if first is Some {
        first
    } else {
        second
    }
}

/// The file that both a section of the index and a section of the worktree change,
/// where the one ends at the path at which the other starts.
pub open spec fn shared_file(
    index: Option<PathsModel>,
    worktree: Option<PathsModel>,
) -> Option<SnapshotModel> {
    match (index, worktree) {
        (Some(first), Some(second)) => {
            let left = either(first.new, first.old);
            let found = either(second.old, second.new);
            if left is Some && left == found {
                Some(
                    SnapshotModel {
                        before: first.old,
                        after: either(second.new, second.old),
                    },
                )
            } else {
                None
            }
        },
        _ => None,
    }
}

/// The files that a section of the index shares with sections of the worktree.
pub open spec fn shared_with(index: Option<PathsModel>, worktree: Seq<SectionModel>) -> Seq<
    SnapshotModel,
>
    decreases worktree.len(),
{
    if worktree.len() == 0 {
        Seq::<SnapshotModel>::empty()
    } else {
        let before = shared_with(index, worktree.drop_last());
        match shared_file(index, worktree.last().path) {
            Some(file) => before.push(file),
            None => before,
        }
    }
}

/// The files that both the index and the worktree change, in order.
pub open spec fn shared_files(cached: Seq<SectionModel>, worktree: Seq<SectionModel>) -> Seq<
    SnapshotModel,
>
    decreases cached.len(),
{
    if cached.len() == 0 {
        Seq::<SnapshotModel>::empty()
    } else {
        shared_files(cached.drop_last(), worktree) + shared_with(cached.last().path, worktree)
    }
}

fn first_known<'a>(first: &'a Option<Vec<u8>>, second: &'a Option<Vec<u8>>) -> (found: &'a Option<
    Vec<u8>,
>)
    ensures
        bytes::opt(*found) == either(bytes::opt(*first), bytes::opt(*second)),
{
    if first.is_some() {
        first
    } else {
        second
    }
}

fn shared(index: &Option<PatchPaths>, worktree: &Option<PatchPaths>) -> (file: Option<SnapshotPath>)
    ensures
        match file {
            Some(found) => shared_file(paths_model(*index), paths_model(*worktree)) == Some(
                found@,
            ),
            None => shared_file(paths_model(*index), paths_model(*worktree)) is None,
        },
{
    match (index, worktree) {
        (Some(first), Some(second)) => {
            let left = first_known(&first.new, &first.old);
            let found = first_known(&second.old, &second.new);
            if left.is_some() && same_opt(left, found) {
                Some(
                    SnapshotPath {
                        before: copy_opt(&first.old),
                        after: copy_opt(first_known(&second.new, &second.old)),
                    },
                )
            } else {
                None
            }
        },
        _ => None,
    }
}

/// The files that both the index and the worktree change.
pub fn overlapping_snapshots(cached: &Vec<PatchSection>, worktree: &Vec<PatchSection>) -> (found:
    Vec<SnapshotPath>)
    ensures
        snapshot_models(found@) == shared_files(
            section_models(cached@),
            section_models(worktree@),
        ),
{
    let ghost firsts = section_models(cached@);
    let ghost seconds = section_models(worktree@);
    let mut found: Vec<SnapshotPath> = Vec::new();
    let mut i: usize = 0;
    proof {
        assert(firsts.take(0) =~= Seq::<SectionModel>::empty());
        assert(snapshot_models(found@) =~= Seq::<SnapshotModel>::empty());
    }
    while i < cached.len()
        invariant
            i <= cached@.len(),
            firsts == section_models(cached@),
            seconds == section_models(worktree@),
            snapshot_models(found@) == shared_files(firsts.take(i as int), seconds),
        decreases cached@.len() - i,
    {
        let ghost before = snapshot_models(found@);
        let ghost own = firsts[i as int].path;
        let mut k: usize = 0;
        proof {
            assert(firsts.take(i + 1).drop_last() =~= firsts.take(i as int));
            assert(seconds.take(0) =~= Seq::<SectionModel>::empty());
            assert(before + shared_with(own, seconds.take(0)) =~= before);
        }
        while k < worktree.len()
            invariant
                i < cached@.len(),
                k <= worktree@.len(),
                firsts == section_models(cached@),
                seconds == section_models(worktree@),
                own == firsts[i as int].path,
                snapshot_models(found@) == before + shared_with(own, seconds.take(k as int)),
            decreases worktree@.len() - k,
        {
            let ghost so_far = snapshot_models(found@);
            proof {
                assert(seconds.take(k + 1).drop_last() =~= seconds.take(k as int));
                assert(seconds[k as int] == worktree@[k as int]@);
                assert(own == paths_model(cached@[i as int].path));
            }
            if let Some(file) = shared(&cached[i].path, &worktree[k].path) {
                let ghost model = file@;
                found.push(file);
                proof {
                    assert(snapshot_models(found@) =~= so_far.push(model));
                    assert(snapshot_models(found@) =~= before + shared_with(
                        own,
                        seconds.take(k + 1),
                    ));
                }
            }
            k = k + 1;
        }
        proof {
            assert(seconds.take(k as int) =~= seconds);
        }
        i = i + 1;
    }
    proof {
        assert(firsts.take(i as int) =~= firsts);
    }
    found
}

/// Whether a section is about one of the files.
pub open spec fn is_shared(path: Option<PathsModel>, shared: Seq<SnapshotModel>) -> bool {
    &&& path is Some
    &&& exists|k: int| 0 <= k < shared.len() && snapshot_is(#[trigger] shared[k], path->0)
}

/// The bytes of the sections that are about none of the files.
pub open spec fn kept_bytes(sections: Seq<SectionModel>, shared: Seq<SnapshotModel>) -> Seq<u8>
    decreases sections.len(),
{
    if sections.len() == 0 {
        Seq::<u8>::empty()
    } else {
        let before = kept_bytes(sections.drop_last(), shared);
        if is_shared(sections.last().path, shared) {
            before
        } else {
            before + sections.last().bytes
        }
    }
}

fn section_shared(path: &Option<PatchPaths>, shared: &Vec<SnapshotPath>) -> (yes: bool)
    ensures
        yes == is_shared(paths_model(*path), snapshot_models(shared@)),
{
    let paths = match path {
        Some(paths) => paths,
        None => {
            return false;
        },
    };
    let ghost models = snapshot_models(shared@);
    let mut i: usize = 0;
    while i < shared.len()
        invariant
            i <= shared@.len(),
            models == snapshot_models(shared@),
            *path == Some(*paths),
            forall|k: int| 0 <= k < i ==> !snapshot_is(#[trigger] models[k], paths@),
        decreases shared@.len() - i,
    {
        proof {
            assert(models[i as int] == shared@[i as int]@);
        }
        if shared[i].matches(paths) {
            return true;
        }
        i = i + 1;
    }
    false
}

fn keep_sections(sections: &Vec<PatchSection>, shared: &Vec<SnapshotPath>, patch: &mut Vec<u8>)
    ensures
        final(patch)@ == old(patch)@ + kept_bytes(
            section_models(sections@),
            snapshot_models(shared@),
        ),
{
    let ghost before = patch@;
    let ghost models = section_models(sections@);
    let ghost files = snapshot_models(shared@);
    let mut i: usize = 0;
    proof {
        assert(models.take(0) =~= Seq::<SectionModel>::empty());
        assert(before + kept_bytes(models.take(0), files) =~= before);
    }
    while i < sections.len()
        invariant
            i <= sections@.len(),
            models == section_models(sections@),
            files == snapshot_models(shared@),
            patch@ == before + kept_bytes(models.take(i as int), files),
        decreases sections@.len() - i,
    {
        proof {
            assert(models.take(i + 1).drop_last() =~= models.take(i as int));
            assert(models[i as int] == sections@[i as int]@);
        }
        if !section_shared(&sections[i].path, shared) {
            append(patch, sections[i].bytes.as_slice());
            proof {
                assert(patch@ =~= before + kept_bytes(models.take(i + 1), files));
            }
        }
        i = i + 1;
    }
    proof {
        assert(models.take(i as int) =~= models);
    }
}

/// What the patches of the index and of the worktree come to together.
#[derive(Debug)]
pub struct MergedPatch {
    /// The sections of files that only one of the two changes.
    pub kept: Vec<u8>,
    /// The files that both change, which are to be shown from HEAD to their final
    /// state.
    pub overlap: Vec<SnapshotPath>,
}

/// Puts the patch of the index and that of the worktree together. Their sections
/// are kept as they are where disjoint; a file that both change is left out and
/// named instead, so that it can be shown exactly once.
pub fn merge_patches(cached: &[u8], worktree: &[u8]) -> (merged: MergedPatch)
    ensures
        ({
            let firsts = sections_of(cached@);
            let seconds = sections_of(worktree@);
            let shared = shared_files(firsts, seconds);
            &&& snapshot_models(merged.overlap@) == shared
            &&& merged.kept@ == kept_bytes(firsts, shared) + kept_bytes(seconds, shared)
        }),
{
    let firsts = patch_sections(cached);
    let seconds = patch_sections(worktree);
    let overlap = overlapping_snapshots(&firsts, &seconds);
    let mut kept: Vec<u8> = Vec::new();
    keep_sections(&firsts, &overlap, &mut kept);
    keep_sections(&seconds, &overlap, &mut kept);
    proof {
        let shared = shared_files(sections_of(cached@), sections_of(worktree@));
        assert(kept@ =~= kept_bytes(sections_of(cached@), shared) + kept_bytes(
            sections_of(worktree@),
            shared,
        ));
    }
    MergedPatch { kept, overlap }
}

/// Patches that share no file are kept whole.
pub proof fn disjoint_patches_are_kept(cached: Seq<u8>, worktree: Seq<u8>)
    requires
        shared_files(sections_of(cached), sections_of(worktree)).len() == 0,
    ensures
        ({
            let shared = shared_files(sections_of(cached), sections_of(worktree));
            &&& kept_bytes(sections_of(cached), shared) == joined_sections(sections_of(cached))
            &&& kept_bytes(sections_of(worktree), shared) == joined_sections(
                sections_of(worktree),
            )
        }),
{
    let shared = shared_files(sections_of(cached), sections_of(worktree));
    kept_without_shared(sections_of(cached), shared);
    kept_without_shared(sections_of(worktree), shared);
}

proof fn kept_without_shared(sections: Seq<SectionModel>, shared: Seq<SnapshotModel>)
    requires
        shared.len() == 0,
    ensures
        kept_bytes(sections, shared) == joined_sections(sections),
    decreases sections.len(),
{
    if sections.len() > 0 {
        kept_without_shared(sections.drop_last(), shared);
        joined_at_the_end(sections);
    }
}

proof fn joined_at_the_end(sections: Seq<SectionModel>)
    requires
        sections.len() > 0,
    ensures
        joined_sections(sections) == joined_sections(sections.drop_last()) + sections.last().bytes,
    decreases sections.len(),
{
    if sections.len() == 1 {
        assert(sections.skip(1) =~= Seq::<SectionModel>::empty());
        assert(sections.drop_last() =~= Seq::<SectionModel>::empty());
        assert(joined_sections(sections) =~= joined_sections(sections.drop_last())
            + sections.last().bytes);
    } else {
        let rest = sections.skip(1);
        joined_at_the_end(rest);
        assert(rest.drop_last() =~= sections.drop_last().skip(1));
        assert(sections.drop_last()[0] == sections[0]);
        assert(joined_sections(sections) =~= joined_sections(sections.drop_last())
            + sections.last().bytes);
    }
}

/// No section that is kept is about a file that both patches change.
pub proof fn shared_files_are_left_out(
    cached: Seq<SectionModel>,
    worktree: Seq<SectionModel>,
    first: int,
    second: int,
)
    requires
        0 <= first < cached.len(),
        0 <= second < worktree.len(),
        shared_file(cached[first].path, worktree[second].path) is Some,
    ensures
        is_shared(worktree[second].path, shared_files(cached, worktree)),
{
    let file = shared_file(cached[first].path, worktree[second].path)->0;
    shared_with_holds(cached[first].path, worktree, second);
    shared_files_hold(cached, worktree, first, file);
    let all = shared_files(cached, worktree);
    let k = all.index_of(file);
    assert(all[k] == file);
    assert(snapshot_is(all[k], worktree[second].path->0));
}

proof fn shared_with_holds(index: Option<PathsModel>, worktree: Seq<SectionModel>, at: int)
    requires
        0 <= at < worktree.len(),
        shared_file(index, worktree[at].path) is Some,
    ensures
        shared_with(index, worktree).contains(shared_file(index, worktree[at].path)->0),
    decreases worktree.len(),
{
    let file = shared_file(index, worktree[at].path)->0;
    let all = shared_with(index, worktree);
    let before = shared_with(index, worktree.drop_last());
    if at == worktree.len() - 1 {
        assert(all[all.len() - 1] == file);
    } else {
        shared_with_holds(index, worktree.drop_last(), at);
        let k = before.index_of(file);
        assert(all[k] == file);
    }
}

proof fn shared_files_hold(
    cached: Seq<SectionModel>,
    worktree: Seq<SectionModel>,
    at: int,
    file: SnapshotModel,
)
    requires
        0 <= at < cached.len(),
        shared_with(cached[at].path, worktree).contains(file),
    ensures
        shared_files(cached, worktree).contains(file),
    decreases cached.len(),
{
    let all = shared_files(cached, worktree);
    let before = shared_files(cached.drop_last(), worktree);
    let own = shared_with(cached.last().path, worktree);
    if at == cached.len() - 1 {
        let k = own.index_of(file);
        assert(all[before.len() + k] == file);
    } else {
        shared_files_hold(cached.drop_last(), worktree, at, file);
        let k = before.index_of(file);
        assert(all[k] == file);
    }
}

// Paths of snapshots.

/// Lines with their ends; the last need not have one.
pub open spec fn whole_lines(bytes: Seq<u8>) -> Seq<Seq<u8>>
    decreases bytes.len(),
{
    if bytes.len() == 0 {
        Seq::<Seq<u8>>::empty()
    } else {
        let rest = bytes.drop_last();
        let before = whole_lines(rest);
        if rest.len() == 0 || rest.last() == 0x0a {
            before.push(seq![bytes.last()])
        } else {
            before.drop_last().push(before.last().push(bytes.last()))
        }
    }
}

/// Bytes from `from` on with every occurrence of `needle` replaced.
pub open spec fn replaced_from(
    line: Seq<u8>,
    needle: Seq<u8>,
    replacement: Seq<u8>,
    from: int,
) -> Seq<u8>
    decreases line.len() - from + 1,
{
    if from < 0 || from > line.len() || needle.len() == 0 {
        Seq::<u8>::empty()
    } else {
        match scan::find_from(line, needle, from) {
            Some(at) => if from <= at <= line.len() - needle.len() {
                line.subrange(from, at) + replacement + replaced_from(
                    line,
                    needle,
                    replacement,
                    at + needle.len(),
                )
            } else {
                line.skip(from)
            },
            None => line.skip(from),
        }
    }
}

/// How git writes a path below a directory outside of a repository: the letter of
/// the side, and the path.
pub open spec fn side_needle(letter: u8, directory: Seq<u8>) -> Seq<u8> {
    seq![letter] + directory + seq![0x2fu8]
}

/// A line in which paths below a directory are relative to it.
pub open spec fn relative_line(line: Seq<u8>, letter: u8, directory: Seq<u8>) -> Seq<u8> {
    replaced_from(line, side_needle(letter, directory), seq![letter, 0x2fu8], 0)
}

/// A header in which paths below either of two directories are relative to it.
pub open spec fn snapshot_header(line: Seq<u8>, before: Seq<u8>, after: Seq<u8>) -> Seq<u8> {
    relative_line(
        relative_line(relative_line(relative_line(line, 0x61, before), 0x62, before), 0x61, after),
        0x62,
        after,
    )
}

/// Whether a line names paths.
pub open spec fn names_paths(line: Seq<u8>) -> bool {
    ||| scan::starts(line, utf8(SECTION_HEADER@))
    ||| scan::starts(line, utf8("--- "@))
    ||| scan::starts(line, utf8("+++ "@))
    ||| scan::starts(line, utf8("rename from "@))
    ||| scan::starts(line, utf8("rename to "@))
    ||| scan::starts(line, utf8("copy from "@))
    ||| scan::starts(line, utf8("copy to "@))
}

/// A patch in which the headers name paths relative to the directories. Hunks and
/// binary data stay as they are.
pub open spec fn relative_patch(lines: Seq<Seq<u8>>, before: Seq<u8>, after: Seq<u8>) -> Seq<u8>
    decreases lines.len(),
{
    if lines.len() == 0 {
        Seq::<u8>::empty()
    } else {
        relative_patch(lines.drop_last(), before, after) + if names_paths(lines.last()) {
            snapshot_header(lines.last(), before, after)
        } else {
            lines.last()
        }
    }
}

fn make_relative(line: &[u8], letter: u8, directory: &[u8]) -> (relative: Vec<u8>)
    ensures
        relative@ == relative_line(line@, letter, directory@),
{
    let mut needle: Vec<u8> = Vec::new();
    needle.push(letter);
    append(&mut needle, directory);
    needle.push(0x2f);
    let mut relative: Vec<u8> = Vec::new();
    let mut from: usize = 0;
    let ghost replacement = seq![letter, 0x2fu8];
    proof {
        assert(needle@ =~= side_needle(letter, directory@));
        assert(relative@ + replaced_from(line@, needle@, replacement, 0) =~= replaced_from(
            line@,
            needle@,
            replacement,
            0,
        ));
    }
    loop
        invariant
            needle@.len() > 0,
            needle@ == side_needle(letter, directory@),
            replacement == seq![letter, 0x2fu8],
            from <= line@.len(),
            relative@ + replaced_from(line@, needle@, replacement, from as int) == replaced_from(
                line@,
                needle@,
                replacement,
                0,
            ),
        decreases line@.len() - from,
    {
        let ghost so_far = relative@;
        match bytes::find(line, needle.as_slice(), from) {
            Some(at) => {
                let head = copy_range(line, from, at);
                append(&mut relative, head.as_slice());
                relative.push(letter);
                relative.push(0x2f);
                proof {
                    let rest = replaced_from(line@, needle@, replacement, at + needle@.len());
                    assert(relative@ =~= so_far + line@.subrange(from as int, at as int)
                        + replacement);
                    assert(so_far + replaced_from(line@, needle@, replacement, from as int)
                        =~= relative@ + rest);
                }
                assert(at + needle@.len() <= line.len());
                from = at + needle.len();
            },
            None => {
                let rest = copy_range(line, from, line.len());
                append(&mut relative, rest.as_slice());
                proof {
                    assert(rest@ =~= line@.skip(from as int));
                }
                return relative;
            },
        }
    }
}

/// A header in which paths below either of two directories are relative to it.
pub fn normalize_snapshot_header(line: &[u8], before: &[u8], after: &[u8]) -> (header: Vec<u8>)
    ensures
        header@ == snapshot_header(line@, before@, after@),
{
    let first = make_relative(line, 0x61, before);
    let second = make_relative(first.as_slice(), 0x62, before);
    let third = make_relative(second.as_slice(), 0x61, after);
    make_relative(third.as_slice(), 0x62, after)
}

fn line_names_paths(line: &[u8]) -> (yes: bool)
    ensures
        yes == names_paths(line@),
{
    bytes_at(line, SECTION_HEADER.as_bytes(), 0) || bytes_at(line, "--- ".as_bytes(), 0)
        || bytes_at(line, "+++ ".as_bytes(), 0) || bytes_at(line, "rename from ".as_bytes(), 0)
        || bytes_at(line, "rename to ".as_bytes(), 0) || bytes_at(line, "copy from ".as_bytes(), 0)
        || bytes_at(line, "copy to ".as_bytes(), 0)
}

fn cut_lines(patch: &[u8]) -> (lines: Vec<Vec<u8>>)
    ensures
        bytes::lists(lines@) == whole_lines(patch@),
{
    let mut lines: Vec<Vec<u8>> = Vec::new();
    let mut start: usize = 0;
    let mut i: usize = 0;
    proof {
        assert(patch@.take(0) =~= Seq::<u8>::empty());
        assert(bytes::lists(lines@) =~= Seq::<Seq<u8>>::empty());
    }
    while i < patch.len()
        invariant
            start <= i <= patch@.len(),
            start < i ==> patch@[i - 1] != 0x0a,
            start == i ==> i == 0 || patch@[i - 1] == 0x0a,
            whole_lines(patch@.take(i as int)) == if start < i {
                bytes::lists(lines@).push(patch@.subrange(start as int, i as int))
            } else {
                bytes::lists(lines@)
            },
        decreases patch@.len() - i,
    {
        let ghost so_far = bytes::lists(lines@);
        let ghost known = whole_lines(patch@.take(i as int));
        let ghost more = patch@.take(i + 1);
        proof {
            assert(more.drop_last() =~= patch@.take(i as int));
            assert(more.last() == patch@[i as int]);
            if i > 0 {
                assert(patch@.take(i as int).last() == patch@[i - 1]);
            }
            if start < i {
                assert(known.drop_last() =~= so_far);
                assert(known.last() == patch@.subrange(start as int, i as int));
            }
            assert(patch@.subrange(start as int, i + 1) =~= patch@.subrange(
                start as int,
                i as int,
            ).push(patch@[i as int]));
            if start == i {
                assert(patch@.subrange(start as int, i + 1) =~= seq![patch@[i as int]]);
            }
            assert(patch@.take(i as int).len() == i);
            assert(whole_lines(more) =~= so_far.push(patch@.subrange(start as int, i + 1)));
        }
        if patch[i] == 0x0a {
            let line = copy_range(patch, start, i + 1);
            lines.push(line);
            start = i + 1;
            proof {
                assert(bytes::lists(lines@) =~= so_far.push(line@));
            }
        }
        i = i + 1;
    }
    proof {
        assert(patch@.take(i as int) =~= patch@);
    }
    if start < patch.len() {
        let ghost so_far = bytes::lists(lines@);
        let line = copy_range(patch, start, patch.len());
        lines.push(line);
        proof {
            assert(bytes::lists(lines@) =~= so_far.push(line@));
        }
    }
    lines
}

/// A patch between two snapshot directories as a patch of the repository: its
/// headers name paths relative to the directories.
pub fn normalize_snapshot_prefixes(patch: Vec<u8>, before: &[u8], after: &[u8]) -> (normalized: Vec<
    u8,
>)
    ensures
        normalized@ == relative_patch(whole_lines(patch@), before@, after@),
{
    let lines = cut_lines(patch.as_slice());
    let ghost models = bytes::lists(lines@);
    let mut normalized: Vec<u8> = Vec::new();
    let mut i: usize = 0;
    proof {
        assert(models.take(0) =~= Seq::<Seq<u8>>::empty());
    }
    while i < lines.len()
        invariant
            i <= lines@.len(),
            models == bytes::lists(lines@),
            normalized@ == relative_patch(models.take(i as int), before@, after@),
        decreases lines@.len() - i,
    {
        let line = &lines[i];
        proof {
            assert(models.take(i + 1).drop_last() =~= models.take(i as int));
            assert(models[i as int] == line@);
        }
        if line_names_paths(line.as_slice()) {
            let header = normalize_snapshot_header(line.as_slice(), before, after);
            append(&mut normalized, header.as_slice());
        } else {
            append(&mut normalized, line.as_slice());
        }
        i = i + 1;
    }
    proof {
        assert(models.take(i as int) =~= models);
    }
    normalized
}

// Patches of new files.

/// Whether a byte stands for itself in a quoted path.
pub open spec fn is_graphic(byte: u8) -> bool {
    0x21 <= byte <= 0x7e
}

/// Whether a byte has to be quoted.
pub open spec fn is_special(byte: u8) -> bool {
    !is_graphic(byte) || byte == 0x22 || byte == 0x5c
}

/// A byte inside of quotes.
pub open spec fn quoted_byte(byte: u8) -> Seq<u8> {
    if byte == 0x22 || byte == 0x5c {
        seq![0x5cu8, byte]
    } else if byte == 0x0a {
        seq![0x5cu8, 0x6eu8]
    } else if byte == 0x09 {
        seq![0x5cu8, 0x74u8]
    } else if is_graphic(byte) {
        seq![byte]
    } else {
        seq![
            0x5cu8,
            (0x30 + byte / 64) as u8,
            (0x30 + byte / 8 % 8) as u8,
            (0x30 + byte % 8) as u8,
        ]
    }
}

/// Bytes inside of quotes.
pub open spec fn quoted_bytes(path: Seq<u8>) -> Seq<u8>
    decreases path.len(),
{
    if path.len() == 0 {
        Seq::<u8>::empty()
    } else {
        quoted_bytes(path.drop_last()) + quoted_byte(path.last())
    }
}

/// Whether a path has to be quoted.
pub open spec fn needs_quotes(path: Seq<u8>) -> bool {
    exists|k: int| 0 <= k < path.len() && is_special(#[trigger] path[k])
}

/// A path as git writes it.
pub open spec fn quoted_path(path: Seq<u8>) -> Seq<u8> {
    if needs_quotes(path) {
        seq![0x22u8] + quoted_bytes(path) + seq![0x22u8]
    } else {
        path
    }
}

fn graphic(byte: u8) -> (yes: bool)
    ensures
        yes == is_graphic(byte),
{
    0x21 <= byte && byte <= 0x7e
}

fn push_quoted(quoted: &mut Vec<u8>, byte: u8)
    ensures
        final(quoted)@ == old(quoted)@ + quoted_byte(byte),
{
    let ghost before = quoted@;
    if byte == 0x22 || byte == 0x5c {
        quoted.push(0x5c);
        quoted.push(byte);
    } else if byte == 0x0a {
        quoted.push(0x5c);
        quoted.push(0x6e);
    } else if byte == 0x09 {
        quoted.push(0x5c);
        quoted.push(0x74);
    } else if graphic(byte) {
        quoted.push(byte);
    } else {
        quoted.push(0x5c);
        quoted.push(0x30 + byte / 64);
        quoted.push(0x30 + byte / 8 % 8);
        quoted.push(0x30 + byte % 8);
    }
    proof {
        assert(quoted@ =~= before + quoted_byte(byte));
    }
}

/// A path behind a prefix as git writes it: in quotes where a byte of it is
/// special.
pub fn git_quote_path(path: &[u8], prefix: &[u8]) -> (quoted: Vec<u8>)
    ensures
        quoted@ == quoted_path(prefix@ + path@),
{
    let mut full = copy_all(prefix);
    append(&mut full, path);
    let mut special = false;
    let mut i: usize = 0;
    while i < full.len()
        invariant
            i <= full@.len(),
            special == exists|k: int| 0 <= k < i && is_special(#[trigger] full@[k]),
        decreases full@.len() - i,
    {
        let byte: u8 = full[i];
        if !graphic(byte) || byte == 0x22 || byte == 0x5c {
            special = true;
            proof {
                assert(is_special(full@[i as int]));
            }
        }
        i = i + 1;
    }
    if !special {
        return full;
    }
    let mut quoted: Vec<u8> = Vec::new();
    quoted.push(0x22);
    let mut k: usize = 0;
    proof {
        assert(full@.take(0) =~= Seq::<u8>::empty());
        assert(quoted@ =~= seq![0x22u8] + quoted_bytes(full@.take(0)));
    }
    while k < full.len()
        invariant
            k <= full@.len(),
            quoted@ == seq![0x22u8] + quoted_bytes(full@.take(k as int)),
        decreases full@.len() - k,
    {
        push_quoted(&mut quoted, full[k]);
        proof {
            assert(full@.take(k + 1).drop_last() =~= full@.take(k as int));
            assert(quoted@ =~= seq![0x22u8] + quoted_bytes(full@.take(k + 1)));
        }
        k = k + 1;
    }
    proof {
        assert(full@.take(k as int) =~= full@);
    }
    quoted.push(0x22);
    proof {
        assert(quoted@ =~= quoted_path(full@));
    }
    quoted
}

/// Calls `std::str::from_utf8` and says whether it succeeded, which it does on
/// valid UTF-8 alone.
#[verifier::external_body]
fn is_utf8(content: &[u8]) -> (yes: bool)
    ensures
        yes == vstd::utf8::valid_utf8(content@),
{
    std::str::from_utf8(content).is_ok()
}

/// Whether a file holds no text.
pub open spec fn is_binary(content: Seq<u8>) -> bool {
    content.contains(0) || !vstd::utf8::valid_utf8(content)
}

/// The first lines of the patch of a new file.
pub open spec fn new_file_head(path: Seq<u8>, mode: Seq<char>) -> Seq<u8> {
    let a = quoted_path(utf8("a/"@) + path);
    let b = quoted_path(utf8("b/"@) + path);
    utf8(SECTION_HEADER@) + a + seq![0x20u8] + b + seq![0x0au8] + utf8("new file mode "@) + utf8(
        mode,
    ) + utf8("\n--- /dev/null\n+++ "@) + b + seq![0x0au8]
}

/// Lines that are added.
pub open spec fn added_lines(lines: Seq<Seq<u8>>) -> Seq<u8>
    decreases lines.len(),
{
    if lines.len() == 0 {
        Seq::<u8>::empty()
    } else {
        added_lines(lines.drop_last()) + seq![0x2bu8] + lines.last() + seq![0x0au8]
    }
}

/// The lines of a file that is not empty; an end of line at the end starts no
/// further line.
pub open spec fn file_lines(content: Seq<u8>) -> Seq<Seq<u8>> {
    let all = bytes::pieces(content, 0x0a);
    if content.last() == 0x0a {
        all.drop_last()
    } else {
        all
    }
}

/// The patch of a new file.
pub open spec fn new_file(path: Seq<u8>, mode: Seq<char>, content: Seq<u8>) -> Seq<u8> {
    let b = quoted_path(utf8("b/"@) + path);
    let head = new_file_head(path, mode);
    if is_binary(content) {
        head + utf8("Binary files /dev/null and "@) + b + utf8(" differ\n"@)
    } else if content.len() == 0 {
        head
    } else {
        head + utf8("@@ -0,0 +1,"@) + utf8(number::decimal_of(file_lines(content).len())) + utf8(
            " @@\n"@,
        ) + added_lines(file_lines(content)) + if content.last() == 0x0a {
            Seq::<u8>::empty()
        } else {
            utf8("\\ No newline at end of file\n"@)
        }
    }
}

fn has_zero(content: &[u8]) -> (yes: bool)
    ensures
        yes == content@.contains(0),
{
    let mut i: usize = 0;
    while i < content.len()
        invariant
            i <= content@.len(),
            forall|k: int| 0 <= k < i ==> #[trigger] content@[k] != 0,
        decreases content@.len() - i,
    {
        if content[i] == 0 {
            proof {
                assert(content@[i as int] == 0);
            }
            return true;
        }
        i = i + 1;
    }
    false
}

/// The patch of a new file. A file that holds no text is only named.
pub fn new_file_patch(path: &[u8], mode: &str, content: &[u8]) -> (patch: Vec<u8>)
    ensures
        patch@ == new_file(path@, mode@, content@),
{
    let a = git_quote_path(path, "a/".as_bytes());
    let b = git_quote_path(path, "b/".as_bytes());
    let mut patch = copy_all(SECTION_HEADER.as_bytes());
    append(&mut patch, a.as_slice());
    patch.push(0x20);
    append(&mut patch, b.as_slice());
    patch.push(0x0a);
    append(&mut patch, "new file mode ".as_bytes());
    append(&mut patch, mode.as_bytes());
    append(&mut patch, "\n--- /dev/null\n+++ ".as_bytes());
    append(&mut patch, b.as_slice());
    patch.push(0x0a);
    proof {
        assert(patch@ =~= new_file_head(path@, mode@));
    }
    if has_zero(content) || !is_utf8(content) {
        append(&mut patch, "Binary files /dev/null and ".as_bytes());
        append(&mut patch, b.as_slice());
        append(&mut patch, " differ\n".as_bytes());
        return patch;
    }
    if content.len() == 0 {
        return patch;
    }
    let lines = split(content, 0x0a);
    let ends_newline = content[content.len() - 1] == 0x0a;
    let count: usize = if ends_newline {
        lines.len() - 1
    } else {
        lines.len()
    };
    let ghost wanted = file_lines(content@);
    proof {
        assert(content@.last() == content@[content@.len() - 1]);
        assert(bytes::lists(lines@).len() == lines@.len());
        assert(wanted.len() == count);
        assert(wanted =~= bytes::lists(lines@).take(count as int));
    }
    append(&mut patch, "@@ -0,0 +1,".as_bytes());
    append(&mut patch, decimal(count as u64).as_str().as_bytes());
    append(&mut patch, " @@\n".as_bytes());
    let ghost before = patch@;
    let mut i: usize = 0;
    proof {
        assert(wanted.take(0) =~= Seq::<Seq<u8>>::empty());
        assert(before + added_lines(wanted.take(0)) =~= before);
    }
    while i < count
        invariant
            i <= count <= lines@.len(),
            wanted == bytes::lists(lines@).take(count as int),
            patch@ == before + added_lines(wanted.take(i as int)),
        decreases count - i,
    {
        patch.push(0x2b);
        append(&mut patch, lines[i].as_slice());
        patch.push(0x0a);
        proof {
            assert(wanted.take(i + 1).drop_last() =~= wanted.take(i as int));
            assert(wanted[i as int] == lines@[i as int]@);
            assert(patch@ =~= before + added_lines(wanted.take(i + 1)));
        }
        i = i + 1;
    }
    proof {
        assert(wanted.take(i as int) =~= wanted);
    }
    if !ends_newline {
        append(&mut patch, "\\ No newline at end of file\n".as_bytes());
    }
    proof {
        assert(patch@ =~= new_file(path@, mode@, content@));
    }
    patch
}

// Counting.

/// Whether a line is the header of a side.
pub open spec fn is_side_header(line: Seq<u8>) -> bool {
    scan::starts(line, utf8("+++"@)) || scan::starts(line, utf8("---"@))
}

/// How many lines start with a byte, headers of sides left out.
pub open spec fn lines_with(lines: Seq<Seq<u8>>, mark: Seq<char>) -> nat
    decreases lines.len(),
{
    if lines.len() == 0 {
        0
    } else {
        let before = lines_with(lines.drop_last(), mark);
        if !is_side_header(lines.last()) && scan::starts(lines.last(), utf8(mark)) {
            before + 1
        } else {
            before
        }
    }
}

/// How many lines a patch adds and deletes.
pub fn patch_stat(patch: &[u8]) -> (stat: (usize, usize))
    ensures
        stat.0 == lines_with(bytes::pieces(patch@, 0x0a), "+"@),
        stat.1 == lines_with(bytes::pieces(patch@, 0x0a), "-"@),
{
    let lines = split(patch, 0x0a);
    let ghost models = bytes::lists(lines@);
    let mut additions: usize = 0;
    let mut deletions: usize = 0;
    let mut i: usize = 0;
    proof {
        assert(models.take(0) =~= Seq::<Seq<u8>>::empty());
    }
    while i < lines.len()
        invariant
            i <= lines@.len(),
            models == bytes::lists(lines@),
            additions <= i,
            deletions <= i,
            additions == lines_with(models.take(i as int), "+"@),
            deletions == lines_with(models.take(i as int), "-"@),
        decreases lines@.len() - i,
    {
        let line = &lines[i];
        proof {
            assert(models.take(i + 1).drop_last() =~= models.take(i as int));
            assert(models[i as int] == line@);
        }
        let header = bytes_at(line.as_slice(), "+++".as_bytes(), 0) || bytes_at(
            line.as_slice(),
            "---".as_bytes(),
            0,
        );
        if !header && bytes_at(line.as_slice(), "+".as_bytes(), 0) {
            additions = additions + 1;
        }
        if !header && bytes_at(line.as_slice(), "-".as_bytes(), 0) {
            deletions = deletions + 1;
        }
        i = i + 1;
    }
    proof {
        assert(models.take(i as int) =~= models);
    }
    (additions, deletions)
}

// Laws of quoting.

proof fn first_piece(value: Seq<u8>, separator: u8, end: int)
    requires
        0 <= end <= value.len(),
        end < value.len() ==> value[end] == separator,
        forall|k: int| 0 <= k < end ==> #[trigger] value[k] != separator,
    ensures
        bytes::pieces(value, separator).len() > 0,
        bytes::pieces(value, separator)[0] == value.take(end),
        end == value.len() ==> bytes::pieces(value, separator).len() == 1,
    decreases value.len(),
{
    if value.len() == 0 {
        assert(value.take(end) =~= Seq::<u8>::empty());
    } else {
        let rest = value.drop_last();
        assert forall|k: int| 0 <= k < end && k < rest.len() implies #[trigger] rest[k]
            != separator by {
            assert(rest[k] == value[k]);
        }
        if end == value.len() {
            first_piece(rest, separator, end - 1);
            assert(value[value.len() - 1] != separator);
            assert(rest.take(end - 1).push(value.last()) =~= value.take(end));
            assert(bytes::pieces(rest, separator).drop_last() =~= Seq::<Seq<u8>>::empty());
        } else {
            first_piece(rest, separator, end);
            assert(rest.take(end) =~= value.take(end));
            let before = bytes::pieces(rest, separator);
            if value.last() != separator {
                assert(end < value.len() - 1);
                more_pieces(rest, separator, end);
                assert(before.drop_last().push(before.last().push(value.last()))[0] == before[0]);
            } else {
                assert(before.push(Seq::<u8>::empty())[0] == before[0]);
            }
        }
    }
}

proof fn more_pieces(value: Seq<u8>, separator: u8, at: int)
    requires
        0 <= at < value.len(),
        value[at] == separator,
    ensures
        bytes::pieces(value, separator).len() > 1,
    decreases value.len(),
{
    pieces_exist(value.drop_last(), separator);
    if at < value.len() - 1 {
        assert(value.drop_last()[at] == separator);
        more_pieces(value.drop_last(), separator, at);
    }
}

proof fn pieces_exist(value: Seq<u8>, separator: u8)
    ensures
        bytes::pieces(value, separator).len() > 0,
    decreases value.len(),
{
    if value.len() > 0 {
        pieces_exist(value.drop_last(), separator);
    }
}

proof fn quoted_from_the_front(path: Seq<u8>)
    requires
        path.len() > 0,
    ensures
        quoted_bytes(path) == quoted_byte(path[0]) + quoted_bytes(path.skip(1)),
    decreases path.len(),
{
    if path.len() == 1 {
        assert(path.skip(1) =~= Seq::<u8>::empty());
        assert(path.drop_last() =~= Seq::<u8>::empty());
        assert(quoted_bytes(path) =~= quoted_byte(path[0]) + quoted_bytes(path.skip(1)));
    } else {
        let rest = path.skip(1);
        quoted_from_the_front(path.drop_last());
        assert(path.drop_last().skip(1) =~= rest.drop_last());
        assert(rest.last() == path.last());
        assert(quoted_bytes(path) =~= quoted_byte(path[0]) + quoted_bytes(path.skip(1)));
    }
}

proof fn octal_reads_back(byte: u8)
    ensures
        octal_value(
            (0x30 + byte / 64) as u8,
            (0x30 + byte / 8 % 8) as u8,
            (0x30 + byte % 8) as u8,
        ) == byte,
        is_octal((0x30 + byte / 64) as u8),
        is_octal((0x30 + byte / 8 % 8) as u8),
        is_octal((0x30 + byte % 8) as u8),
{
    assert(byte == (byte / 64) * 64 + (byte / 8 % 8) * 8 + byte % 8) by {
        assert(byte / 8 == (byte / 64) * 8 + byte / 8 % 8) by (bit_vector);
        assert(byte == (byte / 8) * 8 + byte % 8) by (bit_vector);
    }
}

proof fn quoted_byte_is_read(value: Seq<u8>, at: int, byte: u8)
    requires
        scan::stands_at(value, quoted_byte(byte), at),
    ensures
        unquoted(value, at) == match unquoted(value, at + quoted_byte(byte).len()) {
            Some(rest) => Some(seq![byte] + rest),
            None => None::<Seq<u8>>,
        },
        quoted_end(value, at, false) == quoted_end(value, at + quoted_byte(byte).len(), false),
{
    let quoted = quoted_byte(byte);
    let part = value.subrange(at, at + quoted.len());
    assert(part == quoted);
    assert(value[at] == part[0]);
    octal_reads_back(byte);
    reveal_with_fuel(quoted_end, 5);
    if quoted.len() > 1 {
        assert(value[at + 1] == part[1]);
    }
    if quoted.len() > 2 {
        assert(value[at + 2] == part[2]);
        assert(value[at + 3] == part[3]);
    }
}

proof fn quoted_bytes_are_read(value: Seq<u8>, at: int, path: Seq<u8>)
    requires
        scan::stands_at(value, quoted_bytes(path), at),
        at + quoted_bytes(path).len() < value.len(),
        value[at + quoted_bytes(path).len()] == 0x22,
    ensures
        unquoted(value, at) == Some(path),
        quoted_end(value, at, false) == Some(at + quoted_bytes(path).len() + 1),
    decreases path.len(),
{
    if path.len() == 0 {
        assert(path =~= Seq::<u8>::empty());
    } else {
        quoted_from_the_front(path);
        let first = quoted_byte(path[0]);
        let rest = quoted_bytes(path.skip(1));
        let part = value.subrange(at, at + quoted_bytes(path).len());
        assert(part == first + rest);
        assert(value.subrange(at, at + first.len()) =~= part.subrange(0, first.len() as int));
        assert(part.subrange(0, first.len() as int) =~= first);
        assert(value.subrange(at + first.len(), at + first.len() + rest.len()) =~= part.subrange(
            first.len() as int,
            part.len() as int,
        ));
        assert(part.subrange(first.len() as int, part.len() as int) =~= rest);
        quoted_byte_is_read(value, at, path[0]);
        quoted_bytes_are_read(value, at + first.len(), path.skip(1));
        assert(seq![path[0]] + path.skip(1) =~= path);
    }
}

proof fn blank_found(value: Seq<u8>, at: int, from: int)
    requires
        0 <= from <= at < value.len(),
        value[at] == 0x20,
        forall|k: int| from <= k < at ==> #[trigger] value[k] != 0x20,
    ensures
        blank_from(value, from) == Some(at),
    decreases at - from,
{
    if from < at {
        assert(value[from] != 0x20);
        blank_found(value, at, from + 1);
    }
}

/// A path that was quoted is read back as it is, alone or with more behind a
/// blank, and its end is found.
pub proof fn quoted_path_reads_back(path: Seq<u8>, tail: Seq<u8>)
    requires
        tail.len() == 0 || tail[0] == 0x20,
    ensures
        path_token(quoted_path(path) + tail) == Some(path),
        tail.len() > 0 ==> token_len(quoted_path(path) + tail) == Some(
            quoted_path(path).len() as int,
        ),
{
    let value = quoted_path(path) + tail;
    if needs_quotes(path) {
        let inner = quoted_bytes(path);
        assert(value.subrange(1, 1 + inner.len() as int) =~= inner);
        assert(value[0] == 0x22);
        assert(value[1 + inner.len() as int] == 0x22);
        quoted_bytes_are_read(value, 1, path);
    } else {
        assert forall|k: int| 0 <= k < path.len() implies #[trigger] value[k] != 0x20 by {
            assert(value[k] == path[k]);
            assert(!is_special(path[k]));
        }
        if path.len() > 0 {
            assert(value[0] == path[0]);
            assert(!is_special(path[0]));
        }
        first_piece(value, 0x20, path.len() as int);
        assert(value.take(path.len() as int) =~= path);
        if tail.len() > 0 {
            assert(value[path.len() as int] == 0x20);
            blank_found(value, path.len() as int, 0);
        }
    }
}

proof fn quoted_has_no_line_end(path: Seq<u8>)
    ensures
        forall|k: int| 0 <= k < quoted_bytes(path).len() ==> #[trigger] quoted_bytes(path)[k]
            != 0x0a,
    decreases path.len(),
{
    if path.len() > 0 {
        quoted_has_no_line_end(path.drop_last());
        let before = quoted_bytes(path.drop_last());
        let own = quoted_byte(path.last());
        octal_reads_back(path.last());
        let all = quoted_bytes(path);
        assert forall|k: int| 0 <= k < all.len() implies #[trigger] all[k] != 0x0a by {
            if k < before.len() {
                assert(all[k] == before[k]);
            } else {
                assert(all[k] == own[k - before.len()]);
            }
        }
    }
}

proof fn quoted_path_is_one_line(path: Seq<u8>)
    ensures
        forall|k: int| 0 <= k < quoted_path(path).len() ==> #[trigger] quoted_path(path)[k] != 0x0a,
{
    quoted_has_no_line_end(path);
    let all = quoted_path(path);
    assert forall|k: int| 0 <= k < all.len() implies #[trigger] all[k] != 0x0a by {
        if needs_quotes(path) {
            if 0 < k < all.len() - 1 {
                assert(all[k] == quoted_bytes(path)[k - 1]);
            }
        } else {
            assert(!is_special(path[k]));
        }
    }
}

/// The first line of the patch of a new file.
spec fn new_file_line(path: Seq<u8>) -> Seq<u8> {
    utf8(SECTION_HEADER@) + quoted_path(utf8("a/"@) + path) + seq![0x20u8] + quoted_path(
        utf8("b/"@) + path,
    )
}

proof fn new_file_starts(path: Seq<u8>, mode: Seq<char>, content: Seq<u8>)
    ensures
        scan::starts(new_file(path, mode, content), new_file_head(path, mode)),
{
    let patch = new_file(path, mode, content);
    let head = new_file_head(path, mode);
    assert(patch.subrange(0, head.len() as int) =~= head);
}

proof fn new_file_line_is_one_line(path: Seq<u8>)
    ensures
        forall|k: int| 0 <= k < new_file_line(path).len() ==> #[trigger] new_file_line(path)[k]
            != 0x0a,
{
    let header = utf8(SECTION_HEADER@);
    let a = quoted_path(utf8("a/"@) + path);
    let b = quoted_path(utf8("b/"@) + path);
    let line = new_file_line(path);
    reveal_strlit("diff --git ");
    vstd::utf8::is_ascii_chars_encode_utf8(SECTION_HEADER@);
    quoted_path_is_one_line(utf8("a/"@) + path);
    quoted_path_is_one_line(utf8("b/"@) + path);
    assert forall|k: int| 0 <= k < line.len() implies #[trigger] line[k] != 0x0a by {
        if k < header.len() {
            assert(line[k] == header[k]);
            assert(SECTION_HEADER@[k] as u8 == header[k]);
        } else if k < header.len() + a.len() {
            assert(line[k] == a[k - header.len()]);
        } else if k > header.len() + a.len() {
            assert(line[k] == b[k - header.len() - a.len() - 1]);
        }
    }
}

proof fn first_line_of(patch: Seq<u8>, line: Seq<u8>)
    requires
        scan::starts(patch, line),
        patch.len() > line.len(),
        patch[line.len() as int] == 0x0a,
        forall|k: int| 0 <= k < line.len() ==> #[trigger] line[k] != 0x0a,
    ensures
        bytes::pieces(patch, 0x0a)[0] == line,
{
    assert forall|k: int| 0 <= k < line.len() implies #[trigger] patch[k] != 0x0a by {
        assert(patch.subrange(0, line.len() as int)[k] == patch[k]);
        assert(line[k] != 0x0a);
    }
    first_piece(patch, 0x0a, line.len() as int);
    assert(patch.take(line.len() as int) =~= patch.subrange(0, line.len() as int));
}

proof fn new_side(path: Seq<u8>)
    ensures
        side_path(utf8("b/"@) + path, "b/"@) == Some(path),
{
    let token = utf8("b/"@) + path;
    reveal_strlit("b/");
    vstd::utf8::is_ascii_chars_encode_utf8("b/"@);
    reveal_strlit("/dev/null");
    vstd::utf8::is_ascii_chars_encode_utf8(DEV_NULL@);
    assert("b/"@[0] as u8 == utf8("b/"@)[0]);
    assert(DEV_NULL@[0] as u8 == utf8(DEV_NULL@)[0]);
    assert(token[0] == 0x62);
    assert(utf8(DEV_NULL@)[0] == 0x2f);
    assert(token.subrange(0, utf8("b/"@).len() as int) =~= utf8("b/"@));
    assert(token.skip(utf8("b/"@).len() as int) =~= path);
}

proof fn old_side_is_no_file(patch: Seq<u8>, at: int)
    requires
        scan::stands_at(patch, utf8("\n--- /dev/null\n+++ "@), at),
    ensures
        scan::contains_text(patch, utf8("\n--- /dev/null\n"@)),
{
    let none = utf8("\n--- /dev/null\n"@);
    let marks = utf8("\n--- /dev/null\n+++ "@);
    reveal_strlit("\n--- /dev/null\n");
    reveal_strlit("\n--- /dev/null\n+++ ");
    vstd::utf8::is_ascii_chars_encode_utf8("\n--- /dev/null\n"@);
    vstd::utf8::is_ascii_chars_encode_utf8("\n--- /dev/null\n+++ "@);
    assert forall|k: int| 0 <= k < none.len() implies marks[k] == none[k] by {
        assert("\n--- /dev/null\n"@[k] as u8 == none[k]);
        assert("\n--- /dev/null\n+++ "@[k] as u8 == marks[k]);
    }
    assert(marks.subrange(0, none.len() as int) =~= none);
    let part = patch.subrange(at, at + marks.len());
    assert(patch.subrange(at, at + none.len()) =~= part.subrange(0, none.len() as int));
    assert(scan::stands_at(patch, none, at));
}

proof fn parts_of_a_head(
    patch: Seq<u8>,
    line: Seq<u8>,
    middle: Seq<u8>,
    marks: Seq<u8>,
    name: Seq<u8>,
)
    requires
        scan::starts(patch, line + seq![0x0au8] + middle + marks + name + seq![0x0au8]),
    ensures
        scan::starts(patch, line),
        patch.len() > line.len(),
        patch[line.len() as int] == 0x0a,
        scan::stands_at(patch, marks, line.len() as int + 1 + middle.len()),
{
    let head = line + seq![0x0au8] + middle + marks + name + seq![0x0au8];
    let at = line.len() as int + 1 + middle.len();
    assert(patch.subrange(0, head.len() as int) == head);
    assert(patch.subrange(0, line.len() as int) =~= head.subrange(0, line.len() as int));
    assert(head.subrange(0, line.len() as int) =~= line);
    assert(patch[line.len() as int] == patch.subrange(0, head.len() as int)[line.len() as int]);
    assert(patch.subrange(at, at + marks.len()) =~= head.subrange(at, at + marks.len()));
    assert(head.subrange(at, at + marks.len()) =~= marks);
}

proof fn tokens_of_a_line(header: Seq<u8>, old: Seq<u8>, new: Seq<u8>)
    ensures
        ({
            let line = header + quoted_path(old) + seq![0x20u8] + quoted_path(new);
            let value = line.skip(header.len() as int);
            let remainder = value.skip(quoted_path(old).len() as int);
            &&& scan::starts(line, header)
            &&& path_token(value) == Some(old)
            &&& token_len(value) == Some(quoted_path(old).len() as int)
            &&& remainder.len() > 0
            &&& remainder[0] == 0x20
            &&& path_token(remainder.skip(1)) == Some(new)
        }),
{
    let a = quoted_path(old);
    let b = quoted_path(new);
    let line = header + a + seq![0x20u8] + b;
    let value = line.skip(header.len() as int);
    let rest = seq![0x20u8] + b;
    assert(line.subrange(0, header.len() as int) =~= header);
    assert(value =~= a + rest);
    quoted_path_reads_back(old, rest);
    let remainder = value.skip(a.len() as int);
    assert(remainder =~= rest);
    assert(remainder.skip(1) =~= b + Seq::<u8>::empty());
    quoted_path_reads_back(new, Seq::<u8>::empty());
}

/// The patch of a new file is a section that names the file, and no file before.
/// A file with a line that reads like the header of a deleted file is left out.
pub proof fn new_file_names_its_path(path: Seq<u8>, mode: Seq<char>, content: Seq<u8>)
    requires
        !scan::contains_text(new_file(path, mode, content), utf8("\n+++ /dev/null\n"@)),
    ensures
        section_paths(new_file(path, mode, content)) == Some(
            PathsModel { old: None::<Seq<u8>>, new: Some(path) },
        ),
{
    let patch = new_file(path, mode, content);
    let b = quoted_path(utf8("b/"@) + path);
    let line = new_file_line(path);
    let middle = utf8("new file mode "@) + utf8(mode);
    let marks = utf8("\n--- /dev/null\n+++ "@);
    new_file_starts(path, mode, content);
    assert(new_file_head(path, mode) =~= line + seq![0x0au8] + middle + marks + b
        + seq![0x0au8]);
    parts_of_a_head(patch, line, middle, marks, b);
    new_file_line_is_one_line(path);
    first_line_of(patch, line);
    old_side_is_no_file(patch, line.len() as int + 1 + middle.len());
    tokens_of_a_line(utf8(SECTION_HEADER@), utf8("a/"@) + path, utf8("b/"@) + path);
    new_side(path);
}

// What a patch of a new file gives when it is applied.

/// The text of lines that each start with a plus and end with a line end, without the
/// pluses; `fresh` says whether a line starts here. Other bytes are no such lines.
pub open spec fn without_pluses(lines: Seq<u8>, fresh: bool) -> Option<Seq<u8>>
    decreases lines.len(),
{
    if lines.len() == 0 {
        if fresh {
            Some(Seq::empty())
        } else {
            None
        }
    } else if fresh {
        if lines[0] == 0x2b {
            without_pluses(lines.skip(1), false)
        } else {
            None
        }
    } else {
        match without_pluses(lines.skip(1), lines[0] == 0x0a) {
            Some(rest) => Some(seq![lines[0]] + rest),
            None => None,
        }
    }
}

/// The file that the lines of a hunk make out of nothing. The last line end is none of
/// the file where a note below says so.
pub open spec fn file_made_by(hunk: Seq<u8>) -> Option<Seq<u8>> {
    let note = utf8("\n\\ No newline at end of file\n"@);
    if scan::ends(hunk, note) {
        match without_pluses(hunk.take(hunk.len() - note.len() + 1), true) {
            Some(text) => Some(text.drop_last()),
            None => None,
        }
    } else {
        without_pluses(hunk, true)
    }
}

proof fn pluses_go_one_by_one(first: Seq<u8>, second: Seq<u8>, fresh: bool)
    requires
        without_pluses(first, fresh) is Some,
    ensures
        without_pluses(first + second, fresh) == match without_pluses(second, true) {
            Some(rest) => Some(without_pluses(first, fresh)->0 + rest),
            None => None,
        },
    decreases first.len(),
{
    if first.len() == 0 {
        assert(first + second =~= second);
        if let Some(rest) = without_pluses(second, true) {
            assert(Seq::<u8>::empty() + rest =~= rest);
        }
    } else {
        let all = first + second;
        assert(all.skip(1) =~= first.skip(1) + second);
        if fresh {
            pluses_go_one_by_one(first.skip(1), second, false);
        } else {
            pluses_go_one_by_one(first.skip(1), second, first[0] == 0x0a);
            if let Some(rest) = without_pluses(second, true) {
                let inner = without_pluses(first.skip(1), first[0] == 0x0a)->0;
                assert(seq![first[0]] + (inner + rest) =~= (seq![first[0]] + inner) + rest);
            }
        }
    }
}

proof fn a_line_keeps_its_text(line: Seq<u8>)
    requires
        !line.contains(0x0a),
    ensures
        without_pluses(line.push(0x0a), false) == Some(line.push(0x0a)),
    decreases line.len(),
{
    let whole = line.push(0x0a);
    if line.len() == 0 {
        assert(whole.skip(1) =~= Seq::<u8>::empty());
        assert(seq![0x0au8] + Seq::<u8>::empty() =~= whole);
        assert(without_pluses(whole.skip(1), true) == Some(Seq::<u8>::empty()));
    } else {
        let rest = line.skip(1);
        assert(line.contains(line[0]));
        assert(!rest.contains(0x0a)) by {
            if rest.contains(0x0a) {
                let at = rest.index_of(0x0a);
                assert(line[at + 1] == 0x0a);
            }
        }
        a_line_keeps_its_text(rest);
        assert(whole.skip(1) =~= rest.push(0x0a));
        assert(seq![line[0]] + rest.push(0x0a) =~= whole);
    }
}

/// Lines, each with its end.
spec fn ended_lines(lines: Seq<Seq<u8>>) -> Seq<u8>
    decreases lines.len(),
{
    if lines.len() == 0 {
        Seq::empty()
    } else {
        ended_lines(lines.drop_last()) + lines.last().push(0x0a)
    }
}

proof fn added_lines_lose_their_pluses(lines: Seq<Seq<u8>>)
    requires
        forall|i: int| 0 <= i < lines.len() ==> !(#[trigger] lines[i]).contains(0x0a),
    ensures
        without_pluses(added_lines(lines), true) == Some(ended_lines(lines)),
    decreases lines.len(),
{
    if lines.len() > 0 {
        let before = lines.drop_last();
        let line = lines.last();
        let one = seq![0x2bu8] + line.push(0x0a);
        added_lines_lose_their_pluses(before);
        assert(added_lines(lines) =~= added_lines(before) + one);
        assert(!lines[lines.len() - 1].contains(0x0a));
        a_line_keeps_its_text(line);
        assert(one.skip(1) =~= line.push(0x0a));
        pluses_go_one_by_one(added_lines(before), one, true);
    }
}

proof fn ended_pieces_are_the_bytes(content: Seq<u8>)
    ensures
        ended_lines(bytes::pieces(content, 0x0a)) == content.push(0x0a),
        bytes::pieces(content, 0x0a).len() > 0,
    decreases content.len(),
{
    let parts = bytes::pieces(content, 0x0a);
    if content.len() == 0 {
        assert(parts.drop_last() =~= Seq::<Seq<u8>>::empty());
        assert(ended_lines(parts.drop_last()) =~= Seq::<u8>::empty());
        assert(ended_lines(parts) =~= content.push(0x0a));
    } else {
        let shorter = content.drop_last();
        let before = bytes::pieces(shorter, 0x0a);
        ended_pieces_are_the_bytes(shorter);
        if content.last() == 0x0a {
            assert(parts.drop_last() =~= before);
            assert(content =~= shorter.push(0x0a));
            assert(ended_lines(parts) =~= content.push(0x0a));
        } else {
            assert(parts.drop_last() =~= before.drop_last());
            let head = ended_lines(before.drop_last());
            assert(head + before.last().push(0x0a) == shorter.push(0x0a));
            assert(shorter =~= shorter.push(0x0a).drop_last());
            assert((head + before.last().push(0x0a)).drop_last() =~= head + before.last());
            assert(shorter == head + before.last());
            assert(parts.last() == before.last().push(content.last()));
            assert(content =~= shorter.push(content.last()));
            assert(head + before.last().push(content.last()).push(0x0a) =~= content.push(0x0a));
        }
    }
}

proof fn lines_of_a_file(content: Seq<u8>)
    requires
        content.len() > 0,
    ensures
        forall|i: int|
            0 <= i < file_lines(content).len() ==> !(#[trigger] file_lines(content)[i]).contains(0x0a),
        ended_lines(file_lines(content)) == if content.last() == 0x0a {
            content
        } else {
            content.push(0x0a)
        },
        file_lines(content).len() == content.filter(|byte: u8| byte == 0x0a).len() + if content.last()
            == 0x0a {
            0int
        } else {
            1int
        },
        file_lines(content).len() > 0,
{
    let parts = bytes::pieces(content, 0x0a);
    bytes::pieces_are_the_bytes(content, 0x0a);
    ended_pieces_are_the_bytes(content);
    if content.last() == 0x0a {
        let shorter = content.drop_last();
        ended_pieces_are_the_bytes(shorter);
        assert(parts.drop_last() =~= bytes::pieces(shorter, 0x0a));
        assert(shorter.push(0x0a) =~= content);
        assert forall|i: int| 0 <= i < file_lines(content).len() implies !(#[trigger] file_lines(
            content,
        )[i]).contains(0x0a) by {
            assert(file_lines(content)[i] == parts[i]);
        }
    }
}

proof fn note_in_bytes()
    ensures
        utf8("\n\\ No newline at end of file\n"@) == seq![0x0au8] + utf8(
            "\\ No newline at end of file\n"@,
        ),
        utf8("\\ No newline at end of file\n"@).len() > 0,
        utf8("\\ No newline at end of file\n"@)[0] == 0x5c,
{
    reveal_strlit("\n\\ No newline at end of file\n");
    reveal_strlit("\\ No newline at end of file\n");
    let long = "\n\\ No newline at end of file\n"@;
    let short = "\\ No newline at end of file\n"@;
    vstd::utf8::is_ascii_chars_encode_utf8(long);
    vstd::utf8::is_ascii_chars_encode_utf8(short);
    assert(long =~= seq!['\n'] + short);
    assert(utf8(long) =~= seq![0x0au8] + utf8(short));
}

proof fn no_line_without_a_plus(lines: Seq<u8>, fresh: bool, at: int)
    requires
        without_pluses(lines, fresh) is Some,
        0 <= at < lines.len() - 1,
        lines[at] == 0x0a,
        !fresh || at > 0,
    ensures
        lines[at + 1] == 0x2b,
    decreases lines.len(),
{
    reveal_with_fuel(without_pluses, 2);
    let rest = lines.skip(1);
    if at == 0 {
        assert(rest[0] == lines[1]);
    } else {
        assert(rest[at - 1] == lines[at]);
        assert(rest[at] == lines[at + 1]);
        if fresh {
            no_line_without_a_plus(rest, false, at - 1);
        } else if at == 1 && lines[0] == 0x0a {
            assert(rest[0] == 0x2b);
        } else {
            no_line_without_a_plus(rest, lines[0] == 0x0a, at - 1);
        }
    }
}

proof fn whole_lines_make_the_file(content: Seq<u8>)
    requires
        content.len() > 0,
        content.last() == 0x0a,
    ensures
        file_made_by(added_lines(file_lines(content))) == Some(content),
{
    let lines = file_lines(content);
    let hunk = added_lines(lines);
    let mark = utf8("\n\\ No newline at end of file\n"@);
    lines_of_a_file(content);
    added_lines_lose_their_pluses(lines);
    note_in_bytes();
    if scan::ends(hunk, mark) {
        let at = hunk.len() - mark.len();
        assert(hunk.subrange(at, at + mark.len())[0] == mark[0]);
        assert(hunk.subrange(at, at + mark.len())[1] == mark[1]);
        assert(hunk[at] == 0x0a);
        assert(hunk[at + 1] == 0x5c);
        assert(hunk[0] == 0x2b);
        no_line_without_a_plus(hunk, true, at);
    }
}

proof fn noted_lines_make_the_file(content: Seq<u8>)
    requires
        content.len() > 0,
        content.last() != 0x0a,
    ensures
        file_made_by(
            added_lines(file_lines(content)) + utf8("\\ No newline at end of file\n"@),
        ) == Some(content),
{
    let lines = file_lines(content);
    let added = added_lines(lines);
    let note = utf8("\\ No newline at end of file\n"@);
    let mark = utf8("\n\\ No newline at end of file\n"@);
    let hunk = added + note;
    lines_of_a_file(content);
    added_lines_lose_their_pluses(lines);
    note_in_bytes();
    let at = added.len() - 1;
    assert(added.last() == 0x0a);
    assert(hunk.subrange(at, hunk.len() as int) =~= mark);
    assert(hunk.take(at + 1) =~= added);
    assert(content.push(0x0a).drop_last() =~= content);
}

/// The patch of a new text file makes the file when it is applied: behind the header
/// comes one hunk, which counts the lines of the file, and whose added lines are the
/// bytes of the file.
pub proof fn new_file_makes_its_content(path: Seq<u8>, mode: Seq<char>, content: Seq<u8>)
    requires
        content.len() > 0,
        !content.contains(0),
        vstd::utf8::valid_utf8(content),
    ensures
        ({
            let ends = content.filter(|byte: u8| byte == 0x0a).len();
            let count = if content.last() == 0x0a {
                ends
            } else {
                ends + 1
            };
            let start = new_file_head(path, mode) + utf8("@@ -0,0 +1,"@) + utf8(
                number::decimal_of(count),
            ) + utf8(" @@\n"@);
            &&& scan::starts(new_file(path, mode, content), start)
            &&& file_made_by(new_file(path, mode, content).skip(start.len() as int)) == Some(
                content,
            )
        }),
{
    let lines = file_lines(content);
    let start = new_file_head(path, mode) + utf8("@@ -0,0 +1,"@) + utf8(
        number::decimal_of(lines.len()),
    ) + utf8(" @@\n"@);
    let hunk = if content.last() == 0x0a {
        added_lines(lines)
    } else {
        added_lines(lines) + utf8("\\ No newline at end of file\n"@)
    };
    lines_of_a_file(content);
    if content.last() == 0x0a {
        whole_lines_make_the_file(content);
    } else {
        noted_lines_make_the_file(content);
    }
    let patch = new_file(path, mode, content);
    assert(patch =~= start + hunk);
    behind_a_start(start, hunk);
}

proof fn behind_a_start(start: Seq<u8>, rest: Seq<u8>)
    ensures
        scan::starts(start + rest, start),
        (start + rest).skip(start.len() as int) == rest,
{
    assert((start + rest).subrange(0, start.len() as int) =~= start);
    assert((start + rest).skip(start.len() as int) =~= rest);
}

/// The patch of a file that holds no text, or nothing, has no hunk: it ends with its
/// header, or with a line that names the file.
pub proof fn no_lines_of_a_binary_file(path: Seq<u8>, mode: Seq<char>, content: Seq<u8>)
    requires
        content.len() == 0 || content.contains(0) || !vstd::utf8::valid_utf8(content),
    ensures
        content.len() > 0 ==> new_file(path, mode, content) == new_file_head(path, mode) + utf8(
            "Binary files /dev/null and "@,
        ) + quoted_path(utf8("b/"@) + path) + utf8(" differ\n"@),
        content.len() == 0 ==> new_file(path, mode, content) == new_file_head(path, mode),
{
    if content.len() == 0 {
        assert(content =~= Seq::<u8>::empty());
        assert(vstd::utf8::valid_utf8(Seq::<u8>::empty()));
    }
}

/// The lines that are counted with a mark are just those that lead with it and are no
/// header of a side; the counts of parts sum up.
pub proof fn marked_lines_are_counted(before: Seq<Seq<u8>>, line: Seq<u8>, after: Seq<Seq<u8>>)
    ensures
        lines_with(before + seq![line] + after, "+"@) == lines_with(before, "+"@) + lines_with(
            after,
            "+"@,
        ) + if line.len() > 0 && line[0] == 0x2b && !(line.len() > 2 && line[1] == 0x2b && line[2]
            == 0x2b) {
            1nat
        } else {
            0nat
        },
        lines_with(before + seq![line] + after, "-"@) == lines_with(before, "-"@) + lines_with(
            after,
            "-"@,
        ) + if line.len() > 0 && line[0] == 0x2d && !(line.len() > 2 && line[1] == 0x2d && line[2]
            == 0x2d) {
            1nat
        } else {
            0nat
        },
        lines_with(Seq::<Seq<u8>>::empty(), "+"@) == 0,
        lines_with(Seq::<Seq<u8>>::empty(), "-"@) == 0,
    decreases after.len(),
{
    let whole = before + seq![line] + after;
    if after.len() == 0 {
        assert(whole.drop_last() =~= before);
        line_marks(line);
    } else {
        let rest = after.drop_last();
        marked_lines_are_counted(before, line, rest);
        assert(whole.drop_last() =~= before + seq![line] + rest);
        assert(whole.last() == after.last());
    }
}

proof fn line_marks(line: Seq<u8>)
    ensures
        scan::starts(line, utf8("+"@)) <==> line.len() > 0 && line[0] == 0x2b,
        scan::starts(line, utf8("-"@)) <==> line.len() > 0 && line[0] == 0x2d,
        scan::starts(line, utf8("+++"@)) <==> line.len() > 2 && line[0] == 0x2b && line[1] == 0x2b
            && line[2] == 0x2b,
        scan::starts(line, utf8("---"@)) <==> line.len() > 2 && line[0] == 0x2d && line[1] == 0x2d
            && line[2] == 0x2d,
{
    reveal_strlit("+");
    reveal_strlit("-");
    reveal_strlit("+++");
    reveal_strlit("---");
    vstd::utf8::is_ascii_chars_encode_utf8("+"@);
    vstd::utf8::is_ascii_chars_encode_utf8("-"@);
    vstd::utf8::is_ascii_chars_encode_utf8("+++"@);
    vstd::utf8::is_ascii_chars_encode_utf8("---"@);
    assert(utf8("+"@) =~= seq![0x2bu8]);
    assert(utf8("-"@) =~= seq![0x2du8]);
    assert(utf8("+++"@) =~= seq![0x2bu8, 0x2bu8, 0x2bu8]);
    assert(utf8("---"@) =~= seq![0x2du8, 0x2du8, 0x2du8]);
    if line.len() > 0 {
        let one = line.subrange(0, 1);
        assert(one[0] == line[0]);
        if line[0] == 0x2b {
            assert(one =~= utf8("+"@));
        }
        if line[0] == 0x2d {
            assert(one =~= utf8("-"@));
        }
    }
    if line.len() > 2 {
        let three = line.subrange(0, 3);
        assert(three[0] == line[0] && three[1] == line[1] && three[2] == line[2]);
        if line[0] == 0x2b && line[1] == 0x2b && line[2] == 0x2b {
            assert(three =~= utf8("+++"@));
        }
        if line[0] == 0x2d && line[1] == 0x2d && line[2] == 0x2d {
            assert(three =~= utf8("---"@));
        }
    }
}

// Laws of paths and of headers.

proof fn old_side(path: Seq<u8>)
    ensures
        side_path(utf8("a/"@) + path, "a/"@) == Some(path),
{
    let token = utf8("a/"@) + path;
    reveal_strlit("a/");
    vstd::utf8::is_ascii_chars_encode_utf8("a/"@);
    reveal_strlit("/dev/null");
    vstd::utf8::is_ascii_chars_encode_utf8(DEV_NULL@);
    assert("a/"@[0] as u8 == utf8("a/"@)[0]);
    assert(DEV_NULL@[0] as u8 == utf8(DEV_NULL@)[0]);
    assert(token[0] == 0x61);
    assert(utf8(DEV_NULL@)[0] == 0x2f);
    assert(token.subrange(0, utf8("a/"@).len() as int) =~= utf8("a/"@));
    assert(token.skip(utf8("a/"@).len() as int) =~= path);
}

/// A section is about the two paths that its first line names, in quotes or not, whatever
/// bytes they hold; a side that its lines say is no file has no path.
pub proof fn a_section_is_about_the_paths_of_its_line(old: Seq<u8>, new: Seq<u8>, rest: Seq<u8>)
    ensures
        ({
            let section = utf8("diff --git "@) + quoted_path(utf8("a/"@) + old) + seq![0x20u8]
                + quoted_path(utf8("b/"@) + new) + seq![0x0au8] + rest;
            section_paths(section) == Some(
                PathsModel {
                    old: if scan::contains_text(section, utf8("\n--- /dev/null\n"@)) {
                        None
                    } else {
                        Some(old)
                    },
                    new: if scan::contains_text(section, utf8("\n+++ /dev/null\n"@)) {
                        None
                    } else {
                        Some(new)
                    },
                },
            )
        }),
{
    let header = utf8("diff --git "@);
    let a = quoted_path(utf8("a/"@) + old);
    let b = quoted_path(utf8("b/"@) + new);
    let line = header + a + seq![0x20u8] + b;
    let section = line + seq![0x0au8] + rest;
    reveal_strlit("diff --git ");
    vstd::utf8::is_ascii_chars_encode_utf8("diff --git "@);
    quoted_path_is_one_line(utf8("a/"@) + old);
    quoted_path_is_one_line(utf8("b/"@) + new);
    assert forall|k: int| 0 <= k < line.len() implies #[trigger] line[k] != 0x0a by {
        if k < header.len() {
            assert(line[k] == header[k]);
            assert("diff --git "@[k] as u8 == header[k]);
        } else if k < header.len() + a.len() {
            assert(line[k] == a[k - header.len()]);
        } else if k > header.len() + a.len() {
            assert(line[k] == b[k - header.len() - a.len() - 1]);
        }
    }
    assert(section.subrange(0, line.len() as int) =~= line);
    assert(section[line.len() as int] == 0x0a);
    first_line_of(section, line);
    tokens_of_a_line(header, utf8("a/"@) + old, utf8("b/"@) + new);
    old_side(old);
    new_side(new);
}

/// A plain path stands for itself; in a quoted one, a quote and a backslash stand behind a
/// backslash, line ends and tabs are letters, and every other byte that is not graphic is
/// the octal number that it is.
pub proof fn special_bytes_are_quoted(path: Seq<u8>, byte: u8)
    ensures
        (forall|k: int|
            0 <= k < path.len() ==> 0x21 <= #[trigger] path[k] <= 0x7e && path[k] != 0x22 && path[k]
                != 0x5c) ==> quoted_path(path) == path,
        path.contains(byte) && (byte < 0x21 || byte > 0x7e || byte == 0x22 || byte == 0x5c)
            ==> quoted_path(path).len() > path.len() && quoted_path(path)[0] == 0x22
            && quoted_path(path).last() == 0x22,
        byte == 0x22 || byte == 0x5c ==> quoted_byte(byte) == seq![0x5cu8, byte],
        quoted_byte(0x0a) == seq![0x5cu8, 0x6eu8],
        quoted_byte(0x09) == seq![0x5cu8, 0x74u8],
        (byte < 0x21 && byte != 0x0a && byte != 0x09) || byte > 0x7e ==> {
            let shown = quoted_byte(byte);
            &&& shown.len() == 4
            &&& shown[0] == 0x5c
            &&& 0x30 <= shown[1] <= 0x37 && 0x30 <= shown[2] <= 0x37 && 0x30 <= shown[3] <= 0x37
            &&& (shown[1] - 0x30) * 64 + (shown[2] - 0x30) * 8 + (shown[3] - 0x30) == byte
        },
{
    if forall|k: int|
        0 <= k < path.len() ==> 0x21 <= #[trigger] path[k] <= 0x7e && path[k] != 0x22 && path[k]
            != 0x5c {
        assert(!needs_quotes(path)) by {
            if needs_quotes(path) {
                let k = choose|k: int| 0 <= k < path.len() && is_special(#[trigger] path[k]);
                assert(0x21 <= path[k] <= 0x7e);
            }
        }
    }
    if path.contains(byte) && (byte < 0x21 || byte > 0x7e || byte == 0x22 || byte == 0x5c) {
        let k = path.index_of(byte);
        assert(is_special(path[k]));
        quoting_does_not_shorten(path);
    }
}

proof fn quoting_does_not_shorten(path: Seq<u8>)
    ensures
        quoted_bytes(path).len() >= path.len(),
    decreases path.len(),
{
    if path.len() > 0 {
        quoting_does_not_shorten(path.drop_last());
    }
}

/// The patch of a new file starts with the header that git writes: its path on both sides,
/// the mode, no file before, and the path behind.
pub proof fn new_files_have_their_header(path: Seq<u8>, mode: Seq<char>, content: Seq<u8>)
    requires
        forall|k: int|
            0 <= k < path.len() ==> 0x21 <= #[trigger] path[k] <= 0x7e && path[k] != 0x22 && path[k]
                != 0x5c,
    ensures
        scan::starts(
            new_file(path, mode, content),
            utf8("diff --git "@) + (utf8("a/"@) + path) + seq![0x20u8] + (utf8("b/"@) + path)
                + seq![0x0au8] + utf8("new file mode "@) + utf8(mode) + utf8(
                "\n--- /dev/null\n+++ "@,
            ) + (utf8("b/"@) + path) + seq![0x0au8],
        ),
{
    reveal_strlit("a/");
    reveal_strlit("b/");
    vstd::utf8::is_ascii_chars_encode_utf8("a/"@);
    vstd::utf8::is_ascii_chars_encode_utf8("b/"@);
    let old = utf8("a/"@) + path;
    let new = utf8("b/"@) + path;
    assert("a/"@[0] as u8 == utf8("a/"@)[0] && "a/"@[1] as u8 == utf8("a/"@)[1]);
    assert("b/"@[0] as u8 == utf8("b/"@)[0] && "b/"@[1] as u8 == utf8("b/"@)[1]);
    assert forall|k: int| 0 <= k < old.len() implies 0x21 <= #[trigger] old[k] <= 0x7e && old[k]
        != 0x22 && old[k] != 0x5c by {
        if k >= 2 {
            assert(old[k] == path[k - 2]);
        }
    }
    assert forall|k: int| 0 <= k < new.len() implies 0x21 <= #[trigger] new[k] <= 0x7e && new[k]
        != 0x22 && new[k] != 0x5c by {
        if k >= 2 {
            assert(new[k] == path[k - 2]);
        }
    }
    special_bytes_are_quoted(old, 0);
    special_bytes_are_quoted(new, 0);
    new_file_starts(path, mode, content);
}

/// A file that the index takes from one path to another and the worktree from there to a
/// third is shown from the first to the last; files that do not meet are not shared.
pub proof fn changes_of_one_file_are_joined(
    first: Seq<u8>,
    middle: Seq<u8>,
    last: Seq<u8>,
    other: Seq<u8>,
)
    requires
        other != middle,
    ensures
        shared_file(
            Some(PathsModel { old: Some(first), new: Some(middle) }),
            Some(PathsModel { old: Some(middle), new: Some(last) }),
        ) == Some(SnapshotModel { before: Some(first), after: Some(last) }),
        shared_file(
            Some(PathsModel { old: None, new: Some(middle) }),
            Some(PathsModel { old: Some(middle), new: Some(last) }),
        ) == Some(SnapshotModel { before: None::<Seq<u8>>, after: Some(last) }),
        shared_file(
            Some(PathsModel { old: Some(first), new: Some(middle) }),
            Some(PathsModel { old: Some(other), new: Some(last) }),
        ) is None,
        shared_file(None, Some(PathsModel { old: Some(middle), new: Some(last) })) is None,
        shared_file(Some(PathsModel { old: Some(first), new: Some(middle) }), None) is None,
{
}

/// Lines, one behind the other.
pub open spec fn all_bytes(lines: Seq<Seq<u8>>) -> Seq<u8>
    decreases lines.len(),
{
    if lines.len() == 0 {
        Seq::<u8>::empty()
    } else {
        all_bytes(lines.drop_last()) + lines.last()
    }
}

/// The lines of a patch are all of it, and each ends where a line ends.
pub proof fn whole_lines_are_the_patch(patch: Seq<u8>)
    ensures
        all_bytes(whole_lines(patch)) == patch,
        patch.len() > 0 ==> whole_lines(patch).len() > 0 && whole_lines(patch).last().len() > 0
            && whole_lines(patch).last().last() == patch.last(),
        forall|i: int, k: int|
            0 <= i < whole_lines(patch).len() && 0 <= k < whole_lines(patch)[i].len() - 1
                ==> #[trigger] whole_lines(patch)[i][k] != 0x0a,
    decreases patch.len(),
{
    let lines = whole_lines(patch);
    if patch.len() > 0 {
        let rest = patch.drop_last();
        let before = whole_lines(rest);
        whole_lines_are_the_patch(rest);
        assert(rest.push(patch.last()) =~= patch);
        if rest.len() == 0 || rest.last() == 0x0a {
            assert(lines.drop_last() =~= before);
            assert(lines.last() == seq![patch.last()]);
            assert(all_bytes(lines) =~= patch);
            assert forall|i: int, k: int|
                0 <= i < lines.len() && 0 <= k < lines[i].len() - 1 implies #[trigger] lines[i][k]
                != 0x0a by {
                if i < before.len() {
                    assert(lines[i] == before[i]);
                }
            }
        } else {
            let last = before.last().push(patch.last());
            assert(lines.drop_last() =~= before.drop_last());
            assert(lines.last() == last);
            assert(all_bytes(before) == all_bytes(before.drop_last()) + before.last());
            assert(all_bytes(lines) =~= patch);
            assert forall|i: int, k: int|
                0 <= i < lines.len() && 0 <= k < lines[i].len() - 1 implies #[trigger] lines[i][k]
                != 0x0a by {
                if i < lines.len() - 1 {
                    assert(lines[i] == before[i]);
                } else {
                    assert(lines[i] == last);
                    assert(lines[i][k] == before[before.len() - 1][k]);
                    if k == before.last().len() - 1 {
                        assert(before.last().last() == rest.last());
                    }
                }
            }
        }
    }
}

/// Lines that name no paths stay in a patch as they are.
pub proof fn lines_without_paths_stay(
    lines: Seq<Seq<u8>>,
    before: Seq<u8>,
    after: Seq<u8>,
)
    requires
        forall|i: int| 0 <= i < lines.len() ==> !names_paths(#[trigger] lines[i]),
    ensures
        relative_patch(lines, before, after) == all_bytes(lines),
    decreases lines.len(),
{
    if lines.len() > 0 {
        let rest = lines.drop_last();
        assert(!names_paths(lines[lines.len() - 1]));
        assert forall|i: int| 0 <= i < rest.len() implies !names_paths(#[trigger] rest[i]) by {
            assert(!names_paths(lines[i]));
        }
        lines_without_paths_stay(rest, before, after);
    }
}

/// A line that adds or takes away text names no paths.
pub proof fn changed_lines_name_no_paths(mark: u8, text: Seq<u8>)
    requires
        mark == 0x2b || mark == 0x2d || mark == 0x20 || mark == 0x40,
        text.len() == 0 || text[0] != mark,
    ensures
        !names_paths(seq![mark] + text),
{
    let line = seq![mark] + text;
    reveal_strlit("diff --git ");
    reveal_strlit("--- ");
    reveal_strlit("+++ ");
    reveal_strlit("rename from ");
    reveal_strlit("rename to ");
    reveal_strlit("copy from ");
    reveal_strlit("copy to ");
    vstd::utf8::is_ascii_chars_encode_utf8("diff --git "@);
    vstd::utf8::is_ascii_chars_encode_utf8("--- "@);
    vstd::utf8::is_ascii_chars_encode_utf8("+++ "@);
    vstd::utf8::is_ascii_chars_encode_utf8("rename from "@);
    vstd::utf8::is_ascii_chars_encode_utf8("rename to "@);
    vstd::utf8::is_ascii_chars_encode_utf8("copy from "@);
    vstd::utf8::is_ascii_chars_encode_utf8("copy to "@);
    another_start(line, "diff --git "@);
    another_start(line, "--- "@);
    another_start(line, "+++ "@);
    another_start(line, "rename from "@);
    another_start(line, "rename to "@);
    another_start(line, "copy from "@);
    another_start(line, "copy to "@);
}

proof fn another_start(line: Seq<u8>, word: Seq<char>)
    requires
        word.len() > 1,
        utf8(word).len() == word.len(),
        forall|k: int| 0 <= k < word.len() ==> #[trigger] word[k] as u8 == utf8(word)[k],
        line.len() > 0,
        line[0] != word[0] as u8 || line.len() == 1 || line[1] != word[1] as u8,
    ensures
        !scan::starts(line, utf8(word)),
{
    if scan::starts(line, utf8(word)) {
        let start = line.subrange(0, word.len() as int);
        assert(start[0] == line[0] && start[1] == line[1]);
        assert(word[0] as u8 == utf8(word)[0] && word[1] as u8 == utf8(word)[1]);
    }
}

proof fn one_needle_is_replaced(
    start: Seq<u8>,
    needle: Seq<u8>,
    end: Seq<u8>,
    replacement: Seq<u8>,
)
    requires
        needle.len() > 0,
        scan::find_from(start + needle + end, needle, 0) == Some(start.len() as int),
        scan::find_from(start + needle + end, needle, (start.len() + needle.len()) as int) is None,
    ensures
        replaced_from(start + needle + end, needle, replacement, 0) == start + replacement + end,
{
    let line = start + needle + end;
    let behind = (start.len() + needle.len()) as int;
    assert(line.skip(behind) =~= end);
    assert(line.subrange(0, start.len() as int) =~= start);
    assert(replaced_from(line, needle, replacement, behind) == line.skip(behind));
    assert(replaced_from(line, needle, replacement, 0) =~= start + replacement + end);
}

/// A path below the directory of a side becomes relative to it: of the path that a line
/// names, only the directory goes.
pub proof fn paths_become_relative(
    start: Seq<u8>,
    letter: u8,
    directory: Seq<u8>,
    path: Seq<u8>,
)
    requires
        directory.len() > 0,
        forall|k: int|
            0 <= k && k != start.len() ==> !scan::stands_at(
                start + (seq![letter] + directory + seq![0x2fu8]) + path,
                seq![letter] + directory + seq![0x2fu8],
                k,
            ),
    ensures
        relative_line(
            start + (seq![letter] + directory + seq![0x2fu8]) + path,
            letter,
            directory,
        ) == start + seq![letter, 0x2fu8] + path,
{
    let needle = seq![letter] + directory + seq![0x2fu8];
    let line = start + needle + path;
    let at = start.len() as int;
    assert(line.subrange(at, at + needle.len()) =~= needle);
    assert(scan::stands_at(line, needle, at));
    scan::find_from_is_first(line, needle, 0);
    scan::find_from_is_first(line, needle, at + needle.len());
    assert(scan::find_from(line, needle, 0) == Some(at));
    assert(scan::find_from(line, needle, at + needle.len()) is None);
    one_needle_is_replaced(start, needle, path, seq![letter, 0x2fu8]);
}

} // verus!
