//! What git says of a checkout, read from the text it prints.

use vstd::prelude::*;

use crate::cut;
use crate::cut::{lines, replace, split, words, Separator};
use crate::git;
use crate::git::patch;
use crate::git::{GitData, GitFileEntry};
use crate::number;
use crate::number::parse_unsigned;
use crate::scan;
use crate::scan::{chars_at, contains, starts_with, strip_prefix, strip_suffix, trim};
use crate::text;
use crate::text::{borrowed, chars_of, concat2, owned, same, text_of};
use crate::textmap::TextMap;

verus! {

// Paths.

/// The last place up to `at` where a pattern stands.
pub open spec fn find_last(text: Seq<char>, pattern: Seq<char>, at: int) -> Option<int>
    decreases at + 1,
{
    if at < 0 {
        None
    } else if scan::stands_at(text, pattern, at) {
        Some(at)
    } else {
        find_last(text, pattern, at - 1)
    }
}

/// What follows the last place where a pattern stands.
pub open spec fn after_last(text: Seq<char>, pattern: Seq<char>) -> Option<Seq<char>> {
    match find_last(text, pattern, text.len() as int) {
        Some(at) => Some(text.skip(at + pattern.len())),
        None => None,
    }
}

/// A path as git prints it, without what it was renamed from.
pub open spec fn current_path(path: Seq<char>) -> Seq<char> {
    let trimmed = scan::trim_of(path);
    match after_last(trimmed, " -> "@) {
        Some(renamed) => scan::trim_of(renamed),
        None => match after_last(trimmed, " => "@) {
            Some(renamed) => scan::trim_of(renamed),
            None => trimmed,
        },
    }
}

fn behind_last(text: &str, pattern: &str) -> (rest: Option<String>)
    ensures
        text::opt(rest) == after_last(text@, pattern@),
{
    let chars = chars_of(text);
    let needle = chars_of(pattern);
    let total: usize = chars.len();
    let mut at: usize = total;
    loop
        invariant
            at <= total,
            total == chars@.len(),
            chars@ == text@,
            needle@ == pattern@,
            find_last(text@, pattern@, text@.len() as int) == find_last(text@, pattern@, at as int),
        decreases at,
    {
        if chars_at(chars.as_slice(), needle.as_slice(), at) {
            proof {
                assert(at + needle@.len() <= chars@.len());
                assert(text@.skip(at + pattern@.len()) =~= text@.subrange(
                    at + pattern@.len(),
                    text@.len() as int,
                ));
            }
            return Some(text_of(chars.as_slice(), at + needle.len(), total));
        }
        if at == 0 {
            proof {
                assert(find_last(text@, pattern@, -1) is None);
            }
            return None;
        }
        at = at - 1;
    }
}

/// A path as git prints it, without what it was renamed from.
pub fn normalize_git_path(path: &str) -> (current: String)
    ensures
        current@ == current_path(path@),
{
    let trimmed = trim(path);
    match behind_last(trimmed.as_str(), " -> ") {
        Some(renamed) => trim(renamed.as_str()),
        None => match behind_last(trimmed.as_str(), " => ") {
            Some(renamed) => trim(renamed.as_str()),
            None => trimmed,
        },
    }
}

/// A path without the slashes it ends with.
pub open spec fn without_slashes(path: Seq<char>) -> Seq<char>
    decreases path.len(),
{
    if path.len() > 0 && path.last() == '/' {
        without_slashes(path.drop_last())
    } else {
        path
    }
}

/// The last part of a path. That of a directory ends with a slash.
pub open spec fn base_name(path: Seq<char>) -> Seq<char> {
    let last = cut::pieces(without_slashes(path), Separator::Char('/')).last();
    if path.len() > 0 && path.last() == '/' {
        last + "/"@
    } else {
        last
    }
}

fn last_piece(path: &str) -> (last: String)
    ensures
        last@ == cut::pieces(path@, Separator::Char('/')).last(),
{
    let parts = split(path, Separator::Char('/'));
    proof {
        assert(text::texts(parts@).last() == parts@[parts@.len() - 1]@);
    }
    owned(parts[parts.len() - 1].as_str())
}

fn name_of(path: &str) -> (name: String)
    ensures
        name@ == base_name(path@),
{
    let chars = chars_of(path);
    let mut end: usize = chars.len();
    proof {
        assert(path@.take(end as int) =~= path@);
    }
    while end > 0 && chars[end - 1] == '/'
        invariant
            end <= chars@.len(),
            chars@ == path@,
            without_slashes(path@) == without_slashes(path@.take(end as int)),
        decreases end,
    {
        proof {
            assert(path@.take(end as int).drop_last() =~= path@.take(end - 1));
        }
        end = end - 1;
    }
    let trimmed = text_of(chars.as_slice(), 0, end);
    proof {
        assert(trimmed@ =~= path@.take(end as int));
        assert(trimmed@ == without_slashes(path@));
    }
    let last = last_piece(trimmed.as_str());
    if chars.len() > 0 && chars[chars.len() - 1] == '/' {
        concat2(last.as_str(), "/")
    } else {
        last
    }
}

// The short status.

/// A line of the short status: the state in the index, that in the worktree, and
/// the path. A line of fewer than three bytes says nothing.
pub open spec fn status_line(line: Seq<char>) -> Option<(u8, u8, Seq<char>)> {
    let bytes = patch::utf8(line);
    if bytes.len() < 3 {
        None
    } else {
        Some(
            (
                bytes[0],
                bytes[1],
                vstd::utf8::decode_utf8(bytes.subrange(3, bytes.len() as int)),
            ),
        )
    }
}

/// Whether the path of a line starts at a whole character.
pub open spec fn line_readable(line: Seq<char>) -> bool {
    let bytes = patch::utf8(line);
    bytes.len() < 3 || vstd::utf8::is_char_boundary(bytes, 3)
}

/// Whether the path of each line starts at a whole character.
pub open spec fn status_readable(text: Seq<char>) -> bool {
    forall|i: int|
        0 <= i < cut::lines_of(text).len() ==> line_readable(#[trigger] cut::lines_of(text)[i])
}

/// Whether the path of each line of a short status starts at a whole character, so
/// that it can be read.
pub fn is_status_readable(text: &str) -> (yes: bool)
    ensures
        yes == status_readable(text@),
{
    let list = lines(text);
    let ghost all = cut::lines_of(text@);
    let mut i: usize = 0;
    while i < list.len()
        invariant
            i <= list@.len(),
            all == text::texts(list@),
            all == cut::lines_of(text@),
            forall|k: int| 0 <= k < i ==> line_readable(#[trigger] all[k]),
        decreases list@.len() - i,
    {
        let line = list[i].as_str();
        proof {
            assert(all[i as int] == line@);
        }
        if line.as_bytes().len() >= 3 && !line.is_char_boundary(3) {
            return false;
        }
        i = i + 1;
    }
    true
}

/// The files that differ from HEAD.
#[verifier::ext_equal]
pub struct StatusModel {
    pub staged: Seq<git::FileModel>,
    pub unstaged: Seq<git::FileModel>,
    pub untracked: Seq<Seq<char>>,
}

/// The letter that a staged file shows: a rename or a copy is a modification.
pub open spec fn staged_letter(code: u8) -> Option<char> {
    if code == 0x4d || code == 0x52 || code == 0x43 {
        Some('M')
    } else if code == 0x41 {
        Some('A')
    } else if code == 0x44 {
        Some('D')
    } else {
        None
    }
}

/// The letter that a file shows that is changed in the worktree.
pub open spec fn unstaged_letter(code: u8) -> Option<char> {
    if code == 0x4d {
        Some('M')
    } else if code == 0x44 {
        Some('D')
    } else {
        None
    }
}

/// A file whose size of change is not known yet.
pub open spec fn fresh_file(status: char, path: Seq<char>) -> git::FileModel {
    git::FileModel { status, name: base_name(path), path, additions: 0, deletions: 0 }
}

/// The files after one more line.
pub open spec fn with_line(files: StatusModel, line: Seq<char>) -> StatusModel {
    match status_line(line) {
        None => files,
        Some((index, worktree, raw)) => {
            let path = current_path(raw);
            if index == 0x3f && worktree == 0x3f {
                StatusModel { untracked: files.untracked.push(base_name(path)), ..files }
            } else {
                StatusModel {
                    staged: match staged_letter(index) {
                        Some(letter) => files.staged.push(fresh_file(letter, path)),
                        None => files.staged,
                    },
                    unstaged: match unstaged_letter(worktree) {
                        Some(letter) => files.unstaged.push(fresh_file(letter, path)),
                        None => files.unstaged,
                    },
                    untracked: files.untracked,
                }
            }
        },
    }
}

/// The files after more lines.
pub open spec fn with_lines(files: StatusModel, list: Seq<Seq<char>>) -> StatusModel
    decreases list.len(),
{
    if list.len() == 0 {
        files
    } else {
        with_line(with_lines(files, list.drop_last()), list.last())
    }
}

/// The files of a checkout.
pub open spec fn files_of(data: git::DataModel) -> StatusModel {
    StatusModel {
        staged: data.staged_files,
        unstaged: data.unstaged_files,
        untracked: data.untracked_files,
    }
}

/// A checkout with the files of a short status added.
pub open spec fn with_status(data: git::DataModel, text: Seq<char>) -> git::DataModel {
    let files = with_lines(files_of(data), cut::lines_of(text));
    git::DataModel {
        staged_files: files.staged,
        unstaged_files: files.unstaged,
        untracked_files: files.untracked,
        ..data
    }
}

fn staged_code(code: u8) -> (letter: Option<char>)
    ensures
        letter == staged_letter(code),
{
    if code == 0x4d || code == 0x52 || code == 0x43 {
        Some('M')
    } else if code == 0x41 {
        Some('A')
    } else if code == 0x44 {
        Some('D')
    } else {
        None
    }
}

fn unstaged_code(code: u8) -> (letter: Option<char>)
    ensures
        letter == unstaged_letter(code),
{
    if code == 0x4d {
        Some('M')
    } else if code == 0x44 {
        Some('D')
    } else {
        None
    }
}

fn push_file(files: &mut Vec<GitFileEntry>, status: char, path: &str)
    ensures
        git::file_models(final(files)@) == git::file_models(old(files)@).push(
            fresh_file(status, path@),
        ),
{
    let ghost before = git::file_models(files@);
    files.push(
        GitFileEntry { status, name: name_of(path), path: owned(path), additions: 0, deletions: 0 },
    );
    proof {
        assert(git::file_models(files@) =~= before.push(fresh_file(status, path@)));
    }
}

fn read_status_line(line: &str, data: &mut GitData)
    requires
        line_readable(line@),
    ensures
        files_of(final(data)@) == with_line(files_of(old(data)@), line@),
        final(data)@ == (git::DataModel {
            staged_files: final(data)@.staged_files,
            unstaged_files: final(data)@.unstaged_files,
            untracked_files: final(data)@.untracked_files,
            ..old(data)@
        }),
{
    let bytes = line.as_bytes();
    if bytes.len() < 3 {
        return ;
    }
    let index = bytes[0];
    let worktree = bytes[1];
    let (_, raw) = line.split_at(3);
    proof {
        vstd::utf8::encode_utf8_decode_utf8(raw@);
    }
    let path = normalize_git_path(raw);
    if index == 0x3f && worktree == 0x3f {
        let ghost before = text::texts(data.untracked_files@);
        data.untracked_files.push(name_of(path.as_str()));
        proof {
            assert(text::texts(data.untracked_files@) =~= before.push(base_name(path@)));
        }
        return ;
    }
    if let Some(letter) = staged_code(index) {
        push_file(&mut data.staged_files, letter, path.as_str());
    }
    if let Some(letter) = unstaged_code(worktree) {
        push_file(&mut data.unstaged_files, letter, path.as_str());
    }
}

/// Parse `git status --short` output into staged/unstaged/untracked categories.
///
/// Each line has the format `XY filename` where:
/// - X = index (staged) status
/// - Y = worktree (unstaged) status
/// - `??` = untracked
pub fn parse_status_short(text: &str, data: &mut GitData)
    requires
        status_readable(text@),
    ensures
        final(data)@ == with_status(old(data)@, text@),
{
    let list = lines(text);
    let ghost all = cut::lines_of(text@);
    let ghost before = data@;
    let mut i: usize = 0;
    proof {
        assert(all.take(0) =~= Seq::empty());
    }
    while i < list.len()
        invariant
            i <= list@.len(),
            all == text::texts(list@),
            all == cut::lines_of(text@),
            status_readable(text@),
            files_of(data@) == with_lines(files_of(before), all.take(i as int)),
            data@ == (git::DataModel {
                staged_files: data@.staged_files,
                unstaged_files: data@.unstaged_files,
                untracked_files: data@.untracked_files,
                ..before
            }),
        decreases list@.len() - i,
    {
        proof {
            assert(all[i as int] == list@[i as int]@);
            assert(all.take(i + 1).drop_last() =~= all.take(i as int));
        }
        read_status_line(list[i].as_str(), data);
        i = i + 1;
    }
    proof {
        assert(all.take(i as int) =~= all);
    }
}


// Sizes of changes.

/// A number, or zero where a text is none.
pub open spec fn count_of(text: Seq<char>) -> usize {
    match number::unsigned(text, usize::MAX as int) {
        Some(value) => value as usize,
        None => 0,
    }
}

fn read_count(text: &str) -> (count: usize)
    ensures
        count == count_of(text@),
{
    match parse_unsigned(text, usize::MAX as u64) {
        Some(value) => value as usize,
        None => 0,
    }
}

/// The number that a part of a summary starts with.
pub open spec fn leading_count(part: Seq<char>) -> usize {
    let list = cut::words_of(part);
    if list.len() == 0 {
        0
    } else {
        count_of(list[0])
    }
}

/// The lines that a summary says are added and removed, after one more part.
pub open spec fn with_part(stat: (usize, usize), raw: Seq<char>) -> (usize, usize) {
    let part = scan::trim_of(raw);
    if scan::contains_text(part, "insertion"@) {
        (leading_count(part), stat.1)
    } else if scan::contains_text(part, "deletion"@) {
        (stat.0, leading_count(part))
    } else {
        stat
    }
}

/// The lines that the parts of a summary say are added and removed.
pub open spec fn with_parts(parts: Seq<Seq<char>>) -> (usize, usize)
    decreases parts.len(),
{
    if parts.len() == 0 {
        (0, 0)
    } else {
        with_part(with_parts(parts.drop_last()), parts.last())
    }
}

/// The lines that a summary says are added and removed, where it says anything.
pub open spec fn summary_of(text: Seq<char>) -> Option<(usize, usize)> {
    let trimmed = scan::trim_of(text);
    if trimmed.len() == 0 {
        None
    } else {
        Some(with_parts(cut::pieces(trimmed, Separator::Char(','))))
    }
}

fn read_leading_count(part: &str) -> (count: usize)
    ensures
        count == leading_count(part@),
{
    let list = words(part);
    if list.len() == 0 {
        0
    } else {
        proof {
            assert(text::texts(list@)[0] == list@[0]@);
        }
        read_count(list[0].as_str())
    }
}

/// Parse a `git diff --shortstat` summary into the lines added and removed.
pub fn parse_diff_stat(text: &str) -> (stat: Option<(usize, usize)>)
    ensures
        stat == summary_of(text@),
{
    let trimmed = trim(text);
    if trimmed.as_str().is_empty() {
        return None;
    }
    let parts = split(trimmed.as_str(), Separator::Char(','));
    let ghost all = text::texts(parts@);
    let mut insertions: usize = 0;
    let mut deletions: usize = 0;
    let mut i: usize = 0;
    proof {
        assert(all.take(0) =~= Seq::empty());
    }
    while i < parts.len()
        invariant
            i <= parts@.len(),
            all == text::texts(parts@),
            (insertions, deletions) == with_parts(all.take(i as int)),
        decreases parts@.len() - i,
    {
        proof {
            assert(all[i as int] == parts@[i as int]@);
            assert(all.take(i + 1).drop_last() =~= all.take(i as int));
        }
        let part = trim(parts[i].as_str());
        if contains(part.as_str(), "insertion") {
            insertions = read_leading_count(part.as_str());
        } else if contains(part.as_str(), "deletion") {
            deletions = read_leading_count(part.as_str());
        }
        i = i + 1;
    }
    proof {
        assert(all.take(i as int) =~= all);
    }
    Some((insertions, deletions))
}

/// The sizes of changes by path, and by the last part of a path, after one more
/// line.
pub open spec fn with_numbers(sizes: Map<Seq<char>, (usize, usize)>, line: Seq<char>) -> Map<
    Seq<char>,
    (usize, usize),
> {
    let parts = cut::pieces(line, Separator::Char('\t'));
    if parts.len() >= 3 {
        let size = (count_of(parts[0]), count_of(parts[1]));
        let path = current_path(parts[2]);
        let name = cut::pieces(path, Separator::Char('/')).last();
        if name != path {
            sizes.insert(path, size).insert(name, size)
        } else {
            sizes.insert(path, size)
        }
    } else {
        sizes
    }
}

/// The sizes of changes that lines give.
pub open spec fn sizes_of(list: Seq<Seq<char>>) -> Map<Seq<char>, (usize, usize)>
    decreases list.len(),
{
    if list.len() == 0 {
        Map::empty()
    } else {
        with_numbers(sizes_of(list.drop_last()), list.last())
    }
}

/// Parse `git diff --numstat` output into a map of filename -> (additions, deletions).
pub fn parse_numstat(text: &str) -> (sizes: TextMap<(usize, usize)>)
    ensures
        sizes@ == sizes_of(cut::lines_of(text@)),
        sizes.wf(),
{
    let list = lines(text);
    let ghost all = cut::lines_of(text@);
    let mut sizes: TextMap<(usize, usize)> = TextMap::new();
    let mut i: usize = 0;
    proof {
        assert(all.take(0) =~= Seq::empty());
    }
    while i < list.len()
        invariant
            i <= list@.len(),
            all == text::texts(list@),
            sizes@ == sizes_of(all.take(i as int)),
            sizes.wf(),
        decreases list@.len() - i,
    {
        proof {
            assert(all[i as int] == list@[i as int]@);
            assert(all.take(i + 1).drop_last() =~= all.take(i as int));
        }
        let parts = split(list[i].as_str(), Separator::Char('\t'));
        if parts.len() >= 3 {
            proof {
                let given = text::texts(parts@);
                assert(given[0] == parts@[0]@ && given[1] == parts@[1]@ && given[2]
                    == parts@[2]@);
            }
            let added = read_count(parts[0].as_str());
            let removed = read_count(parts[1].as_str());
            let path = normalize_git_path(parts[2].as_str());
            let name = last_piece(path.as_str());
            let short = !same(name.as_str(), path.as_str());
            sizes.insert(path, (added, removed));
            if short {
                sizes.insert(name, (added, removed));
            }
        }
        i = i + 1;
    }
    proof {
        assert(all.take(i as int) =~= all);
    }
    sizes
}

/// A file with the size of its change, where it is known: by its path, or else by
/// its name.
pub open spec fn sized(file: git::FileModel, sizes: Map<Seq<char>, (usize, usize)>) -> git::FileModel {
    if sizes.dom().contains(file.path) {
        git::FileModel {
            additions: sizes[file.path].0,
            deletions: sizes[file.path].1,
            ..file
        }
    } else if sizes.dom().contains(file.name) {
        git::FileModel {
            additions: sizes[file.name].0,
            deletions: sizes[file.name].1,
            ..file
        }
    } else {
        file
    }
}

/// Files with the sizes of their changes, where any are known.
pub open spec fn all_sized(files: Seq<git::FileModel>, text: Option<Seq<char>>) -> Seq<
    git::FileModel,
> {
    match text {
        Some(known) => {
            let sizes = sizes_of(cut::lines_of(known));
            files.map_values(|file: git::FileModel| sized(file, sizes))
        },
        None => files,
    }
}

/// Apply numstat diff data to a list of file entries.
pub fn apply_numstat(text: Option<&str>, entries: &mut Vec<GitFileEntry>)
    ensures
        git::file_models(final(entries)@) == all_sized(
            git::file_models(old(entries)@),
            text::opt_ref(text),
        ),
{
    if let Some(known) = text {
        let sizes = parse_numstat(known);
        let ghost before = git::file_models(entries@);
        let mut i: usize = 0;
        while i < entries.len()
            invariant
                i <= entries@.len(),
                entries@.len() == before.len(),
                forall|k: int|
                    0 <= k < i ==> (#[trigger] entries@[k])@ == sized(before[k], sizes@),
                forall|k: int|
                    i <= k < entries@.len() ==> (#[trigger] entries@[k])@ == before[k],
            decreases entries@.len() - i,
        {
            let found = match sizes.get(entries[i].path.as_str()) {
                Some(size) => Some((size.0, size.1)),
                None => match sizes.get(entries[i].name.as_str()) {
                    Some(size) => Some((size.0, size.1)),
                    None => None,
                },
            };
            if let Some((added, removed)) = found {
                let entry = GitFileEntry {
                    status: entries[i].status,
                    name: owned(entries[i].name.as_str()),
                    path: owned(entries[i].path.as_str()),
                    additions: added,
                    deletions: removed,
                };
                entries.set(i, entry);
            }
            i = i + 1;
        }
        proof {
            assert(git::file_models(entries@) =~= all_sized(before, text::opt_ref(text)));
        }
    }
}

// The remote.

/// A text without a suffix, where it ends with it.
pub open spec fn without_suffix(text: Seq<char>, suffix: Seq<char>) -> Seq<char> {
    match scan::before_suffix(text, suffix) {
        Some(rest) => rest,
        None => text,
    }
}

/// The web address of a remote.
pub open spec fn web_address(url: Seq<char>) -> Seq<char> {
    let trimmed = scan::trim_of(url);
    match scan::after_prefix(trimmed, "git@"@) {
        Some(rest) => "https://"@ + without_suffix(cut::replaced(rest, ":"@, "/"@), ".git"@),
        None => if scan::starts(trimmed, "https://"@) || scan::starts(trimmed, "http://"@) {
            without_suffix(trimmed, ".git"@)
        } else {
            trimmed
        },
    }
}

fn drop_suffix(text: String, suffix: &str) -> (rest: String)
    ensures
        rest@ == without_suffix(text@, suffix@),
{
    match strip_suffix(text.as_str(), suffix) {
        Some(rest) => rest,
        None => text,
    }
}

/// The web address of a remote; what is no such address stays as it is.
pub fn normalize_git_url(url: &str) -> (address: String)
    ensures
        address@ == web_address(url@),
{
    let trimmed = trim(url);
    match strip_prefix(trimmed.as_str(), "git@") {
        Some(rest) => {
            proof {
                reveal_strlit(":");
            }
            let cleaned = drop_suffix(replace(rest.as_str(), ":", "/"), ".git");
            concat2("https://", cleaned.as_str())
        },
        None => if starts_with(trimmed.as_str(), "https://") || starts_with(
            trimmed.as_str(),
            "http://",
        ) {
            drop_suffix(trimmed, ".git")
        } else {
            trimmed
        },
    }
}

// Everything at once.

/// What git answered to the questions on a checkout; nothing where it failed or
/// printed nothing.
#[derive(Debug)]
pub struct GitReplies {
    /// The short status, with the blank that its first line may start with.
    pub status: Option<String>,
    pub shortstat: Option<String>,
    pub branch: Option<String>,
    pub ahead_behind: Option<String>,
    pub staged_numstat: Option<String>,
    pub unstaged_numstat: Option<String>,
    pub remote: Option<String>,
}

/// How far a branch is ahead of its upstream and behind it.
pub open spec fn ahead_behind_of(text: Option<Seq<char>>) -> Option<(usize, usize)> {
    match text {
        Some(known) => {
            let parts = cut::pieces(known, Separator::Char('\t'));
            if parts.len() == 2 {
                Some((count_of(parts[0]), count_of(parts[1])))
            } else {
                None
            }
        },
        None => None,
    }
}

/// What replies say of a checkout.
pub open spec fn data_of(replies: GitReplies) -> git::DataModel {
    let blank = git::DataModel {
        diff_stat: None,
        branch: Seq::empty(),
        ahead_behind: None,
        staged_files: Seq::empty(),
        unstaged_files: Seq::empty(),
        untracked_files: Seq::empty(),
        remote_url: Seq::empty(),
        pr_number: None,
    };
    let listed = match replies.status {
        Some(text) => with_status(blank, text@),
        None => blank,
    };
    git::DataModel {
        diff_stat: match replies.shortstat {
            Some(text) => summary_of(text@),
            None => None,
        },
        branch: match replies.branch {
            Some(text) => text@,
            None => Seq::empty(),
        },
        ahead_behind: ahead_behind_of(text::opt(replies.ahead_behind)),
        staged_files: all_sized(listed.staged_files, text::opt(replies.staged_numstat)),
        unstaged_files: all_sized(listed.unstaged_files, text::opt(replies.unstaged_numstat)),
        untracked_files: listed.untracked_files,
        remote_url: match replies.remote {
            Some(text) => web_address(text@),
            None => Seq::empty(),
        },
        pr_number: None,
    }
}

fn read_ahead_behind(text: &Option<String>) -> (counts: Option<(usize, usize)>)
    ensures
        counts == ahead_behind_of(text::opt(*text)),
{
    match text {
        Some(known) => {
            let parts = split(known.as_str(), Separator::Char('\t'));
            if parts.len() == 2 {
                proof {
                    let given = text::texts(parts@);
                    assert(given[0] == parts@[0]@ && given[1] == parts@[1]@);
                }
                Some((read_count(parts[0].as_str()), read_count(parts[1].as_str())))
            } else {
                None
            }
        },
        None => None,
    }
}

/// All git data of a checkout, from what git answered.
pub fn fetch_git_data(replies: &GitReplies) -> (data: GitData)
    requires
        replies.status matches Some(text) ==> status_readable(text@),
    ensures
        data@ == data_of(*replies),
{
    let mut data = GitData::default();
    let ghost blank = data@;
    proof {
        assert(blank =~= git::DataModel {
            diff_stat: None,
            branch: Seq::empty(),
            ahead_behind: None,
            staged_files: Seq::empty(),
            unstaged_files: Seq::empty(),
            untracked_files: Seq::empty(),
            remote_url: Seq::empty(),
            pr_number: None,
        });
    }
    if let Some(text) = &replies.status {
        parse_status_short(text.as_str(), &mut data);
    }
    if let Some(text) = &replies.shortstat {
        data.diff_stat = parse_diff_stat(text.as_str());
    }
    if let Some(text) = &replies.branch {
        data.branch = owned(text.as_str());
    }
    data.ahead_behind = read_ahead_behind(&replies.ahead_behind);
    apply_numstat(borrowed(&replies.staged_numstat), &mut data.staged_files);
    apply_numstat(borrowed(&replies.unstaged_numstat), &mut data.unstaged_files);
    if let Some(text) = &replies.remote {
        data.remote_url = normalize_git_url(text.as_str());
    }
    proof {
        assert(data@ =~= data_of(*replies));
    }
    data
}

// Laws.

proof fn nothing_is_last(text: Seq<char>, pattern: Seq<char>, at: int)
    requires
        !scan::contains_text(text, pattern),
    ensures
        find_last(text, pattern, at) is None,
    decreases at + 1,
{
    if at >= 0 {
        assert(!scan::stands_at(text, pattern, at));
        nothing_is_last(text, pattern, at - 1);
    }
}

proof fn the_last_is_found(text: Seq<char>, pattern: Seq<char>, found: int, at: int)
    requires
        0 <= found <= at,
        scan::stands_at(text, pattern, found),
        forall|k: int| found < k ==> !scan::stands_at(text, pattern, k),
    ensures
        find_last(text, pattern, at) == Some(found),
    decreases at,
{
    if at > found {
        assert(!scan::stands_at(text, pattern, at));
        the_last_is_found(text, pattern, found, at - 1);
    }
}

/// Whether a path is printed by git as it is: no space around it, and no arrow in it.
pub open spec fn is_plain_path(path: Seq<char>) -> bool {
    &&& path.len() > 0
    &&& !scan::is_space(path[0])
    &&& !scan::is_space(path.last())
    &&& !scan::contains_text(path, " -> "@)
    &&& !scan::contains_text(path, " => "@)
}

proof fn bare_text_is_trimmed(text: Seq<char>)
    requires
        text.len() > 0,
        !scan::is_space(text[0]),
        !scan::is_space(text.last()),
    ensures
        scan::trim_of(text) == text,
{
    let none = Seq::<char>::empty();
    scan::trim_takes_the_space_around(none, text, none);
    assert(none + text + none =~= text);
}

/// A plain path is read as it is printed.
pub proof fn plain_paths_stay(path: Seq<char>)
    requires
        is_plain_path(path),
    ensures
        current_path(path) == path,
{
    bare_text_is_trimmed(path);
    nothing_is_last(path, " -> "@, path.len() as int);
    nothing_is_last(path, " => "@, path.len() as int);
}

proof fn behind_the_last_arrow(old: Seq<char>, arrow: Seq<char>, new: Seq<char>)
    requires
        arrow.len() == 4,
        arrow[0] == ' ',
        arrow[1] != ' ',
        arrow[2] != ' ',
        arrow[3] == ' ',
        !scan::contains_text(seq![' '] + new, arrow),
    ensures
        after_last(old + arrow + new, arrow) == Some(new),
{
    let text = old + arrow + new;
    let at = old.len() as int;
    assert(text.subrange(at, at + 4) =~= arrow);
    assert forall|k: int| at < k implies !scan::stands_at(text, arrow, k) by {
        if scan::stands_at(text, arrow, k) {
            assert(text.subrange(k, k + 4) == arrow);
            assert(text.subrange(k, k + 4)[0] == text[k]);
            if k < at + 3 {
                assert(text[k] == arrow[k - at]);
            } else {
                let spaced = seq![' '] + new;
                assert(spaced.subrange(k - at - 3, k - at + 1) =~= text.subrange(k, k + 4));
                assert(scan::stands_at(spaced, arrow, k - at - 3));
            }
        }
    }
    the_last_is_found(text, arrow, at, text.len() as int);
    assert(text.skip(at + 4) =~= new);
}

/// A file that was renamed is read under its new path.
pub proof fn renamed_files_have_their_new_path(old: Seq<char>, new: Seq<char>)
    requires
        old.len() > 0,
        !scan::is_space(old[0]),
        new.len() > 0,
        !scan::is_space(new[0]),
        !scan::is_space(new.last()),
        !scan::contains_text(seq![' '] + new, " -> "@),
    ensures
        current_path(old + " -> "@ + new) == new,
{
    reveal_strlit(" -> ");
    bare_text_is_trimmed(old + " -> "@ + new);
    bare_text_is_trimmed(new);
    behind_the_last_arrow(old, " -> "@, new);
}

proof fn last_piece_of(text: Seq<char>, name: Seq<char>)
    requires
        !name.contains('/'),
    ensures
        cut::pieces(text.push('/') + name, Separator::Char('/')).last() == name,
        cut::pieces(name, Separator::Char('/')).last() == name,
{
    let none = Seq::<char>::empty();
    cut::pieces_are_the_text(text, '/');
    let parts = cut::pieces(text, Separator::Char('/'));
    cut::pieces_not_empty(text, Separator::Char('/'));
    let all = parts.push(name);
    assert forall|i: int| 0 <= i < all.len() implies !(#[trigger] all[i]).contains('/') by {
        if i < parts.len() {
            assert(!parts[i].contains('/'));
        }
    }
    cut::joined_pieces_come_apart(all, '/');
    assert(all.drop_last() =~= parts);
    assert(text + seq!['/'] + name =~= text.push('/') + name);
    cut::joined_pieces_come_apart(seq![name], '/');
}

/// The name of a file is what stands behind the last slash of its path; that of a
/// directory keeps the slash it ends with.
pub proof fn names_stand_behind_the_last_slash(above: Seq<char>, name: Seq<char>)
    requires
        name.len() > 0,
        !name.contains('/'),
    ensures
        base_name(name) == name,
        base_name(above.push('/') + name) == name,
        base_name(name.push('/')) == name.push('/'),
        base_name((above.push('/') + name).push('/')) == name.push('/'),
{
    reveal_strlit("/");
    assert(name.contains(name.last()));
    let whole = above.push('/') + name;
    assert(whole.last() == name.last());
    last_piece_of(above, name);
    assert(without_slashes(name) == name);
    assert(without_slashes(whole) == whole);
    assert(name.push('/').drop_last() =~= name);
    assert(whole.push('/').drop_last() =~= whole);
    assert(name + "/"@ =~= name.push('/'));
}

proof fn bytes_behind_ascii(ch: char, rest: Seq<char>)
    requires
        ch as u32 <= 0x7f,
    ensures
        patch::utf8(seq![ch] + rest) == seq![ch as u8] + patch::utf8(rest),
{
    let whole = seq![ch] + rest;
    let one = seq![ch];
    vstd::utf8::is_ascii_chars_encode_utf8(one);
    assert(whole.drop_first() =~= rest);
    assert(one.drop_first() =~= Seq::<char>::empty());
    reveal_with_fuel(vstd::utf8::encode_utf8, 2);
    assert(vstd::utf8::encode_utf8(one) =~= vstd::utf8::encode_scalar(ch as u32));
    assert(vstd::utf8::encode_utf8(one) =~= seq![ch as u8]);
}

/// A line of the short status is read by its two letters and its path: a file that is not
/// known is listed as such; any other is listed as staged by the first letter, and as
/// changed in the worktree by the second, with its own path and the name at its end.
pub proof fn a_status_line_lists_its_file(
    files: StatusModel,
    index: char,
    worktree: char,
    path: Seq<char>,
)
    requires
        index as u32 <= 0x7f,
        worktree as u32 <= 0x7f,
        is_plain_path(path),
    ensures
        ({
            let after = with_line(files, seq![index, worktree, ' '] + path);
            let fresh = |status: char|
                (git::FileModel {
                    status,
                    name: base_name(path),
                    path,
                    additions: 0,
                    deletions: 0,
                });
            if index == '?' && worktree == '?' {
                &&& after.untracked == files.untracked.push(base_name(path))
                &&& after.staged == files.staged
                &&& after.unstaged == files.unstaged
            } else {
                &&& after.untracked == files.untracked
                &&& after.staged == if index == 'M' || index == 'R' || index == 'C' {
                    files.staged.push(fresh('M'))
                } else if index == 'A' {
                    files.staged.push(fresh('A'))
                } else if index == 'D' {
                    files.staged.push(fresh('D'))
                } else {
                    files.staged
                }
                &&& after.unstaged == if worktree == 'M' {
                    files.unstaged.push(fresh('M'))
                } else if worktree == 'D' {
                    files.unstaged.push(fresh('D'))
                } else {
                    files.unstaged
                }
            }
        }),
{
    let line = seq![index, worktree, ' '] + path;
    let behind = seq![' '] + path;
    bytes_behind_ascii(' ', path);
    bytes_behind_ascii(worktree, behind);
    bytes_behind_ascii(index, seq![worktree] + behind);
    assert(line =~= seq![index] + (seq![worktree] + behind));
    let bytes = patch::utf8(line);
    assert(bytes.subrange(3, bytes.len() as int) =~= patch::utf8(path));
    vstd::utf8::encode_utf8_decode_utf8(path);
    assert(bytes[0] == index as u8 && bytes[1] == worktree as u8);
    plain_paths_stay(path);
}

/// Whether a line of sizes names a path.
pub open spec fn sizes_path(line: Seq<char>, path: Seq<char>) -> bool {
    let parts = cut::pieces(line, Separator::Char('\t'));
    parts.len() >= 3 && current_path(parts[2]) == path
}

/// The line of sizes that git prints for a file.
pub open spec fn size_line(added: usize, removed: usize, path: Seq<char>) -> Seq<char> {
    number::decimal_of(added as nat) + seq!['\t'] + number::decimal_of(removed as nat) + seq!['\t']
        + path
}

proof fn a_size_line_is_read(added: usize, removed: usize, path: Seq<char>)
    requires
        is_plain_path(path),
        !path.contains('\t'),
    ensures
        cut::pieces(size_line(added, removed, path), Separator::Char('\t')) == seq![
            number::decimal_of(added as nat),
            number::decimal_of(removed as nat),
            path,
        ],
        count_of(number::decimal_of(added as nat)) == added,
        count_of(number::decimal_of(removed as nat)) == removed,
        current_path(path) == path,
{
    let first = number::decimal_of(added as nat);
    let second = number::decimal_of(removed as nat);
    let list = seq![first, second, path];
    number::decimal_reads_back(added as nat);
    number::decimal_reads_back(removed as nat);
    number::decimal_round_trip(added as nat, usize::MAX as int);
    number::decimal_round_trip(removed as nat, usize::MAX as int);
    assert forall|i: int| 0 <= i < list.len() implies !(#[trigger] list[i]).contains('\t') by {
        if i < 2 && list[i].contains('\t') {
            let at = list[i].index_of('\t');
            assert(number::is_digit(list[i][at]));
        }
    }
    cut::joined_pieces_come_apart(list, '\t');
    assert(list.drop_last() =~= seq![first, second]);
    assert(list.drop_last().drop_last() =~= seq![first]);
    reveal_with_fuel(cut::joined, 3);
    assert(cut::joined(list, seq!['\t']) =~= size_line(added, removed, path));
    plain_paths_stay(path);
}

proof fn the_last_size_counts(
    lines: Seq<Seq<char>>,
    k: int,
    added: usize,
    removed: usize,
    path: Seq<char>,
)
    requires
        0 <= k < lines.len(),
        lines[k] == size_line(added, removed, path),
        is_plain_path(path),
        !path.contains('\t'),
        path.contains('/'),
        forall|j: int| k < j < lines.len() ==> !sizes_path(#[trigger] lines[j], path),
    ensures
        sizes_of(lines).dom().contains(path),
        sizes_of(lines)[path] == (added, removed),
    decreases lines.len(),
{
    let last = lines.last();
    let before = sizes_of(lines.drop_last());
    let parts = cut::pieces(last, Separator::Char('\t'));
    if parts.len() >= 3 {
        let name = cut::pieces(current_path(parts[2]), Separator::Char('/')).last();
        cut::pieces_are_the_text(current_path(parts[2]), '/');
        cut::pieces_not_empty(current_path(parts[2]), Separator::Char('/'));
        assert(!name.contains('/')) by {
            let all = cut::pieces(current_path(parts[2]), Separator::Char('/'));
            assert(!all[all.len() - 1].contains('/'));
        }
        assert(name != path);
    }
    if k == lines.len() - 1 {
        a_size_line_is_read(added, removed, path);
    } else {
        assert(!sizes_path(lines[lines.len() - 1], path));
        the_last_size_counts(lines.drop_last(), k, added, removed, path);
    }
}

/// A file in a directory whose path is on a line of sizes gets the sizes of the last line
/// that names this path, whatever the lines say of files with the same name elsewhere; and
/// nothing else of it changes.
pub proof fn a_file_gets_the_sizes_of_its_path(
    files: Seq<git::FileModel>,
    i: int,
    text: Seq<char>,
    k: int,
    added: usize,
    removed: usize,
)
    requires
        0 <= i < files.len(),
        0 <= k < cut::lines_of(text).len(),
        cut::lines_of(text)[k] == size_line(added, removed, files[i].path),
        is_plain_path(files[i].path),
        !files[i].path.contains('\t'),
        files[i].path.contains('/'),
        forall|j: int|
            k < j < cut::lines_of(text).len() ==> !sizes_path(
                #[trigger] cut::lines_of(text)[j],
                files[i].path,
            ),
    ensures
        all_sized(files, Some(text))[i] == (git::FileModel {
            additions: added,
            deletions: removed,
            ..files[i]
        }),
        all_sized(files, Some(text)).len() == files.len(),
{
    the_last_size_counts(cut::lines_of(text), k, added, removed, files[i].path);
}

/// Whether a line of sizes says something of a name: as a path, or as the last part of
/// one.
pub open spec fn sizes_name(line: Seq<char>, name: Seq<char>) -> bool {
    let parts = cut::pieces(line, Separator::Char('\t'));
    parts.len() >= 3 && (current_path(parts[2]) == name || cut::pieces(
        current_path(parts[2]),
        Separator::Char('/'),
    ).last() == name)
}

proof fn nothing_is_said(lines: Seq<Seq<char>>, name: Seq<char>)
    requires
        forall|j: int| 0 <= j < lines.len() ==> !sizes_name(#[trigger] lines[j], name),
    ensures
        !sizes_of(lines).dom().contains(name),
    decreases lines.len(),
{
    if lines.len() > 0 {
        assert(!sizes_name(lines[lines.len() - 1], name));
        assert forall|j: int| 0 <= j < lines.drop_last().len() implies !sizes_name(
            #[trigger] lines.drop_last()[j],
            name,
        ) by {
            assert(!sizes_name(lines[j], name));
        }
        nothing_is_said(lines.drop_last(), name);
    }
}

proof fn the_last_name_counts(
    lines: Seq<Seq<char>>,
    k: int,
    added: usize,
    removed: usize,
    path: Seq<char>,
    name: Seq<char>,
)
    requires
        0 <= k < lines.len(),
        lines[k] == size_line(added, removed, path),
        is_plain_path(path),
        !path.contains('\t'),
        path == name || cut::pieces(path, Separator::Char('/')).last() == name,
        forall|j: int| k < j < lines.len() ==> !sizes_name(#[trigger] lines[j], name),
    ensures
        sizes_of(lines).dom().contains(name),
        sizes_of(lines)[name] == (added, removed),
    decreases lines.len(),
{
    if k == lines.len() - 1 {
        a_size_line_is_read(added, removed, path);
    } else {
        assert(!sizes_name(lines[lines.len() - 1], name));
        the_last_name_counts(lines.drop_last(), k, added, removed, path, name);
    }
}

/// A file whose path no line names gets the sizes of the last line that names it by the
/// last part of a path, and keeps its own where there is none.
pub proof fn a_file_gets_the_sizes_of_its_name(
    files: Seq<git::FileModel>,
    i: int,
    text: Seq<char>,
    k: int,
    added: usize,
    removed: usize,
    path: Seq<char>,
)
    requires
        0 <= i < files.len(),
        forall|j: int|
            0 <= j < cut::lines_of(text).len() ==> !sizes_name(
                #[trigger] cut::lines_of(text)[j],
                files[i].path,
            ),
    ensures
        0 <= k < cut::lines_of(text).len() && cut::lines_of(text)[k] == size_line(
            added,
            removed,
            path,
        ) && is_plain_path(path) && !path.contains('\t') && cut::pieces(
            path,
            Separator::Char('/'),
        ).last() == files[i].name && (forall|j: int|
            k < j < cut::lines_of(text).len() ==> !sizes_name(
                #[trigger] cut::lines_of(text)[j],
                files[i].name,
            )) ==> all_sized(files, Some(text))[i] == (git::FileModel {
            additions: added,
            deletions: removed,
            ..files[i]
        }),
        (forall|j: int|
            0 <= j < cut::lines_of(text).len() ==> !sizes_name(
                #[trigger] cut::lines_of(text)[j],
                files[i].name,
            )) ==> all_sized(files, Some(text))[i] == files[i],
        all_sized(files, None)[i] == files[i],
{
    let lines = cut::lines_of(text);
    nothing_is_said(lines, files[i].path);
    if 0 <= k < lines.len() && lines[k] == size_line(added, removed, path) && is_plain_path(path)
        && !path.contains('\t') && cut::pieces(path, Separator::Char('/')).last() == files[i].name
        && (forall|j: int|
        k < j < lines.len() ==> !sizes_name(#[trigger] lines[j], files[i].name)) {
        the_last_name_counts(lines, k, added, removed, path, files[i].name);
    }
    if forall|j: int| 0 <= j < lines.len() ==> !sizes_name(#[trigger] lines[j], files[i].name) {
        nothing_is_said(lines, files[i].name);
    }
}

/// How far a branch is ahead and behind is read from two numbers with a tab between.
pub proof fn ahead_comes_before_behind(ahead: usize, behind: usize)
    ensures
        ahead_behind_of(
            Some(
                number::decimal_of(ahead as nat) + seq!['\t'] + number::decimal_of(behind as nat),
            ),
        ) == Some((ahead, behind)),
{
    let first = number::decimal_of(ahead as nat);
    let second = number::decimal_of(behind as nat);
    let list = seq![first, second];
    number::decimal_reads_back(ahead as nat);
    number::decimal_reads_back(behind as nat);
    number::decimal_round_trip(ahead as nat, usize::MAX as int);
    number::decimal_round_trip(behind as nat, usize::MAX as int);
    assert forall|i: int| 0 <= i < list.len() implies !(#[trigger] list[i]).contains('\t') by {
        if list[i].contains('\t') {
            let at = list[i].index_of('\t');
            assert(number::is_digit(list[i][at]));
        }
    }
    cut::joined_pieces_come_apart(list, '\t');
    assert(list.drop_last() =~= seq![first]);
    reveal_with_fuel(cut::joined, 2);
    assert(cut::joined(list, seq!['\t']) =~= first + seq!['\t'] + second);
}

proof fn a_count_leads(count: usize, noun: Seq<char>)
    requires
        noun.len() > 0,
        forall|i: int| 0 <= i < noun.len() ==> !scan::is_space(#[trigger] noun[i]),
    ensures
        scan::trim_of(seq![' '] + number::decimal_of(count as nat) + seq![' '] + noun)
            == number::decimal_of(count as nat) + seq![' '] + noun,
        leading_count(number::decimal_of(count as nat) + seq![' '] + noun) == count,
        number::decimal_of(count as nat).len() > 0,
        forall|i: int|
            0 <= i < number::decimal_of(count as nat).len() ==> number::is_digit(
                #[trigger] number::decimal_of(count as nat)[i],
            ),
{
    let digits = number::decimal_of(count as nat);
    let part = digits + seq![' '] + noun;
    number::decimal_reads_back(count as nat);
    number::decimal_round_trip(count as nat, usize::MAX as int);
    let list = seq![digits, noun];
    assert forall|i: int, k: int| 0 <= i < list.len() && 0 <= k < list[i].len() implies !scan::is_space(
        #[trigger] list[i][k],
    ) by {
        if i == 0 {
            assert(number::is_digit(digits[k]));
        }
    }
    reveal_with_fuel(cut::joined, 3);
    assert(list.drop_last() =~= seq![digits]);
    assert(cut::joined(list, seq![' ']) =~= part);
    cut::written_words_are_read(list);
    assert(number::is_digit(digits[0]));
    assert(part[0] == digits[0]);
    assert(part.last() == noun.last());
    assert(noun.last() == noun[noun.len() - 1]);
    let none = Seq::<char>::empty();
    scan::trim_takes_the_space_around(seq![' '], part, none);
    assert(seq![' '] + part + none =~= seq![' '] + digits + seq![' '] + noun);
}

proof fn no_comma_in_a_count(count: usize, noun: Seq<char>)
    requires
        !noun.contains(','),
    ensures
        !(seq![' '] + number::decimal_of(count as nat) + seq![' '] + noun).contains(','),
{
    let digits = number::decimal_of(count as nat);
    let part = seq![' '] + digits + seq![' '] + noun;
    number::decimal_reads_back(count as nat);
    assert forall|i: int| 0 <= i < part.len() implies part[i] != ',' by {
        if 0 < i <= digits.len() {
            assert(number::is_digit(digits[i - 1]));
            assert(part[i] == digits[i - 1]);
        } else if i > digits.len() + 1 {
            assert(part[i] == noun[i - digits.len() - 2]);
            assert(noun.contains(noun[i - digits.len() - 2]));
        }
    }
}

/// Whether a noun of a summary counts lines that were added.
pub open spec fn names_insertions(noun: Seq<char>) -> bool {
    noun == "insertions(+)"@ || noun == "insertion(+)"@
}

/// Whether a noun of a summary counts lines that were removed.
pub open spec fn names_deletions(noun: Seq<char>) -> bool {
    noun == "deletions(-)"@ || noun == "deletion(-)"@
}

proof fn an_insertion_counts(stat: (usize, usize), count: usize, noun: Seq<char>)
    requires
        names_insertions(noun),
    ensures
        with_part(stat, seq![' '] + number::decimal_of(count as nat) + seq![' '] + noun) == (
            count,
            stat.1,
        ),
        !noun.contains(','),
        !scan::is_space(noun.last()),
        noun.len() > 0,
{
    reveal_strlit("insertions(+)");
    reveal_strlit("insertion(+)");
    reveal_strlit("insertion");
    a_count_leads(count, noun);
    let digits = number::decimal_of(count as nat);
    let part = digits + seq![' '] + noun;
    let at = digits.len() as int + 1;
    assert(part.subrange(at, at + "insertion"@.len()) =~= "insertion"@);
    assert(scan::stands_at(part, "insertion"@, at));
}

proof fn a_deletion_counts(stat: (usize, usize), count: usize, noun: Seq<char>)
    requires
        names_deletions(noun),
    ensures
        with_part(stat, seq![' '] + number::decimal_of(count as nat) + seq![' '] + noun) == (
            stat.0,
            count,
        ),
        !noun.contains(','),
        !scan::is_space(noun.last()),
        noun.len() > 0,
{
    reveal_strlit("deletions(-)");
    reveal_strlit("deletion(-)");
    reveal_strlit("insertion");
    reveal_strlit("deletion");
    a_count_leads(count, noun);
    let digits = number::decimal_of(count as nat);
    let part = digits + seq![' '] + noun;
    let at = digits.len() as int + 1;
    assert(part.subrange(at, at + "deletion"@.len()) =~= "deletion"@);
    assert(scan::stands_at(part, "deletion"@, at));
    assert forall|k: int| !scan::stands_at(part, "insertion"@, k) by {
        if scan::stands_at(part, "insertion"@, k) {
            let found = part.subrange(k, k + 9);
            assert(found[0] == part[k] && found[1] == part[k + 1]);
            assert(part[k] == 'i' && part[k + 1] == 'n');
            if k < digits.len() {
                assert(number::is_digit(digits[k]));
            } else if k > digits.len() {
                assert(part[k] == noun[k - digits.len() - 1]);
                assert(part[k + 1] == noun[k - digits.len()]);
            }
        }
    }
}

/// A summary as git prints it is read for the numbers of lines that it says are inserted
/// and deleted; a number that it leaves out is zero.
pub proof fn a_summary_is_read(
    before: Seq<char>,
    head: Seq<char>,
    added: usize,
    adds: Seq<char>,
    removed: usize,
    removes: Seq<char>,
    after: Seq<char>,
)
    requires
        forall|i: int| 0 <= i < before.len() ==> scan::is_space(#[trigger] before[i]),
        forall|i: int| 0 <= i < after.len() ==> scan::is_space(#[trigger] after[i]),
        head.len() > 0 && !scan::is_space(head[0]) && !scan::is_space(head.last()),
        !head.contains(','),
        !scan::contains_text(head, "insertion"@) && !scan::contains_text(head, "deletion"@),
        names_insertions(adds),
        names_deletions(removes),
    ensures
        ({
            let first = seq![' '] + number::decimal_of(added as nat) + seq![' '] + adds;
            let second = seq![' '] + number::decimal_of(removed as nat) + seq![' '] + removes;
            &&& summary_of(before + (head + seq![','] + first + seq![','] + second) + after) == Some(
                (added, removed),
            )
            &&& summary_of(before + (head + seq![','] + first) + after) == Some((added, 0usize))
            &&& summary_of(before + (head + seq![','] + second) + after) == Some((0usize, removed))
            &&& summary_of(before + head + after) == Some((0usize, 0usize))
        }),
{
    let first = seq![' '] + number::decimal_of(added as nat) + seq![' '] + adds;
    let second = seq![' '] + number::decimal_of(removed as nat) + seq![' '] + removes;
    an_insertion_counts((0, 0), added, adds);
    a_deletion_counts((0, 0), removed, removes);
    a_deletion_counts((added, 0), removed, removes);
    no_comma_in_a_count(added, adds);
    no_comma_in_a_count(removed, removes);
    assert(first.last() == adds.last());
    assert(second.last() == removes.last());
    let none = Seq::<char>::empty();
    scan::trim_takes_the_space_around(none, head, none);
    assert(none + head + none =~= head);
    assert(with_part((0, 0), head) == (0usize, 0usize));
    reveal_with_fuel(cut::joined, 4);
    reveal_with_fuel(with_parts, 4);

    let one = seq![head];
    assert(one.drop_last() =~= Seq::<Seq<char>>::empty());
    assert(cut::joined(one, seq![',']) =~= head);
    cut::joined_pieces_come_apart(one, ',');
    scan::trim_takes_the_space_around(before, head, after);

    let all = seq![head, first, second];
    assert(all.drop_last() =~= seq![head, first]);
    assert(seq![head, first].drop_last() =~= one);
    let text = head + seq![','] + first + seq![','] + second;
    assert(cut::joined(all, seq![',']) =~= text);
    cut::joined_pieces_come_apart(all, ',');
    assert(text[0] == head[0] && text.last() == second.last());
    scan::trim_takes_the_space_around(before, text, after);

    let left = seq![head, first];
    let left_text = head + seq![','] + first;
    assert(cut::joined(left, seq![',']) =~= left_text);
    cut::joined_pieces_come_apart(left, ',');
    assert(left_text[0] == head[0] && left_text.last() == first.last());
    scan::trim_takes_the_space_around(before, left_text, after);

    let right = seq![head, second];
    assert(right.drop_last() =~= one);
    let right_text = head + seq![','] + second;
    assert(cut::joined(right, seq![',']) =~= right_text);
    cut::joined_pieces_come_apart(right, ',');
    assert(right_text[0] == head[0] && right_text.last() == second.last());
    scan::trim_takes_the_space_around(before, right_text, after);
}

proof fn suffix_goes(text: Seq<char>, suffix: Seq<char>)
    ensures
        without_suffix(text + suffix, suffix) == text,
{
    let whole = text + suffix;
    let at = text.len() as int;
    assert(whole.subrange(at, at + suffix.len()) =~= suffix);
    assert(whole.take(at) =~= text);
}

/// A remote that is reached by ssh has the address of its host and path on the web; one
/// on the web has its own address. The suffix of a bare repository goes.
pub proof fn remotes_have_their_page(host: Seq<char>, path: Seq<char>)
    requires
        !host.contains(':') && !path.contains(':'),
        path.len() > 0 && !scan::is_space(path.last()),
        !scan::ends(path, ".git"@),
    ensures
        web_address("git@"@ + host + ":"@ + path) == "https://"@ + host + "/"@ + path,
        web_address("git@"@ + host + ":"@ + path + ".git"@) == "https://"@ + host + "/"@ + path,
        web_address("https://"@ + host + "/"@ + path) == "https://"@ + host + "/"@ + path,
        web_address("https://"@ + host + "/"@ + path + ".git"@) == "https://"@ + host + "/"@ + path,
        web_address("http://"@ + host + "/"@ + path + ".git"@) == "http://"@ + host + "/"@ + path,
{
    reveal_strlit("git@");
    reveal_strlit("https://");
    reveal_strlit("http://");
    reveal_strlit(".git");
    reveal_strlit(":");
    reveal_strlit("/");
    assert(":"@ =~= seq![':']);
    assert("/"@ =~= seq!['/']);
    let none = Seq::<char>::empty();
    let short = "git@"@ + host + ":"@ + path;
    let bare = short + ".git"@;
    let page = host + "/"@ + path;
    let inner = host + ":"@ + path;
    no_suffix_behind(host + "/"@, path);
    no_suffix_behind("https://"@ + host + "/"@, path);
    assert(host + "/"@ + path =~= page);

    assert(short[0] == 'g' && short.last() == path.last());
    scan::trim_takes_the_space_around(none, short, none);
    assert(none + short + none =~= short);
    assert(short.subrange(0, 4) =~= "git@"@);
    assert(short.skip(4) =~= inner);
    colons_turn(host, path);
    assert("https://"@ + page =~= "https://"@ + host + "/"@ + path);

    assert(bare[0] == 'g' && bare.last() == 't');
    scan::trim_takes_the_space_around(none, bare, none);
    assert(none + bare + none =~= bare);
    assert(bare.subrange(0, 4) =~= "git@"@);
    assert(bare.skip(4) =~= inner + ".git"@);
    colons_turn(host, path);
    suffix_goes(page, ".git"@);

    let web = "https://"@ + host + "/"@ + path;
    assert(web[0] == 'h' && web.last() == path.last());
    scan::trim_takes_the_space_around(none, web, none);
    assert(none + web + none =~= web);
    assert(web.subrange(0, 8) =~= "https://"@);
    assert(!scan::starts(web, "git@"@)) by {
        assert(web.subrange(0, 4)[0] == 'h');
        assert("git@"@[0] == 'g');
    }

    let bare_web = web + ".git"@;
    assert(bare_web[0] == 'h' && bare_web.last() == 't');
    scan::trim_takes_the_space_around(none, bare_web, none);
    assert(none + bare_web + none =~= bare_web);
    assert(bare_web.subrange(0, 8) =~= "https://"@);
    assert(!scan::starts(bare_web, "git@"@)) by {
        assert(bare_web.subrange(0, 4)[0] == 'h');
        assert("git@"@[0] == 'g');
    }
    suffix_goes(web, ".git"@);

    let plain = "http://"@ + host + "/"@ + path;
    let bare_plain = plain + ".git"@;
    assert(bare_plain[0] == 'h' && bare_plain.last() == 't');
    scan::trim_takes_the_space_around(none, bare_plain, none);
    assert(none + bare_plain + none =~= bare_plain);
    assert(bare_plain.subrange(0, 7) =~= "http://"@);
    assert(!scan::starts(bare_plain, "git@"@)) by {
        assert(bare_plain.subrange(0, 4)[0] == 'h');
        assert("git@"@[0] == 'g');
    }
    suffix_goes(plain, ".git"@);
}

proof fn no_suffix_behind(before: Seq<char>, path: Seq<char>)
    requires
        path.len() > 0,
        !scan::ends(path, ".git"@),
        before.len() > 0 && before.last() == '/',
    ensures
        without_suffix(before + path, ".git"@) == before + path,
{
    reveal_strlit(".git");
    let whole = before + path;
    if scan::ends(whole, ".git"@) {
        let at = whole.len() - 4;
        let end = whole.subrange(at, at + 4);
        if path.len() >= 4 {
            assert(path.subrange(path.len() - 4, path.len() as int) =~= end);
        } else {
            let slash = before.len() - 1 - at;
            assert(0 <= slash < 4);
            assert(end[slash] == whole[before.len() - 1]);
            assert(end[slash] == '/');
        }
    }
}

proof fn colons_turn(host: Seq<char>, path: Seq<char>)
    requires
        !host.contains(':') && !path.contains(':'),
    ensures
        cut::replaced(host + seq![':'] + path, seq![':'], seq!['/']) == host + seq!['/'] + path,
        cut::replaced(host + seq![':'] + path + ".git"@, seq![':'], seq!['/']) == host + seq!['/']
            + path + ".git"@,
{
    reveal_strlit(".git");
    let one = host + seq![':'] + path;
    let two = one + ".git"@;
    cut::each_character_is_replaced(one, ':', '/');
    cut::each_character_is_replaced(two, ':', '/');
    let turned = cut::replaced(one, seq![':'], seq!['/']);
    let turned_two = cut::replaced(two, seq![':'], seq!['/']);
    assert forall|i: int| 0 <= i < one.len() implies one[i] != ':' || i == host.len() by {
        if i < host.len() {
            assert(host.contains(host[i]));
        } else if i > host.len() {
            assert(one[i] == path[i - host.len() - 1]);
            assert(path.contains(path[i - host.len() - 1]));
        }
    }
    assert(turned =~= host + seq!['/'] + path);
    assert forall|i: int| 0 <= i < two.len() implies turned_two[i] == (host + seq!['/'] + path
        + ".git"@)[i] by {
        if i < one.len() {
            assert(two[i] == one[i]);
        } else {
            assert(two[i] == ".git"@[i - one.len()]);
        }
    }
    assert(turned_two =~= host + seq!['/'] + path + ".git"@);
}

/// A file at the top, too, gets the sizes of the last line that names its path, unless a
/// later line is of a file with the same name in a directory.
pub proof fn a_file_at_the_top_gets_the_sizes_of_its_path(
    files: Seq<git::FileModel>,
    i: int,
    text: Seq<char>,
    k: int,
    added: usize,
    removed: usize,
)
    requires
        0 <= i < files.len(),
        0 <= k < cut::lines_of(text).len(),
        cut::lines_of(text)[k] == size_line(added, removed, files[i].path),
        is_plain_path(files[i].path),
        !files[i].path.contains('\t'),
        forall|j: int|
            k < j < cut::lines_of(text).len() ==> !sizes_name(
                #[trigger] cut::lines_of(text)[j],
                files[i].path,
            ),
    ensures
        all_sized(files, Some(text))[i] == (git::FileModel {
            additions: added,
            deletions: removed,
            ..files[i]
        }),
{
    the_last_name_counts(cut::lines_of(text), k, added, removed, files[i].path, files[i].path);
}

} // verus!
