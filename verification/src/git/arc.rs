//! What Arc says of a checkout.

use vstd::prelude::*;

use crate::bytes;
use crate::bytes::{append, copy_all, same_bytes};
use crate::cut;
use crate::cut::{lines, split, Separator};
use crate::git::patch;
use crate::git::patch::{new_file_patch, MergedPatch, SnapshotPath};
use crate::json;
use crate::json::{find_field, parse_json, parse_json_bytes, Json};
use crate::order;
use crate::scan;
use crate::scan::{bytes_at, lower, starts_with, strip_prefix, trim};
use crate::text;
use crate::text::{list_has, owned, same};
use crate::textmap::TextSet;

verus! {

/// The arguments with which Arc shows the changes of the index or of the worktree.
pub open spec fn diff_args(cached: bool) -> Seq<Seq<char>> {
    if cached {
        seq!["diff"@, "--cached"@, "--no-color"@, "--git"@, "--binary"@]
    } else {
        seq!["diff"@, "--no-color"@, "--git"@, "--binary"@]
    }
}

/// The arguments with which Arc shows the changes of the index or of the worktree.
pub fn arc_diff_args(cached: bool) -> (args: Vec<String>)
    ensures
        text::texts(args@) == diff_args(cached),
{
    let mut args: Vec<String> = Vec::new();
    args.push(owned("diff"));
    if cached {
        args.push(owned("--cached"));
    }
    args.push(owned("--no-color"));
    args.push(owned("--git"));
    args.push(owned("--binary"));
    proof {
        assert(text::texts(args@) =~= diff_args(cached));
    }
    args
}

/// The first text among fields, by name.
pub open spec fn first_text_field(document: Json, names: Seq<Seq<char>>) -> Option<Seq<char>>
    decreases names.len(),
{
    if names.len() == 0 {
        None
    } else {
        match json::text_of(json::field_of(document, names[0])) {
            Some(value) => Some(value),
            None => first_text_field(document, names.skip(1)),
        }
    }
}

/// The branch that a status document names. An empty name is none.
pub open spec fn branch_in(document: Option<Json>) -> Option<Seq<char>> {
    match document {
        Some(known) => match first_text_field(
            known,
            seq!["branch"@, "current_branch"@, "currentBranch"@],
        ) {
            Some(branch) => if branch.len() > 0 {
                Some(branch)
            } else {
                None
            },
            None => None,
        },
        None => None,
    }
}

fn text_field(document: &Json, name: &str) -> (value: Option<String>)
    ensures
        text::opt(value) == json::text_of(json::field_of(*document, name@)),
{
    match document.field(name) {
        Some(found) => match found.as_text() {
            Some(value) => Some(owned(value)),
            None => None,
        },
        None => None,
    }
}

/// The branch that a status document names.
pub fn branch_of(document: &Json) -> (branch: Option<String>)
    ensures
        text::opt(branch) == branch_in(Some(*document)),
{
    proof {
        let names = seq!["branch"@, "current_branch"@, "currentBranch"@];
        assert(names.skip(1) =~= seq!["current_branch"@, "currentBranch"@]);
        assert(names.skip(1).skip(1) =~= seq!["currentBranch"@]);
        assert(names.skip(1).skip(1).skip(1) =~= Seq::<Seq<char>>::empty());
        reveal_with_fuel(first_text_field, 4);
    }
    let found = match text_field(document, "branch") {
        Some(value) => Some(value),
        None => match text_field(document, "current_branch") {
            Some(value) => Some(value),
            None => text_field(document, "currentBranch"),
        },
    };
    match found {
        Some(branch) => if branch.as_str().is_empty() {
            None
        } else {
            Some(branch)
        },
        None => None,
    }
}

/// The branch that a status in JSON names.
pub fn parse_arc_branch_json(text: &str) -> (branch: Option<String>)
    ensures
        text::opt(branch) == branch_in(json::document_read(json::json_in_text(text@))),
{
    match parse_json(text) {
        Ok(document) => branch_of(&document),
        Err(_) => None,
    }
}

/// The branch that a line marks as the current one.
pub open spec fn marked_branch(line: Seq<char>) -> Option<Seq<char>> {
    match scan::after_prefix(scan::trim_of(line), "* "@) {
        Some(branch) => Some(branch),
        None => scan::after_prefix(scan::trim_of(line), "current: "@),
    }
}

/// The branch that the first such line marks.
pub open spec fn first_marked(list: Seq<Seq<char>>, from: int) -> Option<Seq<char>>
    decreases list.len() - from,
{
    if from < 0 || from >= list.len() {
        None
    } else {
        match marked_branch(list[from]) {
            Some(branch) => Some(branch),
            None => first_marked(list, from + 1),
        }
    }
}

/// The branch that a status in words marks as the current one.
pub fn parse_arc_branch_text(text: &str) -> (branch: Option<String>)
    ensures
        text::opt(branch) == first_marked(cut::lines_of(text@), 0),
{
    let list = lines(text);
    let ghost all = cut::lines_of(text@);
    let mut i: usize = 0;
    while i < list.len()
        invariant
            i <= list@.len(),
            all == cut::lines_of(text@),
            all == text::texts(list@),
            first_marked(all, 0) == first_marked(all, i as int),
        decreases list@.len() - i,
    {
        proof {
            assert(all[i as int] == list@[i as int]@);
        }
        let line = trim(list[i].as_str());
        if let Some(branch) = strip_prefix(line.as_str(), "* ") {
            return Some(branch);
        }
        if let Some(branch) = strip_prefix(line.as_str(), "current: ") {
            return Some(branch);
        }
        i = i + 1;
    }
    None
}

// Files that are not tracked.

/// Whether fields say that a file is not tracked.
pub open spec fn says_untracked(fields: Seq<(String, Json)>) -> bool {
    let told = match json::field_at(fields, "status"@, 0) {
        Some(at) => Some(fields[at].1),
        None => match json::field_at(fields, "code"@, 0) {
            Some(at) => Some(fields[at].1),
            None => None,
        },
    };
    match json::text_of(told) {
        Some(status) => scan::lower_of(status) == "untracked"@ || status == "??"@,
        None => false,
    }
}

/// The text of a field, as a set.
pub open spec fn named_path(fields: Seq<(String, Json)>, name: Seq<char>) -> Set<Seq<char>> {
    match json::field_at(fields, name, 0) {
        Some(at) => match fields[at].1 {
            Json::Text(path) => set![path@],
            _ => Set::<Seq<char>>::empty(),
        },
        None => Set::<Seq<char>>::empty(),
    }
}

/// The paths that fields name themselves.
pub open spec fn own_paths(fields: Seq<(String, Json)>) -> Set<Seq<char>> {
    named_path(fields, "path"@) + named_path(fields, "file"@) + named_path(fields, "name"@)
}

/// The paths that a document names as not tracked. Only the documented containers
/// of a status are walked, so that no other text is taken for a path.
pub open spec fn untracked_in(document: Json, inside: bool) -> Set<Seq<char>>
    decreases document, 0int,
{
    match document {
        Json::Text(path) => if inside {
            set![path@]
        } else {
            Set::<Seq<char>>::empty()
        },
        Json::List(items) => untracked_in_list(items@, items@.len() as int, inside),
        Json::Fields(fields) => (if inside || says_untracked(fields@) {
            own_paths(fields@)
        } else {
            Set::<Seq<char>>::empty()
        }) + untracked_in_field(fields@, "untracked"@, true) + untracked_in_field(
            fields@,
            "files"@,
            inside,
        ) + untracked_in_field(fields@, "entries"@, inside) + untracked_in_field(
            fields@,
            "changes"@,
            inside,
        ) + untracked_in_field(fields@, "status"@, inside),
        _ => Set::<Seq<char>>::empty(),
    }
}

/// The paths that the first `count` documents of a list name as not tracked.
pub open spec fn untracked_in_list(items: Seq<Json>, count: int, inside: bool) -> Set<Seq<char>>
    decreases items, count,
{
    if count <= 0 || count > items.len() {
        Set::<Seq<char>>::empty()
    } else {
        untracked_in_list(items, count - 1, inside) + untracked_in(items[count - 1], inside)
    }
}

/// The paths that a field names as not tracked.
pub open spec fn untracked_in_field(
    fields: Seq<(String, Json)>,
    name: Seq<char>,
    inside: bool,
) -> Set<Seq<char>>
    decreases fields, 0int,
{
    match json::field_at(fields, name, 0) {
        Some(at) => if 0 <= at < fields.len() {
            untracked_in(fields[at].1, inside)
        } else {
            Set::<Seq<char>>::empty()
        },
        None => Set::<Seq<char>>::empty(),
    }
}


fn told_untracked(fields: &Vec<(String, Json)>) -> (yes: bool)
    ensures
        yes == says_untracked(fields@),
{
    let told = match find_field(fields, "status") {
        Some(at) => Some(at),
        None => find_field(fields, "code"),
    };
    match told {
        Some(at) => match &fields[at].1 {
            Json::Text(status) => {
                same(lower(status.as_str()).as_str(), "untracked") || same(status.as_str(), "??")
            },
            _ => false,
        },
        None => false,
    }
}

fn collect_path(fields: &Vec<(String, Json)>, name: &str, paths: &mut TextSet)
    ensures
        final(paths)@ == old(paths)@ + named_path(fields@, name@),
        old(paths).wf() ==> final(paths).wf(),
{
    let ghost before = paths@;
    if let Some(at) = find_field(fields, name) {
        if let Json::Text(path) = &fields[at].1 {
            paths.insert(owned(path.as_str()));
            proof {
                assert(paths@ =~= before + named_path(fields@, name@));
            }
            return ;
        }
    }
    proof {
        assert(paths@ =~= before + named_path(fields@, name@));
    }
}

/// Collects the paths that a status names as not tracked, `in_untracked` telling
/// whether the document stands in a list of such. Only the documented containers
/// are walked: arbitrary texts must not be mistaken for paths.
pub fn collect_arc_untracked(value: &Json, in_untracked: bool, paths: &mut TextSet)
    ensures
        final(paths)@ == old(paths)@ + untracked_in(*value, in_untracked),
        old(paths).wf() ==> final(paths).wf(),
    decreases *value,
{
    let ghost before = paths@;
    match value {
        Json::Text(path) => {
            if in_untracked {
                paths.insert(owned(path.as_str()));
            }
            proof {
                assert(paths@ =~= before + untracked_in(*value, in_untracked));
            }
        },
        Json::List(items) => {
            let mut i: usize = 0;
            proof {
                assert(paths@ =~= before + untracked_in_list(items@, 0, in_untracked));
            }
            while i < items.len()
                invariant
                    i <= items@.len(),
                    *value == Json::List(*items),
                    paths@ == before + untracked_in_list(items@, i as int, in_untracked),
                    old(paths).wf() ==> paths.wf(),
                decreases items@.len() - i,
            {
                proof {
                    assert(decreases_to!(*value => value->List_0));
                    assert(decreases_to!(value->List_0 => items@));
                    assert(decreases_to!(items@ => items@[i as int]));
                }
                collect_arc_untracked(&items[i], in_untracked, paths);
                i = i + 1;
                proof {
                    assert(paths@ =~= before + untracked_in_list(items@, i as int, in_untracked));
                }
            }
        },
        Json::Fields(fields) => {
            if in_untracked || told_untracked(fields) {
                collect_path(fields, "path", paths);
                collect_path(fields, "file", paths);
                collect_path(fields, "name", paths);
            }
            collect_field(value, fields, "untracked", true, paths);
            collect_field(value, fields, "files", in_untracked, paths);
            collect_field(value, fields, "entries", in_untracked, paths);
            collect_field(value, fields, "changes", in_untracked, paths);
            collect_field(value, fields, "status", in_untracked, paths);
            proof {
                assert(paths@ =~= before + untracked_in(*value, in_untracked));
            }
        },
        _ => {
            proof {
                assert(paths@ =~= before + untracked_in(*value, in_untracked));
            }
        },
    }
}

fn collect_field(
    value: &Json,
    fields: &Vec<(String, Json)>,
    name: &str,
    in_untracked: bool,
    paths: &mut TextSet,
)
    requires
        *value == Json::Fields(*fields),
    ensures
        final(paths)@ == old(paths)@ + untracked_in_field(fields@, name@, in_untracked),
        old(paths).wf() ==> final(paths).wf(),
    decreases *fields,
{
    let ghost before = paths@;
    if let Some(at) = find_field(fields, name) {
        proof {
            assert(decreases_to!(*fields => fields@[at as int].1));
        }
        collect_arc_untracked(&fields[at].1, in_untracked, paths);
    }
    proof {
        assert(paths@ =~= before + untracked_in_field(fields@, name@, in_untracked));
    }
}

// Paths below a root.

/// Whether a path lies below the directory it is taken from: it is not empty, does
/// not start at the file system's root, does not lead with a dot, and never goes up.
pub open spec fn stays_below(path: Seq<char>) -> bool {
    let parts = cut::pieces(path, Separator::Char('/'));
    &&& path.len() > 0
    &&& path[0] != '/'
    &&& parts[0] != "."@
    &&& !parts.contains(".."@)
}

/// Whether a path is one that can lie below a root. Where the directories that it
/// names lead is for the file system to say.
pub fn safe_arc_relative_path(path: &str) -> (safe: bool)
    ensures
        safe == stays_below(path@),
{
    proof {
        reveal_strlit("/");
        assert(path@.len() > 0 && path@[0] == '/' ==> scan::starts(path@, "/"@)) by {
            if path@.len() > 0 && path@[0] == '/' {
                assert(path@.subrange(0, 1) =~= "/"@);
            }
        }
        assert(scan::starts(path@, "/"@) ==> path@.len() > 0 && path@[0] == '/') by {
            if scan::starts(path@, "/"@) {
                assert(path@.subrange(0, 1)[0] == "/"@[0]);
            }
        }
    }
    if path.is_empty() || starts_with(path, "/") {
        return false;
    }
    let parts = split(path, Separator::Char('/'));
    proof {
        assert(text::texts(parts@)[0] == parts@[0]@);
    }
    !same(parts[0].as_str(), ".") && !list_has(&parts, "..")
}

/// Whether bytes are a path that can lie below a root.
pub open spec fn bytes_stay_below(path: Seq<u8>) -> bool {
    let parts = bytes::pieces(path, 0x2f);
    &&& path.len() > 0
    &&& path[0] != 0x2f
    &&& parts[0] != seq![0x2eu8]
    &&& !parts.contains(seq![0x2eu8, 0x2eu8])
}

fn has_piece(parts: &Vec<Vec<u8>>, piece: &[u8]) -> (yes: bool)
    ensures
        yes == bytes::lists(parts@).contains(piece@),
{
    let ghost all = bytes::lists(parts@);
    let mut i: usize = 0;
    while i < parts.len()
        invariant
            i <= parts@.len(),
            all == bytes::lists(parts@),
            forall|k: int| 0 <= k < i ==> #[trigger] all[k] != piece@,
        decreases parts@.len() - i,
    {
        proof {
            assert(all[i as int] == parts@[i as int]@);
        }
        if same_bytes(parts[i].as_slice(), piece) {
            return true;
        }
        i = i + 1;
    }
    false
}

/// Whether bytes are a path that can lie below a root.
pub fn safe_arc_relative_path_bytes(path: &[u8]) -> (safe: bool)
    ensures
        safe == bytes_stay_below(path@),
{
    if path.len() == 0 || path[0] == 0x2f {
        return false;
    }
    let parts = bytes::split(path, 0x2f);
    let mut dot: Vec<u8> = Vec::new();
    dot.push(0x2e);
    let mut dots: Vec<u8> = Vec::new();
    dots.push(0x2e);
    dots.push(0x2e);
    proof {
        assert(dot@ =~= seq![0x2eu8]);
        assert(dots@ =~= seq![0x2eu8, 0x2eu8]);
        assert(bytes::lists(parts@)[0] == parts@[0]@);
    }
    !same_bytes(parts[0].as_slice(), dot.as_slice()) && !has_piece(&parts, dots.as_slice())
}

/// Whether a path lies in a directory, both written without detours.
pub open spec fn inside_directory(path: Seq<u8>, directory: Seq<u8>) -> bool {
    &&& scan::starts(path, directory)
    &&& path.len() == directory.len() || (directory.len() > 0 && directory.last() == 0x2f)
        || path[directory.len() as int] == 0x2f
}

/// Whether a path lies in a directory, both written without detours: it is the
/// directory, or what follows the directory's path starts a part of its own.
pub fn lies_inside(path: &[u8], directory: &[u8]) -> (yes: bool)
    ensures
        yes == inside_directory(path@, directory@),
{
    bytes_at(path, directory, 0) && (path.len() == directory.len() || (directory.len() > 0
        && directory[directory.len() - 1] == 0x2f) || path[directory.len()] == 0x2f)
}

/// The files that a status document names as not tracked, in ascending order, but
/// those that cannot lie below the root.
pub fn untracked_paths(status: &Json) -> (paths: Vec<String>)
    ensures
        forall|path: Seq<char>| #[trigger]
            text::texts(paths@).contains(path) <==> untracked_in(*status, false).contains(path)
                && stays_below(path),
        forall|i: int, j: int|
            0 <= i < j < paths@.len() ==> order::precedes(
                #[trigger] paths@[i]@,
                #[trigger] paths@[j]@,
            ),
{
    let mut found = TextSet::new();
    collect_arc_untracked(status, false, &mut found);
    proof {
        assert(found@ =~= untracked_in(*status, false));
    }
    let all = found.to_list();
    let ghost list = text::texts(all@);
    let mut paths: Vec<String> = Vec::new();
    let ghost mut from: Seq<int> = Seq::empty();
    let mut i: usize = 0;
    while i < all.len()
        invariant
            i <= all@.len(),
            list == text::texts(all@),
            from.len() == paths@.len(),
            forall|k: int| 0 <= k < from.len() ==> 0 <= #[trigger] from[k] < i,
            forall|k: int| 0 <= k < from.len() ==> (#[trigger] paths@[k])@ == list[from[k]],
            forall|k: int| 0 <= k < from.len() ==> stays_below((#[trigger] paths@[k])@),
            forall|j: int, k: int| 0 <= j < k < from.len() ==> #[trigger] from[j] < #[trigger] from[k],
            forall|k: int|
                0 <= k < i && stays_below(#[trigger] list[k]) ==> from.contains(k),
        decreases all@.len() - i,
    {
        proof {
            assert(list[i as int] == all@[i as int]@);
        }
        let ghost earlier = from;
        if safe_arc_relative_path(all[i].as_str()) {
            paths.push(owned(all[i].as_str()));
            proof {
                from = from.push(i as int);
                assert(from[from.len() - 1] == i);
                assert forall|k: int|
                    0 <= k <= i && stays_below(#[trigger] list[k]) implies from.contains(k) by {
                    if k < i {
                        let at = earlier.index_of(k);
                        assert(from[at] == k);
                    }
                }
            }
        }
        i = i + 1;
    }
    proof {
        let kept = text::texts(paths@);
        assert forall|path: Seq<char>| #[trigger] kept.contains(path) <==> untracked_in(
            *status,
            false,
        ).contains(path) && stays_below(path) by {
            if kept.contains(path) {
                let k = kept.index_of(path);
                assert(paths@[k]@ == path);
                assert(list[from[k]] == path);
                assert(list.contains(path));
            }
            if untracked_in(*status, false).contains(path) && stays_below(path) {
                assert(list.contains(path));
                let k = list.index_of(path);
                assert(list[k] == path);
                let at = from.index_of(k);
                assert(paths@[at]@ == path);
                assert(kept[at] == path);
            }
        }
        assert forall|j: int, k: int| 0 <= j < k < paths@.len() implies order::precedes(
            #[trigger] paths@[j]@,
            #[trigger] paths@[k]@,
        ) by {
            assert(from[j] < from[k]);
            assert(list[from[j]] == all@[from[j]]@ && list[from[k]] == all@[from[k]]@);
        }
    }
    paths
}

/// Whether `paths` are the files that a status in JSON names as not tracked, in
/// ascending order, but those that cannot lie below the root; or what is wrong with
/// the status.
pub open spec fn lists_untracked(
    status: Seq<u8>,
    paths: Result<Seq<Seq<char>>, Seq<char>>,
) -> bool {
    match json::json_in_bytes(status) {
        Ok(document) => {
            &&& paths is Ok
            &&& forall|path: Seq<char>| #[trigger]
                paths->Ok_0.contains(path) <==> untracked_in(document, false).contains(path)
                    && stays_below(path)
            &&& forall|i: int, j: int|
                0 <= i < j < paths->Ok_0.len() ==> order::precedes(
                    #[trigger] paths->Ok_0[i],
                    #[trigger] paths->Ok_0[j],
                )
        },
        Err(message) => paths == Err::<Seq<Seq<char>>, Seq<char>>(message),
    }
}

/// The model of such a list.
pub open spec fn listed(paths: Result<Vec<String>, String>) -> Result<Seq<Seq<char>>, Seq<char>> {
    match paths {
        Ok(list) => Ok(text::texts(list@)),
        Err(message) => Err(message@),
    }
}

/// The files that a status in JSON names as not tracked, in ascending order, but
/// those that cannot lie below the root; or what is wrong with the status.
pub fn arc_untracked_paths(status: &[u8]) -> (paths: Result<Vec<String>, String>)
    ensures
        lists_untracked(status@, listed(paths)),
{
    match parse_json_bytes(status) {
        Ok(document) => {
            let paths = untracked_paths(&document);
            proof {
                assert forall|i: int, j: int| 0 <= i < j < paths@.len() implies order::precedes(
                    #[trigger] text::texts(paths@)[i],
                    #[trigger] text::texts(paths@)[j],
                ) by {
                    assert(order::precedes(paths@[i]@, paths@[j]@));
                }
            }
            Ok(paths)
        },
        Err(error) => Err(error),
    }
}

/// The arguments of the question for a status in JSON.
pub fn arc_status_args() -> (args: Vec<String>)
    ensures
        text::texts(args@) == seq!["status"@, "--json"@],
{
    let mut args: Vec<String> = Vec::new();
    args.push(owned("status"));
    args.push(owned("--json"));
    proof {
        assert(text::texts(args@) =~= seq!["status"@, "--json"@]);
    }
    args
}

// The parts of a patch.

/// The paths at HEAD of files that are shown from there.
pub open spec fn befores(paths: Seq<patch::SnapshotModel>) -> Seq<Seq<u8>>
    decreases paths.len(),
{
    if paths.len() == 0 {
        Seq::<Seq<u8>>::empty()
    } else {
        match paths.last().before {
            Some(path) => befores(paths.drop_last()).push(path),
            None => befores(paths.drop_last()),
        }
    }
}

/// The final paths of files that are shown to there.
pub open spec fn afters(paths: Seq<patch::SnapshotModel>) -> Seq<Seq<u8>>
    decreases paths.len(),
{
    if paths.len() == 0 {
        Seq::<Seq<u8>>::empty()
    } else {
        match paths.last().after {
            Some(path) => afters(paths.drop_last()).push(path),
            None => afters(paths.drop_last()),
        }
    }
}

/// The paths at HEAD of files that are shown from there.
pub fn before_paths(paths: &Vec<SnapshotPath>) -> (list: Vec<Vec<u8>>)
    ensures
        bytes::lists(list@) == befores(patch::snapshot_models(paths@)),
{
    let ghost models = patch::snapshot_models(paths@);
    let mut list: Vec<Vec<u8>> = Vec::new();
    let mut i: usize = 0;
    proof {
        assert(models.take(0) =~= Seq::empty());
        assert(bytes::lists(list@) =~= befores(models.take(0)));
    }
    while i < paths.len()
        invariant
            i <= paths@.len(),
            models == patch::snapshot_models(paths@),
            bytes::lists(list@) == befores(models.take(i as int)),
        decreases paths@.len() - i,
    {
        let ghost listed = bytes::lists(list@);
        proof {
            assert(models.take(i + 1).drop_last() =~= models.take(i as int));
            assert(models[i as int] == paths@[i as int]@);
        }
        if let Some(path) = &paths[i].before {
            let copy = copy_all(path.as_slice());
            list.push(copy);
            proof {
                assert(bytes::lists(list@) =~= listed.push(path@));
            }
        }
        i = i + 1;
    }
    proof {
        assert(models.take(i as int) =~= models);
    }
    list
}

/// The final paths of files that are shown to there.
pub fn after_paths(paths: &Vec<SnapshotPath>) -> (list: Vec<Vec<u8>>)
    ensures
        bytes::lists(list@) == afters(patch::snapshot_models(paths@)),
{
    let ghost models = patch::snapshot_models(paths@);
    let mut list: Vec<Vec<u8>> = Vec::new();
    let mut i: usize = 0;
    proof {
        assert(models.take(0) =~= Seq::empty());
        assert(bytes::lists(list@) =~= afters(models.take(0)));
    }
    while i < paths.len()
        invariant
            i <= paths@.len(),
            models == patch::snapshot_models(paths@),
            bytes::lists(list@) == afters(models.take(i as int)),
        decreases paths@.len() - i,
    {
        let ghost listed = bytes::lists(list@);
        proof {
            assert(models.take(i + 1).drop_last() =~= models.take(i as int));
            assert(models[i as int] == paths@[i as int]@);
        }
        if let Some(path) = &paths[i].after {
            let copy = copy_all(path.as_slice());
            list.push(copy);
            proof {
                assert(bytes::lists(list@) =~= listed.push(path@));
            }
        }
        i = i + 1;
    }
    proof {
        assert(models.take(i as int) =~= models);
    }
    list
}

/// The arguments with which Arc writes files of HEAD into a directory.
pub open spec fn export_command(paths: Seq<Seq<u8>>, directory: Seq<u8>) -> Option<Seq<Seq<u8>>> {
    if paths.len() == 0 {
        None
    } else {
        Some(
            seq![patch::utf8("export"@), patch::utf8("HEAD"@)] + paths + seq![
                patch::utf8("--to"@),
                directory,
            ],
        )
    }
}

/// The arguments with which Arc writes files of HEAD into a directory. Without
/// files it is not called: it would take the whole tree.
pub fn export_args(paths: &Vec<SnapshotPath>, directory: &[u8]) -> (args: Option<Vec<Vec<u8>>>)
    ensures
        match args {
            Some(list) => Some(bytes::lists(list@)),
            None => None,
        } == export_command(befores(patch::snapshot_models(paths@)), directory@),
{
    let listed = before_paths(paths);
    if listed.len() == 0 {
        return None;
    }
    let ghost inner = bytes::lists(listed@);
    let mut args: Vec<Vec<u8>> = Vec::new();
    args.push(copy_all("export".as_bytes()));
    args.push(copy_all("HEAD".as_bytes()));
    let ghost head = seq![patch::utf8("export"@), patch::utf8("HEAD"@)];
    proof {
        assert(bytes::lists(args@) =~= head + inner.take(0));
    }
    let mut i: usize = 0;
    while i < listed.len()
        invariant
            i <= listed@.len(),
            inner == bytes::lists(listed@),
            bytes::lists(args@) == head + inner.take(i as int),
        decreases listed@.len() - i,
    {
        let ghost listed_args = bytes::lists(args@);
        let copy = copy_all(listed[i].as_slice());
        args.push(copy);
        proof {
            assert(inner[i as int] == listed@[i as int]@);
            assert(bytes::lists(args@) =~= listed_args.push(inner[i as int]));
            assert(inner.take(i + 1) =~= inner.take(i as int).push(inner[i as int]));
            assert(bytes::lists(args@) =~= head + inner.take(i + 1));
        }
        i = i + 1;
    }
    args.push(copy_all("--to".as_bytes()));
    args.push(copy_all(directory));
    proof {
        assert(inner.take(i as int) =~= inner);
        assert(bytes::lists(args@) =~= head + inner + seq![patch::utf8("--to"@), directory@]);
    }
    Some(args)
}

/// What stands at a path.
#[derive(Debug, Clone, Copy, PartialEq, Eq, Structural)]
pub enum FileKind {
    Link,
    File { permissions: u32 },
    Other,
}

/// The mode with which a patch adds a file, where it is one that a patch can hold.
pub open spec fn added_mode(kind: FileKind) -> Option<Seq<char>> {
    match kind {
        FileKind::Link => Some("120000"@),
        FileKind::File { permissions } => if permissions & 0o111 != 0 {
            Some("100755"@)
        } else {
            Some("100644"@)
        },
        FileKind::Other => None,
    }
}

/// The patch that adds a file that is not tracked, from what stands at its path.
/// What is neither a file nor a link adds nothing.
pub fn arc_untracked_patch(path: &str, kind: FileKind, content: &[u8]) -> (patch: Vec<u8>)
    ensures
        patch@ == match added_mode(kind) {
            Some(mode) => patch::new_file(patch::utf8(path@), mode, content@),
            None => Seq::<u8>::empty(),
        },
{
    match kind {
        FileKind::Link => new_file_patch(path.as_bytes(), "120000", content),
        FileKind::File { permissions } => if permissions & 0o111 != 0 {
            new_file_patch(path.as_bytes(), "100755", content)
        } else {
            new_file_patch(path.as_bytes(), "100644", content)
        },
        FileKind::Other => Vec::new(),
    }
}

/// Patches, one behind the other.
pub open spec fn chained(patches: Seq<Seq<u8>>) -> Seq<u8>
    decreases patches.len(),
{
    if patches.len() == 0 {
        Seq::<u8>::empty()
    } else {
        chained(patches.drop_last()) + patches.last()
    }
}

/// Puts patches behind a patch.
pub fn append_patches(patch: &mut Vec<u8>, patches: &Vec<Vec<u8>>)
    ensures
        final(patch)@ == old(patch)@ + chained(bytes::lists(patches@)),
{
    let ghost before = patch@;
    let ghost all = bytes::lists(patches@);
    let mut i: usize = 0;
    proof {
        assert(all.take(0) =~= Seq::empty());
        assert(patch@ =~= before + chained(all.take(0)));
    }
    while i < patches.len()
        invariant
            i <= patches@.len(),
            all == bytes::lists(patches@),
            patch@ == before + chained(all.take(i as int)),
        decreases patches@.len() - i,
    {
        proof {
            assert(all.take(i + 1).drop_last() =~= all.take(i as int));
            assert(all[i as int] == patches@[i as int]@);
        }
        append(patch, patches[i].as_slice());
        i = i + 1;
        proof {
            assert(patch@ =~= before + chained(all.take(i as int)));
        }
    }
    proof {
        assert(all.take(i as int) =~= all);
    }
}

/// The patch of a checkout: what only the index or only the worktree changes, then
/// what both change, from HEAD to its final state, then the files that are not
/// tracked.
pub fn arc_patch_bytes(merged: MergedPatch, snapshot: &[u8], untracked: &Vec<Vec<u8>>) -> (patch:
    Vec<u8>)
    ensures
        patch@ == merged.kept@ + (if merged.overlap@.len() == 0 {
            Seq::<u8>::empty()
        } else {
            snapshot@
        }) + chained(bytes::lists(untracked@)),
{
    let mut patch = copy_all(merged.kept.as_slice());
    if merged.overlap.len() > 0 {
        append(&mut patch, snapshot);
    }
    proof {
        assert(patch@ =~= merged.kept@ + (if merged.overlap@.len() == 0 {
            Seq::<u8>::empty()
        } else {
            snapshot@
        }));
    }
    append_patches(&mut patch, untracked);
    patch
}

// Laws.

/// A line that Arc marks names the current branch, whatever space stands around it.
pub proof fn marked_lines_name_their_branch(before: Seq<char>, branch: Seq<char>, after: Seq<char>)
    requires
        forall|i: int| 0 <= i < before.len() ==> scan::is_space(#[trigger] before[i]),
        forall|i: int| 0 <= i < after.len() ==> scan::is_space(#[trigger] after[i]),
        branch.len() > 0 && !scan::is_space(branch.last()),
    ensures
        marked_branch(before + ("* "@ + branch) + after) == Some(branch),
        marked_branch(before + ("current: "@ + branch) + after) == Some(branch),
        branch[0] != '*' && branch[0] != 'c' && !scan::is_space(branch[0]) ==> marked_branch(
            before + branch + after,
        ) is None,
{
    reveal_strlit("* ");
    reveal_strlit("current: ");
    let star = "* "@ + branch;
    let word = "current: "@ + branch;
    assert(star[0] == '*' && star.last() == branch.last());
    assert(word[0] == 'c' && word.last() == branch.last());
    scan::trim_takes_the_space_around(before, star, after);
    scan::trim_takes_the_space_around(before, word, after);
    assert(star.subrange(0, 2) =~= "* "@);
    assert(star.skip(2) =~= branch);
    assert(word.subrange(0, 9) =~= "current: "@);
    assert(word.skip(9) =~= branch);
    assert(!scan::starts(word, "* "@)) by {
        assert(word.subrange(0, 2)[0] == 'c');
        assert("* "@[0] == '*');
    }
    if branch[0] != '*' && branch[0] != 'c' && !scan::is_space(branch[0]) {
        scan::trim_takes_the_space_around(before, branch, after);
        assert("* "@[0] == '*');
        assert("current: "@[0] == 'c');
        if scan::starts(branch, "* "@) {
            assert(branch.subrange(0, 2)[0] == branch[0]);
        }
        if scan::starts(branch, "current: "@) {
            assert(branch.subrange(0, 9)[0] == branch[0]);
        }
    }
}

/// The first line that is marked tells the branch.
pub proof fn the_first_mark_counts(list: Seq<Seq<char>>, from: int, k: int)
    requires
        0 <= from <= k < list.len(),
        marked_branch(list[k]) is Some,
        forall|j: int| from <= j < k ==> marked_branch(#[trigger] list[j]) is None,
    ensures
        first_marked(list, from) == marked_branch(list[k]),
    decreases k - from,
{
    if from < k {
        assert(marked_branch(list[from]) is None);
        the_first_mark_counts(list, from + 1, k);
    }
}

/// A status in JSON names its branch in a field of that name.
pub proof fn a_document_names_its_branch(document: Json, branch: Seq<char>)
    requires
        json::text_of(json::field_of(document, "branch"@)) == Some(branch),
    ensures
        branch.len() > 0 ==> branch_in(Some(document)) == Some(branch),
        branch.len() == 0 ==> branch_in(Some(document)) is None,
{
}

proof fn a_listed_document_counts(items: Seq<Json>, count: int, inside: bool, k: int)
    requires
        0 <= k < count <= items.len(),
    ensures
        untracked_in(items[k], inside).subset_of(untracked_in_list(items, count, inside)),
    decreases count,
{
    if k < count - 1 {
        a_listed_document_counts(items, count - 1, inside, k);
    }
}

/// Each path that stands in the list of files that are not tracked is found.
pub proof fn listed_paths_are_found(
    fields: Vec<(String, Json)>,
    at: int,
    items: Vec<Json>,
    k: int,
    path: String,
)
    requires
        json::field_at(fields@, "untracked"@, 0) == Some(at),
        0 <= at < fields@.len(),
        fields@[at].1 == Json::List(items),
        0 <= k < items@.len(),
        items@[k] == Json::Text(path),
    ensures
        untracked_in(Json::Fields(fields), false).contains(path@),
{
    let list = fields@[at].1;
    a_listed_document_counts(items@, items@.len() as int, true, k);
    assert(untracked_in(items@[k], true) == set![path@]);
    assert(untracked_in(list, true) == untracked_in_list(items@, items@.len() as int, true));
    assert(untracked_in(list, true).contains(path@));
    assert(untracked_in_field(fields@, "untracked"@, true) == untracked_in(list, true));
}

/// A document that says of itself that its file is not tracked names the path of that
/// file; one that says it is modified, and holds no list, names none. A text by itself names
/// none.
pub proof fn told_paths_are_found(fields: Vec<(String, Json)>, at: int, path: String)
    requires
        0 <= at < fields@.len(),
        fields@[at].1 == Json::Text(path),
        json::field_at(fields@, "path"@, 0) == Some(at),
    ensures
        json::text_of(json::field_of(Json::Fields(fields), "status"@)) == Some("untracked"@)
            || json::text_of(json::field_of(Json::Fields(fields), "status"@)) == Some("??"@)
            ==> untracked_in(Json::Fields(fields), false).contains(path@),
        untracked_in(Json::Text(path), false) == Set::<Seq<char>>::empty(),
        json::text_of(json::field_of(Json::Fields(fields), "status"@)) == Some("modified"@)
            && json::field_at(fields@, "untracked"@, 0) is None && json::field_at(
            fields@,
            "files"@,
            0,
        ) is None && json::field_at(fields@, "entries"@, 0) is None && json::field_at(
            fields@,
            "changes"@,
            0,
        ) is None ==> untracked_in(Json::Fields(fields), false) == Set::<Seq<char>>::empty(),
{
    reveal_strlit("untracked");
    reveal_strlit("modified");
    reveal_strlit("??");
    let document = Json::Fields(fields);
    assert("untracked"@.len() == 9 && "modified"@.len() == 8 && "??"@.len() == 2);
    assert(scan::lower_of("untracked"@) =~= "untracked"@);
    assert(named_path(fields@, "path"@).contains(path@));
    assert(own_paths(fields@).contains(path@));
    if json::text_of(json::field_of(document, "status"@)) == Some("modified"@) {
        assert(scan::lower_of("modified"@).len() == 8);
        assert(!says_untracked(fields@));
        let place = json::field_at(fields@, "status"@, 0)->0;
        json_place(fields@, "status"@, 0);
        assert(untracked_in_field(fields@, "status"@, false) == untracked_in(
            fields@[place].1,
            false,
        ));
        assert(untracked_in(fields@[place].1, false) =~= Set::<Seq<char>>::empty());
        if json::field_at(fields@, "untracked"@, 0) is None && json::field_at(fields@, "files"@, 0)
            is None && json::field_at(fields@, "entries"@, 0) is None && json::field_at(
            fields@,
            "changes"@,
            0,
        ) is None {
            assert(untracked_in(document, false) =~= Set::<Seq<char>>::empty());
        }
    }
}

proof fn json_place(fields: Seq<(String, Json)>, name: Seq<char>, from: int)
    requires
        0 <= from,
    ensures
        json::field_at(fields, name, from) matches Some(at) ==> 0 <= at < fields.len()
            && fields[at].0@ == name,
    decreases fields.len() - from,
{
    if from < fields.len() && fields[from].0@ != name {
        json_place(fields, name, from + 1);
    }
}

/// A path of plain parts lies below the root; one that goes up, starts at the root of the
/// file system or leads with a dot does not.
pub proof fn only_plain_paths_stay_below(parts: Seq<Seq<char>>, k: int)
    requires
        parts.len() > 0,
        0 <= k < parts.len(),
        forall|i: int| 0 <= i < parts.len() ==> !(#[trigger] parts[i]).contains('/'),
    ensures
        ({
            let path = cut::joined(parts, seq!['/']);
            &&& (forall|i: int| 0 <= i < parts.len() ==> (#[trigger] parts[i]) != seq!['.', '.'])
                && parts[0] != seq!['.'] && parts[0].len() > 0 ==> stays_below(path)
            &&& parts[k] == seq!['.', '.'] ==> !stays_below(path)
            &&& parts[0] == seq!['.'] ==> !stays_below(path)
            &&& parts[0].len() == 0 ==> !stays_below(path)
        }),
{
    reveal_strlit(".");
    reveal_strlit("..");
    assert("."@ =~= seq!['.']);
    assert(".."@ =~= seq!['.', '.']);
    let path = cut::joined(parts, seq!['/']);
    cut::joined_pieces_come_apart(parts, '/');
    joined_starts(parts);
    if parts[k] == seq!['.', '.'] {
        assert(parts.contains(".."@));
    }
    if parts[0].len() > 0 && path[0] == '/' {
        assert(parts[0].contains(parts[0][0]));
    }
}

proof fn joined_starts(parts: Seq<Seq<char>>)
    requires
        parts.len() > 0,
    ensures
        ({
            let path = cut::joined(parts, seq!['/']);
            &&& parts[0].len() > 0 ==> path.len() > 0 && path[0] == parts[0][0]
            &&& parts[0].len() == 0 ==> path.len() == 0 || path[0] == '/'
        }),
    decreases parts.len(),
{
    if parts.len() > 1 {
        joined_starts(parts.drop_last());
        assert(parts.drop_last()[0] == parts[0]);
    }
}

/// What stands in a directory lies inside it; what only starts with the same letters does
/// not.
pub proof fn directories_hold_what_stands_in_them(directory: Seq<u8>, byte: u8, rest: Seq<u8>)
    requires
        directory.len() > 0 && directory.last() != 0x2f,
        byte != 0x2f,
    ensures
        inside_directory(directory, directory),
        inside_directory(directory.push(0x2f) + rest, directory),
        !inside_directory(directory.push(byte) + rest, directory),
        !inside_directory(directory.drop_last(), directory),
{
    let n = directory.len() as int;
    assert(directory.subrange(0, n) =~= directory);
    assert((directory.push(0x2f) + rest).subrange(0, n) =~= directory);
    assert((directory.push(0x2f) + rest)[n] == 0x2f);
    assert((directory.push(byte) + rest)[n] == byte);
}

/// A file that someone may execute is added as an executable one, any other as a plain
/// one, and a link as a link.
pub proof fn files_are_added_as_what_they_are(permissions: u32)
    ensures
        added_mode(FileKind::File { permissions }) == if permissions & 0o100 != 0 || permissions
            & 0o010 != 0 || permissions & 0o001 != 0 {
            Some("100755"@)
        } else {
            Some("100644"@)
        },
        added_mode(FileKind::Link) == Some("120000"@),
        added_mode(FileKind::Other) is None,
{
    assert(permissions & 0o111 != 0 <==> permissions & 0o100 != 0 || permissions & 0o010 != 0
        || permissions & 0o001 != 0) by (bit_vector);
}

/// Patches stand one behind the other, each of them whole.
pub proof fn chains_are_joined(first: Seq<Seq<u8>>, patch: Seq<u8>, second: Seq<Seq<u8>>)
    ensures
        chained(first + seq![patch] + second) == chained(first) + patch + chained(second),
        chained(Seq::<Seq<u8>>::empty()) == Seq::<u8>::empty(),
    decreases second.len(),
{
    let all = first + seq![patch] + second;
    if second.len() == 0 {
        assert(all.drop_last() =~= first);
        assert(chained(all) =~= chained(first) + patch + chained(second));
    } else {
        let rest = second.drop_last();
        chains_are_joined(first, patch, rest);
        assert(all.drop_last() =~= first + seq![patch] + rest);
        assert(all.last() == second.last());
        assert(chained(all) =~= chained(first) + patch + chained(second));
    }
}

/// The files that are written from HEAD are named, in order, between the revision and the
/// directory; where there are none, nothing is written.
pub proof fn exports_name_their_files(paths: Seq<Seq<u8>>, directory: Seq<u8>, k: int)
    requires
        0 <= k < paths.len(),
    ensures
        ({
            let args = export_command(paths, directory)->0;
            &&& export_command(paths, directory) is Some
            &&& args.len() == paths.len() + 4
            &&& args[0] == patch::utf8("export"@)
            &&& args[1] == patch::utf8("HEAD"@)
            &&& args[k + 2] == paths[k]
            &&& args[args.len() - 2] == patch::utf8("--to"@)
            &&& args.last() == directory
        }),
        export_command(Seq::<Seq<u8>>::empty(), directory) is None,
{
}

} // verus!
