//! Unix paths as text.

use vstd::prelude::*;
use vstd::string::StringExecFns;

use crate::text::{chars_of, owned, same, text_of};

verus! {

/// Whether a path starts at the root.
pub open spec fn is_absolute(path: Seq<char>) -> bool {
    path.len() > 0 && path[0] == '/'
}

/// A path below a base. An absolute path stands for itself, and a base that is
/// empty or ends in a slash gets none.
pub open spec fn below(base: Seq<char>, path: Seq<char>) -> Seq<char> {
    if is_absolute(path) {
        path
    } else if base.len() == 0 || base.last() == '/' {
        base + path
    } else {
        base + "/"@ + path
    }
}

/// Whether a path starts at the root.
pub fn absolute(path: &str) -> (yes: bool)
    ensures
        yes == is_absolute(path@),
{
    let chars = chars_of(path);
    chars.len() > 0 && chars[0] == '/'
}

/// A path below a base.
pub fn join_path(base: &str, path: &str) -> (joined: String)
    ensures
        joined@ == below(base@, path@),
{
    if absolute(path) {
        return owned(path);
    }
    let chars = chars_of(base);
    let mut out = owned(base);
    if chars.len() > 0 && chars[chars.len() - 1] != '/' {
        out.append("/");
    }
    out.append(path);
    out
}

/// The index behind the last slash of a path.
pub open spec fn last_part_at(path: Seq<char>, end: int) -> int
    decreases end,
{
    if end <= 0 || end > path.len() {
        0
    } else if path[end - 1] == '/' {
        end
    } else {
        last_part_at(path, end - 1)
    }
}

/// The end of a path without the slashes, and the parts `.` behind a slash,
/// that it ends with.
pub open spec fn name_end(path: Seq<char>, end: int) -> int
    decreases end,
{
    if end <= 0 || end > path.len() {
        0
    } else if path[end - 1] == '/' {
        name_end(path, end - 1)
    } else if end > 1 && path[end - 1] == '.' && path[end - 2] == '/' {
        name_end(path, end - 1)
    } else {
        end
    }
}

/// The last part of a path, where that is a name, neither `.` nor `..`.
pub open spec fn file_name_of(path: Seq<char>) -> Option<Seq<char>> {
    let end = name_end(path, path.len() as int);
    let start = last_part_at(path, end);
    let name = path.subrange(start, end);
    if end == 0 || name == "."@ || name == ".."@ {
        None
    } else {
        Some(name)
    }
}

proof fn last_part_bounds(path: Seq<char>, end: int)
    requires
        0 <= end <= path.len(),
    ensures
        0 <= last_part_at(path, end) <= end,
    decreases end,
{
    if end > 0 && path[end - 1] != '/' {
        last_part_bounds(path, end - 1);
    }
}

/// The last part of a path, where that is a name.
pub fn file_name(path: &str) -> (name: Option<String>)
    ensures
        crate::text::opt(name) == file_name_of(path@),
{
    let chars = chars_of(path);
    let mut end: usize = chars.len();
    while end > 0 && (chars[end - 1] == '/' || (end > 1 && chars[end - 1] == '.' && chars[end - 2]
        == '/'))
        invariant
            end <= chars@.len(),
            chars@ == path@,
            name_end(path@, path@.len() as int) == name_end(path@, end as int),
        decreases end,
    {
        end = end - 1;
    }
    if end == 0 {
        return None;
    }
    let mut start: usize = end;
    while start > 0 && chars[start - 1] != '/'
        invariant
            start <= end <= chars@.len(),
            chars@ == path@,
            last_part_at(path@, end as int) == last_part_at(path@, start as int),
        decreases start,
    {
        start = start - 1;
    }
    let name = text_of(chars.as_slice(), start, end);
    if same(name.as_str(), ".") || same(name.as_str(), "..") {
        None
    } else {
        Some(name)
    }
}

// Laws.

proof fn a_part_starts_behind_its_slash(path: Seq<char>, slash: int, end: int)
    requires
        -1 <= slash < end <= path.len(),
        slash >= 0 ==> path[slash] == '/',
        forall|k: int| slash < k < end ==> path[k] != '/',
    ensures
        last_part_at(path, end) == slash + 1,
    decreases end - slash,
{
    if slash < end - 1 {
        assert(path[end - 1] != '/');
        a_part_starts_behind_its_slash(path, slash, end - 1);
    } else if slash >= 0 {
        assert(path[end - 1] == '/');
    }
}

/// A name that was joined to a base is the name of the path, and the base leads the path;
/// a path from the root stays what it is.
pub proof fn a_joined_name_is_the_name(base: Seq<char>, name: Seq<char>, path: Seq<char>)
    requires
        name.len() > 0 && !name.contains('/'),
        name != "."@ && name != ".."@,
    ensures
        file_name_of(below(base, name)) == Some(name),
        below(base, name).len() >= base.len(),
        below(base, name).take(base.len() as int) == base,
        base.len() > 0 && base.last() != '/' ==> below(base, name) == base.push('/') + name,
        base.len() > 0 && base.last() == '/' ==> below(base, name) == base + name,
        below(base, seq!['/'] + path) == seq!['/'] + path,
{
    reveal_strlit("/");
    reveal_strlit(".");
    let whole = below(base, name);
    assert forall|k: int| 0 <= k < name.len() implies name[k] != '/' by {
        assert(name.contains(name[k]));
    }
    assert(name[0] != '/');
    assert((seq!['/'] + path)[0] == '/');
    let slash = whole.len() - name.len() - 1;
    if base.len() > 0 && base.last() != '/' {
        assert(whole =~= base.push('/') + name);
    } else {
        assert(whole =~= base + name);
    }
    assert forall|k: int| slash < k < whole.len() implies whole[k] != '/' by {
        assert(whole[k] == name[k - slash - 1]);
    }
    let n = whole.len() as int;
    assert(whole[n - 1] == name[name.len() - 1]);
    if n > 1 && whole[n - 1] == '.' && whole[n - 2] == '/' {
        if name.len() > 1 {
            assert(whole[n - 2] == name[name.len() - 2]);
        }
        assert(name =~= "."@);
    }
    a_part_starts_behind_its_slash(whole, slash, n);
    assert(whole.subrange(slash + 1, n) =~= name);
    assert(whole.take(base.len() as int) =~= base);
}

/// Slashes at the end of a path do not change its name; the root has none.
pub proof fn slashes_behind_a_name_do_not_count(path: Seq<char>)
    requires
        path.len() > 0,
    ensures
        file_name_of(path.push('/')) == file_name_of(path),
        file_name_of(seq!['/']) is None,
{
    let longer = path.push('/');
    let n = path.len() as int;
    same_ends(longer, path, n);
    assert(name_end(longer, n + 1) == name_end(longer, n));
    let end = name_end(path, n);
    name_end_bounds(path, n);
    same_starts(longer, path, end);
    last_part_bounds(path, end);
    let start = last_part_at(path, end);
    assert(longer.subrange(start, end) =~= path.subrange(start, end));
    let root = seq!['/'];
    assert(name_end(root, 1) == name_end(root, 0));
}

proof fn name_end_bounds(path: Seq<char>, end: int)
    requires
        0 <= end <= path.len(),
    ensures
        0 <= name_end(path, end) <= end,
    decreases end,
{
    if end > 0 {
        name_end_bounds(path, end - 1);
    }
}

proof fn same_ends(longer: Seq<char>, path: Seq<char>, end: int)
    requires
        0 <= end <= path.len() <= longer.len(),
        forall|i: int| 0 <= i < path.len() ==> longer[i] == path[i],
    ensures
        name_end(longer, end) == name_end(path, end),
    decreases end,
{
    if end > 0 {
        same_ends(longer, path, end - 1);
    }
}

proof fn same_starts(longer: Seq<char>, path: Seq<char>, end: int)
    requires
        0 <= end <= path.len() <= longer.len(),
        forall|i: int| 0 <= i < path.len() ==> longer[i] == path[i],
    ensures
        last_part_at(longer, end) == last_part_at(path, end),
    decreases end,
{
    if end > 0 {
        same_starts(longer, path, end - 1);
    }
}

} // verus!
