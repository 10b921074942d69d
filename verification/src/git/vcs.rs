//! The repositories that the panes work in, and their patches.

use vstd::prelude::*;

use crate::bytes;
use crate::bytes::exact;
use crate::git::arc;
use crate::git::arc::{
    append_patches, arc_diff_args, arc_patch_bytes, arc_status_args, arc_untracked_paths,
    parse_arc_branch_json, parse_arc_branch_text,
};
use crate::git::command;
use crate::git::command::{git_untracked_paths, untracked_patch_args, GitQuery};
use crate::git::patch;
use crate::git::patch::{merge_patches, patch_stat, SnapshotPath};
use crate::git::status;
use crate::git::status::parse_diff_stat;
use crate::git::{VcsEntry, VcsKind};
use crate::cut;
use crate::json;
use crate::order;
use crate::order::less;
use crate::text;
use crate::text::{concat2, owned, same};

verus! {

/// What Arc answered on a checkout.
#[derive(Debug)]
pub struct ArcProbe {
    /// The root of the mount.
    pub root: String,
    /// The status with the branch, in JSON.
    pub status_json: Option<String>,
    /// The status with the branch, in words.
    pub status_text: Option<String>,
    /// The patch, where it could be made.
    pub patch: Option<Vec<u8>>,
}

/// What git answered on a checkout.
#[derive(Debug)]
pub struct GitProbe {
    /// The top-level directory.
    pub root: String,
    pub branch: Option<String>,
    pub shortstat: Option<String>,
    pub staged_shortstat: Option<String>,
    /// The status whose fields are separated by zeros.
    pub status: Option<Vec<u8>>,
}

/// The model of an entry.
pub struct EntryModel {
    pub kind: VcsKind,
    pub root: Seq<char>,
    pub branch: Seq<char>,
    pub diff_stat: Option<(usize, usize)>,
}

impl View for VcsEntry {
    type V = EntryModel;

    open spec fn view(&self) -> EntryModel {
        EntryModel {
            kind: self.kind,
            root: self.root@,
            branch: self.branch@,
            diff_stat: self.diff_stat,
        }
    }
}

/// The models of a list of entries.
pub open spec fn entry_models(entries: Seq<VcsEntry>) -> Seq<EntryModel> {
    entries.map_values(|entry: VcsEntry| entry@)
}

/// A text, or that of a checkout on no branch.
pub open spec fn or_head(branch: Option<Seq<char>>) -> Seq<char> {
    match branch {
        Some(name) => name,
        None => "HEAD"@,
    }
}

/// The branch that Arc tells: in JSON, or else in words.
pub open spec fn arc_branch(probe: ArcProbe) -> Option<Seq<char>> {
    let told = match probe.status_json {
        Some(text) => arc::branch_in(json::document_read(json::json_in_text(text@))),
        None => None,
    };
    match told {
        Some(branch) => Some(branch),
        None => match probe.status_text {
            Some(text) => arc::first_marked(cut::lines_of(text@), 0),
            None => None,
        },
    }
}

/// The lines that a patch adds and deletes.
pub open spec fn size_of_patch(patch: Option<Vec<u8>>) -> (int, int) {
    match patch {
        Some(bytes) => {
            let lines = bytes::pieces(bytes@, 0x0a);
            (patch::lines_with(lines, "+"@) as int, patch::lines_with(lines, "-"@) as int)
        },
        None => (0, 0),
    }
}

/// The lines that a summary says are added and removed.
pub open spec fn summed(text: Option<String>) -> (int, int) {
    match text {
        Some(known) => match status::summary_of(known@) {
            Some((added, removed)) => (added as int, removed as int),
            None => (0, 0),
        },
        None => (0, 0),
    }
}

/// How many files git does not track.
pub open spec fn untracked_count(output: Option<Vec<u8>>) -> int {
    match output {
        Some(bytes) => command::untracked_total(bytes::pieces(bytes@, 0)) as int,
        None => 0,
    }
}

/// The size of the changes of a git checkout. A file that is not tracked counts as
/// one line.
pub open spec fn size_of_checkout(probe: GitProbe) -> (int, int) {
    let unstaged = summed(probe.shortstat);
    let staged = summed(probe.staged_shortstat);
    (unstaged.0 + staged.0 + untracked_count(probe.status), unstaged.1 + staged.1)
}

/// Whether the size of the changes of a checkout can be counted.
pub open spec fn countable(arc: Option<ArcProbe>, git: Option<GitProbe>) -> bool {
    arc is None && git is Some ==> {
        &&& size_of_checkout(git->0).0 <= usize::MAX
        &&& size_of_checkout(git->0).1 <= usize::MAX
    }
}

/// The repository that probes found. Arc is believed first: an Arc mount can contain
/// a git metadata directory.
pub open spec fn entry_of(arc: Option<ArcProbe>, git: Option<GitProbe>) -> Option<EntryModel> {
    match arc {
        Some(probe) => Some(
            EntryModel {
                kind: VcsKind::Arc,
                root: probe.root@,
                branch: or_head(arc_branch(probe)),
                diff_stat: Some(
                    (size_of_patch(probe.patch).0 as usize, size_of_patch(probe.patch).1 as usize),
                ),
            },
        ),
        None => match git {
            Some(probe) => Some(
                EntryModel {
                    kind: VcsKind::Git,
                    root: probe.root@,
                    branch: or_head(text::opt(probe.branch)),
                    diff_stat: Some(
                        (
                            size_of_checkout(probe).0 as usize,
                            size_of_checkout(probe).1 as usize,
                        ),
                    ),
                },
            ),
            None => None,
        },
    }
}

fn head_or(branch: Option<String>) -> (name: String)
    ensures
        name@ == or_head(text::opt(branch)),
{
    match branch {
        Some(known) => known,
        None => owned("HEAD"),
    }
}

fn read_arc_branch(probe: &ArcProbe) -> (branch: Option<String>)
    ensures
        text::opt(branch) == arc_branch(*probe),
{
    let told = match &probe.status_json {
        Some(text) => parse_arc_branch_json(text.as_str()),
        None => None,
    };
    match told {
        Some(branch) => Some(branch),
        None => match &probe.status_text {
            Some(text) => parse_arc_branch_text(text.as_str()),
            None => None,
        },
    }
}

fn read_summary(text: &Option<String>) -> (stat: (usize, usize))
    ensures
        (stat.0 as int, stat.1 as int) == summed(*text),
{
    match text {
        Some(known) => match parse_diff_stat(known.as_str()) {
            Some(stat) => stat,
            None => (0, 0),
        },
        None => (0, 0),
    }
}

fn count_untracked(output: &Option<Vec<u8>>) -> (count: usize)
    ensures
        count == untracked_count(*output),
{
    match output {
        Some(stdout) => {
            let paths = git_untracked_paths(stdout.as_slice());
            proof {
                command::one_path_for_each_field(bytes::pieces(stdout@, 0));
                assert(text::texts(paths@).len() == paths@.len());
            }
            paths.len()
        },
        None => 0,
    }
}

/// Whether the size of the changes of a checkout can be counted.
pub fn is_countable(arc: &Option<ArcProbe>, git: &Option<GitProbe>) -> (yes: bool)
    ensures
        yes == countable(*arc, *git),
{
    if arc.is_some() {
        return true;
    }
    match git {
        Some(probe) => {
            let unstaged = read_summary(&probe.shortstat);
            let staged = read_summary(&probe.staged_shortstat);
            let untracked = count_untracked(&probe.status);
            let added: u128 = unstaged.0 as u128 + staged.0 as u128 + untracked as u128;
            let removed: u128 = unstaged.1 as u128 + staged.1 as u128;
            added <= usize::MAX as u128 && removed <= usize::MAX as u128
        },
        None => true,
    }
}

/// The repository that probes of a path found. Arc is asked first: an Arc mount can
/// contain a git metadata directory but must never be queried with git commands.
pub fn fetch_vcs_entry(arc: &Option<ArcProbe>, git: &Option<GitProbe>) -> (entry: Option<VcsEntry>)
    requires
        countable(*arc, *git),
    ensures
        match entry {
            Some(found) => entry_of(*arc, *git) == Some(found@),
            None => entry_of(*arc, *git) is None,
        },
{
    match arc {
        Some(probe) => {
            let branch = head_or(read_arc_branch(probe));
            let diff_stat = match &probe.patch {
                Some(bytes) => patch_stat(bytes.as_slice()),
                None => (0, 0),
            };
            Some(
                VcsEntry {
                    kind: VcsKind::Arc,
                    root: owned(probe.root.as_str()),
                    branch,
                    diff_stat: Some(diff_stat),
                },
            )
        },
        None => match git {
            Some(probe) => {
                let unstaged = read_summary(&probe.shortstat);
                let staged = read_summary(&probe.staged_shortstat);
                let untracked = count_untracked(&probe.status);
                Some(
                    VcsEntry {
                        kind: VcsKind::Git,
                        root: owned(probe.root.as_str()),
                        branch: head_or(probe.branch.clone()),
                        diff_stat: Some(
                            (unstaged.0 + staged.0 + untracked, unstaged.1 + staged.1),
                        ),
                    },
                )
            },
            None => None,
        },
    }
}


// All repositories.

/// Whether an entry stands before another: by its root, then by its branch.
pub open spec fn stands_before(left: EntryModel, right: EntryModel) -> bool {
    order::precedes(left.root, right.root) || (left.root == right.root && order::precedes(
        left.branch,
        right.branch,
    ))
}

/// Whether two entries are of the same repository and branch.
pub open spec fn same_checkout(left: EntryModel, right: EntryModel) -> bool {
    left.kind == right.kind && left.root == right.root && left.branch == right.branch
}

/// A list in order with one more entry, behind all that it does not stand before.
pub open spec fn with_entry(list: Seq<EntryModel>, entry: EntryModel) -> Seq<EntryModel>
    decreases list.len(),
{
    if list.len() > 0 && stands_before(entry, list.last()) {
        with_entry(list.drop_last(), entry).push(list.last())
    } else {
        list.push(entry)
    }
}

/// Entries in order; those that are equal in it keep the order they came in.
pub open spec fn in_order(list: Seq<EntryModel>) -> Seq<EntryModel>
    decreases list.len(),
{
    if list.len() == 0 {
        list
    } else {
        with_entry(in_order(list.drop_last()), list.last())
    }
}

/// Entries without those of the same checkout as the entry before.
pub open spec fn without_repeats(list: Seq<EntryModel>) -> Seq<EntryModel>
    decreases list.len(),
{
    if list.len() == 0 {
        list
    } else {
        let kept = without_repeats(list.drop_last());
        if kept.len() > 0 && same_checkout(list.last(), kept.last()) {
            kept
        } else {
            kept.push(list.last())
        }
    }
}

/// The entries that were found.
pub open spec fn found_entries(found: Seq<Option<VcsEntry>>) -> Seq<EntryModel>
    decreases found.len(),
{
    if found.len() == 0 {
        Seq::empty()
    } else {
        match found.last() {
            Some(entry) => found_entries(found.drop_last()).push(entry@),
            None => found_entries(found.drop_last()),
        }
    }
}

fn comes_before(left: &VcsEntry, right: &VcsEntry) -> (yes: bool)
    ensures
        yes == stands_before(left@, right@),
{
    less(left.root.as_str(), right.root.as_str()) || (same(left.root.as_str(), right.root.as_str())
        && less(left.branch.as_str(), right.branch.as_str()))
}

fn is_repeat(left: &VcsEntry, right: &VcsEntry) -> (yes: bool)
    ensures
        yes == same_checkout(left@, right@),
{
    left.kind == right.kind && same(left.root.as_str(), right.root.as_str()) && same(
        left.branch.as_str(),
        right.branch.as_str(),
    )
}

/// Inserting at a place behind which all entries stand after the new one, and
/// before which the last does not, is inserting in order.
proof fn insertion_point(list: Seq<EntryModel>, entry: EntryModel, at: int)
    requires
        0 <= at <= list.len(),
        forall|k: int| at <= k < list.len() ==> stands_before(entry, #[trigger] list[k]),
        at > 0 ==> !stands_before(entry, list[at - 1]),
    ensures
        with_entry(list, entry) == list.insert(at, entry),
    decreases list.len(),
{
    if at == list.len() {
        assert(list.insert(at, entry) =~= list.push(entry));
    } else {
        let shorter = list.drop_last();
        insertion_point(shorter, entry, at);
        assert(list.insert(at, entry) =~= shorter.insert(at, entry).push(list.last()));
    }
}

fn insert_entry(list: &mut Vec<VcsEntry>, entry: VcsEntry)
    ensures
        entry_models(final(list)@) == with_entry(entry_models(old(list)@), entry@),
{
    let ghost models = entry_models(list@);
    let mut at: usize = list.len();
    while at > 0 && comes_before(&entry, &list[at - 1])
        invariant
            at <= list@.len(),
            list@ == old(list)@,
            models == entry_models(list@),
            forall|k: int| at <= k < models.len() ==> stands_before(entry@, #[trigger] models[k]),
        decreases at,
    {
        at = at - 1;
        proof {
            assert(models[at as int] == list@[at as int]@);
        }
    }
    let ghost model = entry@;
    proof {
        if at > 0 {
            assert(models[at - 1] == list@[at - 1]@);
        }
        insertion_point(models, entry@, at as int);
    }
    list.insert(at, entry);
    proof {
        assert(entry_models(list@) =~= models.insert(at as int, model));
    }
}

/// Every distinct repository and branch that panes work in, in order, from what the
/// paths of the panes were found to be in.
pub fn fetch_vcs_entries(found: Vec<Option<VcsEntry>>) -> (entries: Vec<VcsEntry>)
    ensures
        entry_models(entries@) == without_repeats(in_order(found_entries(found@))),
{
    let ghost all = found@;
    let mut found = found;
    let mut sorted: Vec<VcsEntry> = Vec::new();
    let mut rest: Vec<Option<VcsEntry>> = Vec::new();
    while found.len() > 0
        invariant
            rest@.reverse() =~= all.skip(found@.len() as int),
            found@ =~= all.take(found@.len() as int),
            found@.len() + rest@.len() == all.len(),
        decreases found@.len(),
    {
        let ghost before = found@;
        let last = found.pop();
        if let Some(item) = last {
            let ghost earlier = rest@;
            rest.push(item);
            proof {
                assert(rest@.reverse() =~= seq![item] + earlier.reverse());
                assert(all.skip(found@.len() as int) =~= seq![all[found@.len() as int]] + all.skip(
                    before.len() as int,
                ));
            }
        }
    }
    let ghost mut done: int = 0;
    proof {
        assert(all.take(0) =~= Seq::empty());
        assert(entry_models(sorted@) =~= Seq::<EntryModel>::empty());
        assert(all.skip(0) =~= all);
    }
    while rest.len() > 0
        invariant
            0 <= done <= all.len(),
            rest@.len() == all.len() - done,
            rest@.reverse() =~= all.skip(done),
            entry_models(sorted@) == in_order(found_entries(all.take(done))),
        decreases rest@.len(),
    {
        let ghost before = rest@;
        let last = rest.pop();
        proof {
            assert(before.reverse()[0] == before.last());
            assert(all.skip(done)[0] == all[done]);
            assert(all.take(done + 1).drop_last() =~= all.take(done));
            let listed = found_entries(all.take(done));
            assert forall|entry: EntryModel|
                #[trigger] in_order(listed.push(entry)) == with_entry(in_order(listed), entry) by {
                assert(listed.push(entry).drop_last() =~= listed);
            }
            assert(rest@.reverse() =~= all.skip(done + 1)) by {
                assert forall|k: int| 0 <= k < rest@.len() implies #[trigger] rest@.reverse()[k]
                    == all.skip(done + 1)[k] by {
                    assert(before.reverse()[k + 1] == all.skip(done)[k + 1]);
                }
            }
            done = done + 1;
        }
        if let Some(Some(entry)) = last {
            insert_entry(&mut sorted, entry);
        }
    }
    proof {
        assert(all.take(done) =~= all);
    }
    drop_repeats(sorted)
}

fn drop_repeats(list: Vec<VcsEntry>) -> (kept: Vec<VcsEntry>)
    ensures
        entry_models(kept@) == without_repeats(entry_models(list@)),
{
    let ghost models = entry_models(list@);
    let mut kept: Vec<VcsEntry> = Vec::new();
    let mut i: usize = 0;
    proof {
        assert(models.take(0) =~= Seq::empty());
        assert(entry_models(kept@) =~= without_repeats(models.take(0)));
    }
    while i < list.len()
        invariant
            i <= list@.len(),
            models == entry_models(list@),
            entry_models(kept@) == without_repeats(models.take(i as int)),
        decreases list@.len() - i,
    {
        let ghost before = entry_models(kept@);
        proof {
            assert(models[i as int] == list@[i as int]@);
            assert(models.take(i + 1).drop_last() =~= models.take(i as int));
            assert(before.len() == kept@.len());
            if kept@.len() > 0 {
                assert(before.last() == kept@[kept@.len() - 1]@);
            }
        }
        if kept.len() == 0 || !is_repeat(&list[i], &kept[kept.len() - 1]) {
            let entry = VcsEntry {
                kind: list[i].kind,
                root: owned(list[i].root.as_str()),
                branch: owned(list[i].branch.as_str()),
                diff_stat: list[i].diff_stat,
            };
            let ghost model = entry@;
            kept.push(entry);
            proof {
                assert(entry_models(kept@) =~= before.push(model));
            }
        }
        i = i + 1;
    }
    proof {
        assert(models.take(i as int) =~= models);
    }
    kept
}

// Laws.

proof fn before_is_transitive(a: EntryModel, b: EntryModel, c: EntryModel)
    requires
        !stands_before(b, a),
        !stands_before(c, b),
    ensures
        !stands_before(c, a),
{
    order::precedes_total(a.root, b.root);
    order::precedes_total(b.root, c.root);
    order::precedes_total(a.branch, b.branch);
    order::precedes_total(b.branch, c.branch);
    if stands_before(c, a) {
        if order::precedes(c.root, a.root) {
            if order::precedes(a.root, b.root) {
                order::precedes_transitive(c.root, a.root, b.root);
            }
            assert(order::precedes(c.root, b.root));
        } else {
            assert(order::precedes(c.branch, a.branch));
            if order::precedes(a.root, b.root) {
                assert(order::precedes(c.root, b.root));
            } else {
                assert(a.root == b.root);
                if order::precedes(a.branch, b.branch) {
                    order::precedes_transitive(c.branch, a.branch, b.branch);
                }
            }
        }
    }
}

/// Whether no entry stands before an earlier one.
pub open spec fn is_ordered(list: Seq<EntryModel>) -> bool {
    forall|i: int, j: int|
        0 <= i < j < list.len() ==> !stands_before(#[trigger] list[j], #[trigger] list[i])
}

proof fn with_entry_is_ordered(list: Seq<EntryModel>, entry: EntryModel)
    requires
        is_ordered(list),
    ensures
        is_ordered(with_entry(list, entry)),
        with_entry(list, entry).len() == list.len() + 1,
        forall|k: int|
            0 <= k < with_entry(list, entry).len() ==> (#[trigger] with_entry(list, entry)[k])
                == entry || list.contains(with_entry(list, entry)[k]),
    decreases list.len(),
{
    let longer = with_entry(list, entry);
    if list.len() > 0 && stands_before(entry, list.last()) {
        let shorter = list.drop_last();
        with_entry_is_ordered(shorter, entry);
        let inner = with_entry(shorter, entry);
        assert(longer =~= inner.push(list.last()));
        order::precedes_irreflexive(entry.root);
        assert(!stands_before(list.last(), entry)) by {
            if stands_before(list.last(), entry) {
                if order::precedes(entry.root, list.last().root) {
                    order::precedes_asymmetric(entry.root, list.last().root);
                } else {
                    order::precedes_asymmetric(entry.branch, list.last().branch);
                    order::precedes_irreflexive(entry.root);
                }
            }
        }
        assert forall|i: int, j: int| 0 <= i < j < longer.len() implies !stands_before(
            #[trigger] longer[j],
            #[trigger] longer[i],
        ) by {
            if j < inner.len() {
                assert(longer[j] == inner[j] && longer[i] == inner[i]);
            } else {
                assert(longer[i] == inner[i]);
                if inner[i] != entry {
                    let at = shorter.index_of(inner[i]);
                    assert(list[at] == inner[i]);
                }
            }
        }
        assert forall|k: int| 0 <= k < longer.len() implies (#[trigger] longer[k]) == entry
            || list.contains(longer[k]) by {
            if k < inner.len() {
                assert(longer[k] == inner[k]);
                if inner[k] != entry {
                    let at = shorter.index_of(inner[k]);
                    assert(list[at] == inner[k]);
                }
            } else {
                assert(list[list.len() - 1] == longer[k]);
            }
        }
    } else {
        assert forall|i: int, j: int| 0 <= i < j < longer.len() implies !stands_before(
            #[trigger] longer[j],
            #[trigger] longer[i],
        ) by {
            if j == list.len() {
                if i < list.len() - 1 {
                    assert(!stands_before(list[list.len() - 1], list[i]));
                    before_is_transitive(list[i], list.last(), entry);
                }
            } else {
                assert(longer[j] == list[j]);
            }
        }
        assert forall|k: int| 0 <= k < longer.len() implies (#[trigger] longer[k]) == entry
            || list.contains(longer[k]) by {
            if k < list.len() {
                assert(longer[k] == list[k]);
            }
        }
    }
}

proof fn in_order_is_ordered(list: Seq<EntryModel>)
    ensures
        is_ordered(in_order(list)),
    decreases list.len(),
{
    if list.len() > 0 {
        in_order_is_ordered(list.drop_last());
        with_entry_is_ordered(in_order(list.drop_last()), list.last());
    }
}

proof fn repeats_leave_a_part(list: Seq<EntryModel>)
    requires
        is_ordered(list),
    ensures
        is_ordered(without_repeats(list)),
        list.len() > 0 ==> without_repeats(list).len() > 0 && !stands_before(
            without_repeats(list).last(),
            list.last(),
        ) && same_checkout(without_repeats(list).last(), list.last()),
        forall|k: int|
            0 <= k < without_repeats(list).len() ==> list.contains(
                #[trigger] without_repeats(list)[k],
            ),
    decreases list.len(),
{
    if list.len() > 0 {
        let shorter = list.drop_last();
        repeats_leave_a_part(shorter);
        let kept = without_repeats(shorter);
        let result = without_repeats(list);
        order::precedes_irreflexive(list.last().root);
        order::precedes_irreflexive(list.last().branch);
        assert forall|k: int| 0 <= k < result.len() implies list.contains(
            #[trigger] result[k],
        ) by {
            if k < kept.len() {
                assert(result[k] == kept[k]);
                let at = shorter.index_of(kept[k]);
                assert(list[at] == kept[k]);
            } else {
                assert(list[list.len() - 1] == result[k]);
            }
        }
        assert forall|i: int, j: int| 0 <= i < j < result.len() implies !stands_before(
            #[trigger] result[j],
            #[trigger] result[i],
        ) by {
            if j < kept.len() {
                assert(result[j] == kept[j] && result[i] == kept[i]);
            } else {
                assert(result[i] == kept[i]);
                let at = shorter.index_of(kept[i]);
                assert(list[at] == kept[i]);
            }
        }
    }
}

/// The entries are in order of their roots and branches, and no two neighbours are
/// of the same checkout.
pub proof fn entries_are_in_order(found: Seq<EntryModel>)
    ensures
        is_ordered(without_repeats(in_order(found))),
        forall|k: int|
            0 < k < without_repeats(in_order(found)).len() ==> !same_checkout(
                #[trigger] without_repeats(in_order(found))[k],
                without_repeats(in_order(found))[k - 1],
            ),
{
    in_order_is_ordered(found);
    repeats_leave_a_part(in_order(found));
    neighbours_differ(in_order(found));
}

proof fn neighbours_differ(list: Seq<EntryModel>)
    ensures
        forall|k: int|
            0 < k < without_repeats(list).len() ==> !same_checkout(
                #[trigger] without_repeats(list)[k],
                without_repeats(list)[k - 1],
            ),
    decreases list.len(),
{
    if list.len() > 0 {
        neighbours_differ(list.drop_last());
        let kept = without_repeats(list.drop_last());
        let result = without_repeats(list);
        assert forall|k: int| 0 < k < result.len() implies !same_checkout(
            #[trigger] result[k],
            result[k - 1],
        ) by {
            if k < kept.len() {
                assert(result[k] == kept[k] && result[k - 1] == kept[k - 1]);
            }
        }
    }
}

proof fn with_entry_keeps(list: Seq<EntryModel>, entry: EntryModel)
    ensures
        with_entry(list, entry).contains(entry),
        forall|k: int|
            0 <= k < list.len() ==> with_entry(list, entry).contains(#[trigger] list[k]),
    decreases list.len(),
{
    let longer = with_entry(list, entry);
    if list.len() > 0 && stands_before(entry, list.last()) {
        let shorter = list.drop_last();
        with_entry_keeps(shorter, entry);
        let inner = with_entry(shorter, entry);
        let at = inner.index_of(entry);
        assert(longer[at] == entry);
        assert forall|k: int| 0 <= k < list.len() implies longer.contains(#[trigger] list[k]) by {
            if k < shorter.len() {
                assert(inner.contains(shorter[k]));
                let place = inner.index_of(shorter[k]);
                assert(longer[place] == list[k]);
            } else {
                assert(longer[longer.len() - 1] == list[k]);
            }
        }
    } else {
        assert(longer[list.len() as int] == entry);
        assert forall|k: int| 0 <= k < list.len() implies longer.contains(#[trigger] list[k]) by {
            assert(longer[k] == list[k]);
        }
    }
}

proof fn in_order_keeps(list: Seq<EntryModel>, k: int)
    requires
        0 <= k < list.len(),
    ensures
        in_order(list).contains(list[k]),
    decreases list.len(),
{
    let shorter = list.drop_last();
    with_entry_keeps(in_order(shorter), list.last());
    if k < shorter.len() {
        in_order_keeps(shorter, k);
        let at = in_order(shorter).index_of(list[k]);
        assert(in_order(shorter)[at] == list[k]);
    }
}

/// Whether a list holds an entry of the same checkout.
pub open spec fn has_checkout(list: Seq<EntryModel>, entry: EntryModel) -> bool {
    exists|k: int| 0 <= k < list.len() && same_checkout(#[trigger] list[k], entry)
}

proof fn repeats_keep_checkouts(list: Seq<EntryModel>, at: int)
    requires
        0 <= at < list.len(),
    ensures
        has_checkout(without_repeats(list), list[at]),
    decreases list.len(),
{
    let shorter = list.drop_last();
    let kept = without_repeats(shorter);
    let result = without_repeats(list);
    if at < shorter.len() {
        repeats_keep_checkouts(shorter, at);
        let k = choose|k: int| 0 <= k < kept.len() && same_checkout(#[trigger] kept[k], shorter[at]);
        assert(result[k] == kept[k]);
    } else {
        assert(same_checkout(result[result.len() - 1], list[at]));
    }
}

/// Every checkout that was found is listed.
pub proof fn every_checkout_is_listed(found: Seq<EntryModel>, k: int)
    requires
        0 <= k < found.len(),
    ensures
        has_checkout(without_repeats(in_order(found)), found[k]),
{
    in_order_keeps(found, k);
    let at = in_order(found).index_of(found[k]);
    repeats_keep_checkouts(in_order(found), at);
}

/// Where no root and branch belong to two systems, no checkout is listed twice.
pub proof fn no_checkout_is_listed_twice(found: Seq<EntryModel>, i: int, j: int)
    requires
        forall|a: int, b: int|
            0 <= a < found.len() && 0 <= b < found.len() && #[trigger] found[a].root
                == #[trigger] found[b].root && found[a].branch == found[b].branch ==> found[a].kind
                == found[b].kind,
        0 <= i < j < without_repeats(in_order(found)).len(),
    ensures
        !same_checkout(
            without_repeats(in_order(found))[i],
            without_repeats(in_order(found))[j],
        ),
{
    let sorted = in_order(found);
    let listed = without_repeats(sorted);
    entries_are_in_order(found);
    in_order_is_ordered(found);
    repeats_leave_a_part(sorted);
    if same_checkout(listed[i], listed[j]) {
        assert(j > 0);
        if i < j - 1 {
            assert(!stands_before(listed[j], listed[j - 1]));
            assert(!stands_before(listed[j - 1], listed[i]));
        }
        order::precedes_total(listed[j - 1].root, listed[i].root);
        order::precedes_total(listed[j - 1].branch, listed[i].branch);
        assert(listed[j - 1].root == listed[i].root);
        assert(listed[j - 1].branch == listed[i].branch);
        in_order_adds_nothing(found);
        assert(sorted.contains(listed[j]));
        assert(sorted.contains(listed[j - 1]));
        let a = found.index_of(listed[j]);
        let b = found.index_of(listed[j - 1]);
        assert(found[a] == listed[j] && found[b] == listed[j - 1]);
        assert(found[a].root == found[b].root);
        assert(same_checkout(listed[j], listed[j - 1]));
    }
}

proof fn in_order_adds_nothing(list: Seq<EntryModel>)
    ensures
        forall|entry: EntryModel| #[trigger]
            in_order(list).contains(entry) ==> list.contains(entry),
    decreases list.len(),
{
    if list.len() > 0 {
        let shorter = list.drop_last();
        in_order_adds_nothing(shorter);
        in_order_is_ordered(shorter);
        with_entry_is_ordered(in_order(shorter), list.last());
        assert forall|entry: EntryModel| #[trigger] in_order(list).contains(entry) implies list.contains(
            entry,
        ) by {
            let k = in_order(list).index_of(entry);
            assert(with_entry(in_order(shorter), list.last())[k] == entry);
            if entry == list.last() {
                assert(list[list.len() - 1] == entry);
            } else {
                assert(in_order(shorter).contains(entry));
                let at = shorter.index_of(entry);
                assert(list[at] == entry);
            }
        }
    }
}

// Patches.

/// The next step on the way to the patch of a repository.
#[derive(Debug)]
pub enum PatchStep {
    /// Run git. Where it compares, a difference makes it end with one.
    Git { args: Vec<String>, allow_diff_exit: bool },
    /// Run Arc.
    Arc { args: Vec<String> },
    /// Show files from HEAD to their final state.
    Snapshot { paths: Vec<SnapshotPath> },
    /// Show a file that is not tracked as one that was added.
    Added { path: String },
    /// The patch is whole, or cannot be had.
    Done(Result<Vec<u8>, String>),
}

/// The model of a step.
pub enum StepModel {
    Git { args: Seq<Seq<char>>, allow_diff_exit: bool },
    Arc { args: Seq<Seq<char>> },
    Snapshot { paths: Seq<patch::SnapshotModel> },
    Added { path: Seq<char> },
    Done(Result<Seq<u8>, Seq<char>>),
}

impl View for PatchStep {
    type V = StepModel;

    open spec fn view(&self) -> StepModel {
        match *self {
            PatchStep::Git { args, allow_diff_exit } => StepModel::Git {
                args: text::texts(args@),
                allow_diff_exit,
            },
            PatchStep::Arc { args } => StepModel::Arc { args: text::texts(args@) },
            PatchStep::Snapshot { paths } => StepModel::Snapshot {
                paths: patch::snapshot_models(paths@),
            },
            PatchStep::Added { path } => StepModel::Added { path: path@ },
            PatchStep::Done(Ok(made)) => StepModel::Done(Ok::<Seq<u8>, Seq<char>>(made@)),
            PatchStep::Done(Err(message)) => StepModel::Done(
                Err::<Seq<u8>, Seq<char>>(message@),
            ),
        }
    }
}

/// The first step that failed, and its complaint.
pub open spec fn fault(replies: Seq<Result<Vec<u8>, String>>) -> Option<(int, Seq<char>)>
    decreases replies.len(),
{
    if replies.len() == 0 {
        None
    } else {
        match fault(replies.drop_last()) {
            Some(found) => Some(found),
            None => match replies.last() {
                Ok(_) => None,
                Err(message) => Some((replies.len() - 1, message@)),
            },
        }
    }
}

/// What a step gave.
pub open spec fn output_of(reply: Result<Vec<u8>, String>) -> Seq<u8> {
    match reply {
        Ok(output) => output@,
        Err(_) => Seq::empty(),
    }
}

/// What the steps gave.
pub open spec fn outputs(replies: Seq<Result<Vec<u8>, String>>) -> Seq<Seq<u8>> {
    replies.map_values(|reply: Result<Vec<u8>, String>| output_of(reply))
}

/// The step after those that git has answered: the patch of what it tracks, the
/// status, then each file that is not tracked, as the status lists them. A step that
/// failed is the last.
pub open spec fn git_step(replies: Seq<Result<Vec<u8>, String>>) -> StepModel {
    let shown = outputs(replies);
    if let Some((_, message)) = fault(replies) {
        StepModel::Done(Err::<Seq<u8>, Seq<char>>(message))
    } else if replies.len() == 0 {
        StepModel::Git { args: command::query_args(GitQuery::Patch), allow_diff_exit: false }
    } else if replies.len() == 1 {
        StepModel::Git { args: command::query_args(GitQuery::Untracked), allow_diff_exit: false }
    } else {
        let paths = command::untracked_fields(bytes::pieces(shown[1], 0));
        let next = replies.len() - 2;
        if next < paths.len() {
            StepModel::Git {
                args: command::untracked_args(paths[next]),
                allow_diff_exit: true,
            }
        } else {
            StepModel::Done(Ok::<Seq<u8>, Seq<char>>(shown[0] + arc::chained(shown.skip(2))))
        }
    }
}

/// The files that both the index and the worktree change, where Arc has shown both.
pub open spec fn arc_shared(replies: Seq<Result<Vec<u8>, String>>) -> Seq<patch::SnapshotModel> {
    let shown = outputs(replies);
    patch::shared_files(patch::sections_of(shown[0]), patch::sections_of(shown[1]))
}

/// The place of the status among the steps for Arc: behind both patches and, where
/// they share files, behind what shows these.
pub open spec fn arc_status_at(replies: Seq<Result<Vec<u8>, String>>) -> int {
    if arc_shared(replies).len() == 0 {
        2
    } else {
        3
    }
}

/// The patch that Arc's answers make.
pub open spec fn arc_patch(replies: Seq<Result<Vec<u8>, String>>) -> Seq<u8> {
    let shown = outputs(replies);
    let shared = arc_shared(replies);
    let kept = patch::kept_bytes(patch::sections_of(shown[0]), shared) + patch::kept_bytes(
        patch::sections_of(shown[1]),
        shared,
    );
    let changed = if shared.len() == 0 {
        kept
    } else {
        kept + shown[2]
    };
    changed + arc::chained(shown.skip(arc_status_at(replies) + 1))
}

/// The step after those that were done for Arc: the patch of the index, that of the
/// worktree, the files that both change, the status, then each file that is not
/// tracked. A step that failed is the last.
pub open spec fn arc_step(
    replies: Seq<Result<Vec<u8>, String>>,
    paths: Result<Seq<Seq<char>>, Seq<char>>,
) -> StepModel {
    if let Some((at, message)) = fault(replies) {
        let told = if at == 0 {
            "cannot create Arc cached patch: "@ + message
        } else if at == 1 {
            "cannot create Arc worktree patch: "@ + message
        } else {
            message
        };
        StepModel::Done(Err::<Seq<u8>, Seq<char>>(told))
    } else if replies.len() == 0 {
        StepModel::Arc { args: arc::diff_args(true) }
    } else if replies.len() == 1 {
        StepModel::Arc { args: arc::diff_args(false) }
    } else if replies.len() < arc_status_at(replies) {
        StepModel::Snapshot { paths: arc_shared(replies) }
    } else if replies.len() == arc_status_at(replies) {
        StepModel::Arc { args: seq!["status"@, "--json"@] }
    } else {
        match paths {
            Err(message) => StepModel::Done(Err::<Seq<u8>, Seq<char>>(message)),
            Ok(list) => {
                let next = replies.len() - arc_status_at(replies) - 1;
                if next < list.len() {
                    StepModel::Added { path: list[next] }
                } else {
                    StepModel::Done(Ok::<Seq<u8>, Seq<char>>(arc_patch(replies)))
                }
            },
        }
    }
}

/// Whether `paths` are those that Arc's status, where it was asked for, tells of.
pub open spec fn arc_told(
    replies: Seq<Result<Vec<u8>, String>>,
    paths: Result<Seq<Seq<char>>, Seq<char>>,
) -> bool {
    fault(replies) is None && replies.len() > 2 && replies.len() > arc_status_at(replies)
        ==> arc::lists_untracked(outputs(replies)[arc_status_at(replies)], paths)
}

/// The step after those that were answered.
pub open spec fn is_next_step(
    kind: VcsKind,
    replies: Seq<Result<Vec<u8>, String>>,
    step: StepModel,
) -> bool {
    match kind {
        VcsKind::Git => step == git_step(replies),
        VcsKind::Arc => exists|paths: Result<Seq<Seq<char>>, Seq<char>>| #[trigger]
            arc_told(replies, paths) && step == arc_step(replies, paths),
    }
}

fn first_fault(replies: &Vec<Result<Vec<u8>, String>>) -> (found: Option<(usize, String)>)
    ensures
        match found {
            Some((at, message)) => fault(replies@) == Some((at as int, message@)),
            None => fault(replies@) is None,
        },
{
    let mut found: Option<(usize, String)> = None;
    let mut i: usize = 0;
    proof {
        assert(replies@.take(0) =~= Seq::empty());
    }
    while i < replies.len()
        invariant
            i <= replies@.len(),
            match found {
                Some((at, message)) => fault(replies@.take(i as int)) == Some(
                    (at as int, message@),
                ),
                None => fault(replies@.take(i as int)) is None,
            },
        decreases replies@.len() - i,
    {
        proof {
            assert(replies@.take(i + 1).drop_last() =~= replies@.take(i as int));
        }
        if found.is_none() {
            if let Err(message) = &replies[i] {
                found = Some((i, owned(message.as_str())));
            }
        }
        i = i + 1;
    }
    proof {
        assert(replies@.take(i as int) =~= replies@);
    }
    found
}

fn output_at(replies: &Vec<Result<Vec<u8>, String>>, at: usize) -> (output: Vec<u8>)
    requires
        at < replies@.len(),
    ensures
        output@ == outputs(replies@)[at as int],
{
    match &replies[at] {
        Ok(output) => bytes::copy_all(output.as_slice()),
        Err(_) => Vec::new(),
    }
}

fn outputs_from(replies: &Vec<Result<Vec<u8>, String>>, from: usize) -> (list: Vec<Vec<u8>>)
    requires
        from <= replies@.len(),
    ensures
        bytes::lists(list@) == outputs(replies@).skip(from as int),
{
    let ghost rest = outputs(replies@).skip(from as int);
    let mut list: Vec<Vec<u8>> = Vec::new();
    let mut i: usize = from;
    proof {
        assert(bytes::lists(list@) =~= rest.take(0));
    }
    while i < replies.len()
        invariant
            from <= i <= replies@.len(),
            rest == outputs(replies@).skip(from as int),
            bytes::lists(list@) == rest.take(i - from),
        decreases replies@.len() - i,
    {
        let ghost before = bytes::lists(list@);
        let output = output_at(replies, i);
        let ghost bytes = output@;
        list.push(output);
        proof {
            assert(bytes::lists(list@) =~= before.push(bytes));
            assert(rest.take(i - from + 1) =~= rest.take(i - from).push(rest[i - from]));
        }
        i = i + 1;
    }
    proof {
        assert(rest.take(i - from) =~= rest);
    }
    list
}

fn next_git_step(replies: &Vec<Result<Vec<u8>, String>>) -> (step: PatchStep)
    ensures
        step@ == git_step(replies@),
{
    if let Some((_, message)) = first_fault(replies) {
        return PatchStep::Done(Err(message));
    }
    if replies.len() == 0 {
        return PatchStep::Git { args: GitQuery::Patch.args(), allow_diff_exit: false };
    }
    if replies.len() == 1 {
        return PatchStep::Git { args: GitQuery::Untracked.args(), allow_diff_exit: false };
    }
    let status = output_at(replies, 1);
    let paths = git_untracked_paths(status.as_slice());
    let next: usize = replies.len() - 2;
    if next < paths.len() {
        let args = untracked_patch_args(paths[next].as_str());
        proof {
            assert(text::texts(paths@)[next as int] == paths@[next as int]@);
        }
        return PatchStep::Git { args, allow_diff_exit: true };
    }
    let mut patch = output_at(replies, 0);
    append_patches(&mut patch, &outputs_from(replies, 2));
    PatchStep::Done(Ok(patch))
}

fn next_arc_step(replies: &Vec<Result<Vec<u8>, String>>) -> (step: PatchStep)
    ensures
        exists|paths: Result<Seq<Seq<char>>, Seq<char>>| #[trigger]
            arc_told(replies@, paths) && step@ == arc_step(replies@, paths),
{
    let ghost any = Ok::<Seq<Seq<char>>, Seq<char>>(Seq::<Seq<char>>::empty());
    if let Some((at, message)) = first_fault(replies) {
        proof {
            assert(arc_told(replies@, any));
        }
        if at == 0 {
            return PatchStep::Done(
                Err(concat2("cannot create Arc cached patch: ", message.as_str())),
            );
        }
        if at == 1 {
            return PatchStep::Done(
                Err(concat2("cannot create Arc worktree patch: ", message.as_str())),
            );
        }
        return PatchStep::Done(Err(message));
    }
    if replies.len() < 2 {
        proof {
            assert(arc_told(replies@, any));
        }
        return PatchStep::Arc { args: arc_diff_args(replies.len() == 0) };
    }
    let merged = merge_patches(output_at(replies, 0).as_slice(), output_at(replies, 1).as_slice());
    let status_at: usize = if merged.overlap.len() == 0 {
        2
    } else {
        3
    };
    proof {
        assert(patch::snapshot_models(merged.overlap@).len() == merged.overlap@.len());
        assert(status_at == arc_status_at(replies@));
    }
    if replies.len() < status_at {
        proof {
            assert(arc_told(replies@, any));
        }
        return PatchStep::Snapshot { paths: merged.overlap };
    }
    if replies.len() == status_at {
        proof {
            assert(arc_told(replies@, any));
        }
        return PatchStep::Arc { args: arc_status_args() };
    }
    let status = output_at(replies, status_at);
    let listed = arc_untracked_paths(status.as_slice());
    let ghost told = arc::listed(listed);
    proof {
        assert(arc_told(replies@, told));
    }
    match listed {
        Err(message) => PatchStep::Done(Err(message)),
        Ok(paths) => {
            let next: usize = replies.len() - status_at - 1;
            if next < paths.len() {
                proof {
                    assert(text::texts(paths@)[next as int] == paths@[next as int]@);
                }
                return PatchStep::Added { path: owned(paths[next].as_str()) };
            }
            let snapshot = if status_at == 3 {
                output_at(replies, 2)
            } else {
                Vec::new()
            };
            let patch = arc_patch_bytes(
                merged,
                snapshot.as_slice(),
                &outputs_from(replies, status_at + 1),
            );
            proof {
                assert(patch@ =~= arc_patch(replies@));
            }
            PatchStep::Done(Ok(patch))
        },
    }
}

/// Tells how the exact bytes of a patch are had: the next step, by what each step so
/// far gave. No output is trimmed: a final newline is part of a unified diff and must
/// reach the viewer unchanged. Where a step fails there is no patch, not even in part.
pub fn vcs_patch_bytes(kind: VcsKind, replies: &Vec<Result<Vec<u8>, String>>) -> (step: PatchStep)
    ensures
        is_next_step(kind, replies@, step@),
{
    match kind {
        VcsKind::Git => next_git_step(replies),
        VcsKind::Arc => next_arc_step(replies),
    }
}

proof fn faultless_replies_are_ok(replies: Seq<Result<Vec<u8>, String>>, i: int)
    requires
        fault(replies) is None,
        0 <= i < replies.len(),
    ensures
        replies[i] is Ok,
    decreases replies.len(),
{
    if i < replies.len() - 1 {
        faultless_replies_are_ok(replies.drop_last(), i);
    }
}

/// A patch is whole or there is none: one is made only where every step succeeded.
pub proof fn a_failed_step_leaves_no_patch(
    kind: VcsKind,
    replies: Seq<Result<Vec<u8>, String>>,
    step: StepModel,
    i: int,
)
    requires
        is_next_step(kind, replies, step),
        0 <= i < replies.len(),
        replies[i] is Err,
    ensures
        step matches StepModel::Done(made) && made is Err,
{
    if fault(replies) is None {
        faultless_replies_are_ok(replies, i);
    }
}

/// The patch that git makes is what it shows of the files it tracks, followed by what
/// it shows of each file that it does not, as the status lists them.
pub proof fn git_patch_is_complete(replies: Seq<Result<Vec<u8>, String>>)
    requires
        fault(replies) is None,
        replies.len() >= 2,
        replies.len() - 2 == command::untracked_fields(
            bytes::pieces(outputs(replies)[1], 0),
        ).len(),
    ensures
        git_step(replies) == StepModel::Done(
            Ok::<Seq<u8>, Seq<char>>(
                outputs(replies)[0] + arc::chained(outputs(replies).skip(2)),
            ),
        ),
{
}

/// Current patch for a repository, where it is text. Git includes both index and
/// worktree changes; Arc delegates patch generation to `arc diff --git`.
pub fn vcs_patch(patch: Result<Vec<u8>, String>) -> (text: Result<String, String>)
    ensures
        match patch {
            Ok(bytes) => match text {
                Ok(found) => {
                    &&& vstd::utf8::valid_utf8(bytes@)
                    &&& found@ == vstd::utf8::decode_utf8(bytes@)
                },
                Err(message) => {
                    &&& !vstd::utf8::valid_utf8(bytes@)
                    &&& message@ == "patch is not UTF-8"@
                },
            },
            Err(message) => text == Err::<String, String>(message),
        },
{
    match patch {
        Ok(bytes) => match exact(bytes) {
            Some(found) => Ok(found),
            None => Err(owned("patch is not UTF-8")),
        },
        Err(message) => Err(message),
    }
}

/// Where the index and the worktree change no file in common, the patch of an Arc checkout
/// is that of the index, then that of the worktree, then that of each file that is not
/// tracked, all of them whole.
pub proof fn arc_patch_is_complete(
    replies: Seq<Result<Vec<u8>, String>>,
    paths: Result<Seq<Seq<char>>, Seq<char>>,
)
    requires
        fault(replies) is None,
        replies.len() >= 3,
        arc_shared(replies).len() == 0,
        paths is Ok,
        replies.len() == paths->Ok_0.len() + 3,
        patch::starts_section(outputs(replies)[0], 0) || outputs(replies)[0].len() == 0,
        patch::starts_section(outputs(replies)[1], 0) || outputs(replies)[1].len() == 0,
    ensures
        arc_step(replies, paths) == StepModel::Done(
            Ok::<Seq<u8>, Seq<char>>(
                outputs(replies)[0] + outputs(replies)[1] + arc::chained(outputs(replies).skip(3)),
            ),
        ),
{
    let shown = outputs(replies);
    patch::disjoint_patches_are_kept(shown[0], shown[1]);
    patch::sections_cover_the_patch(shown[0]);
    patch::sections_cover_the_patch(shown[1]);
    assert(shown[0].skip(0) =~= shown[0]);
    assert(shown[1].skip(0) =~= shown[1]);
}

/// What changes an Arc checkout and is shared by the index and the worktree is shown from
/// HEAD to its final state, before the files that are not tracked.
pub proof fn shared_files_are_shown_once(
    replies: Seq<Result<Vec<u8>, String>>,
    paths: Result<Seq<Seq<char>>, Seq<char>>,
)
    requires
        fault(replies) is None,
        replies.len() == 2,
        arc_shared(replies).len() > 0,
    ensures
        arc_step(replies, paths) == (StepModel::Snapshot { paths: arc_shared(replies) }),
{
}

/// Each file that Arc does not track is shown, in the order of the paths.
pub proof fn untracked_files_are_shown_in_order(
    replies: Seq<Result<Vec<u8>, String>>,
    list: Seq<Seq<char>>,
    k: int,
)
    requires
        fault(replies) is None,
        arc_shared(replies).len() == 0,
        0 <= k < list.len(),
        replies.len() == k + 3,
    ensures
        arc_step(replies, Ok::<Seq<Seq<char>>, Seq<char>>(list)) == (StepModel::Added {
            path: list[k],
        }),
{
}

/// Arc is believed where both have something to say, and a checkout is at the branch and
/// the root that its own system tells; without a branch it is at HEAD.
pub proof fn arc_is_believed_first(arc: ArcProbe, git: Option<GitProbe>, own: GitProbe)
    ensures
        entry_of(Some(arc), git) is Some,
        entry_of(Some(arc), git)->0.kind is Arc,
        entry_of(Some(arc), git)->0.root == arc.root@,
        entry_of(Some(arc), git) == entry_of(Some(arc), None),
        arc_branch(arc) is Some ==> entry_of(Some(arc), git)->0.branch == arc_branch(arc)->0,
        arc_branch(arc) is None ==> entry_of(Some(arc), git)->0.branch == "HEAD"@,
        entry_of(None, Some(own)) is Some,
        entry_of(None, Some(own))->0.kind is Git,
        entry_of(None, Some(own))->0.root == own.root@,
        own.branch is Some ==> entry_of(None, Some(own))->0.branch == own.branch->0@,
        own.branch is None ==> entry_of(None, Some(own))->0.branch == "HEAD"@,
        entry_of(None, None) is None,
{
}

/// The size of a checkout of git is what both summaries say and one line for each file that
/// is not tracked.
pub proof fn checkouts_have_the_size_of_their_changes(
    probe: GitProbe,
    unstaged: (usize, usize),
    staged: (usize, usize),
)
    requires
        probe.shortstat is Some && status::summary_of(probe.shortstat->0@) == Some(unstaged),
        probe.staged_shortstat is Some && status::summary_of(probe.staged_shortstat->0@) == Some(
            staged,
        ),
        probe.status is Some,
        countable(None, Some(probe)),
    ensures
        ({
            let size = entry_of(None, Some(probe))->0.diff_stat->0;
            &&& size.0 == unstaged.0 + staged.0 + command::untracked_fields(
                bytes::pieces(probe.status->0@, 0),
            ).len()
            &&& size.1 == unstaged.1 + staged.1
        }),
{
    command::one_path_for_each_field(bytes::pieces(probe.status->0@, 0));
}

} // verus!
