//! Walks from a node to its parent, its parent's parent, and so on.

use vstd::prelude::*;
use vstd::set_lib::*;

use crate::text;
use crate::text::same;

verus! {

/// A node and the parent it names.
pub struct Link {
    pub id: String,
    pub parent: Option<String>,
}

/// The model of a link.
pub struct LinkModel {
    pub id: Seq<char>,
    pub parent: Option<Seq<char>>,
}

impl View for Link {
    type V = LinkModel;

    open spec fn view(&self) -> LinkModel {
        LinkModel { id: self.id@, parent: text::opt(self.parent) }
    }
}

/// The models of a list of links.
pub open spec fn links_of(list: Seq<Link>) -> Seq<LinkModel> {
    list.map_values(|link: Link| link@)
}

/// The index of the last link with an id.
pub open spec fn last_with(links: Seq<LinkModel>, id: Seq<char>) -> Option<int>
    decreases links.len(),
{
    if links.len() == 0 {
        None
    } else if links.last().id == id {
        Some(links.len() - 1)
    } else {
        last_with(links.drop_last(), id)
    }
}

/// The parent that the last link with an id names.
pub open spec fn parent_of(links: Seq<LinkModel>, id: Seq<char>) -> Option<Seq<char>> {
    match last_with(links, id) {
        Some(at) => links[at].parent,
        None => None,
    }
}

/// The node that `steps` steps upwards lead to.
pub open spec fn walk(links: Seq<LinkModel>, start: Seq<char>, steps: nat) -> Option<Seq<char>>
    decreases steps,
{
    if steps == 0 {
        Some(start)
    } else {
        match walk(links, start, (steps - 1) as nat) {
            Some(id) => parent_of(links, id),
            None => None,
        }
    }
}

/// Whether a walk comes to an end, rather than going round for ever.
pub open spec fn walk_ends(links: Seq<LinkModel>, start: Seq<char>) -> bool {
    exists|steps: nat| #[trigger] walk(links, start, steps) is None
}

proof fn last_with_bounds(links: Seq<LinkModel>, id: Seq<char>)
    ensures
        last_with(links, id) matches Some(at) ==> 0 <= at < links.len() && links[at].id == id,
    decreases links.len(),
{
    if links.len() > 0 && links.last().id != id {
        last_with_bounds(links.drop_last(), id);
    }
}

/// The index of the last link with an id.
pub fn position(links: &Vec<Link>, id: &str) -> (found: Option<usize>)
    ensures
        match found {
            Some(at) => at < links@.len() && last_with(links_of(links@), id@) == Some(at as int),
            None => last_with(links_of(links@), id@) is None,
        },
{
    let mut n: usize = links.len();
    proof {
        assert(links_of(links@).take(links@.len() as int) =~= links_of(links@));
    }
    while n > 0
        invariant
            n <= links@.len(),
            last_with(links_of(links@), id@) == last_with(links_of(links@).take(n as int), id@),
        decreases n,
    {
        proof {
            let head = links_of(links@).take(n as int);
            assert(head.drop_last() =~= links_of(links@).take(n - 1));
            assert(head.last() == links@[n - 1]@);
        }
        if same(links[n - 1].id.as_str(), id) {
            return Some(n - 1);
        }
        n = n - 1;
    }
    None
}

/// Distinct texts out of a list are no more than the list is long.
pub proof fn distinct_fit(picked: Seq<Seq<char>>, list: Seq<Seq<char>>)
    requires
        picked.no_duplicates(),
        forall|i: int| 0 <= i < picked.len() ==> list.contains(#[trigger] picked[i]),
    ensures
        picked.len() <= list.len(),
{
    picked.unique_seq_to_set();
    list.lemma_cardinality_of_set();
    assert(picked.to_set().subset_of(list.to_set()));
    lemma_len_subset(picked.to_set(), list.to_set());
}

/// A walk that meets a node twice never ends.
proof fn repeat_never_ends(links: Seq<LinkModel>, start: Seq<char>, i: nat, j: nat, n: nat)
    requires
        i < j,
        walk(links, start, i) == walk(links, start, j),
        forall|k: nat| k <= j ==> #[trigger] walk(links, start, k) is Some,
    ensures
        walk(links, start, n) is Some,
    decreases n,
{
    if n > j {
        repeat_shift(links, start, i, j, (n - j) as nat);
        repeat_never_ends(links, start, i, j, (n - (j - i)) as nat);
    }
}

proof fn repeat_shift(links: Seq<LinkModel>, start: Seq<char>, i: nat, j: nat, n: nat)
    requires
        walk(links, start, i) == walk(links, start, j),
    ensures
        walk(links, start, i + n) == walk(links, start, j + n),
    decreases n,
{
    if n > 0 {
        repeat_shift(links, start, i, j, (n - 1) as nat);
        assert((i + n - 1) as nat == i + (n - 1) as nat);
        assert((j + n - 1) as nat == j + (n - 1) as nat);
    }
}

/// Whether the walk from `start` comes to an end.
pub fn ends(links: &Vec<Link>, start: &str) -> (yes: bool)
    ensures
        yes == walk_ends(links_of(links@), start@),
{
    let ghost model = links_of(links@);
    let ghost ids = model.map_values(|link: LinkModel| link.id);
    let mut seen: Vec<String> = Vec::new();
    let mut current: Option<String> = Some(text::owned(start));
    loop
        invariant
            model == links_of(links@),
            ids == model.map_values(|link: LinkModel| link.id),
            text::opt(current) == walk(model, start@, seen@.len() as nat),
            forall|k: int|
                0 <= k < seen@.len() ==> walk(model, start@, k as nat) == Some(
                    (#[trigger] seen@[k])@,
                ),
            text::texts(seen@).no_duplicates(),
            seen@.len() <= links@.len() + 1,
        decreases links@.len() + 1 - seen@.len(),
    {
        match current {
            None => {
                return true;
            },
            Some(id) => {
                if text::list_has(&seen, id.as_str()) {
                    proof {
                        let n = seen@.len() as nat;
                        let i = choose|i: int|
                            0 <= i < text::texts(seen@).len() && text::texts(seen@)[i] == id@;
                        assert(seen@[i]@ == id@);
                        assert forall|k: nat| k <= n implies #[trigger] walk(
                            model,
                            start@,
                            k,
                        ) is Some by {
                            if k < n {
                                assert(seen@[k as int]@ == seen@[k as int]@);
                            }
                        }
                        assert forall|k: nat| #[trigger] walk(model, start@, k) is Some by {
                            repeat_never_ends(model, start@, i as nat, n, k);
                        }
                    }
                    return false;
                }
                proof {
                    let picked = text::texts(seen@);
                    assert forall|k: int| 0 <= k < picked.len() implies ids.contains(
                        #[trigger] picked[k],
                    ) by {
                        let here = seen@[k]@;
                        assert(walk(model, start@, k as nat) == Some(here));
                        if k + 1 < seen@.len() {
                            assert(walk(model, start@, (k + 1) as nat) == Some(seen@[k + 1]@));
                        }
                        assert(walk(model, start@, (k + 1) as nat) is Some);
                        last_with_bounds(model, here);
                        let at = last_with(model, here)->0;
                        assert(ids[at] == here);
                    }
                    distinct_fit(picked, ids);
                }
                let next = match position(links, id.as_str()) {
                    Some(at) => links[at].parent.clone(),
                    None => None,
                };
                let ghost old_seen = seen@;
                seen.push(id);
                proof {
                    assert(walk(model, start@, (old_seen.len() + 1) as nat) == parent_of(
                        model,
                        id@,
                    ));
                    assert(text::texts(seen@) =~= text::texts(old_seen).push(id@));
                }
                current = next;
            },
        }
    }
}

proof fn parent_by_id(links: Seq<LinkModel>, k: int)
    requires
        0 <= k < links.len(),
        forall|j: int| k < j < links.len() ==> (#[trigger] links[j]).id != links[k].id,
    ensures
        parent_of(links, links[k].id) == links[k].parent,
    decreases links.len(),
{
    if k < links.len() - 1 {
        assert(links[links.len() - 1].id != links[k].id);
        let rest = links.drop_last();
        assert forall|j: int| k < j < rest.len() implies (#[trigger] rest[j]).id != rest[k].id by {
            assert(links[j].id != links[k].id);
        }
        parent_by_id(rest, k);
        last_with_bounds(rest, links[k].id);
    }
}

/// A walk from a child goes to its root and ends there; where two nodes are the parents of
/// each other it never ends.
pub proof fn walks_follow_the_parents(
    root: Seq<char>,
    child: Seq<char>,
    steps: nat,
)
    requires
        root != child,
    ensures
        ({
            let tree = seq![
                LinkModel { id: root, parent: None },
                LinkModel { id: child, parent: Some(root) },
            ];
            &&& walk_ends(tree, child)
            &&& walk_ends(tree, root)
            &&& walk(tree, child, 1) == Some(root)
        }),
        ({
            let ring = seq![
                LinkModel { id: root, parent: Some(child) },
                LinkModel { id: child, parent: Some(root) },
            ];
            &&& walk(ring, child, steps) is Some
            &&& !walk_ends(ring, child)
            &&& !walk_ends(ring, root)
        }),
{
    let tree = seq![
        LinkModel { id: root, parent: None },
        LinkModel { id: child, parent: Some(root) },
    ];
    assert(tree[0].id == root && tree[1].id == child);
    parent_by_id(tree, 0);
    parent_by_id(tree, 1);
    reveal_with_fuel(walk, 3);
    assert(walk(tree, child, 2) is None);
    assert(walk(tree, root, 1) is None);
    let ring = seq![
        LinkModel { id: root, parent: Some(child) },
        LinkModel { id: child, parent: Some(root) },
    ];
    assert(ring[0].id == root && ring[1].id == child);
    parent_by_id(ring, 0);
    parent_by_id(ring, 1);
    round_and_round(ring, root, child, child, steps);
    if walk_ends(ring, child) {
        let end = choose|end: nat| #[trigger] walk(ring, child, end) is None;
        round_and_round(ring, root, child, child, end);
    }
    if walk_ends(ring, root) {
        let end = choose|end: nat| #[trigger] walk(ring, root, end) is None;
        round_and_round(ring, root, child, root, end);
    }
}

proof fn round_and_round(
    links: Seq<LinkModel>,
    first: Seq<char>,
    second: Seq<char>,
    start: Seq<char>,
    steps: nat,
)
    requires
        parent_of(links, first) == Some(second),
        parent_of(links, second) == Some(first),
        start == first || start == second,
    ensures
        walk(links, start, steps) == Some(first) || walk(links, start, steps) == Some(second),
    decreases steps,
{
    if steps > 0 {
        round_and_round(links, first, second, start, (steps - 1) as nat);
    }
}

} // verus!
