//! A map from texts to values, walked in the order of its keys.

use vstd::prelude::*;

use crate::order;
use crate::text;
use crate::text::owned;

verus! {

/// A map from texts to values. Its entries stand in the order of their keys.
pub struct TextMap<V> {
    entries: Vec<(String, V)>,
}

/// The index of the first entry with `key`, counted from `from`.
pub open spec fn first_with<V>(entries: Seq<(String, V)>, key: Seq<char>, from: int) -> Option<int>
    decreases entries.len() - from,
{
    if from < 0 || from >= entries.len() {
        None
    } else if entries[from].0@ == key {
        Some(from)
    } else {
        first_with(entries, key, from + 1)
    }
}

/// The map that a list of entries stands for; the first entry of a key counts.
pub open spec fn map_of<V>(entries: Seq<(String, V)>) -> Map<Seq<char>, V> {
    Map::new(
        |key: Seq<char>| first_with(entries, key, 0) is Some,
        |key: Seq<char>| entries[first_with(entries, key, 0)->0].1,
    )
}

/// Whether the keys of a list of entries grow strictly.
pub open spec fn keys_grow<V>(entries: Seq<(String, V)>) -> bool {
    forall|i: int, j: int|
        0 <= i < j < entries.len() ==> order::precedes(
            (#[trigger] entries[i]).0@,
            (#[trigger] entries[j]).0@,
        )
}

proof fn first_with_is_first<V>(entries: Seq<(String, V)>, key: Seq<char>, from: int)
    requires
        0 <= from <= entries.len(),
    ensures
        first_with(entries, key, from) matches Some(at) ==> {
            &&& from <= at < entries.len()
            &&& entries[at].0@ == key
            &&& forall|i: int| from <= i < at ==> (#[trigger] entries[i]).0@ != key
        },
        first_with(entries, key, from) is None ==> forall|i: int|
            from <= i < entries.len() ==> (#[trigger] entries[i]).0@ != key,
    decreases entries.len() - from,
{
    if from < entries.len() && entries[from].0@ != key {
        first_with_is_first(entries, key, from + 1);
    }
}

proof fn first_with_found<V>(entries: Seq<(String, V)>, key: Seq<char>, from: int, at: int)
    requires
        0 <= from <= at < entries.len(),
        entries[at].0@ == key,
        forall|i: int| from <= i < at ==> (#[trigger] entries[i]).0@ != key,
    ensures
        first_with(entries, key, from) == Some(at),
    decreases at - from,
{
    if from < at {
        first_with_found(entries, key, from + 1, at);
    }
}

proof fn first_with_missing<V>(entries: Seq<(String, V)>, key: Seq<char>, from: int)
    requires
        0 <= from <= entries.len(),
        forall|i: int| from <= i < entries.len() ==> (#[trigger] entries[i]).0@ != key,
    ensures
        first_with(entries, key, from) is None,
    decreases entries.len() - from,
{
    if from < entries.len() {
        first_with_missing(entries, key, from + 1);
    }
}

impl<V> View for TextMap<V> {
    type V = Map<Seq<char>, V>;

    closed spec fn view(&self) -> Map<Seq<char>, V> {
        map_of(self.entries@)
    }
}

impl<V> TextMap<V> {
    /// The entries, in the order in which they are walked.
    pub closed spec fn listed(&self) -> Seq<(String, V)> {
        self.entries@
    }

    /// Whether each key stands once, and the keys grow.
    pub open spec fn wf(&self) -> bool {
        keys_grow(self.listed())
    }

    /// The view is the map of the listed entries.
    pub proof fn view_of_listed(&self)
        ensures
            self@ == map_of(self.listed()),
    {
    }

    /// The empty map.
    pub fn new() -> (map: Self)
        ensures
            map@ == Map::<Seq<char>, V>::empty(),
            map.listed() == Seq::<(String, V)>::empty(),
            map.wf(),
    {
        let map = TextMap { entries: Vec::new() };
        proof {
            assert forall|key: Seq<char>| !map@.dom().contains(key) by {
                first_with_missing(map.entries@, key, 0);
            }
            assert(map@ =~= Map::<Seq<char>, V>::empty());
        }
        map
    }

    /// The number of entries.
    pub fn len(&self) -> (count: usize)
        ensures
            count == self.listed().len(),
    {
        self.entries.len()
    }

    /// Whether there is no entry.
    pub fn is_empty(&self) -> (yes: bool)
        ensures
            yes == (self@ == Map::<Seq<char>, V>::empty()),
            yes == (self.listed().len() == 0),
    {
        proof {
            if self.entries@.len() == 0 {
                assert forall|key: Seq<char>| !self@.dom().contains(key) by {
                    first_with_missing(self.entries@, key, 0);
                }
                assert(self@ =~= Map::<Seq<char>, V>::empty());
            } else {
                first_with_found(self.entries@, self.entries@[0].0@, 0, 0);
                assert(self@.dom().contains(self.entries@[0].0@));
            }
        }
        self.entries.len() == 0
    }

    /// The key of the entry at an index.
    pub fn key_at(&self, index: usize) -> (key: &str)
        requires
            index < self.listed().len(),
        ensures
            key@ == self.listed()[index as int].0@,
    {
        self.entries[index].0.as_str()
    }

    /// The value of the entry at an index.
    pub fn value_at(&self, index: usize) -> (value: &V)
        requires
            index < self.listed().len(),
        ensures
            *value == self.listed()[index as int].1,
    {
        &self.entries[index].1
    }

    fn position(&self, key: &str) -> (found: Option<usize>)
        ensures
            match found {
                Some(at) => at < self.entries@.len() && first_with(self.entries@, key@, 0) == Some(
                    at as int,
                ),
                None => first_with(self.entries@, key@, 0) is None,
            },
    {
        let mut i: usize = 0;
        while i < self.entries.len()
            invariant
                i <= self.entries@.len(),
                first_with(self.entries@, key@, 0) == first_with(self.entries@, key@, i as int),
            decreases self.entries@.len() - i,
        {
            if text::same(self.entries[i].0.as_str(), key) {
                return Some(i);
            }
            i = i + 1;
        }
        None
    }

    /// The value of a key.
    pub fn get(&self, key: &str) -> (value: Option<&V>)
        ensures
            match value {
                Some(v) => self@.dom().contains(key@) && *v == self@[key@],
                None => !self@.dom().contains(key@),
            },
    {
        match self.position(key) {
            Some(at) => Some(&self.entries[at].1),
            None => None,
        }
    }

    /// Whether a key has a value.
    pub fn contains_key(&self, key: &str) -> (yes: bool)
        ensures
            yes == self@.dom().contains(key@),
    {
        self.position(key).is_some()
    }

    /// Gives a key a value.
    pub fn insert(&mut self, key: String, value: V)
        ensures
            final(self)@ == old(self)@.insert(key@, value),
            old(self).wf() ==> final(self).wf(),
    {
        let ghost before = self.entries@;
        match self.position(key.as_str()) {
            Some(at) => {
                self.entries.set(at, (key, value));
                proof {
                    let after = self.entries@;
                    assert(before[at as int].0@ == key@) by {
                        first_with_is_first(before, key@, 0);
                    }
                    assert forall|other: Seq<char>| #[trigger]
                        first_with(after, other, 0) == first_with(before, other, 0) by {
                        same_keys(before, after, other, 0);
                    }
                    assert forall|other: Seq<char>|
                        first_with(before, other, 0) == Some(at as int) implies other == key@ by {
                        first_with_is_first(before, other, 0);
                    }
                    assert forall|other: Seq<char>|
                        #[trigger] first_with(before, other, 0) is Some && other
                            != key@ implies after[first_with(before, other, 0)->0] == before[first_with(
                        before,
                        other,
                        0,
                    )->0] by {
                        first_with_is_first(before, other, 0);
                    }
                    assert(self@ =~= old(self)@.insert(key@, value));
                }
            },
            None => {
                let mut at: usize = 0;
                while at < self.entries.len() && order::less(
                    self.entries[at].0.as_str(),
                    key.as_str(),
                )
                    invariant
                        at <= self.entries@.len(),
                        self.entries@ == before,
                        forall|i: int|
                            0 <= i < at ==> order::precedes((#[trigger] before[i]).0@, key@),
                    decreases self.entries@.len() - at,
                {
                    at = at + 1;
                }
                proof {
                    first_with_is_first(before, key@, 0);
                    if at < before.len() {
                        order::precedes_total(before[at as int].0@, key@);
                    }
                }
                self.entries.insert(at, (key, value));
                proof {
                    let after = self.entries@;
                    assert(after =~= before.insert(at as int, (key, value)));
                    inserted_view(before, after, at as int, key, value);
                    assert(self@ =~= old(self)@.insert(key@, value));
                    if keys_grow(before) {
                        inserted_grows(before, after, at as int, key, value);
                    }
                }
            },
        }
    }

    /// Takes a key away.
    pub fn remove(&mut self, key: &str) -> (value: Option<V>)
        ensures
            final(self)@ == old(self)@.remove(key@),
            match value {
                Some(v) => old(self)@.dom().contains(key@) && v == old(self)@[key@],
                None => !old(self)@.dom().contains(key@),
            },
            old(self).wf() ==> final(self).wf(),
    {
        let ghost start = self.entries@;
        let mut gone: Option<V> = None;
        loop
            invariant
                start == old(self).entries@,
                forall|other: Seq<char>|
                    other != key@ ==> #[trigger] lookup(self.entries@, other) == lookup(
                        start,
                        other,
                    ),
                gone is None ==> self.entries@ == start,
                gone matches Some(v) ==> lookup(start, key@) == Some(v),
                keys_grow(start) ==> keys_grow(self.entries@),
            ensures
                lookup(self.entries@, key@) is None,
                start == old(self).entries@,
                forall|other: Seq<char>|
                    other != key@ ==> #[trigger] lookup(self.entries@, other) == lookup(
                        start,
                        other,
                    ),
                gone is None ==> self.entries@ == start,
                gone matches Some(v) ==> lookup(start, key@) == Some(v),
                keys_grow(start) ==> keys_grow(self.entries@),
            decreases self.entries@.len(),
        {
            let ghost before = self.entries@;
            match self.position(key) {
                Some(at) => {
                    let (_key, value) = self.entries.remove(at);
                    proof {
                        let after = self.entries@;
                        assert(after =~= before.remove(at as int));
                        first_with_is_first(before, key@, 0);
                        assert forall|other: Seq<char>| other != key@ implies #[trigger] lookup(
                            after,
                            other,
                        ) == lookup(start, other) by {
                            assert(lookup(before, other) == lookup(start, other));
                            lookup_removed(before, after, at as int, other);
                        }
                        if keys_grow(before) {
                            removed_grows(before, after, at as int);
                        }
                    }
                    if gone.is_none() {
                        gone = Some(value);
                    }
                },
                None => {
                    break;
                },
            }
        }
        proof {
            assert forall|other: Seq<char>| self@.dom().contains(other) == old(self)@.remove(
                key@,
            ).dom().contains(other) by {
                assert(lookup(self.entries@, other) is Some == self@.dom().contains(other));
                assert(lookup(start, other) is Some == old(self)@.dom().contains(other));
            }
            assert forall|other: Seq<char>| #[trigger] self@.dom().contains(other) implies
                self@[other] == old(self)@.remove(key@)[other] by {
                assert(lookup(self.entries@, other) == Some(self@[other]));
                assert(lookup(start, other) == Some(old(self)@[other]));
            }
            assert(self@ =~= old(self)@.remove(key@));
        }
        gone
    }

    /// The value of a key, to be changed in place.
    pub fn get_mut(&mut self, key: &str) -> (value: Option<&mut V>)
        ensures
            match value {
                Some(v) => {
                    &&& old(self)@.dom().contains(key@)
                    &&& *v == old(self)@[key@]
                    &&& final(self)@ == old(self)@.insert(key@, *final(v))
                    &&& old(self).wf() ==> final(self).wf()
                },
                None => !old(self)@.dom().contains(key@) && *final(self) == *old(self),
            },
    {
        let ghost before = self.entries@;
        match self.position(key) {
            Some(at) => {
                proof {
                    first_with_is_first(before, key@, 0);
                    assert forall|v: V|
                        map_of(#[trigger] before.update(at as int, (before[at as int].0, v)))
                            == map_of(before).insert(key@, v) by {
                        updated_view(before, at as int, key@, v);
                    }
                    assert forall|v: V|
                        keys_grow(before) implies keys_grow(
                        #[trigger] before.update(at as int, (before[at as int].0, v)),
                    ) by {
                        let after = before.update(at as int, (before[at as int].0, v));
                        assert forall|i: int, j: int|
                            0 <= i < j < after.len() implies order::precedes(
                            (#[trigger] after[i]).0@,
                            (#[trigger] after[j]).0@,
                        ) by {
                            assert(order::precedes(before[i].0@, before[j].0@));
                        }
                    }
                }
                Some(&mut self.entries[at].1)
            },
            None => None,
        }
    }

    /// Keeps the keys that are in a set, and takes the others away.
    pub fn retain(&mut self, keep: &TextSet)
        ensures
            final(self)@ == old(self)@.restrict(keep@),
            old(self).wf() ==> final(self).wf(),
    {
        let ghost start = self.entries@;
        let mut i: usize = 0;
        while i < self.entries.len()
            invariant
                i <= self.entries@.len(),
                start == old(self).entries@,
                forall|key: Seq<char>|
                    keep@.contains(key) ==> #[trigger] lookup(self.entries@, key) == lookup(
                        start,
                        key,
                    ),
                forall|k: int| 0 <= k < i ==> keep@.contains((#[trigger] self.entries@[k]).0@),
                keys_grow(start) ==> keys_grow(self.entries@),
            decreases self.entries@.len() - i,
        {
            if keep.contains(self.entries[i].0.as_str()) {
                i = i + 1;
            } else {
                let ghost before = self.entries@;
                self.entries.remove(i);
                proof {
                    let after = self.entries@;
                    assert(after =~= before.remove(i as int));
                    assert forall|key: Seq<char>| keep@.contains(key) implies #[trigger] lookup(
                        after,
                        key,
                    ) == lookup(start, key) by {
                        assert(lookup(before, key) == lookup(start, key));
                        lookup_removed(before, after, i as int, key);
                    }
                    if keys_grow(before) {
                        removed_grows(before, after, i as int);
                    }
                    assert forall|k: int| 0 <= k < i implies keep@.contains(
                        (#[trigger] after[k]).0@,
                    ) by {
                        assert(after[k] == before[k]);
                    }
                }
            }
        }
        proof {
            let wanted = old(self)@.restrict(keep@);
            assert forall|key: Seq<char>|
                #[trigger] self@.dom().contains(key) == wanted.dom().contains(key) by {
                first_with_is_first(self.entries@, key, 0);
                if keep@.contains(key) {
                    assert(lookup(self.entries@, key) == lookup(start, key));
                }
            }
            assert forall|key: Seq<char>| wanted.dom().contains(key) implies #[trigger] self@[key]
                == wanted[key] by {
                assert(lookup(self.entries@, key) == lookup(start, key));
            }
            assert(self@ =~= wanted);
        }
    }

    /// Takes every key away.
    pub fn clear(&mut self)
        ensures
            final(self)@ == Map::<Seq<char>, V>::empty(),
            final(self).listed() == Seq::<(String, V)>::empty(),
            final(self).wf(),
    {
        self.entries = Vec::new();
        proof {
            assert forall|key: Seq<char>| !self@.dom().contains(key) by {
                first_with_missing(self.entries@, key, 0);
            }
            assert(self@ =~= Map::<Seq<char>, V>::empty());
        }
    }
}

/// A set of texts.
pub struct TextSet {
    members: TextMap<()>,
}

impl View for TextSet {
    type V = Set<Seq<char>>;

    closed spec fn view(&self) -> Set<Seq<char>> {
        self.members@.dom()
    }
}

impl TextSet {
    /// Whether each member stands once.
    pub closed spec fn wf(&self) -> bool {
        self.members.wf()
    }

    /// The empty set.
    pub fn new() -> (set: Self)
        ensures
            set@ == Set::<Seq<char>>::empty(),
            set.wf(),
    {
        let set = TextSet { members: TextMap::new() };
        proof {
            assert(set@ =~= Set::<Seq<char>>::empty());
        }
        set
    }

    /// Whether a text is a member.
    pub fn contains(&self, member: &str) -> (yes: bool)
        ensures
            yes == self@.contains(member@),
    {
        self.members.contains_key(member)
    }

    /// Whether there is no member.
    pub fn is_empty(&self) -> (yes: bool)
        ensures
            yes == (self@ == Set::<Seq<char>>::empty()),
    {
        proof {
            if self@ == Set::<Seq<char>>::empty() {
                assert(self.members@ =~= Map::<Seq<char>, ()>::empty());
            } else {
                if self.members@ == Map::<Seq<char>, ()>::empty() {
                    assert(self@ =~= Set::<Seq<char>>::empty());
                }
            }
        }
        self.members.is_empty()
    }

    /// The members, in ascending order.
    pub fn to_list(&self) -> (list: Vec<String>)
        ensures
            forall|member: Seq<char>| #[trigger]
                text::texts(list@).contains(member) <==> self@.contains(member),
            self.wf() ==> forall|i: int, j: int|
                0 <= i < j < list@.len() ==> order::precedes(
                    #[trigger] list@[i]@,
                    #[trigger] list@[j]@,
                ),
    {
        let mut list: Vec<String> = Vec::new();
        let ghost entries = self.members.listed();
        let mut i: usize = 0;
        while i < self.members.len()
            invariant
                i <= entries.len(),
                entries == self.members.listed(),
                list@.len() == i,
                forall|k: int| 0 <= k < i ==> (#[trigger] list@[k])@ == entries[k].0@,
            decreases entries.len() - i,
        {
            list.push(owned(self.members.key_at(i)));
            i = i + 1;
        }
        proof {
            self.members.view_of_listed();
            assert forall|member: Seq<char>| #[trigger]
                text::texts(list@).contains(member) <==> self@.contains(member) by {
                first_with_is_first(entries, member, 0);
                if text::texts(list@).contains(member) {
                    let k = text::texts(list@).index_of(member);
                    assert(entries[k].0@ == member);
                }
                if self@.contains(member) {
                    let k = first_with(entries, member, 0)->0;
                    assert(text::texts(list@)[k] == member);
                }
            }
        }
        list
    }

    /// Adds a member; says whether it is a new one.
    pub fn insert(&mut self, member: String) -> (new: bool)
        ensures
            final(self)@ == old(self)@.insert(member@),
            new == !old(self)@.contains(member@),
            old(self).wf() ==> final(self).wf(),
    {
        let ghost before = self@;
        let known = self.members.contains_key(member.as_str());
        self.members.insert(member, ());
        proof {
            assert(self@ =~= before.insert(member@));
        }
        !known
    }

    /// Takes a member away; says whether it was one.
    pub fn remove(&mut self, member: &str) -> (known: bool)
        ensures
            final(self)@ == old(self)@.remove(member@),
            known == old(self)@.contains(member@),
            old(self).wf() ==> final(self).wf(),
    {
        let ghost before = self@;
        let gone = self.members.remove(member);
        proof {
            assert(self@ =~= before.remove(member@));
        }
        gone.is_some()
    }

    /// Takes every member away.
    pub fn clear(&mut self)
        ensures
            final(self)@ == Set::<Seq<char>>::empty(),
            final(self).wf(),
    {
        self.members.clear();
        proof {
            assert(self@ =~= Set::<Seq<char>>::empty());
        }
    }
}

impl TextMap<String> {
    /// A copy with the same entries.
    pub fn copy(&self) -> (copy: Self)
        ensures
            copy@ == self@,
            copy.listed() == self.listed(),
    {
        let mut entries: Vec<(String, String)> = Vec::new();
        let mut i: usize = 0;
        while i < self.entries.len()
            invariant
                i <= self.entries@.len(),
                entries@ == self.entries@.take(i as int),
            decreases self.entries@.len() - i,
        {
            entries.push((self.entries[i].0.clone(), self.entries[i].1.clone()));
            i = i + 1;
            proof {
                assert(self.entries@.take(i as int) =~= self.entries@.take(i - 1).push(
                    self.entries@[i - 1],
                ));
            }
        }
        proof {
            assert(self.entries@.take(self.entries@.len() as int) =~= self.entries@);
        }
        TextMap { entries }
    }
}

proof fn same_keys<V>(
    before: Seq<(String, V)>,
    after: Seq<(String, V)>,
    key: Seq<char>,
    from: int,
)
    requires
        0 <= from <= before.len(),
        before.len() == after.len(),
        forall|i: int| 0 <= i < before.len() ==> (#[trigger] before[i]).0@ == after[i].0@,
    ensures
        first_with(after, key, from) == first_with(before, key, from),
    decreases before.len() - from,
{
    if from < before.len() {
        assert(before[from].0@ == after[from].0@);
        same_keys(before, after, key, from + 1);
    }
}

proof fn lookup_inserted<V>(
    before: Seq<(String, V)>,
    after: Seq<(String, V)>,
    at: int,
    key: String,
    value: V,
    other: Seq<char>,
)
    requires
        0 <= at <= before.len(),
        after == before.insert(at, (key, value)),
        forall|i: int| 0 <= i < before.len() ==> (#[trigger] before[i]).0@ != key@,
    ensures
        other == key@ ==> first_with(after, other, 0) == Some(at),
        other != key@ ==> match first_with(before, other, 0) {
            Some(found) => match first_with(after, other, 0) {
                Some(moved) => 0 <= moved < after.len() && after[moved] == before[found],
                None => false,
            },
            None => first_with(after, other, 0) is None,
        },
{
    if other == key@ {
        assert forall|i: int| 0 <= i < at implies (#[trigger] after[i]).0@ != other by {
            assert(after[i] == before[i]);
        }
        assert(after[at] == (key, value));
        first_with_found(after, other, 0, at);
    } else {
        first_with_is_first(before, other, 0);
        let bound = match first_with(before, other, 0) {
            Some(found) => if found < at {
                found
            } else {
                found + 1
            },
            None => after.len() as int,
        };
        assert forall|i: int| 0 <= i < bound implies (#[trigger] after[i]).0@ != other by {
            if i < at {
                assert(after[i] == before[i]);
            } else if i > at {
                assert(after[i] == before[i - 1]);
            }
        }
        match first_with(before, other, 0) {
            Some(found) => {
                assert(after[bound] == before[found]);
                first_with_found(after, other, 0, bound);
            },
            None => {
                first_with_missing(after, other, 0);
            },
        }
    }
}

proof fn inserted_view<V>(
    before: Seq<(String, V)>,
    after: Seq<(String, V)>,
    at: int,
    key: String,
    value: V,
)
    requires
        0 <= at <= before.len(),
        after == before.insert(at, (key, value)),
        forall|i: int| 0 <= i < before.len() ==> (#[trigger] before[i]).0@ != key@,
    ensures
        map_of(after) == map_of(before).insert(key@, value),
{
    let wanted = map_of(before).insert(key@, value);
    assert forall|other: Seq<char>|
        #[trigger] map_of(after).dom().contains(other) == wanted.dom().contains(other) by {
        lookup_inserted(before, after, at, key, value, other);
    }
    assert forall|other: Seq<char>| wanted.dom().contains(other) implies #[trigger] map_of(
        after,
    )[other] == wanted[other] by {
        lookup_inserted(before, after, at, key, value, other);
    }
    assert(map_of(after) =~= wanted);
}

proof fn inserted_grows<V>(
    before: Seq<(String, V)>,
    after: Seq<(String, V)>,
    at: int,
    key: String,
    value: V,
)
    requires
        0 <= at <= before.len(),
        after == before.insert(at, (key, value)),
        keys_grow(before),
        forall|i: int| 0 <= i < at ==> order::precedes((#[trigger] before[i]).0@, key@),
        at < before.len() ==> order::precedes(key@, before[at].0@),
    ensures
        keys_grow(after),
{
    assert forall|i: int, j: int| 0 <= i < j < after.len() implies order::precedes(
        (#[trigger] after[i]).0@,
        (#[trigger] after[j]).0@,
    ) by {
        if j < at {
            assert(after[i] == before[i] && after[j] == before[j]);
        } else if j == at {
            assert(after[i] == before[i]);
        } else if i < at {
            assert(after[i] == before[i] && after[j] == before[j - 1]);
        } else if i == at {
            assert(after[j] == before[j - 1]);
            if j - 1 > at {
                assert(order::precedes(before[at].0@, before[j - 1].0@));
                order::precedes_transitive(key@, before[at].0@, before[j - 1].0@);
            }
        } else {
            assert(after[i] == before[i - 1] && after[j] == before[j - 1]);
        }
    }
}

/// The value of the first entry with a key.
pub open spec fn lookup<V>(entries: Seq<(String, V)>, key: Seq<char>) -> Option<V> {
    match first_with(entries, key, 0) {
        Some(at) => Some(entries[at].1),
        None => None,
    }
}

proof fn updated_view<V>(before: Seq<(String, V)>, at: int, key: Seq<char>, value: V)
    requires
        first_with(before, key, 0) == Some(at),
        0 <= at < before.len(),
    ensures
        map_of(before.update(at, (before[at].0, value))) == map_of(before).insert(key, value),
{
    let after = before.update(at, (before[at].0, value));
    first_with_is_first(before, key, 0);
    assert forall|other: Seq<char>| #[trigger]
        first_with(after, other, 0) == first_with(before, other, 0) by {
        same_keys(before, after, other, 0);
    }
    let wanted = map_of(before).insert(key, value);
    assert forall|other: Seq<char>|
        #[trigger] map_of(after).dom().contains(other) == wanted.dom().contains(other) by {
        assert(first_with(after, other, 0) == first_with(before, other, 0));
    }
    assert forall|other: Seq<char>| wanted.dom().contains(other) implies #[trigger] map_of(
        after,
    )[other] == wanted[other] by {
        assert(first_with(after, other, 0) == first_with(before, other, 0));
        first_with_is_first(before, other, 0);
    }
    assert(map_of(after) =~= wanted);
}

proof fn removed_grows<V>(before: Seq<(String, V)>, after: Seq<(String, V)>, at: int)
    requires
        0 <= at < before.len(),
        after == before.remove(at),
        keys_grow(before),
    ensures
        keys_grow(after),
{
    assert forall|i: int, j: int| 0 <= i < j < after.len() implies order::precedes(
        (#[trigger] after[i]).0@,
        (#[trigger] after[j]).0@,
    ) by {
        let k = if i < at {
            i
        } else {
            i + 1
        };
        let l = if j < at {
            j
        } else {
            j + 1
        };
        assert(after[i] == before[k] && after[j] == before[l]);
    }
}

proof fn lookup_removed<V>(
    before: Seq<(String, V)>,
    after: Seq<(String, V)>,
    at: int,
    other: Seq<char>,
)
    requires
        0 <= at < before.len(),
        after == before.remove(at),
        other != before[at].0@,
    ensures
        lookup(after, other) == lookup(before, other),
{
    first_with_is_first(before, other, 0);
    let bound = match first_with(before, other, 0) {
        Some(found) => if found < at {
            found
        } else {
            found - 1
        },
        None => after.len() as int,
    };
    assert forall|i: int| 0 <= i < bound implies (#[trigger] after[i]).0@ != other by {
        if i < at {
            assert(after[i] == before[i]);
        } else {
            assert(after[i] == before[i + 1]);
        }
    }
    match first_with(before, other, 0) {
        Some(found) => {
            assert(after[bound] == before[found]);
            first_with_found(after, other, 0, bound);
        },
        None => {
            first_with_missing(after, other, 0);
        },
    }
}

} // verus!
