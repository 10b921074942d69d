//! A map whose keys are compared one by one, walked in the order of insertion.

use vstd::prelude::*;

verus! {

/// What can be a key: it has a model, and two keys can be told apart by it.
pub trait AssocKey: Sized {
    /// What a key stands for.
    type Model;

    /// What the key stands for.
    spec fn model(&self) -> Self::Model;

    /// Whether two keys stand for the same.
    fn same_key(&self, other: &Self) -> (same: bool)
        ensures
            same == (self.model() == other.model()),
    ;
}

impl AssocKey for usize {
    type Model = usize;

    open spec fn model(&self) -> usize {
        *self
    }

    fn same_key(&self, other: &Self) -> (same: bool) {
        *self == *other
    }
}

/// A map with few keys.
pub struct Assoc<K: AssocKey, V> {
    entries: Vec<(K, V)>,
}

/// The index of the first entry with `key`, counted from `from`.
pub open spec fn first_at<K: AssocKey, V>(
    entries: Seq<(K, V)>,
    key: K::Model,
    from: int,
) -> Option<int>
    decreases entries.len() - from,
{
    if from < 0 || from >= entries.len() {
        None
    } else if entries[from].0.model() == key {
        Some(from)
    } else {
        first_at(entries, key, from + 1)
    }
}

/// The value of the first entry with a key.
pub open spec fn value_of<K: AssocKey, V>(entries: Seq<(K, V)>, key: K::Model) -> Option<V> {
    match first_at(entries, key, 0) {
        Some(at) => Some(entries[at].1),
        None => None,
    }
}

/// The map that a list of entries stands for; the first entry of a key counts.
pub open spec fn assoc_map<K: AssocKey, V>(entries: Seq<(K, V)>) -> Map<K::Model, V> {
    Map::new(
        |key: K::Model| value_of(entries, key) is Some,
        |key: K::Model| value_of(entries, key)->0,
    )
}

proof fn first_at_is_first<K: AssocKey, V>(entries: Seq<(K, V)>, key: K::Model, from: int)
    requires
        0 <= from <= entries.len(),
    ensures
        first_at(entries, key, from) matches Some(at) ==> {
            &&& from <= at < entries.len()
            &&& entries[at].0.model() == key
            &&& forall|i: int| from <= i < at ==> (#[trigger] entries[i]).0.model() != key
        },
        first_at(entries, key, from) is None ==> forall|i: int|
            from <= i < entries.len() ==> (#[trigger] entries[i]).0.model() != key,
    decreases entries.len() - from,
{
    if from < entries.len() && entries[from].0.model() != key {
        first_at_is_first(entries, key, from + 1);
    }
}

proof fn first_at_found<K: AssocKey, V>(entries: Seq<(K, V)>, key: K::Model, from: int, at: int)
    requires
        0 <= from <= at < entries.len(),
        entries[at].0.model() == key,
        forall|i: int| from <= i < at ==> (#[trigger] entries[i]).0.model() != key,
    ensures
        first_at(entries, key, from) == Some(at),
    decreases at - from,
{
    if from < at {
        first_at_found(entries, key, from + 1, at);
    }
}

proof fn first_at_missing<K: AssocKey, V>(entries: Seq<(K, V)>, key: K::Model, from: int)
    requires
        0 <= from <= entries.len(),
        forall|i: int| from <= i < entries.len() ==> (#[trigger] entries[i]).0.model() != key,
    ensures
        first_at(entries, key, from) is None,
    decreases entries.len() - from,
{
    if from < entries.len() {
        first_at_missing(entries, key, from + 1);
    }
}

proof fn value_after_update<K: AssocKey, V>(
    before: Seq<(K, V)>,
    after: Seq<(K, V)>,
    at: int,
    other: K::Model,
)
    requires
        0 <= at < before.len(),
        after.len() == before.len(),
        after[at].0.model() == before[at].0.model(),
        forall|i: int| 0 <= i < before.len() && i != at ==> #[trigger] after[i] == before[i],
        first_at(before, before[at].0.model(), 0) == Some(at),
    ensures
        value_of(after, other) == if other == before[at].0.model() {
            Some(after[at].1)
        } else {
            value_of(before, other)
        },
{
    first_at_is_first(before, other, 0);
    match first_at(before, other, 0) {
        Some(found) => {
            assert forall|i: int| 0 <= i < found implies (#[trigger] after[i]).0.model() != other by {
                assert(before[i].0.model() != other);
                if i != at {
                    assert(after[i] == before[i]);
                }
            }
            if found != at {
                assert(after[found] == before[found]);
            }
            first_at_found(after, other, 0, found);
        },
        None => {
            assert forall|i: int| 0 <= i < after.len() implies (#[trigger] after[i]).0.model()
                != other by {
                assert(before[i].0.model() != other);
                if i != at {
                    assert(after[i] == before[i]);
                }
            }
            first_at_missing(after, other, 0);
        },
    }
}

proof fn value_after_push<K: AssocKey, V>(before: Seq<(K, V)>, entry: (K, V), other: K::Model)
    requires
        first_at(before, entry.0.model(), 0) is None,
    ensures
        value_of(before.push(entry), other) == if other == entry.0.model() {
            Some(entry.1)
        } else {
            value_of(before, other)
        },
{
    let after = before.push(entry);
    first_at_is_first(before, other, 0);
    first_at_is_first(before, entry.0.model(), 0);
    let bound = match first_at(before, other, 0) {
        Some(found) => found,
        None => before.len() as int,
    };
    assert forall|i: int| 0 <= i < bound implies (#[trigger] after[i]).0.model() != other by {
        assert(after[i] == before[i]);
    }
    if other == entry.0.model() {
        first_at_found(after, other, 0, before.len() as int);
    } else {
        match first_at(before, other, 0) {
            Some(found) => {
                assert(after[found] == before[found]);
                first_at_found(after, other, 0, found);
            },
            None => {
                first_at_missing(after, other, 0);
            },
        }
    }
}

proof fn value_after_remove<K: AssocKey, V>(before: Seq<(K, V)>, at: int, other: K::Model)
    requires
        0 <= at < before.len(),
        other != before[at].0.model(),
    ensures
        value_of(before.remove(at), other) == value_of(before, other),
{
    let after = before.remove(at);
    first_at_is_first(before, other, 0);
    let bound = match first_at(before, other, 0) {
        Some(found) => if found < at {
            found
        } else {
            found - 1
        },
        None => after.len() as int,
    };
    assert forall|i: int| 0 <= i < bound implies (#[trigger] after[i]).0.model() != other by {
        if i < at {
            assert(after[i] == before[i]);
        } else {
            assert(after[i] == before[i + 1]);
        }
    }
    match first_at(before, other, 0) {
        Some(found) => {
            assert(after[bound] == before[found]);
            first_at_found(after, other, 0, bound);
        },
        None => {
            first_at_missing(after, other, 0);
        },
    }
}

proof fn maps_agree<K: AssocKey, V>(entries: Seq<(K, V)>, wanted: Map<K::Model, V>)
    requires
        forall|key: K::Model|
            #[trigger] value_of(entries, key) == if wanted.dom().contains(key) {
                Some(wanted[key])
            } else {
                None
            },
    ensures
        assoc_map(entries) == wanted,
{
    let map = assoc_map(entries);
    assert forall|key: K::Model| #[trigger] map.dom().contains(key) == wanted.dom().contains(
        key,
    ) by {
        assert(value_of(entries, key) is Some == map.dom().contains(key));
    }
    assert forall|key: K::Model| wanted.dom().contains(key) implies #[trigger] map[key]
        == wanted[key] by {
        assert(value_of(entries, key) == Some(wanted[key]));
    }
    assert(map =~= wanted);
}

impl<K: AssocKey, V> View for Assoc<K, V> {
    type V = Map<K::Model, V>;

    closed spec fn view(&self) -> Map<K::Model, V> {
        assoc_map(self.entries@)
    }
}

impl<K: AssocKey, V> Assoc<K, V> {
    /// The entries, in the order in which they are walked.
    pub closed spec fn listed(&self) -> Seq<(K, V)> {
        self.entries@
    }

    /// Every listed entry is in the map under its key, unless an earlier entry
    /// has that key, and the map holds nothing else.
    pub proof fn view_of_listed(&self)
        ensures
            self@ == assoc_map(self.listed()),
    {
    }

    /// The empty map.
    pub fn new() -> (map: Self)
        ensures
            map@ == Map::<K::Model, V>::empty(),
            map.listed() == Seq::<(K, V)>::empty(),
    {
        let map = Assoc { entries: Vec::new() };
        proof {
            maps_agree(map.entries@, Map::<K::Model, V>::empty());
        }
        map
    }

    /// The number of entries.
    pub fn len(&self) -> (count: usize)
        ensures
            count == self.listed().len(),
    {
        self.entries.len()
    }

    /// The key of the entry at an index.
    pub fn key_at(&self, index: usize) -> (key: &K)
        requires
            index < self.listed().len(),
        ensures
            *key == self.listed()[index as int].0,
    {
        &self.entries[index].0
    }

    /// The value of the entry at an index.
    pub fn value_at(&self, index: usize) -> (value: &V)
        requires
            index < self.listed().len(),
        ensures
            *value == self.listed()[index as int].1,
    {
        &self.entries[index].1
    }

    fn position(&self, key: &K) -> (found: Option<usize>)
        ensures
            match found {
                Some(at) => at < self.entries@.len() && first_at(self.entries@, key.model(), 0)
                    == Some(at as int),
                None => first_at(self.entries@, key.model(), 0) is None,
            },
    {
        let mut i: usize = 0;
        while i < self.entries.len()
            invariant
                i <= self.entries@.len(),
                first_at(self.entries@, key.model(), 0) == first_at(
                    self.entries@,
                    key.model(),
                    i as int,
                ),
            decreases self.entries@.len() - i,
        {
            if self.entries[i].0.same_key(key) {
                return Some(i);
            }
            i = i + 1;
        }
        None
    }

    /// The value of a key.
    pub fn get(&self, key: &K) -> (value: Option<&V>)
        ensures
            match value {
                Some(v) => self@.dom().contains(key.model()) && *v == self@[key.model()],
                None => !self@.dom().contains(key.model()),
            },
    {
        match self.position(key) {
            Some(at) => Some(&self.entries[at].1),
            None => None,
        }
    }

    /// Whether a key has a value.
    pub fn contains_key(&self, key: &K) -> (yes: bool)
        ensures
            yes == self@.dom().contains(key.model()),
    {
        self.position(key).is_some()
    }

    /// Gives a key a value.
    pub fn insert(&mut self, key: K, value: V)
        ensures
            final(self)@ == old(self)@.insert(key.model(), value),
    {
        let ghost before = self.entries@;
        let ghost wanted = assoc_map(before).insert(key.model(), value);
        match self.position(&key) {
            Some(at) => {
                self.entries.set(at, (key, value));
                proof {
                    let after = self.entries@;
                    first_at_is_first(before, key.model(), 0);
                    assert forall|other: K::Model|
                        #[trigger] value_of(after, other) == if wanted.dom().contains(other) {
                            Some(wanted[other])
                        } else {
                            None
                        } by {
                        value_after_update(before, after, at as int, other);
                    }
                    maps_agree(after, wanted);
                }
            },
            None => {
                self.entries.push((key, value));
                proof {
                    let after = self.entries@;
                    assert forall|other: K::Model|
                        #[trigger] value_of(after, other) == if wanted.dom().contains(other) {
                            Some(wanted[other])
                        } else {
                            None
                        } by {
                        value_after_push(before, (key, value), other);
                    }
                    maps_agree(after, wanted);
                }
            },
        }
    }

    /// Takes a key away; says whether it had a value.
    pub fn remove(&mut self, key: &K) -> (known: bool)
        ensures
            final(self)@ == old(self)@.remove(key.model()),
            known == old(self)@.dom().contains(key.model()),
    {
        let ghost start = self.entries@;
        let known = self.position(key).is_some();
        loop
            invariant
                start == old(self).entries@,
                known == (value_of(start, key.model()) is Some),
                forall|other: K::Model|
                    other != key.model() ==> #[trigger] value_of(self.entries@, other)
                        == value_of(start, other),
            ensures
                start == old(self).entries@,
                known == (value_of(start, key.model()) is Some),
                value_of(self.entries@, key.model()) is None,
                forall|other: K::Model|
                    other != key.model() ==> #[trigger] value_of(self.entries@, other)
                        == value_of(start, other),
            decreases self.entries@.len(),
        {
            let ghost before = self.entries@;
            match self.position(key) {
                Some(at) => {
                    self.entries.remove(at);
                    proof {
                        first_at_is_first(before, key.model(), 0);
                        assert forall|other: K::Model| other != key.model() implies #[trigger] value_of(
                            self.entries@,
                            other,
                        ) == value_of(start, other) by {
                            assert(value_of(before, other) == value_of(start, other));
                            value_after_remove(before, at as int, other);
                        }
                    }
                },
                None => {
                    break;
                },
            }
        }
        proof {
            let wanted = assoc_map(start).remove(key.model());
            assert forall|other: K::Model|
                #[trigger] value_of(self.entries@, other) == if wanted.dom().contains(other) {
                    Some(wanted[other])
                } else {
                    None
                } by {
                if other != key.model() {
                    assert(value_of(self.entries@, other) == value_of(start, other));
                }
            }
            maps_agree(self.entries@, wanted);
        }
        known
    }

    /// The value of a key, to be changed in place.
    pub fn get_mut(&mut self, key: &K) -> (value: Option<&mut V>)
        ensures
            match value {
                Some(v) => {
                    &&& old(self)@.dom().contains(key.model())
                    &&& *v == old(self)@[key.model()]
                    &&& final(self)@ == old(self)@.insert(key.model(), *final(v))
                },
                None => !old(self)@.dom().contains(key.model()) && *final(self) == *old(self),
            },
    {
        let ghost before = self.entries@;
        match self.position(key) {
            Some(at) => {
                proof {
                    first_at_is_first(before, key.model(), 0);
                    assert forall|v: V|
                        assoc_map(#[trigger] before.update(at as int, (before[at as int].0, v)))
                            == assoc_map(before).insert(key.model(), v) by {
                        let after = before.update(at as int, (before[at as int].0, v));
                        let wanted = assoc_map(before).insert(key.model(), v);
                        assert forall|other: K::Model|
                            #[trigger] value_of(after, other) == if wanted.dom().contains(other) {
                                Some(wanted[other])
                            } else {
                                None
                            } by {
                            value_after_update(before, after, at as int, other);
                        }
                        maps_agree(after, wanted);
                    }
                }
                Some(&mut self.entries[at].1)
            },
            None => None,
        }
    }

    /// Takes every key away.
    pub fn clear(&mut self)
        ensures
            final(self)@ == Map::<K::Model, V>::empty(),
            final(self).listed() == Seq::<(K, V)>::empty(),
    {
        self.entries = Vec::new();
        proof {
            maps_agree(self.entries@, Map::<K::Model, V>::empty());
        }
    }
}

} // verus!
