//! A map from numeric ids, walked in the order of the ids.
use std::collections::BTreeMap;

use vstd::prelude::*;
use vstd::std_specs::btree::increasing_seq;
use vstd::std_specs::iter::IteratorSpec;

verus! {

/// Where the entry of an id stands among entries in the order of their ids,
/// or where it would be put.
pub open spec fn place<V>(entries: Seq<(u64, V)>, id: u64) -> int
    decreases entries.len(),
{
    if entries.len() == 0 || entries[0].0 >= id {
        0
    } else {
        1 + place(entries.drop_first(), id)
    }
}

/// The ids of the entries increase.
pub open spec fn ordered<V>(entries: Seq<(u64, V)>) -> bool {
    forall|i: int, j: int|
        0 <= i < j < entries.len() ==> (#[trigger] entries[i]).0 < (#[trigger] entries[j]).0
}

/// An entry has the id.
pub open spec fn has_id<V>(entries: Seq<(u64, V)>, id: u64) -> bool {
    exists|i: int| 0 <= i < entries.len() && (#[trigger] entries[i]).0 == id
}

/// The map that some entries make up.
pub open spec fn map_of<V>(entries: Seq<(u64, V)>) -> Map<u64, V> {
    Map::new(|id: u64| has_id(entries, id), |id: u64| entries[place(entries, id)].1)
}

proof fn lemma_place<V>(entries: Seq<(u64, V)>, id: u64, at: int)
    requires
        0 <= at <= entries.len(),
        at < entries.len() ==> entries[at].0 >= id,
        forall|i: int| 0 <= i < at ==> (#[trigger] entries[i]).0 < id,
    ensures
        place(entries, id) == at,
    decreases entries.len(),
{
    if at > 0 {
        assert(entries[0].0 < id);
        assert forall|i: int| 0 <= i < at - 1 implies (#[trigger] entries.drop_first()[i]).0
            < id by {
            assert(entries[i + 1].0 < id);
        }
        lemma_place(entries.drop_first(), id, at - 1);
    }
}

/// The entry at an index is the one that its id maps to.
pub proof fn lemma_entry<V>(entries: Seq<(u64, V)>, at: int)
    requires
        ordered(entries),
        0 <= at < entries.len(),
    ensures
        map_of(entries).contains_key(entries[at].0),
        map_of(entries)[entries[at].0] == entries[at].1,
{
    lemma_place(entries, entries[at].0, at);
}

proof fn lemma_insert<V>(entries: Seq<(u64, V)>, at: int, id: u64, value: V)
    requires
        ordered(entries),
        0 <= at <= entries.len(),
        at < entries.len() ==> entries[at].0 > id,
        forall|i: int| 0 <= i < at ==> (#[trigger] entries[i]).0 < id,
    ensures
        ordered(entries.insert(at, (id, value))),
        !map_of(entries).contains_key(id),
        map_of(entries.insert(at, (id, value))) == map_of(entries).insert(id, value),
{
    let next = entries.insert(at, (id, value));
    let map = map_of(entries).insert(id, value);
    assert(next[at] == (id, value));
    assert forall|i: int, j: int| 0 <= i < j < next.len() implies (#[trigger] next[i]).0 < (
    #[trigger] next[j]).0 by {
        if j > at {
            assert(next[j] == entries[j - 1]);
        }
        if i > at {
            assert(next[i] == entries[i - 1]);
        }
    }
    assert forall|k: u64| #[trigger] map_of(next).contains_key(k) == map.contains_key(k) by {
        if has_id(entries, k) {
            let i = choose|i: int| 0 <= i < entries.len() && (#[trigger] entries[i]).0 == k;
            assert(next[if i < at { i } else { i + 1 }].0 == k);
        }
        if has_id(next, k) {
            let i = choose|i: int| 0 <= i < next.len() && (#[trigger] next[i]).0 == k;
            if i != at {
                assert(entries[if i < at { i } else { i - 1 }].0 == k);
            }
        }
    }
    assert forall|k: u64| #[trigger] map_of(next).contains_key(k) implies map_of(next)[k]
        == map[k] by {
        let i = choose|i: int| 0 <= i < next.len() && (#[trigger] next[i]).0 == k;
        lemma_entry(next, i);
        if i != at {
            let before = if i < at { i } else { i - 1 };
            assert(entries[before].0 == k);
            lemma_entry(entries, before);
        }
    }
    assert(map_of(next) =~= map);
}

proof fn lemma_remove<V>(entries: Seq<(u64, V)>, at: int)
    requires
        ordered(entries),
        0 <= at < entries.len(),
    ensures
        ordered(entries.remove(at)),
        map_of(entries.remove(at)) == map_of(entries).remove(entries[at].0),
{
    let id = entries[at].0;
    let next = entries.remove(at);
    let map = map_of(entries).remove(id);
    assert forall|k: u64| #[trigger] map_of(next).contains_key(k) == map.contains_key(k) by {
        if has_id(entries, k) && k != id {
            let i = choose|i: int| 0 <= i < entries.len() && (#[trigger] entries[i]).0 == k;
            assert(next[if i < at { i } else { i - 1 }].0 == k);
        }
        if has_id(next, k) {
            let i = choose|i: int| 0 <= i < next.len() && (#[trigger] next[i]).0 == k;
            assert(entries[if i < at { i } else { i + 1 }].0 == k);
        }
    }
    assert forall|k: u64| #[trigger] map_of(next).contains_key(k) implies map_of(next)[k]
        == map[k] by {
        let i = choose|i: int| 0 <= i < next.len() && (#[trigger] next[i]).0 == k;
        lemma_entry(next, i);
        let before = if i < at { i } else { i + 1 };
        assert(entries[before].0 == k);
        lemma_entry(entries, before);
    }
    assert(map_of(next) =~= map);
}

proof fn lemma_len<V>(entries: Seq<(u64, V)>)
    requires
        ordered(entries),
    ensures
        map_of(entries).dom().finite(),
        map_of(entries).len() == entries.len(),
    decreases entries.len(),
{
    if entries.len() == 0 {
        assert(map_of(entries) =~= Map::empty());
    } else {
        let last = entries.len() - 1;
        lemma_remove(entries, last);
        lemma_entry(entries, last);
        lemma_len(entries.remove(last));
        assert(map_of(entries) =~= map_of(entries.remove(last)).insert(
            entries[last].0,
            entries[last].1,
        ));
    }
}

/// Entries in the order of their ids are known by the map that they make up.
pub proof fn lemma_one_order<V>(one: Seq<(u64, V)>, other: Seq<(u64, V)>)
    requires
        ordered(one),
        ordered(other),
        map_of(one) == map_of(other),
    ensures
        one == other,
    decreases one.len(),
{
    lemma_len(one);
    lemma_len(other);
    if one.len() > 0 {
        let last = one.len() - 1;
        lemma_entry(one, last);
        lemma_entry(other, last);
        let i = choose|i: int| 0 <= i < one.len() && (#[trigger] one[i]).0 == other[last].0;
        assert(map_of(other).contains_key(other[last].0));
        assert(has_id(one, other[last].0));
        assert(one[i].0 <= one[last].0);
        let j = choose|j: int| 0 <= j < other.len() && (#[trigger] other[j]).0 == one[last].0;
        assert(map_of(one).contains_key(one[last].0));
        assert(has_id(other, one[last].0));
        assert(other[j].0 <= other[last].0);
        lemma_remove(one, last);
        lemma_remove(other, last);
        lemma_one_order(one.remove(last), other.remove(last));
        assert(one =~= one.remove(last).push(one[last]));
        assert(other =~= other.remove(last).push(other[last]));
    }
}

/// The entries of a finite map, in the order of their ids.
pub open spec fn in_order<V>(map: Map<u64, V>) -> Seq<(u64, V)> {
    choose|entries: Seq<(u64, V)>| ordered(entries) && map_of(entries) == map
}

proof fn lemma_place_splits<V>(entries: Seq<(u64, V)>, id: u64)
    ensures
        0 <= place(entries, id) <= entries.len(),
        place(entries, id) < entries.len() ==> entries[place(entries, id)].0 >= id,
        forall|i: int| 0 <= i < place(entries, id) ==> (#[trigger] entries[i]).0 < id,
    decreases entries.len(),
{
    if entries.len() > 0 && entries[0].0 < id {
        let rest = entries.drop_first();
        lemma_place_splits(rest, id);
        let at = place(entries, id);
        assert(at < entries.len() ==> entries[at] == rest[at - 1]);
        assert forall|i: int| 0 <= i < at implies (#[trigger] entries[i]).0 < id by {
            if i > 0 {
                assert(entries[i] == rest[i - 1]);
            }
        }
    }
}

proof fn lemma_finite_has_entries<V>(map: Map<u64, V>)
    requires
        map.dom().finite(),
    ensures
        exists|entries: Seq<(u64, V)>| ordered(entries) && #[trigger] map_of(entries) == map,
    decreases map.dom().len(),
{
    if map.dom().len() == 0 {
        let entries = Seq::<(u64, V)>::empty();
        assert(map.dom() =~= Set::empty());
        assert(map_of(entries) =~= map);
        assert(ordered(entries));
    } else {
        let id = map.dom().choose();
        assert(map.dom().contains(id));
        let rest = map.remove(id);
        assert(rest.dom() =~= map.dom().remove(id));
        lemma_finite_has_entries(rest);
        let entries = choose|entries: Seq<(u64, V)>|
            ordered(entries) && #[trigger] map_of(entries) == rest;
        let at = place(entries, id);
        lemma_place_splits(entries, id);
        if at < entries.len() && entries[at].0 == id {
            lemma_entry(entries, at);
        }
        lemma_insert(entries, at, id, map[id]);
        let next = entries.insert(at, (id, map[id]));
        assert(map_of(next) =~= map);
    }
}

/// A finite map has entries in the order of their ids.
pub proof fn lemma_finite<V>(map: Map<u64, V>)
    requires
        map.dom().finite(),
    ensures
        ordered(in_order(map)),
        map_of(in_order(map)) == map,
{
    lemma_finite_has_entries(map);
}

/// Entries in the order of their ids are the ones of their map.
pub proof fn lemma_in_order<V>(entries: Seq<(u64, V)>)
    requires
        ordered(entries),
    ensures
        in_order(map_of(entries)) == entries,
{
    let chosen = in_order(map_of(entries));
    assert(ordered(entries) && map_of(entries) == map_of(entries));
    lemma_one_order(chosen, entries);
}

/// Mapping the values keeps the order.
pub proof fn lemma_map_values<V, W>(
    entries: Seq<(u64, V)>,
    f: spec_fn(V) -> W,
    mapped: Seq<(u64, W)>,
)
    requires
        ordered(entries),
        mapped.len() == entries.len(),
        forall|i: int|
            0 <= i < entries.len() ==> #[trigger] mapped[i] == (entries[i].0, f(entries[i].1)),
    ensures
        ordered(mapped),
        map_of(mapped) == map_of(entries).map_values(f),
{
    assert forall|i: int, j: int| 0 <= i < j < mapped.len() implies (#[trigger] mapped[i]).0 < (
    #[trigger] mapped[j]).0 by {
        assert(entries[i].0 < entries[j].0);
    }
    assert forall|id: u64| has_id(mapped, id) == has_id(entries, id) by {
        if has_id(entries, id) {
            let i = choose|i: int| 0 <= i < entries.len() && (#[trigger] entries[i]).0 == id;
            assert(mapped[i].0 == id);
        }
        if has_id(mapped, id) {
            let i = choose|i: int| 0 <= i < mapped.len() && (#[trigger] mapped[i]).0 == id;
            assert(entries[i].0 == id);
        }
    }
    let target = map_of(entries).map_values(f);
    assert forall|id: u64| #[trigger] map_of(mapped).contains_key(id) implies map_of(mapped)[id]
        == target[id] by {
        let i = choose|i: int| 0 <= i < mapped.len() && (#[trigger] mapped[i]).0 == id;
        lemma_entry(mapped, i);
        lemma_entry(entries, i);
    }
    assert(map_of(mapped) =~= target);
}

/// A map from ids, walked in the order of the ids.
#[derive(Debug)]
pub struct IdMap<V> {
    map: BTreeMap<u64, V>,
}

impl<V> View for IdMap<V> {
    type V = Map<u64, V>;

    closed spec fn view(&self) -> Map<u64, V> {
        self.map@
    }
}

impl<V> IdMap<V> {
    /// The entries, in the order of their ids.
    pub open spec fn entries(&self) -> Seq<(u64, V)> {
        in_order(self@)
    }

    pub fn new() -> (map: Self)
        ensures
            map@ == Map::<u64, V>::empty(),
    {
        Self { map: BTreeMap::new() }
    }

    pub fn len(&self) -> (length: usize)
        ensures
            length == self@.len(),
            self@.dom().finite(),
    {
        self.map.len()
    }

    pub fn contains(&self, id: u64) -> (found: bool)
        ensures
            found == self@.contains_key(id),
    {
        self.map.contains_key(&id)
    }

    pub fn get(&self, id: u64) -> (value: Option<&V>)
        ensures
            match value {
                Some(value) => self@.contains_key(id) && *value == self@[id],
                None => !self@.contains_key(id),
            },
    {
        self.map.get(&id)
    }

    /// The ids, in their order.
    pub fn ids(&self) -> (ids: Vec<u64>)
        ensures
            ordered(self.entries()),
            map_of(self.entries()) == self@,
            ids@.len() == self.entries().len(),
            forall|i: int| 0 <= i < ids@.len() ==> (#[trigger] ids@[i]) == self.entries()[i].0,
    {
        let mut ids: Vec<u64> = Vec::new();
        let iter = self.map.iter();
        let ghost walked = iter.remaining();
        let ghost keys = walked.map_values(|entry: (&u64, &V)| *entry.0);
        assert(increasing_seq(keys));
        for entry in it: iter
            invariant
                it.seq() == walked,
                ids@.len() == it.index(),
                forall|i: int| 0 <= i < ids@.len() ==> (#[trigger] ids@[i]) == *walked[i].0,
        {
            ids.push(*entry.0);
        }
        proof {
            let entries = Seq::new(ids@.len(), |i: int| (ids@[i], self@[ids@[i]]));
            assert forall|i: int, j: int| 0 <= i < j < entries.len() implies (#[trigger] entries[i]).0
                < (#[trigger] entries[j]).0 by {
                assert(keys[i] == ids@[i] && keys[j] == ids@[j]);
                assert(vstd::std_specs::cmp::OrdSpec::cmp_spec(&keys[i], &keys[j]) is Less);
            }
            assert forall|id: u64| #[trigger] map_of(entries).contains_key(id) == self@.contains_key(
                id,
            ) by {
                if has_id(entries, id) {
                    let i = choose|i: int| 0 <= i < entries.len() && (#[trigger] entries[i]).0 == id;
                    assert(self.map@.contains_key(*walked[i].0));
                }
                if self@.contains_key(id) {
                    assert(walked.contains((&id, &self.map@[id])));
                    let i = choose|i: int|
                        0 <= i < walked.len() && walked[i] == (&id, &self.map@[id]);
                    assert(entries[i].0 == id);
                }
            }
            assert forall|id: u64| #[trigger] map_of(entries).contains_key(id) implies map_of(
                entries,
            )[id] == self@[id] by {
                let i = choose|i: int| 0 <= i < entries.len() && (#[trigger] entries[i]).0 == id;
                lemma_entry(entries, i);
            }
            assert(map_of(entries) =~= self@);
            lemma_in_order(entries);
        }
        ids
    }

    /// The entries, in the order of their ids.
    pub fn into_entries(self) -> (entries: Vec<(u64, V)>)
        ensures
            entries@ == self.entries(),
            ordered(entries@),
            map_of(entries@) == self@,
    {
        let ids: Vec<u64> = self.ids();
        let ghost all = self.entries();
        proof {
            assert forall|i: int| 0 <= i < all.len() implies self@.contains_key(
                (#[trigger] all[i]).0,
            ) && self@[all[i].0] == all[i].1 by {
                lemma_entry(all, i);
            }
        }
        let mut map: BTreeMap<u64, V> = self.map;
        let mut entries: Vec<(u64, V)> = Vec::new();
        while entries.len() < ids.len()
            invariant
                all == self.entries(),
                ordered(all),
                map_of(all) == self@,
                ids@.len() == all.len(),
                forall|i: int| 0 <= i < ids@.len() ==> (#[trigger] ids@[i]) == all[i].0,
                entries@.len() <= ids@.len(),
                entries@ == all.take(entries@.len() as int),
                forall|i: int|
                    entries@.len() <= i < all.len() ==> map@.contains_key((#[trigger] all[i]).0)
                        && map@[all[i].0] == all[i].1,
            decreases ids@.len() - entries@.len(),
        {
            let ghost at = entries@.len() as int;
            let id: u64 = ids[entries.len()];
            assert(all[at].0 == id);
            if let Some(value) = map.remove(&id) {
                entries.push((id, value));
                assert(entries@ =~= all.take(at + 1));
                assert forall|i: int| at + 1 <= i < all.len() implies map@.contains_key(
                    (#[trigger] all[i]).0,
                ) && map@[all[i].0] == all[i].1 by {
                    assert(all[at].0 < all[i].0);
                }
            }
        }
        assert(entries@ =~= all);
        entries
    }

    /// Maps an id to a value and returns the value that it had before.
    pub fn insert(&mut self, id: u64, value: V) -> (earlier: Option<V>)
        ensures
            final(self)@ == old(self)@.insert(id, value),
            match earlier {
                Some(earlier) => old(self)@.contains_key(id) && earlier == old(self)@[id],
                None => !old(self)@.contains_key(id),
            },
    {
        self.map.insert(id, value)
    }

    /// Takes the value of an id out of the map.
    pub fn remove(&mut self, id: u64) -> (value: Option<V>)
        ensures
            final(self)@ == old(self)@.remove(id),
            match value {
                Some(value) => old(self)@.contains_key(id) && value == old(self)@[id],
                None => !old(self)@.contains_key(id),
            },
    {
        self.map.remove(&id)
    }
}

} // verus!
