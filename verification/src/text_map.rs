//! Values under texts, kept in the texts' order.

use crate::text::{
    lemma_text_le_antisymmetric, lemma_text_le_reflexive, lemma_text_le_total,
    lemma_text_le_transitive, same_text, text_le, text_not_after,
};
use vstd::prelude::*;
use vstd::string::*;

verus! {

/// A map from texts whose entries stand in the order of their keys.
#[derive(Clone, Debug, PartialEq, Eq)]
pub struct TextMap<V> {
    entries: Vec<(String, V)>,
}

/// Each entry's key comes before the next one's.
pub open spec fn keys_ascend<V>(entries: Seq<(String, V)>) -> bool {
    forall|i: int, j: int|
        #![trigger entries[i], entries[j]]
        0 <= i < j < entries.len() ==> text_le(entries[i].0@, entries[j].0@) && entries[i].0@
            != entries[j].0@
}

/// Whether some entry has this key.
pub open spec fn has_key<V>(entries: Seq<(String, V)>, key: Seq<char>) -> bool {
    exists|i: int| 0 <= i < entries.len() && (#[trigger] entries[i]).0@ == key
}

/// The position of an entry with this key.
pub open spec fn key_index<V>(entries: Seq<(String, V)>, key: Seq<char>) -> int {
    choose|i: int| 0 <= i < entries.len() && (#[trigger] entries[i]).0@ == key
}

/// The map that entries make up.
pub open spec fn entries_map<V>(entries: Seq<(String, V)>) -> Map<Seq<char>, V> {
    Map::new(
        |key: Seq<char>| has_key(entries, key),
        |key: Seq<char>| entries[key_index(entries, key)].1,
    )
}

proof fn lemma_key_index<V>(entries: Seq<(String, V)>, i: int)
    requires
        keys_ascend(entries),
        0 <= i < entries.len(),
    ensures
        has_key(entries, entries[i].0@),
        key_index(entries, entries[i].0@) == i,
{
    let at = key_index(entries, entries[i].0@);
    assert(entries[at].0@ == entries[i].0@);
}

impl<V> TextMap<V> {
    /// The entries, in the order of their keys.
    pub closed spec fn spec_entries(&self) -> Seq<(String, V)> {
        self.entries@
    }

    /// The entries stand in the order of their keys, which are all different.
    pub open spec fn wf(&self) -> bool {
        keys_ascend(self.spec_entries())
    }

    /// The entries are those of the map.
    pub proof fn lemma_entries_in_map(&self)
        requires
            self.wf(),
        ensures
            forall|i: int|
                0 <= i < self.spec_entries().len() ==> self@.contains_key(
                    (#[trigger] self.spec_entries()[i]).0@,
                ) && self@[self.spec_entries()[i].0@] == self.spec_entries()[i].1,
    {
        assert forall|i: int| 0 <= i < self.spec_entries().len() implies self@.contains_key(
            (#[trigger] self.spec_entries()[i]).0@,
        ) && self@[self.spec_entries()[i].0@] == self.spec_entries()[i].1 by {
            lemma_key_index(self.spec_entries(), i);
        }
    }

    /// A map without entries.
    pub fn new() -> (map: Self)
        ensures
            map.wf(),
            map@ == Map::<Seq<char>, V>::empty(),
    {
        let map = TextMap { entries: Vec::new() };
        assert(map@ =~= Map::<Seq<char>, V>::empty());
        map
    }

    /// How many entries there are.
    pub fn len(&self) -> (len: usize)
        ensures
            len == self.spec_entries().len(),
            self.wf() ==> len == self@.dom().len() && self@.dom().finite(),
    {
        proof {
            if self.wf() {
                lemma_entry_count(self.entries@);
            }
        }
        self.entries.len()
    }

    /// The entry at position `i` in the keys' order.
    pub fn entry(&self, i: usize) -> (entry: (&String, &V))
        requires
            i < self.spec_entries().len(),
        ensures
            *entry.0 == self.spec_entries()[i as int].0,
            *entry.1 == self.spec_entries()[i as int].1,
            self.wf() ==> self@.contains_key(entry.0@) && self@[entry.0@] == *entry.1,
    {
        proof {
            if self.wf() {
                lemma_key_index(self.entries@, i as int);
            }
        }
        (&self.entries[i].0, &self.entries[i].1)
    }

    /// The first position whose key does not come before `key`.
    fn lower_bound(&self, key: &str) -> (at: usize)
        requires
            self.wf(),
        ensures
            at <= self.entries@.len(),
            forall|i: int| 0 <= i < at ==> !text_le(key@, (#[trigger] self.entries@[i]).0@),
            forall|i: int| at <= i < self.entries@.len() ==> text_le(key@, (#[trigger] self.entries@[i]).0@),
    {
        let mut at: usize = 0;
        while at < self.entries.len()
            invariant
                self.wf(),
                at <= self.entries@.len(),
                forall|i: int| 0 <= i < at ==> !text_le(key@, (#[trigger] self.entries@[i]).0@),
            decreases self.entries.len() - at,
        {
            if text_not_after(key, self.entries[at].0.as_str()) {
                assert forall|i: int| at <= i < self.entries@.len() implies text_le(
                    key@,
                    (#[trigger] self.entries@[i]).0@,
                ) by {
                    if i > at {
                        assert(text_le(self.entries@[at as int].0@, self.entries@[i].0@));
                        lemma_text_le_transitive(
                            key@,
                            self.entries@[at as int].0@,
                            self.entries@[i].0@,
                        );
                    }
                }
                return at;
            }
            at += 1;
        }
        at
    }

    /// The position of `key`, or where it would stand.
    fn find(&self, key: &str) -> (found: Result<usize, usize>)
        requires
            self.wf(),
        ensures
            match found {
                Ok(at) => at < self.entries@.len() && self.entries@[at as int].0@ == key@
                    && self@.contains_key(key@) && key_index(self.entries@, key@) == at,
                Err(at) => {
                    &&& at <= self.entries@.len()
                    &&& !self@.contains_key(key@)
                    &&& forall|i: int| 0 <= i < at ==> text_le((#[trigger] self.entries@[i]).0@, key@)
                    &&& forall|i: int|
                        at <= i < self.entries@.len() ==> text_le(
                            key@,
                            (#[trigger] self.entries@[i]).0@,
                        )
                },
            },
    {
        let at: usize = self.lower_bound(key);
        if at < self.entries.len() && same_text(self.entries[at].0.as_str(), key) {
            proof {
                lemma_key_index(self.entries@, at as int);
            }
            return Ok(at);
        }
        proof {
            if has_key(self.entries@, key@) {
                let i = choose|i: int| 0 <= i < self.entries@.len() && (#[trigger] self.entries@[i]).0@ == key@;
                lemma_text_le_reflexive(key@);
                assert(i >= at);
                if i > at {
                    assert(text_le(self.entries@[at as int].0@, self.entries@[i].0@));
                    assert(text_le(key@, self.entries@[at as int].0@));
                    lemma_text_le_antisymmetric(key@, self.entries@[at as int].0@);
                }
            }
            assert forall|i: int| 0 <= i < at implies text_le(
                (#[trigger] self.entries@[i]).0@,
                key@,
            ) by {
                lemma_text_le_total(self.entries@[i].0@, key@);
            }
        }
        Err(at)
    }

    /// The value under `key`.
    pub fn get(&self, key: &str) -> (value: Option<&V>)
        requires
            self.wf(),
        ensures
            match value {
                Some(value) => self@.contains_key(key@) && *value == self@[key@],
                None => !self@.contains_key(key@),
            },
    {
        match self.find(key) {
            Ok(at) => Some(&self.entries[at].1),
            Err(_) => None,
        }
    }

    /// Puts `value` under `key` and gives back what was there.
    pub fn insert(&mut self, key: String, value: V) -> (replaced: Option<V>)
        requires
            old(self).wf(),
        ensures
            final(self).wf(),
            final(self)@ == old(self)@.insert(key@, value),
            match replaced {
                Some(replaced) => old(self)@.contains_key(key@) && replaced == old(self)@[key@],
                None => !old(self)@.contains_key(key@),
            },
    {
        match self.find(key.as_str()) {
            Ok(at) => {
                let ghost before = self.entries@;
                let ghost name = key@;
                let (_, replaced) = self.entries.remove(at);
                let ghost between = self.entries@;
                self.entries.insert(at, (key, value));
                proof {
                    let now = self.entries@;
                    assert(now =~= before.update(at as int, (key, value)));
                    lemma_replaced(before, at as int, key, value);
                }
                Some(replaced)
            },
            Err(at) => {
                let ghost before = self.entries@;
                self.entries.insert(at, (key, value));
                proof {
                    assert(self.entries@ =~= before.insert(at as int, (key, value)));
                    lemma_inserted(before, at as int, key, value);
                }
                None
            },
        }
    }

    /// Takes out what is under `key`.
    pub fn remove(&mut self, key: &str) -> (removed: Option<V>)
        requires
            old(self).wf(),
        ensures
            final(self).wf(),
            final(self)@ == old(self)@.remove(key@),
            match removed {
                Some(removed) => old(self)@.contains_key(key@) && removed == old(self)@[key@],
                None => !old(self)@.contains_key(key@),
            },
    {
        match self.find(key) {
            Ok(at) => {
                let ghost before = self.entries@;
                let (_, removed) = self.entries.remove(at);
                proof {
                    assert(self.entries@ =~= before.remove(at as int));
                    lemma_removed(before, at as int);
                }
                Some(removed)
            },
            Err(_) => {
                assert(self@.remove(key@) =~= self@);
                None
            },
        }
    }
}

impl<V> View for TextMap<V> {
    type V = Map<Seq<char>, V>;

    open spec fn view(&self) -> Map<Seq<char>, V> {
        entries_map(self.spec_entries())
    }
}

proof fn lemma_entry_count<V>(entries: Seq<(String, V)>)
    requires
        keys_ascend(entries),
    ensures
        entries_map(entries).dom().finite(),
        entries_map(entries).dom().len() == entries.len(),
{
    let keys = entries.map_values(|entry: (String, V)| entry.0@);
    assert forall|i: int, j: int| 0 <= i < keys.len() && 0 <= j < keys.len() && i
        != j implies keys[i] != keys[j] by {
        if i < j {
            assert(entries[i].0@ != entries[j].0@);
        } else {
            assert(entries[j].0@ != entries[i].0@);
        }
    }
    keys.unique_seq_to_set();
    assert(keys.to_set() =~= entries_map(entries).dom()) by {
        assert forall|key: Seq<char>| keys.to_set().contains(key) == entries_map(
            entries,
        ).dom().contains(key) by {
            if keys.to_set().contains(key) {
                let i = choose|i: int| 0 <= i < keys.len() && keys[i] == key;
                assert(entries[i].0@ == key);
            }
            if has_key(entries, key) {
                let i = choose|i: int| 0 <= i < entries.len() && (#[trigger] entries[i]).0@ == key;
                assert(keys[i] == key);
            }
        }
    }
}

proof fn lemma_same_map<V>(entries: Seq<(String, V)>, map: Map<Seq<char>, V>)
    requires
        keys_ascend(entries),
        forall|i: int|
            0 <= i < entries.len() ==> map.contains_key((#[trigger] entries[i]).0@)
                && map[entries[i].0@] == entries[i].1,
        forall|key: Seq<char>| #[trigger] map.contains_key(key) ==> has_key(entries, key),
    ensures
        entries_map(entries) == map,
{
    assert forall|key: Seq<char>| entries_map(entries).contains_key(key) == map.contains_key(
        key,
    ) by {
        if has_key(entries, key) {
            let i = choose|i: int| 0 <= i < entries.len() && (#[trigger] entries[i]).0@ == key;
            assert(map.contains_key(entries[i].0@));
        }
    }
    assert forall|key: Seq<char>| entries_map(entries).contains_key(key) implies entries_map(
        entries,
    )[key] == map[key] by {
        let i = key_index(entries, key);
        assert(entries[i].0@ == key);
    }
    assert(entries_map(entries) =~= map);
}

proof fn lemma_replaced<V>(before: Seq<(String, V)>, at: int, key: String, value: V)
    requires
        keys_ascend(before),
        0 <= at < before.len(),
        before[at].0@ == key@,
    ensures
        keys_ascend(before.update(at, (key, value))),
        entries_map(before.update(at, (key, value))) == entries_map(before).insert(key@, value),
{
    let now = before.update(at, (key, value));
    assert forall|i: int, j: int|
        #![trigger now[i], now[j]]
        0 <= i < j < now.len() implies text_le(now[i].0@, now[j].0@) && now[i].0@ != now[j].0@ by {
        assert(text_le(before[i].0@, before[j].0@) && before[i].0@ != before[j].0@);
    }
    let map = entries_map(before).insert(key@, value);
    assert forall|i: int| 0 <= i < now.len() implies map.contains_key((#[trigger] now[i]).0@)
        && map[now[i].0@] == now[i].1 by {
        lemma_key_index(before, i);
        if i != at {
            lemma_key_index(before, at);
        }
    }
    assert forall|k: Seq<char>| #[trigger] map.contains_key(k) implies has_key(now, k) by {
        if k == key@ {
            assert(now[at].0@ == k);
        } else {
            let i = choose|i: int| 0 <= i < before.len() && (#[trigger] before[i]).0@ == k;
            assert(now[i].0@ == k);
        }
    }
    lemma_same_map(now, map);
}

proof fn lemma_inserted<V>(before: Seq<(String, V)>, at: int, key: String, value: V)
    requires
        keys_ascend(before),
        0 <= at <= before.len(),
        !has_key(before, key@),
        forall|i: int| 0 <= i < at ==> text_le((#[trigger] before[i]).0@, key@),
        forall|i: int| at <= i < before.len() ==> text_le(key@, (#[trigger] before[i]).0@),
    ensures
        keys_ascend(before.insert(at, (key, value))),
        entries_map(before.insert(at, (key, value))) == entries_map(before).insert(key@, value),
{
    let now = before.insert(at, (key, value));
    assert forall|i: int| 0 <= i < before.len() implies (#[trigger] before[i]).0@ != key@ by {}
    assert forall|i: int, j: int|
        #![trigger now[i], now[j]]
        0 <= i < j < now.len() implies text_le(now[i].0@, now[j].0@) && now[i].0@ != now[j].0@ by {
        let p = if i < at { i } else { i - 1 };
        let q = if j < at { j } else { j - 1 };
        if i == at {
            assert(now[j] == before[q]);
        } else if j == at {
            assert(now[i] == before[p]);
        } else {
            assert(now[i] == before[p]);
            assert(now[j] == before[q]);
        }
    }
    let map = entries_map(before).insert(key@, value);
    assert forall|i: int| 0 <= i < now.len() implies map.contains_key((#[trigger] now[i]).0@)
        && map[now[i].0@] == now[i].1 by {
        let p = if i < at { i } else { i - 1 };
        if i != at {
            assert(now[i] == before[p]);
            lemma_key_index(before, p);
        }
    }
    assert forall|k: Seq<char>| #[trigger] map.contains_key(k) implies has_key(now, k) by {
        if k == key@ {
            assert(now[at].0@ == k);
        } else {
            let i = choose|i: int| 0 <= i < before.len() && (#[trigger] before[i]).0@ == k;
            if i < at {
                assert(now[i].0@ == k);
            } else {
                assert(now[i + 1].0@ == k);
            }
        }
    }
    lemma_same_map(now, map);
}

proof fn lemma_removed<V>(before: Seq<(String, V)>, at: int)
    requires
        keys_ascend(before),
        0 <= at < before.len(),
    ensures
        keys_ascend(before.remove(at)),
        entries_map(before.remove(at)) == entries_map(before).remove(before[at].0@),
{
    let now = before.remove(at);
    let key = before[at].0@;
    assert forall|i: int, j: int|
        #![trigger now[i], now[j]]
        0 <= i < j < now.len() implies text_le(now[i].0@, now[j].0@) && now[i].0@ != now[j].0@ by {
        let p = if i < at { i } else { i + 1 };
        let q = if j < at { j } else { j + 1 };
        assert(now[i] == before[p]);
        assert(now[j] == before[q]);
    }
    let map = entries_map(before).remove(key);
    assert forall|i: int| 0 <= i < now.len() implies map.contains_key((#[trigger] now[i]).0@)
        && map[now[i].0@] == now[i].1 by {
        let p = if i < at { i } else { i + 1 };
        assert(now[i] == before[p]);
        lemma_key_index(before, p);
        lemma_key_index(before, at);
    }
    assert forall|k: Seq<char>| #[trigger] map.contains_key(k) implies has_key(now, k) by {
        let i = choose|i: int| 0 <= i < before.len() && (#[trigger] before[i]).0@ == k;
        if i < at {
            assert(now[i].0@ == k);
        } else {
            assert(i != at);
            assert(now[i - 1].0@ == k);
        }
    }
    lemma_same_map(now, map);
}

} // verus!
