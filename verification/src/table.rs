//! A small map, kept as a list of entries with distinct keys.

use vstd::prelude::*;

use crate::protocol::{same_id, same_peer, PeerId};
use crate::text::same_text;

verus! {

/// What can key a [`Table`]: a type with a mathematical model and a test for
/// equal models.
pub trait Key: Sized {
    type Model;

    spec fn model(&self) -> Self::Model;

    fn same_key(&self, other: &Self) -> (r: bool)
        ensures
            r == (self.model() == other.model()),
    ;
}

impl Key for [u8; 16] {
    type Model = [u8; 16];

    open spec fn model(&self) -> [u8; 16] {
        *self
    }

    fn same_key(&self, other: &[u8; 16]) -> (r: bool) {
        same_id(self, other)
    }
}

impl Key for PeerId {
    type Model = PeerId;

    open spec fn model(&self) -> PeerId {
        *self
    }

    fn same_key(&self, other: &PeerId) -> (r: bool) {
        same_peer(self, other)
    }
}

impl Key for String {
    type Model = Seq<char>;

    open spec fn model(&self) -> Seq<char> {
        self@
    }

    fn same_key(&self, other: &String) -> (r: bool) {
        same_text(self.as_str(), other.as_str())
    }
}

/// The map that a list of entries stands for; later entries win.
pub open spec fn entries_map<K: Key, V>(entries: Seq<(K, V)>) -> Map<K::Model, V>
    decreases entries.len(),
{
    if entries.len() == 0 {
        Map::empty()
    } else {
        entries_map(entries.drop_last()).insert(entries.last().0.model(), entries.last().1)
    }
}

/// No key occurs twice.
pub open spec fn distinct_keys<K: Key, V>(entries: Seq<(K, V)>) -> bool {
    forall|i: int, j: int| 0 <= i < j < entries.len() ==> entries[i].0.model() != entries[j].0.model()
}

/// With distinct keys, the map holds exactly the listed entries.
proof fn lemma_entries<K: Key, V>(entries: Seq<(K, V)>)
    requires
        distinct_keys(entries),
    ensures
        entries_map(entries).dom().finite(),
        entries_map(entries).dom().len() == entries.len(),
        forall|i: int|
            0 <= i < entries.len() ==> entries_map(entries).contains_key(#[trigger] entries[i].0.model())
                && entries_map(entries)[entries[i].0.model()] == entries[i].1,
        forall|k: K::Model| #[trigger]
            entries_map(entries).contains_key(k) ==> exists|i: int|
                0 <= i < entries.len() && entries[i].0.model() == k,
    decreases entries.len(),
{
    if entries.len() > 0 {
        let front = entries.drop_last();
        lemma_entries(front);
        let m = entries_map(front);
        assert(!m.contains_key(entries.last().0.model()));
        assert forall|i: int| 0 <= i < entries.len() implies entries_map(entries).contains_key(
            #[trigger] entries[i].0.model(),
        ) && entries_map(entries)[entries[i].0.model()] == entries[i].1 by {
            if i < front.len() {
                assert(front[i] == entries[i]);
            }
        }
        assert forall|k: K::Model| #[trigger] entries_map(entries).contains_key(k) implies exists|
            i: int,
        | 0 <= i < entries.len() && entries[i].0.model() == k by {
            if k == entries.last().0.model() {
                assert(entries[entries.len() - 1].0.model() == k);
            } else {
                assert(m.contains_key(k));
                let i = choose|i: int| 0 <= i < front.len() && front[i].0.model() == k;
                assert(entries[i].0.model() == k);
            }
        }
    }
}

/// A map from keys of type `K` to values of type `V`.
pub struct Table<K, V> {
    entries: Vec<(K, V)>,
}

impl<K: Key, V> View for Table<K, V> {
    type V = Map<K::Model, V>;

    closed spec fn view(&self) -> Map<K::Model, V> {
        entries_map(self.entries@)
    }
}

impl<K: Key, V> Table<K, V> {
    /// No key occurs twice.
    pub closed spec fn wf(&self) -> bool {
        distinct_keys(self.entries@)
    }

    /// An empty map.
    pub fn new() -> (r: Table<K, V>)
        ensures
            r.wf(),
            r@ == Map::<K::Model, V>::empty(),
    {
        Table { entries: Vec::new() }
    }

    /// The number of entries.
    pub fn len(&self) -> (r: usize)
        requires
            self.wf(),
        ensures
            r == self@.dom().len(),
            self@.dom().finite(),
    {
        proof {
            lemma_entries(self.entries@);
        }
        self.entries.len()
    }

    /// The position of `key` among the entries.
    fn position(&self, key: &K) -> (r: Option<usize>)
        requires
            self.wf(),
        ensures
            match r {
                Some(i) => i < self.entries@.len() && self.entries@[i as int].0.model() == key.model(),
                None => !self@.contains_key(key.model()) && forall|j: int|
                    0 <= j < self.entries@.len() ==> self.entries@[j].0.model() != key.model(),
            },
    {
        let mut i: usize = 0;
        while i < self.entries.len()
            invariant
                i <= self.entries@.len(),
                forall|j: int| 0 <= j < i ==> self.entries@[j].0.model() != key.model(),
            decreases self.entries@.len() - i,
        {
            if self.entries[i].0.same_key(key) {
                return Some(i);
            }
            i += 1;
        }
        proof {
            lemma_entries(self.entries@);
        }
        None
    }

    /// Whether `key` has a value.
    pub fn contains(&self, key: &K) -> (r: bool)
        requires
            self.wf(),
        ensures
            r == self@.contains_key(key.model()),
    {
        proof {
            lemma_entries(self.entries@);
        }
        self.position(key).is_some()
    }

    /// The value of `key`.
    pub fn get(&self, key: &K) -> (r: Option<&V>)
        requires
            self.wf(),
        ensures
            match r {
                Some(v) => self@.contains_key(key.model()) && self@[key.model()] == *v,
                None => !self@.contains_key(key.model()),
            },
    {
        proof {
            lemma_entries(self.entries@);
        }
        match self.position(key) {
            Some(i) => Some(&self.entries[i].1),
            None => None,
        }
    }

    /// Takes the value of `key` out of the map.
    pub fn remove(&mut self, key: &K) -> (r: Option<V>)
        requires
            old(self).wf(),
        ensures
            final(self).wf(),
            final(self)@ == old(self)@.remove(key.model()),
            match r {
                Some(v) => old(self)@.contains_key(key.model()) && old(self)@[key.model()] == v,
                None => !old(self)@.contains_key(key.model()),
            },
    {
        let ghost before = self.entries@;
        proof {
            lemma_entries(before);
        }
        match self.position(key) {
            Some(i) => {
                let (_, value) = self.entries.remove(i);
                proof {
                    let after = self.entries@;
                    assert(after =~= before.remove(i as int));
                    assert forall|a: int, b: int| 0 <= a < b < after.len() implies after[a].0.model()
                        != after[b].0.model() by {
                        let x = if a < i { a } else { a + 1 };
                        let y = if b < i { b } else { b + 1 };
                        assert(after[a] == before[x] && after[b] == before[y]);
                    }
                    lemma_entries(after);
                    let target = entries_map(before).remove(key.model());
                    assert forall|k: K::Model| entries_map(after).contains_key(k)
                        == target.contains_key(k) by {
                        if entries_map(after).contains_key(k) {
                            let a = choose|a: int| 0 <= a < after.len() && after[a].0.model() == k;
                            let x = if a < i { a } else { a + 1 };
                            assert(after[a] == before[x]);
                            assert(before[x].0.model() != before[i as int].0.model());
                        }
                        if target.contains_key(k) {
                            let x = choose|x: int| 0 <= x < before.len() && before[x].0.model() == k;
                            let a = if x < i { x } else { x - 1 };
                            assert(after[a] == before[x]);
                        }
                    }
                    assert forall|k: K::Model| #[trigger] entries_map(after).contains_key(k) implies
                        entries_map(after)[k] == target[k] by {
                        let a = choose|a: int| 0 <= a < after.len() && after[a].0.model() == k;
                        let x = if a < i { a } else { a + 1 };
                        assert(after[a] == before[x]);
                    }
                    assert(entries_map(after) =~= target);
                }
                Some(value)
            },
            None => {
                assert(self@.remove(key.model()) =~= self@);
                None
            },
        }
    }

    /// Gives `key` the value `value`, whatever it had before.
    pub fn insert(&mut self, key: K, value: V)
        requires
            old(self).wf(),
        ensures
            final(self).wf(),
            final(self)@ == old(self)@.insert(key.model(), value),
    {
        let _ = self.remove(&key);
        let ghost rest = self.entries@;
        proof {
            lemma_entries(rest);
        }
        self.entries.push((key, value));
        proof {
            assert(self.entries@.drop_last() =~= rest);
            assert forall|a: int, b: int| 0 <= a < b < self.entries@.len() implies self.entries@[a].0.model()
                != self.entries@[b].0.model() by {
                if b == rest.len() {
                    assert(self.entries@[a] == rest[a]);
                    assert(entries_map(rest).contains_key(rest[a].0.model()));
                } else {
                    assert(self.entries@[a] == rest[a] && self.entries@[b] == rest[b]);
                }
            }
            assert(self@ =~= old(self)@.insert(key.model(), value));
        }
    }
}

impl<K: Key + Copy, V> Table<K, V> {
    /// The keys that have a value, each once.
    pub fn keys(&self) -> (r: Vec<K>)
        requires
            self.wf(),
        ensures
            r@.len() == self@.dom().len(),
            forall|i: int| 0 <= i < r@.len() ==> self@.contains_key(#[trigger] r@[i].model()),
            forall|i: int, j: int|
                0 <= i < j < r@.len() ==> #[trigger] r@[i].model() != #[trigger] r@[j].model(),
            forall|m: K::Model| #[trigger]
                self@.contains_key(m) ==> exists|i: int| 0 <= i < r@.len() && r@[i].model() == m,
    {
        let mut out: Vec<K> = Vec::new();
        let mut i: usize = 0;
        while i < self.entries.len()
            invariant
                i <= self.entries@.len(),
                out@.len() == i,
                forall|j: int| 0 <= j < i ==> #[trigger] out@[j] == self.entries@[j].0,
            decreases self.entries@.len() - i,
        {
            out.push(self.entries[i].0);
            i += 1;
        }
        proof {
            lemma_entries(self.entries@);
            assert forall|m: K::Model| #[trigger] self@.contains_key(m) implies exists|i: int|
                0 <= i < out@.len() && out@[i].model() == m by {
                let j = choose|j: int|
                    0 <= j < self.entries@.len() && self.entries@[j].0.model() == m;
                assert(out@[j] == self.entries@[j].0);
            }
            assert forall|j: int| 0 <= j < out@.len() implies self@.contains_key(
                #[trigger] out@[j].model(),
            ) by {
                assert(out@[j] == self.entries@[j].0);
            }
        }
        out
    }
}

} // verus!
