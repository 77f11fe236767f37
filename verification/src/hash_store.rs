//! Values kept under 32-byte hashes: the blocks, the pending transactions
//! and the positions of the headers.
use vstd::prelude::*;
use crate::codec::hash_eq;

verus! {

/// The values under their keys: a later entry for a key replaces the
/// earlier ones.
pub open spec fn store_map<V>(es: Seq<(Seq<u8>, V)>) -> Map<Seq<u8>, V>
    decreases es.len(),
{
    if es.len() == 0 {
        Map::empty()
    } else {
        store_map(es.drop_last()).insert(es.last().0, es.last().1)
    }
}

/// No key comes twice.
pub open spec fn keys_distinct<V>(es: Seq<(Seq<u8>, V)>) -> bool {
    forall|i: int, j: int| 0 <= i < j < es.len() ==> (#[trigger] es[i]).0 != (#[trigger] es[j]).0
}

/// Values under hashes, each hash naming at most one value.
pub struct HashStore<V> {
    entries: Vec<([u8; 32], V)>,
}

impl<V> View for HashStore<V> {
    type V = Map<Seq<u8>, V>;

    closed spec fn view(&self) -> Map<Seq<u8>, V> {
        store_map(self.entries@.map_values(|e: ([u8; 32], V)| (e.0@, e.1)))
    }
}

/// The entries without those under `k`, in order.
pub open spec fn without_key<V>(es: Seq<(Seq<u8>, V)>, k: Seq<u8>) -> Seq<(Seq<u8>, V)>
    decreases es.len(),
{
    if es.len() == 0 {
        Seq::empty()
    } else if es.last().0 != k {
        without_key(es.drop_last(), k).push(es.last())
    } else {
        without_key(es.drop_last(), k)
    }
}

/// Removing the entries under `k` removes `k` from the map.
proof fn lemma_without_key<V>(es: Seq<(Seq<u8>, V)>, k: Seq<u8>)
    ensures
        store_map(without_key(es, k)) == store_map(es).remove(k),
    decreases es.len(),
{
    if es.len() == 0 {
        assert(store_map(es).remove(k) =~= Map::empty());
    } else {
        lemma_without_key(es.drop_last(), k);
        if es.last().0 != k {
            let w = without_key(es.drop_last(), k).push(es.last());
            assert(w.drop_last() =~= without_key(es.drop_last(), k));
            assert(store_map(w) =~= store_map(es).remove(k));
        } else {
            assert(store_map(without_key(es, k)) =~= store_map(es).remove(k));
        }
    }
}

/// The last entry under `k` gives the map's value there.
proof fn lemma_last_entry<V>(es: Seq<(Seq<u8>, V)>, k: Seq<u8>, i: int)
    requires
        0 <= i < es.len(),
        es[i].0 == k,
        forall|j: int| i < j < es.len() ==> es[j].0 != k,
    ensures
        store_map(es).contains_key(k),
        store_map(es)[k] == es[i].1,
    decreases es.len(),
{
    if i < es.len() - 1 {
        lemma_last_entry(es.drop_last(), k, i);
    }
}

/// With no entry under `k`, the map has nothing there.
proof fn lemma_no_entry<V>(es: Seq<(Seq<u8>, V)>, k: Seq<u8>)
    requires
        forall|j: int| 0 <= j < es.len() ==> es[j].0 != k,
    ensures
        !store_map(es).contains_key(k),
    decreases es.len(),
{
    if es.len() > 0 {
        lemma_no_entry(es.drop_last(), k);
    }
}

/// With distinct keys, the map has one key for each entry.
proof fn lemma_store_len<V>(es: Seq<(Seq<u8>, V)>)
    requires
        keys_distinct(es),
    ensures
        store_map(es).dom().finite(),
        store_map(es).dom().len() == es.len(),
    decreases es.len(),
{
    if es.len() > 0 {
        let init = es.drop_last();
        assert(keys_distinct(init));
        lemma_store_len(init);
        assert forall|j: int| 0 <= j < init.len() implies init[j].0 != es.last().0 by {
            assert(init[j] == es[j]);
        }
        lemma_no_entry(init, es.last().0);
        assert(store_map(es).dom() =~= store_map(init).dom().insert(es.last().0));
    }
}

/// Leaving out the entries under a key keeps the keys distinct, and keeps
/// only keys that were there.
proof fn lemma_without_key_keys<V>(es: Seq<(Seq<u8>, V)>, k: Seq<u8>)
    requires
        keys_distinct(es),
    ensures
        keys_distinct(without_key(es, k)),
        forall|j: int|
            0 <= j < without_key(es, k).len() ==> exists|i: int|
                0 <= i < es.len() && es[i].0 == (#[trigger] without_key(es, k)[j]).0,
    decreases es.len(),
{
    if es.len() > 0 {
        let init = es.drop_last();
        assert(keys_distinct(init));
        lemma_without_key_keys(init, k);
        let wi = without_key(init, k);
        let w = without_key(es, k);
        assert forall|j: int| 0 <= j < wi.len() implies exists|i: int|
            0 <= i < es.len() && es[i].0 == (#[trigger] wi[j]).0 by {
            let i = choose|i: int| 0 <= i < init.len() && init[i].0 == wi[j].0;
            assert(es[i] == init[i]);
        }
        if es.last().0 != k {
            assert(w == wi.push(es.last()));
            assert forall|j: int| 0 <= j < wi.len() implies wi[j].0 != es.last().0 by {
                let i = choose|i: int| 0 <= i < init.len() && init[i].0 == wi[j].0;
                assert(es[i] == init[i]);
            }
            assert forall|a: int, b: int| 0 <= a < b < w.len() implies (#[trigger] w[a]).0
                != (#[trigger] w[b]).0 by {
                if b == wi.len() {
                    assert(w[a] == wi[a]);
                } else {
                    assert(w[a] == wi[a] && w[b] == wi[b]);
                }
            }
            assert forall|j: int| 0 <= j < w.len() implies exists|i: int|
                0 <= i < es.len() && es[i].0 == (#[trigger] w[j]).0 by {
                if j == wi.len() {
                    assert(es[es.len() - 1].0 == w[j].0);
                } else {
                    assert(w[j] == wi[j]);
                }
            }
        }
    }
}

/// A key under which some entry stands is in the map.
proof fn lemma_some_entry<V>(es: Seq<(Seq<u8>, V)>, k: Seq<u8>, i: int)
    requires
        0 <= i < es.len(),
        es[i].0 == k,
    ensures
        store_map(es).contains_key(k),
    decreases es.len(),
{
    if i < es.len() - 1 {
        lemma_some_entry(es.drop_last(), k, i);
    }
}

impl<V> HashStore<V> {
    #[verifier::type_invariant]
    spec fn inv(self) -> bool {
        keys_distinct(self.entries@.map_values(|e: ([u8; 32], V)| (e.0@, e.1)))
    }

    /// The entries of the store, each key once, in the order kept.
    pub closed spec fn entry_seq(self) -> Seq<(Seq<u8>, V)> {
        self.entries@.map_values(|e: ([u8; 32], V)| (e.0@, e.1))
    }

    /// How many keys the store holds; its entries have distinct keys and
    /// make up its map.
    pub fn len(&self) -> (r: usize)
        ensures
            r == self@.dom().len(),
            r == self.entry_seq().len(),
            self@.dom().finite(),
            keys_distinct(self.entry_seq()),
            self@ == store_map(self.entry_seq()),
    {
        proof {
            use_type_invariant(self);
            lemma_store_len(self.entry_seq());
        }
        self.entries.len()
    }

    /// The key and value of the entry at `i`.
    pub fn entry_at(&self, i: usize) -> (r: (&[u8; 32], &V))
        requires
            i < self.entry_seq().len(),
        ensures
            r.0@ == self.entry_seq()[i as int].0,
            *r.1 == self.entry_seq()[i as int].1,
    {
        (&self.entries[i].0, &self.entries[i].1)
    }

    /// An empty store.
    pub fn new() -> (r: HashStore<V>)
        ensures
            r@ == Map::<Seq<u8>, V>::empty(),
    {
        let entries: Vec<([u8; 32], V)> = Vec::new();
        assert(entries@.map_values(|e: ([u8; 32], V)| (e.0@, e.1)) =~= Seq::empty());
        HashStore { entries }
    }

    fn find(&self, key: &[u8; 32]) -> (r: Option<usize>)
        ensures
            match r {
                Some(i) => i < self.entries@.len() && self@.contains_key(key@) && self@[key@]
                    == self.entries@[i as int].1,
                None => !self@.contains_key(key@),
            },
    {
        let ghost es = self.entries@.map_values(|e: ([u8; 32], V)| (e.0@, e.1));
        let mut i: usize = self.entries.len();
        while i > 0
            invariant
                i <= self.entries@.len(),
                es == self.entries@.map_values(|e: ([u8; 32], V)| (e.0@, e.1)),
                forall|j: int| i <= j < es.len() ==> es[j].0 != key@,
            decreases i,
        {
            i = i - 1;
            if hash_eq(&self.entries[i].0, key) {
                proof {
                    lemma_last_entry(es, key@, i as int);
                }
                return Some(i);
            }
        }
        proof {
            lemma_no_entry(es, key@);
        }
        None
    }

    /// Whether a value is under `key`.
    pub fn contains_key(&self, key: &[u8; 32]) -> (r: bool)
        ensures
            r == self@.contains_key(key@),
    {
        self.find(key).is_some()
    }

    /// The value under `key`, if any.
    pub fn get(&self, key: &[u8; 32]) -> (r: Option<&V>)
        ensures
            match r {
                Some(v) => self@.contains_key(key@) && *v == self@[key@],
                None => !self@.contains_key(key@),
            },
    {
        match self.find(key) {
            Some(i) => Some(&self.entries[i].1),
            None => None,
        }
    }

    /// Puts `value` under `key`, in place of what was there.
    pub fn insert(&mut self, key: [u8; 32], value: V)
        ensures
            final(self)@ == old(self)@.insert(key@, value),
    {
        let _ = self.remove(&key);
        proof {
            use_type_invariant(&*self);
        }
        let ghost old_es = self.entries@.map_values(|e: ([u8; 32], V)| (e.0@, e.1));
        assert forall|j: int| 0 <= j < old_es.len() implies old_es[j].0 != key@ by {
            if old_es[j].0 == key@ {
                lemma_some_entry(old_es, key@, j);
            }
        }
        let mut entries: Vec<([u8; 32], V)> = Vec::new();
        std::mem::swap(&mut entries, &mut self.entries);
        entries.push((key, value));
        proof {
            let es = entries@.map_values(|e: ([u8; 32], V)| (e.0@, e.1));
            assert(es.drop_last() =~= old_es);
            assert forall|a: int, b: int| 0 <= a < b < es.len() implies (#[trigger] es[a]).0
                != (#[trigger] es[b]).0 by {
                if b < old_es.len() {
                    assert(es[a] == old_es[a] && es[b] == old_es[b]);
                } else {
                    assert(es[a] == old_es[a]);
                }
            }
        }
        self.entries = entries;
    }

    /// Takes out what is under `key`; whether something was.
    pub fn remove(&mut self, key: &[u8; 32]) -> (r: bool)
        ensures
            final(self)@ == old(self)@.remove(key@),
            r == old(self)@.contains_key(key@),
    {
        proof {
            use_type_invariant(&*self);
        }
        let r = self.contains_key(key);
        let mut entries: Vec<([u8; 32], V)> = Vec::new();
        std::mem::swap(&mut entries, &mut self.entries);
        let ghost all = entries@.map_values(|e: ([u8; 32], V)| (e.0@, e.1));
        let ghost n = entries@.len();
        let mut kept: Vec<([u8; 32], V)> = Vec::new();
        let ghost mut i: int = 0;
        assert(all.take(0) =~= Seq::<(Seq<u8>, V)>::empty());
        assert(kept@.map_values(|e: ([u8; 32], V)| (e.0@, e.1)) =~= Seq::<(Seq<u8>, V)>::empty());
        while entries.len() > 0
            invariant
                0 <= i <= n,
                n == all.len(),
                entries@.len() == n - i,
                forall|j: int| 0 <= j < n - i ==> (#[trigger] entries@[j]).0@ == all[i + j].0
                    && entries@[j].1 == all[i + j].1,
                kept@.map_values(|e: ([u8; 32], V)| (e.0@, e.1)) == without_key(
                    all.take(i),
                    key@,
                ),
            decreases entries@.len(),
        {
            let e = entries.remove(0);
            proof {
                assert(all.take(i + 1).drop_last() =~= all.take(i));
                assert(all.take(i + 1).last() == all[i]);
            }
            if !hash_eq(&e.0, key) {
                let ghost old_kept = kept@;
                kept.push(e);
                proof {
                    assert(kept@.map_values(|e: ([u8; 32], V)| (e.0@, e.1)) =~= old_kept.map_values(
                        |e: ([u8; 32], V)| (e.0@, e.1),
                    ).push(all[i]));
                }
            }
            proof {
                i = i + 1;
            }
        }
        proof {
            assert(all.take(i) =~= all);
            lemma_without_key(all, key@);
            lemma_without_key_keys(all, key@);
        }
        self.entries = kept;
        r
    }
}

} // verus!
