use vstd::prelude::*;
use crate::types::ArtistId;

verus! {

/// Keys of a [`KeyIndex`]: a value with a mathematical view and an equality test that
/// agrees with it.
pub trait IndexKey: View + Sized {
    fn same_key(&self, other: &Self) -> (r: bool)
        ensures
            r == (self@ == other@);

    fn copy_key(&self) -> (r: Self)
        ensures
            r@ == self@;
}

impl IndexKey for String {
    fn same_key(&self, other: &Self) -> (r: bool) {
        *self == *other
    }

    fn copy_key(&self) -> (r: Self) {
        self.clone()
    }
}

/// Key of the album lookup: the owning artist and the album title.
#[derive(Debug, Clone, PartialEq, Eq)]
pub struct AlbumKey {
    pub artist_id: ArtistId,
    pub title: String,
}

impl View for AlbumKey {
    type V = (ArtistId, Seq<char>);

    open spec fn view(&self) -> (ArtistId, Seq<char>) {
        (self.artist_id, self.title@)
    }
}

impl IndexKey for AlbumKey {
    fn same_key(&self, other: &Self) -> (r: bool) {
        self.artist_id == other.artist_id && self.title == other.title
    }

    fn copy_key(&self) -> (r: Self) {
        AlbumKey { artist_id: self.artist_id, title: self.title.clone() }
    }
}

/// A finite map from keys to small copyable values, kept as a list of entries in
/// insertion order with no key occurring twice.
pub struct KeyIndex<K: IndexKey, V: Copy> {
    entries: Vec<(K, V)>,
    map: Ghost<Map<K::V, V>>,
}

impl<K: IndexKey, V: Copy> View for KeyIndex<K, V> {
    type V = Map<K::V, V>;

    closed spec fn view(&self) -> Map<K::V, V> {
        self.map@
    }
}

impl<K: IndexKey, V: Copy> KeyIndex<K, V> {
    /// The keys in the order in which they were first inserted.
    pub closed spec fn key_order(&self) -> Seq<K::V> {
        self.entries@.map_values(|e: (K, V)| e.0@)
    }

    /// The entries list every key of the map exactly once, with its value.
    pub closed spec fn wf(&self) -> bool {
        &&& forall|i: int, j: int|
            0 <= i < j < self.entries@.len() ==> (#[trigger] self.entries@[i]).0@ != (#[trigger] self.entries@[j]).0@
        &&& forall|i: int|
            0 <= i < self.entries@.len() ==> self.map@.contains_key((#[trigger] self.entries@[i]).0@)
                && self.map@[self.entries@[i].0@] == self.entries@[i].1
        &&& forall|k: K::V| #[trigger] self.map@.contains_key(k) ==> exists|i: int|
            0 <= i < self.entries@.len() && (#[trigger] self.entries@[i]).0@ == k
    }

    /// What `wf` gives a client: the key order lists the map's keys, each once.
    pub proof fn lemma_key_order(&self)
        requires
            self.wf(),
        ensures
            self.key_order().no_duplicates(),
            self.key_order().len() == self@.dom().len(),
            forall|k: K::V| #[trigger] self@.contains_key(k) <==> self.key_order().contains(k),
    {
        let ko = self.key_order();
        assert forall|k: K::V| #[trigger] self@.contains_key(k) <==> ko.contains(k) by {
            if self@.contains_key(k) {
                let i = choose|i: int| 0 <= i < self.entries@.len() && (#[trigger] self.entries@[i]).0@ == k;
                assert(ko[i] == k);
            }
            if ko.contains(k) {
                let i = choose|i: int| 0 <= i < ko.len() && ko[i] == k;
                assert(self.entries@[i].0@ == k);
            }
        }
        assert forall|i: int, j: int| 0 <= i < ko.len() && 0 <= j < ko.len() && i != j implies ko[i] != ko[j] by {
            if i < j {
                assert(self.entries@[i].0@ != self.entries@[j].0@);
            } else {
                assert(self.entries@[j].0@ != self.entries@[i].0@);
            }
        }
        assert(ko.to_set() =~= self@.dom());
        ko.unique_seq_to_set();
    }

    /// An empty index.
    pub fn new() -> (r: Self)
        ensures
            r.wf(),
            r@ == Map::<K::V, V>::empty(),
            r.key_order() == Seq::<K::V>::empty(),
    {
        let r = KeyIndex { entries: Vec::new(), map: Ghost(Map::empty()) };
        assert(r.key_order() =~= Seq::<K::V>::empty());
        r
    }

    /// Number of keys.
    pub fn len(&self) -> (r: usize)
        requires
            self.wf(),
        ensures
            r == self@.dom().len(),
    {
        proof {
            self.lemma_key_order();
        }
        self.entries.len()
    }

    /// The position of `k` among the entries.
    fn find(&self, k: &K) -> (r: Option<usize>)
        requires
            self.wf(),
        ensures
            match r {
                Some(i) => i < self.entries@.len() && self.entries@[i as int].0@ == k@,
                None => !self@.contains_key(k@),
            },
    {
        let mut i: usize = 0;
        while i < self.entries.len()
            invariant
                self.wf(),
                i <= self.entries@.len(),
                forall|j: int| 0 <= j < i ==> (#[trigger] self.entries@[j]).0@ != k@,
            decreases self.entries@.len() - i,
        {
            if self.entries[i].0.same_key(k) {
                return Some(i);
            }
            i = i + 1;
        }
        None
    }

    /// The value stored under `k`.
    pub fn get(&self, k: &K) -> (r: Option<V>)
        requires
            self.wf(),
        ensures
            r == (if self@.contains_key(k@) { Some(self@[k@]) } else { None }),
    {
        match self.find(k) {
            Some(i) => Some(self.entries[i].1),
            None => None,
        }
    }

    /// The key at position `i` of the key order.
    pub fn key_at(&self, i: usize) -> (r: &K)
        requires
            self.wf(),
            i < self.key_order().len(),
        ensures
            r@ == self.key_order()[i as int],
    {
        &self.entries[i].0
    }

    /// The value stored under the key at position `i` of the key order.
    pub fn value_at(&self, i: usize) -> (r: V)
        requires
            self.wf(),
            i < self.key_order().len(),
        ensures
            self@.contains_key(self.key_order()[i as int]),
            r == self@[self.key_order()[i as int]],
    {
        self.entries[i].1
    }

    /// Stores `v` under `k`, replacing any earlier value.  A new key goes to the end of the
    /// key order.
    pub fn insert(&mut self, k: K, v: V)
        requires
            old(self).wf(),
        ensures
            final(self).wf(),
            final(self)@ == old(self)@.insert(k@, v),
            old(self)@.contains_key(k@) ==> final(self).key_order() == old(self).key_order(),
            !old(self)@.contains_key(k@) ==> final(self).key_order() == old(self).key_order().push(k@),
    {
        match self.find(&k) {
            Some(i) => {
                let kk = self.entries[i].0.copy_key();
                let ghost old_entries = self.entries@;
                self.entries.set(i, (kk, v));
                self.map = Ghost(self.map@.insert(k@, v));
                proof {
                    assert forall|j: int| 0 <= j < self.entries@.len() implies (#[trigger] self.entries@[j]).0@ == old_entries[j].0@ by {
                    }
                    assert(self.key_order() =~= old(self).key_order());
                    assert forall|kv: K::V| #[trigger] self.map@.contains_key(kv) implies exists|j: int|
                        0 <= j < self.entries@.len() && (#[trigger] self.entries@[j]).0@ == kv by {
                        if kv != k@ {
                            assert(old(self).map@.contains_key(kv));
                            let j = choose|j: int| 0 <= j < old_entries.len() && (#[trigger] old_entries[j]).0@ == kv;
                            assert(self.entries@[j].0@ == kv);
                        } else {
                            assert(self.entries@[i as int].0@ == kv);
                        }
                    }
                }
            },
            None => {
                let ghost kv = k@;
                let ghost old_entries = self.entries@;
                self.entries.push((k, v));
                self.map = Ghost(self.map@.insert(kv, v));
                proof {
                    assert(self.key_order() =~= old(self).key_order().push(kv));
                    assert forall|a: int| 0 <= a < old_entries.len() implies (#[trigger] old_entries[a]).0@ != kv by {
                        assert(old(self).map@.contains_key(old_entries[a].0@));
                    }
                    assert forall|kk: K::V| #[trigger] self.map@.contains_key(kk) implies exists|j: int|
                        0 <= j < self.entries@.len() && (#[trigger] self.entries@[j]).0@ == kk by {
                        if kk != kv {
                            let j = choose|j: int| 0 <= j < old_entries.len() && (#[trigger] old_entries[j]).0@ == kk;
                            assert(self.entries@[j].0@ == kk);
                        } else {
                            assert(self.entries@[old_entries.len() as int].0@ == kk);
                        }
                    }
                }
            },
        }
    }

    /// Removes `k` and returns the value it had.  The other keys keep their order.
    pub fn remove(&mut self, k: &K) -> (r: Option<V>)
        requires
            old(self).wf(),
        ensures
            final(self).wf(),
            final(self)@ == old(self)@.remove(k@),
            r == (if old(self)@.contains_key(k@) { Some(old(self)@[k@]) } else { None }),
            !old(self)@.contains_key(k@) ==> final(self).key_order() == old(self).key_order(),
            old(self)@.contains_key(k@) ==> exists|i: int|
                0 <= i < old(self).key_order().len() && old(self).key_order()[i] == k@
                    && final(self).key_order() == old(self).key_order().remove(i),
    {
        match self.find(k) {
            Some(i) => {
                let ghost old_entries = self.entries@;
                let e = self.entries.remove(i);
                self.map = Ghost(self.map@.remove(k@));
                proof {
                    assert(self.key_order() =~= old(self).key_order().remove(i as int));
                    assert(old(self).key_order()[i as int] == k@);
                    assert forall|a: int| 0 <= a < self.entries@.len() implies (#[trigger] self.entries@[a]).0@ != k@ by {
                        if a < i {
                            assert(old_entries[a].0@ != old_entries[i as int].0@);
                        } else {
                            assert(old_entries[i as int].0@ != old_entries[a + 1].0@);
                        }
                    }
                    assert forall|a: int, b: int|
                        0 <= a < b < self.entries@.len() implies (#[trigger] self.entries@[a]).0@ != (#[trigger] self.entries@[b]).0@ by {
                        let a0 = if a < i { a } else { a + 1 };
                        let b0 = if b < i { b } else { b + 1 };
                        assert(old_entries[a0].0@ != old_entries[b0].0@);
                    }
                    assert forall|kk: K::V| #[trigger] self.map@.contains_key(kk) implies exists|j: int|
                        0 <= j < self.entries@.len() && (#[trigger] self.entries@[j]).0@ == kk by {
                        let j = choose|j: int| 0 <= j < old_entries.len() && (#[trigger] old_entries[j]).0@ == kk;
                        if j < i {
                            assert(self.entries@[j].0@ == kk);
                        } else {
                            assert(j != i);
                            assert(self.entries@[j - 1].0@ == kk);
                        }
                    }
                }
                Some(e.1)
            },
            None => None,
        }
    }
}

} // verus!
