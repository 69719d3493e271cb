//! Bounded ownership of immutable material descriptor sets. Command buffers
//! keep their own references, so eviction never mutates data used by a frame.
use vstd::prelude::*;
use vstd::laws_eq::obeys_concrete_eq;
use vstd::std_specs::cmp::PartialEqSpec;

verus! {

struct CacheEntry<K, V> {
    key: K,
    last_used: u64,
    value: V,
}

/// A bounded key-value cache that evicts the least recently used entry.
#[verifier::reject_recursive_types(K)]
pub struct MaterialCache<K, V> {
    entries: Vec<CacheEntry<K, V>>,
    capacity: usize,
    clock: u64,
    pub hits: u64,
    pub misses: u64,
    pub evictions: u64,
    model: Ghost<Map<K, (u64, V)>>,
}

/// `k` is the least recently used key of `m`.
pub open spec fn is_lru<K, V>(m: Map<K, (u64, V)>, k: K) -> bool {
    &&& m.contains_key(k)
    &&& forall|j: K| #[trigger] m.contains_key(j) ==> m[k].0 <= m[j].0
}

impl<K: Copy + PartialEq, V> MaterialCache<K, V> {
    /// The cached entries: key to (time of last use, value).
    pub closed spec fn entries(&self) -> Map<K, (u64, V)> {
        self.model@
    }

    pub closed spec fn spec_capacity(&self) -> usize {
        self.capacity
    }

    /// Logical time: advanced by every `get` and `insert`.
    pub closed spec fn spec_clock(&self) -> u64 {
        self.clock
    }

    pub closed spec fn spec_hits(&self) -> u64 {
        self.hits
    }

    pub closed spec fn spec_misses(&self) -> u64 {
        self.misses
    }

    pub closed spec fn spec_evictions(&self) -> u64 {
        self.evictions
    }

    pub closed spec fn wf(&self) -> bool {
        &&& obeys_concrete_eq::<K>()
        &&& self.capacity > 0
        &&& self.model@.dom().finite()
        &&& self.model@.len() == self.entries@.len()
        &&& self.entries@.len() <= self.capacity
        &&& forall|i: int| 0 <= i < self.entries@.len() ==> {
            let e = #[trigger] self.entries@[i];
            &&& self.model@.contains_key(e.key)
            &&& self.model@[e.key] == (e.last_used, e.value)
        }
        &&& forall|k: K| #[trigger] self.model@.contains_key(k) ==> exists|i: int|
            0 <= i < self.entries@.len() && #[trigger] self.entries@[i].key == k
        &&& forall|i: int, j: int|
            0 <= i < self.entries@.len() && 0 <= j < self.entries@.len() && i != j
                ==> #[trigger] self.entries@[i].key != #[trigger] self.entries@[j].key
        &&& forall|k: K| #[trigger] self.model@.contains_key(k) ==> self.model@[k].0 <= self.clock
        &&& forall|k: K, j: K|
            #[trigger] self.model@.contains_key(k) && #[trigger] self.model@.contains_key(j) && k != j
                ==> self.model@[k].0 != self.model@[j].0
        &&& self.hits + self.misses + self.evictions <= self.clock
    }

    /// `self` is `before` after inserting `key` with `value` at the current
    /// time: when the cache was full and the key new, one least recently used
    /// entry was evicted first.
    pub open spec fn insert_effect(self, before: Self, key: K, value: V) -> bool {
        let evict = before.entries().len() == before.spec_capacity() && !before.entries().contains_key(key);
        &&& evict ==> {
            &&& self.spec_evictions() == before.spec_evictions() + 1
            &&& exists|lru: K| is_lru(before.entries(), lru)
                && self.entries() == before.entries().remove(lru).insert(key, (self.spec_clock(), value))
        }
        &&& !evict ==> {
            &&& self.spec_evictions() == before.spec_evictions()
            &&& self.entries() == before.entries().insert(key, (self.spec_clock(), value))
        }
    }

    /// An empty cache holding at most `capacity` entries.
    pub fn new(capacity: usize) -> (c: Self)
        requires
            capacity > 0,
            obeys_concrete_eq::<K>(),
        ensures
            c.wf(),
            c.entries() == Map::<K, (u64, V)>::empty(),
            c.spec_capacity() == capacity,
            c.spec_clock() == 0,
            c.spec_hits() == 0,
            c.spec_misses() == 0,
            c.spec_evictions() == 0,
    {
        MaterialCache {
            entries: Vec::new(),
            capacity,
            clock: 0,
            hits: 0,
            misses: 0,
            evictions: 0,
            model: Ghost(Map::empty()),
        }
    }

    fn find(&self, key: &K) -> (r: Option<usize>)
        requires
            self.wf(),
        ensures
            match r {
                Some(i) => i < self.entries@.len() && self.entries@[i as int].key == *key,
                None => !self.model@.contains_key(*key),
            },
    {
        proof {
            reveal(obeys_concrete_eq);
        }
        let n = self.entries.len();
        let mut i: usize = 0;
        while i < n
            invariant
                self.wf(),
                n == self.entries@.len(),
                i <= n,
                forall|j: int| 0 <= j < i ==> self.entries@[j].key != *key,
            decreases n - i,
        {
            let same = self.entries[i].key.eq(key);
            proof {
                reveal(obeys_concrete_eq);
            }
            if same {
                return Some(i);
            }
            i = i + 1;
        }
        proof {
            if self.model@.contains_key(*key) {
                let j = choose|j: int| 0 <= j < self.entries@.len() && #[trigger] self.entries@[j].key == *key;
            }
        }
        None
    }

    /// Look a key up. A hit marks the entry as just used.
    #[verifier::spinoff_prover]
    pub fn get(&mut self, key: &K) -> (r: Option<&V>)
        requires
            old(self).wf(),
            old(self).spec_clock() < u64::MAX,
        ensures
            final(self).wf(),
            final(self).spec_clock() == old(self).spec_clock() + 1,
            final(self).spec_capacity() == old(self).spec_capacity(),
            final(self).spec_evictions() == old(self).spec_evictions(),
            old(self).entries().contains_key(*key) ==> {
                &&& r == Some(&old(self).entries()[*key].1)
                &&& final(self).entries() == old(self).entries().insert(
                    *key,
                    (final(self).spec_clock(), old(self).entries()[*key].1),
                )
                &&& final(self).spec_hits() == old(self).spec_hits() + 1
                &&& final(self).spec_misses() == old(self).spec_misses()
            },
            !old(self).entries().contains_key(*key) ==> {
                &&& r is None
                &&& final(self).entries() == old(self).entries()
                &&& final(self).spec_hits() == old(self).spec_hits()
                &&& final(self).spec_misses() == old(self).spec_misses() + 1
            },
    {
        self.clock = self.clock + 1;
        match self.find(key) {
            Some(i) => {
                let ghost e = self.entries@[i as int];
                let ghost m0 = self.model@;
                self.entries[i].last_used = self.clock;
                self.hits = self.hits + 1;
                self.model = Ghost(m0.insert(e.key, (self.clock, e.value)));
                proof {
                    assert(self.model@.dom() =~= m0.dom());
                    assert forall|k: K| #[trigger] self.model@.contains_key(k) implies exists|j: int|
                        0 <= j < self.entries@.len() && #[trigger] self.entries@[j].key == k by {
                        let j = choose|j: int| 0 <= j < self.entries@.len() && #[trigger] old(self).entries@[j].key == k;
                        assert(self.entries@[j].key == k);
                    }
                    assert forall|a: int| 0 <= a < self.entries@.len() implies {
                        let ea = #[trigger] self.entries@[a];
                        &&& self.model@.contains_key(ea.key)
                        &&& self.model@[ea.key] == (ea.last_used, ea.value)
                    } by {
                        if a != i {
                            assert(self.entries@[a] == old(self).entries@[a]);
                        }
                    }
                    assert forall|a: int, b: int|
                        0 <= a < self.entries@.len() && 0 <= b < self.entries@.len() && a != b
                            implies #[trigger] self.entries@[a].key != #[trigger] self.entries@[b].key by {
                        assert(old(self).entries@[a].key == self.entries@[a].key);
                        assert(old(self).entries@[b].key == self.entries@[b].key);
                    }
                    assert forall|k: K, j: K|
                        #[trigger] self.model@.contains_key(k) && #[trigger] self.model@.contains_key(j) && k != j
                            implies self.model@[k].0 != self.model@[j].0 by {
                        if k == e.key {
                            assert(m0[j].0 <= old(self).clock);
                        }
                        if j == e.key {
                            assert(m0[k].0 <= old(self).clock);
                        }
                    }
                }
                Some(&self.entries[i].value)
            },
            None => {
                self.misses = self.misses + 1;
                None
            },
        }
    }

    /// Index of the least recently used entry.
    fn oldest(&self) -> (r: usize)
        requires
            self.wf(),
            self.entries@.len() > 0,
        ensures
            r < self.entries@.len(),
            is_lru(self.model@, self.entries@[r as int].key),
    {
        let n = self.entries.len();
        let mut best: usize = 0;
        let mut i: usize = 1;
        while i < n
            invariant
                self.wf(),
                n == self.entries@.len(),
                1 <= i <= n,
                best < n,
                forall|j: int| 0 <= j < i ==> self.entries@[best as int].last_used <= #[trigger] self.entries@[j].last_used,
            decreases n - i,
        {
            if self.entries[i].last_used < self.entries[best].last_used {
                best = i;
            }
            i = i + 1;
        }
        proof {
            let kb = self.entries@[best as int].key;
            assert forall|j: K| #[trigger] self.model@.contains_key(j) implies self.model@[kb].0 <= self.model@[j].0 by {
                let a = choose|a: int| 0 <= a < self.entries@.len() && #[trigger] self.entries@[a].key == j;
                assert(self.entries@[a].last_used <= self.entries@[a].last_used);
            }
        }
        best
    }

    /// Insert or replace an entry, marking it as just used. When the cache is
    /// full and the key is new, the least recently used entry is evicted first.
    #[verifier::spinoff_prover]
    pub fn insert(&mut self, key: K, value: V)
        requires
            old(self).wf(),
            old(self).spec_clock() < u64::MAX,
        ensures
            final(self).wf(),
            final(self).spec_clock() == old(self).spec_clock() + 1,
            final(self).spec_capacity() == old(self).spec_capacity(),
            final(self).spec_hits() == old(self).spec_hits(),
            final(self).spec_misses() == old(self).spec_misses(),
            final(self).insert_effect(*old(self), key, value),
    {
        let found = self.find(&key);
        if self.entries.len() == self.capacity && found.is_none() {
            let o = self.oldest();
            let ghost m0 = self.model@;
            let ghost lru = self.entries@[o as int].key;
            let ghost v0 = self.entries@;
            let _ = self.entries.swap_remove(o);
            self.evictions = self.evictions + 1;
            self.model = Ghost(m0.remove(lru));
            proof {
                assert(self.model@.len() == m0.len() - 1);
                assert forall|a: int| 0 <= a < self.entries@.len() implies {
                    let ea = #[trigger] self.entries@[a];
                    &&& self.model@.contains_key(ea.key)
                    &&& self.model@[ea.key] == (ea.last_used, ea.value)
                } by {
                    if a == o {
                        assert(self.entries@[a] == v0[v0.len() - 1]);
                    } else {
                        assert(self.entries@[a] == v0[a]);
                    }
                }
                assert forall|k: K| #[trigger] self.model@.contains_key(k) implies exists|j: int|
                    0 <= j < self.entries@.len() && #[trigger] self.entries@[j].key == k by {
                    let j = choose|j: int| 0 <= j < v0.len() && #[trigger] v0[j].key == k;
                    if j == v0.len() - 1 {
                        assert(self.entries@[o as int].key == k);
                    } else {
                        assert(self.entries@[j].key == k);
                    }
                }
                assert forall|a: int, b: int|
                    0 <= a < self.entries@.len() && 0 <= b < self.entries@.len() && a != b
                        implies #[trigger] self.entries@[a].key != #[trigger] self.entries@[b].key by {
                    let aa = if a == o { v0.len() - 1 } else { a };
                    let bb = if b == o { v0.len() - 1 } else { b };
                    assert(self.entries@[a] == v0[aa]);
                    assert(self.entries@[b] == v0[bb]);
                }
            }
        }
        self.clock = self.clock + 1;
        let ghost m1 = self.model@;
        let ghost v1 = self.entries@;
        let idx = self.find(&key);
        match idx {
            Some(i) => {
                self.entries.set(i, CacheEntry { key, last_used: self.clock, value });
            },
            None => {
                self.entries.push(CacheEntry { key, last_used: self.clock, value });
            },
        }
        self.model = Ghost(m1.insert(key, (self.clock, value)));
        proof {
            if idx is None {
                assert(self.model@.len() == m1.len() + 1);
            } else {
                assert(self.model@.dom() =~= m1.dom());
            }
            assert forall|a: int| 0 <= a < self.entries@.len() implies {
                let ea = #[trigger] self.entries@[a];
                &&& self.model@.contains_key(ea.key)
                &&& self.model@[ea.key] == (ea.last_used, ea.value)
            } by {
                if a < v1.len() && (idx is None || a != idx->Some_0) {
                    assert(self.entries@[a] == v1[a]);
                    assert(v1[a].key != key);
                }
            }
            assert forall|k: K| #[trigger] self.model@.contains_key(k) implies exists|j: int|
                0 <= j < self.entries@.len() && #[trigger] self.entries@[j].key == k by {
                if k == key {
                    match idx {
                        Some(i) => assert(self.entries@[i as int].key == k),
                        None => assert(self.entries@[v1.len() as int].key == k),
                    }
                } else {
                    let j = choose|j: int| 0 <= j < v1.len() && #[trigger] v1[j].key == k;
                    assert(self.entries@[j].key == k);
                }
            }
            assert forall|a: int, b: int|
                0 <= a < self.entries@.len() && 0 <= b < self.entries@.len() && a != b
                    implies #[trigger] self.entries@[a].key != #[trigger] self.entries@[b].key by {
                if a < v1.len() && (idx is None || a != idx->Some_0) {
                    assert(self.entries@[a] == v1[a]);
                }
                if b < v1.len() && (idx is None || b != idx->Some_0) {
                    assert(self.entries@[b] == v1[b]);
                }
            }
            assert forall|k: K, j: K|
                #[trigger] self.model@.contains_key(k) && #[trigger] self.model@.contains_key(j) && k != j
                    implies self.model@[k].0 != self.model@[j].0 by {
                if k == key {
                    assert(m1[j].0 <= old(self).clock);
                }
                if j == key {
                    assert(m1[k].0 <= old(self).clock);
                }
            }
        }
    }

    /// Keep only the entries for which `keep` answers true.
    #[verifier::spinoff_prover]
    pub fn retain<F: Fn(&K, &V) -> bool>(&mut self, keep: F)
        requires
            old(self).wf(),
            forall|k: K, v: V| keep.requires((&k, &v)),
        ensures
            final(self).wf(),
            final(self).spec_clock() == old(self).spec_clock(),
            final(self).spec_capacity() == old(self).spec_capacity(),
            final(self).spec_hits() == old(self).spec_hits(),
            final(self).spec_misses() == old(self).spec_misses(),
            final(self).spec_evictions() == old(self).spec_evictions(),
            forall|k: K| #[trigger] final(self).entries().contains_key(k) ==> {
                &&& old(self).entries().contains_key(k)
                &&& final(self).entries()[k] == old(self).entries()[k]
                &&& keep.ensures((&k, &old(self).entries()[k].1), true)
            },
            forall|k: K| #[trigger] old(self).entries().contains_key(k) && !final(self).entries().contains_key(k)
                ==> keep.ensures((&k, &old(self).entries()[k].1), false),
    {
        let ghost m0 = self.model@;
        let mut rest: Vec<CacheEntry<K, V>> = Vec::new();
        std::mem::swap(&mut rest, &mut self.entries);
        let ghost v0 = rest@;
        let ghost mut dropped: Set<K> = Set::empty();
        self.model = Ghost(Map::empty());
        while rest.len() > 0
            invariant
                obeys_concrete_eq::<K>(),
                self.capacity == old(self).capacity,
                self.clock == old(self).clock,
                self.hits == old(self).hits,
                self.misses == old(self).misses,
                self.evictions == old(self).evictions,
                m0 == old(self).model@,
                v0 == old(self).entries@,
                old(self).wf(),
                forall|k: K, v: V| keep.requires((&k, &v)),
                rest@ == v0.take(rest@.len() as int),
                rest@.len() <= v0.len(),
                self.model@.dom().finite(),
                self.model@.len() == self.entries@.len(),
                forall|i: int| 0 <= i < self.entries@.len() ==> {
                    let e = #[trigger] self.entries@[i];
                    &&& self.model@.contains_key(e.key)
                    &&& self.model@[e.key] == (e.last_used, e.value)
                },
                forall|k: K| #[trigger] self.model@.contains_key(k) ==> exists|i: int|
                    0 <= i < self.entries@.len() && #[trigger] self.entries@[i].key == k,
                forall|i: int, j: int|
                    0 <= i < self.entries@.len() && 0 <= j < self.entries@.len() && i != j
                        ==> #[trigger] self.entries@[i].key != #[trigger] self.entries@[j].key,
                forall|k: K| #[trigger] self.model@.contains_key(k) ==> {
                    &&& m0.contains_key(k)
                    &&& self.model@[k] == m0[k]
                    &&& keep.ensures((&k, &m0[k].1), true)
                    &&& forall|i: int| 0 <= i < rest@.len() ==> #[trigger] rest@[i].key != k
                },
                forall|k: K| #[trigger] dropped.contains(k) ==> {
                    &&& m0.contains_key(k)
                    &&& keep.ensures((&k, &m0[k].1), false)
                    &&& !self.model@.contains_key(k)
                    &&& forall|i: int| 0 <= i < rest@.len() ==> #[trigger] rest@[i].key != k
                },
                forall|k: K| #[trigger] m0.contains_key(k) ==> self.model@.contains_key(k) || dropped.contains(k)
                    || exists|i: int| 0 <= i < rest@.len() && #[trigger] rest@[i].key == k,
            decreases rest@.len(),
        {
            let ghost n = rest@.len();
            let e = rest.pop().unwrap();
            proof {
                assert(e == v0[n - 1]);
                assert(m0.contains_key(e.key) && m0[e.key] == (e.last_used, e.value));
                assert(rest@ =~= v0.take(n - 1));
            }
            let kept = keep(&e.key, &e.value);
            if kept {
                let ghost m = self.model@;
                let ghost ve = self.entries@;
                proof {
                    assert(!m.contains_key(e.key)) by {
                        if m.contains_key(e.key) {
                            assert(old(self).entries@[n - 1].key == e.key);
                        }
                    }
                }
                self.entries.push(e);
                self.model = Ghost(m.insert(e.key, (e.last_used, e.value)));
                proof {
                    assert forall|i: int| 0 <= i < self.entries@.len() implies {
                        let x = #[trigger] self.entries@[i];
                        &&& self.model@.contains_key(x.key)
                        &&& self.model@[x.key] == (x.last_used, x.value)
                    } by {
                        if i < ve.len() {
                            assert(self.entries@[i] == ve[i]);
                        }
                    }
                    assert forall|k: K| #[trigger] self.model@.contains_key(k) implies exists|i: int|
                        0 <= i < self.entries@.len() && #[trigger] self.entries@[i].key == k by {
                        if k == e.key {
                            assert(self.entries@[ve.len() as int].key == k);
                        } else {
                            let i = choose|i: int| 0 <= i < ve.len() && #[trigger] ve[i].key == k;
                            assert(self.entries@[i].key == k);
                        }
                    }
                    assert forall|i: int, j: int|
                        0 <= i < self.entries@.len() && 0 <= j < self.entries@.len() && i != j
                            implies #[trigger] self.entries@[i].key != #[trigger] self.entries@[j].key by {
                        if i < ve.len() {
                            assert(self.entries@[i] == ve[i]);
                            assert(m.contains_key(ve[i].key));
                        }
                        if j < ve.len() {
                            assert(self.entries@[j] == ve[j]);
                            assert(m.contains_key(ve[j].key));
                        }
                    }
                    assert(!dropped.contains(e.key)) by {
                        if dropped.contains(e.key) {
                            assert(v0.take(n as int)[n - 1].key == e.key);
                        }
                    }
                    assert forall|k: K| #[trigger] self.model@.contains_key(k) implies {
                        &&& m0.contains_key(k)
                        &&& self.model@[k] == m0[k]
                        &&& keep.ensures((&k, &m0[k].1), true)
                        &&& forall|i: int| 0 <= i < rest@.len() ==> #[trigger] rest@[i].key != k
                    } by {
                        if k == e.key {
                            assert forall|i: int| 0 <= i < rest@.len() implies #[trigger] rest@[i].key != k by {
                                assert(rest@[i] == v0[i]);
                                assert(old(self).entries@[i].key != old(self).entries@[n - 1].key);
                            }
                        }
                    }
                }
            } else {
                proof {
                    assert forall|i: int| 0 <= i < rest@.len() implies #[trigger] rest@[i].key != e.key by {
                        assert(rest@[i] == v0[i]);
                        assert(old(self).entries@[i].key != old(self).entries@[n - 1].key);
                    }
                    dropped = dropped.insert(e.key);
                    assert(!self.model@.contains_key(e.key)) by {
                        if self.model@.contains_key(e.key) {
                            assert(rest@.len() == n - 1);
                        }
                    }
                }
            }
            proof {
                assert forall|k: K| #[trigger] m0.contains_key(k) implies self.model@.contains_key(k) || dropped.contains(k)
                    || exists|i: int| 0 <= i < rest@.len() && #[trigger] rest@[i].key == k by {
                    if !self.model@.contains_key(k) && !dropped.contains(k) && k != e.key {
                        let i = choose|i: int| 0 <= i < v0.take(n as int).len() && #[trigger] v0.take(n as int)[i].key == k;
                        assert(i != n - 1);
                        assert(rest@[i].key == k);
                    }
                }
            }
        }
        proof {
            assert(self.entries@.len() <= self.capacity) by {
                assert(self.model@.dom().subset_of(m0.dom()));
                vstd::set_lib::lemma_len_subset(self.model@.dom(), m0.dom());
            }
        }
    }

    /// Number of cached entries.
    pub fn len(&self) -> (n: usize)
        requires
            self.wf(),
        ensures
            n == self.entries().len(),
    {
        self.entries.len()
    }
}


/// A cache never holds more entries than its capacity.
pub proof fn law_cache_bounded<K: Copy + PartialEq, V>(c: MaterialCache<K, V>)
    requires
        c.wf(),
    ensures
        c.entries().dom().finite(),
        c.entries().len() <= c.spec_capacity(),
{
}

/// After an insert, looking the key up gives the inserted value.
pub proof fn law_insert_then_lookup<K: Copy + PartialEq, V>(
    before: MaterialCache<K, V>,
    after: MaterialCache<K, V>,
    key: K,
    value: V,
)
    requires
        after.insert_effect(before, key, value),
    ensures
        after.entries().contains_key(key),
        after.entries()[key].1 == value,
{
}

/// An insert evicts nothing but a least recently used entry: every other
/// entry keeps its value and time of use.
pub proof fn law_insert_keeps_recent<K: Copy + PartialEq, V>(
    before: MaterialCache<K, V>,
    after: MaterialCache<K, V>,
    key: K,
    value: V,
    j: K,
)
    requires
        after.insert_effect(before, key, value),
        before.entries().contains_key(j),
        j != key,
        !is_lru(before.entries(), j),
    ensures
        after.entries().contains_key(j),
        after.entries()[j] == before.entries()[j],
{
}

/// The entry used last is never the one evicted while another entry exists.
pub proof fn law_last_used_survives<K: Copy + PartialEq, V>(
    before: MaterialCache<K, V>,
    after: MaterialCache<K, V>,
    key: K,
    value: V,
    j: K,
)
    requires
        before.wf(),
        after.insert_effect(before, key, value),
        before.entries().contains_key(j),
        before.entries()[j].0 == before.spec_clock(),
        before.entries().len() >= 2,
        j != key,
    ensures
        after.entries().contains_key(j),
        after.entries()[j] == before.entries()[j],
{
    let m = before.entries();
    if is_lru(m, j) {
        assert(m.dom().len() >= 2);
        assert(exists|i: K| m.contains_key(i) && i != j) by {
            let rest = m.dom().remove(j);
            assert(rest.len() >= 1);
            let i = rest.choose();
            assert(rest.contains(i));
        }
        let i = choose|i: K| m.contains_key(i) && i != j;
        assert(m[j].0 <= m[i].0);
        assert(m[i].0 <= before.spec_clock());
    }
}

/// Counting evictions: an insert of an absent key into a full cache evicts
/// exactly one entry and leaves the cache full; every other insert evicts
/// nothing and grows the cache by one entry for a new key, by none for a
/// present one.
pub proof fn law_insert_counts_evictions<K: Copy + PartialEq, V>(
    before: MaterialCache<K, V>,
    after: MaterialCache<K, V>,
    key: K,
    value: V,
)
    requires
        before.wf(),
        after.wf(),
        after.spec_capacity() == before.spec_capacity(),
        after.insert_effect(before, key, value),
    ensures
        before.entries().len() == before.spec_capacity() && !before.entries().contains_key(key) ==> {
            &&& after.spec_evictions() == before.spec_evictions() + 1
            &&& after.entries().len() == after.spec_capacity()
        },
        !(before.entries().len() == before.spec_capacity() && !before.entries().contains_key(key)) ==> {
            &&& after.spec_evictions() == before.spec_evictions()
            &&& after.entries().len() == before.entries().len() + (if before.entries().contains_key(key) { 0int } else { 1int })
        },
        after.entries().len() <= after.spec_capacity(),
{
    let m = before.entries();
    if m.len() == before.spec_capacity() && !m.contains_key(key) {
        let lru = choose|lru: K| is_lru(m, lru)
            && after.entries() == m.remove(lru).insert(key, (after.spec_clock(), value));
        assert(m.remove(lru).len() == m.len() - 1);
        assert(!m.remove(lru).contains_key(key));
    }
}

} // verus!
