//! The cache store: a shared key-to-value map with the two merge operations
//! of the population protocol. `apply_update` (the stream merger's write)
//! always overwrites; `apply_bulk` (the bulk loader's write) only fills keys
//! that are still absent, so stale snapshot data can never clobber a fresher
//! stream value.

use vstd::prelude::*;

verus! {

/// Do all entries of `s` carry pairwise distinct keys?
pub open spec fn unique_keys(s: Seq<(String, u64)>) -> bool {
    forall|i: int, j: int| 0 <= i < j < s.len() ==> s[i].0@ != s[j].0@
}

/// The mapping an association list denotes: entries are inserted in order,
/// so on duplicate keys the later entry would win (the store never holds
/// duplicates).
pub open spec fn map_of(s: Seq<(String, u64)>) -> Map<Seq<char>, u64>
    decreases s.len(),
{
    if s.len() == 0 {
        Map::empty()
    } else {
        map_of(s.drop_last()).insert(s.last().0@, s.last().1)
    }
}

/// The bulk loader's merge policy: walk the fetched entries in order and
/// insert each one only if its key is still absent. Existing bindings are
/// never changed.
pub open spec fn bulk_merge(m: Map<Seq<char>, u64>, entries: Seq<(Seq<char>, u64)>) -> Map<
    Seq<char>,
    u64,
>
    decreases entries.len(),
{
    if entries.len() == 0 {
        m
    } else {
        let rest = bulk_merge(m, entries.drop_last());
        if rest.contains_key(entries.last().0) {
            rest
        } else {
            rest.insert(entries.last().0, entries.last().1)
        }
    }
}

proof fn lemma_map_of_absent(s: Seq<(String, u64)>, k: Seq<char>)
    requires
        forall|i: int| 0 <= i < s.len() ==> s[i].0@ != k,
    ensures
        !map_of(s).contains_key(k),
    decreases s.len(),
{
    if s.len() > 0 {
        assert(forall|i: int| 0 <= i < s.drop_last().len() ==> s.drop_last()[i].0@ != k);
        lemma_map_of_absent(s.drop_last(), k);
        assert(s.last().0@ != k);
    }
}

proof fn lemma_map_of_present(s: Seq<(String, u64)>, i: int)
    requires
        unique_keys(s),
        0 <= i < s.len(),
    ensures
        map_of(s).contains_key(s[i].0@),
        map_of(s)[s[i].0@] == s[i].1,
    decreases s.len(),
{
    if i == s.len() - 1 {
    } else {
        assert(unique_keys(s.drop_last()));
        assert(s.drop_last()[i] == s[i]);
        lemma_map_of_present(s.drop_last(), i);
        assert(s.last().0@ != s[i].0@);
    }
}

proof fn lemma_map_of_update(s: Seq<(String, u64)>, i: int, p: (String, u64))
    requires
        unique_keys(s),
        0 <= i < s.len(),
        p.0@ == s[i].0@,
    ensures
        map_of(s.update(i, p)) == map_of(s).insert(p.0@, p.1),
    decreases s.len(),
{
    let t = s.update(i, p);
    if i == s.len() - 1 {
        assert(t.drop_last() =~= s.drop_last());
        assert(t.last() == p);
        assert(map_of(s.drop_last()).insert(p.0@, p.1) =~= map_of(s).insert(p.0@, p.1));
    } else {
        assert(t.drop_last() =~= s.drop_last().update(i, p));
        assert(t.last() == s.last());
        assert(unique_keys(s.drop_last()));
        assert(s.drop_last()[i] == s[i]);
        lemma_map_of_update(s.drop_last(), i, p);
        // The two pending inserts commute: uniqueness separates the keys.
        assert(s.last().0@ != p.0@);
        assert(map_of(s.drop_last()).insert(p.0@, p.1).insert(s.last().0@, s.last().1)
            =~= map_of(s).insert(p.0@, p.1));
    }
}

/// The bulk loader never overwrites: a key that is already bound keeps its
/// value — and in particular a fresher stream write — through any bulk merge.
pub proof fn lemma_bulk_merge_preserves_existing(
    m: Map<Seq<char>, u64>,
    entries: Seq<(Seq<char>, u64)>,
    k: Seq<char>,
)
    requires
        m.contains_key(k),
    ensures
        bulk_merge(m, entries).contains_key(k),
        bulk_merge(m, entries)[k] == m[k],
    decreases entries.len(),
{
    if entries.len() > 0 {
        lemma_bulk_merge_preserves_existing(m, entries.drop_last(), k);
    }
}

/// A bulk merge binds no key that it was not given and that was absent before.
pub(crate) proof fn lemma_bulk_merge_untouched(
    m: Map<Seq<char>, u64>,
    entries: Seq<(Seq<char>, u64)>,
    k: Seq<char>,
)
    requires
        !m.contains_key(k),
        forall|i: int| 0 <= i < entries.len() ==> entries[i].0 != k,
    ensures
        !bulk_merge(m, entries).contains_key(k),
    decreases entries.len(),
{
    if entries.len() > 0 {
        assert(forall|i: int|
            0 <= i < entries.drop_last().len() ==> entries.drop_last()[i].0 != k);
        lemma_bulk_merge_untouched(m, entries.drop_last(), k);
    }
}

/// A key that was absent before the bulk merge comes out bound to the value
/// of its first occurrence among the fetched entries.
pub(crate) proof fn lemma_bulk_merge_fills_gap(
    m: Map<Seq<char>, u64>,
    entries: Seq<(Seq<char>, u64)>,
    k: Seq<char>,
    j: int,
)
    requires
        !m.contains_key(k),
        0 <= j < entries.len(),
        entries[j].0 == k,
        forall|l: int| 0 <= l < j ==> entries[l].0 != k,
    ensures
        bulk_merge(m, entries).contains_key(k),
        bulk_merge(m, entries)[k] == entries[j].1,
    decreases entries.len(),
{
    if j == entries.len() - 1 {
        assert(forall|i: int|
            0 <= i < entries.drop_last().len() ==> entries.drop_last()[i].0 != k);
        lemma_bulk_merge_untouched(m, entries.drop_last(), k);
    } else {
        assert(entries.drop_last()[j] == entries[j]);
        lemma_bulk_merge_fills_gap(m, entries.drop_last(), k, j);
    }
}

/// The shared cache store: the latest known value per key.
///
/// Its abstract state (`self@`) is a `Map<Seq<char>, u64>`; every operation
/// is specified as a transformation of that map.
pub struct StreamCache {
    entries: Vec<(String, u64)>,
}

impl View for StreamCache {
    type V = Map<Seq<char>, u64>;

    closed spec fn view(&self) -> Map<Seq<char>, u64> {
        map_of(self.entries@)
    }
}

impl StreamCache {
    #[verifier::type_invariant]
    spec fn wf(self) -> bool {
        unique_keys(self.entries@)
    }

    /// A fresh store holds nothing: every lookup misses until a producer
    /// has written.
    pub fn new() -> (cache: Self)
        ensures
            cache@ == Map::<Seq<char>, u64>::empty(),
    {
        StreamCache { entries: Vec::new() }
    }

    /// Synchronous point lookup: the value most recently made visible for
    /// `key`, or absence (which is not an error) if no producer has touched
    /// the key yet.
    pub fn get(&self, key: &str) -> (result: Option<u64>)
        ensures
            result == (if self@.contains_key(key@) {
                Some(self@[key@])
            } else {
                None::<u64>
            }),
    {
        proof {
            use_type_invariant(&*self);
        }
        let wanted: String = key.to_owned();
        let idx: usize = index_of(&self.entries, &wanted);
        if idx < self.entries.len() {
            proof {
                lemma_map_of_present(self.entries@, idx as int);
            }
            Some(self.entries[idx].1)
        } else {
            proof {
                lemma_map_of_absent(self.entries@, key@);
            }
            None
        }
    }

    /// The stream merger's write: unconditionally insert or overwrite the
    /// binding for `key`. The stream is authoritative for keys it touches.
    pub fn apply_update(&mut self, key: String, value: u64)
        ensures
            final(self)@ == old(self)@.insert(key@, value),
    {
        proof {
            use_type_invariant(&*self);
        }
        let idx: usize = index_of(&self.entries, &key);
        let found: bool = idx < self.entries.len();
        let mut entries: Vec<(String, u64)> = Vec::new();
        std::mem::swap(&mut entries, &mut self.entries);
        let ghost before = entries@;
        if found {
            proof {
                lemma_map_of_update(before, idx as int, (key, value));
            }
            entries.set(idx, (key, value));
            assert forall|a: int, b: int|
                0 <= a < b < entries@.len() implies entries@[a].0@ != entries@[b].0@ by {
                assert(before[a].0@ != before[b].0@);
            }
        } else {
            entries.push((key, value));
            assert(entries@.drop_last() =~= before);
            assert forall|a: int, b: int|
                0 <= a < b < entries@.len() implies entries@[a].0@ != entries@[b].0@ by {
                if b < before.len() {
                    assert(before[a].0@ != before[b].0@);
                } else {
                    assert(before[a].0@ != key@);
                }
            }
        }
        self.entries = entries;
    }

    /// One entry of the bulk loader's merge: bind `key` to `value` only if
    /// the store does not know the key yet; an existing binding is left
    /// untouched.
    pub fn insert_if_absent(&mut self, key: String, value: u64)
        ensures
            final(self)@ == (if old(self)@.contains_key(key@) {
                old(self)@
            } else {
                old(self)@.insert(key@, value)
            }),
    {
        proof {
            use_type_invariant(&*self);
        }
        let idx: usize = index_of(&self.entries, &key);
        if idx < self.entries.len() {
            proof {
                lemma_map_of_present(self.entries@, idx as int);
            }
        } else {
            proof {
                lemma_map_of_absent(self.entries@, key@);
            }
            let mut entries: Vec<(String, u64)> = Vec::new();
            std::mem::swap(&mut entries, &mut self.entries);
            let ghost before = entries@;
            entries.push((key, value));
            assert(entries@.drop_last() =~= before);
            assert forall|a: int, b: int|
                0 <= a < b < entries@.len() implies entries@[a].0@ != entries@[b].0@ by {
                if b < before.len() {
                    assert(before[a].0@ != before[b].0@);
                } else {
                    assert(before[a].0@ != key@);
                }
            }
            self.entries = entries;
        }
    }

    /// The bulk loader's write: walk the fetched snapshot in order and seed
    /// each key that is still absent, deferring to anything fresher that is
    /// already in the store.
    pub fn apply_bulk(&mut self, entries: Vec<(String, u64)>)
        ensures
            final(self)@ == bulk_merge(old(self)@, entries.deep_view()),
    {
        let ghost fetched = entries.deep_view();
        let n: usize = entries.len();
        let mut i: usize = 0;
        while i < n
            invariant
                n == entries@.len(),
                fetched == entries.deep_view(),
                0 <= i <= n,
                self@ == bulk_merge(old(self)@, fetched.take(i as int)),
            decreases n - i,
        {
            let key: String = entries[i].0.clone();
            let value: u64 = entries[i].1;
            proof {
                assert(fetched[i as int] == (entries@[i as int].0@, entries@[i as int].1));
                assert(fetched.take(i + 1).drop_last() =~= fetched.take(i as int));
                assert(fetched.take(i + 1).last() == fetched[i as int]);
            }
            self.insert_if_absent(key, value);
            i += 1;
        }
        proof {
            assert(fetched.take(n as int) =~= fetched);
        }
    }
}

/// The position of `key` among `entries`, or `entries.len()` if it holds
/// no entry with that key.
fn index_of(entries: &Vec<(String, u64)>, key: &String) -> (idx: usize)
    ensures
        idx <= entries@.len(),
        idx < entries@.len() ==> entries@[idx as int].0@ == key@,
        forall|j: int| 0 <= j < idx ==> entries@[j].0@ != key@,
{
    let n: usize = entries.len();
    let mut i: usize = 0;
    while i < n
        invariant
            n == entries@.len(),
            0 <= i <= n,
            forall|j: int| 0 <= j < i ==> entries@[j].0@ != key@,
        decreases n - i,
    {
        if entries[i].0 == *key {
            return i;
        }
        i += 1;
    }
    n
}

}  // verus!
