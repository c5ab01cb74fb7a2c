//! One sorted table of the store: byte keys, kept in strictly ascending
//! bytewise order, each mapped to a byte value.
//!
//! The table is the engine model that environments and transactions build
//! on.  Its abstract view is the sequence of `(key, value)` pairs in key
//! order; every operation states exactly how it reads or rewrites that
//! sequence.

use vstd::prelude::*;

use crate::lex::{
    compare_bytes, lemma_lex_connex, lemma_lex_irreflexive, lemma_lex_transitive, lex_lt,
    KeyOrder,
};

verus! {

/// The abstract content of a table: `(key, value)` pairs in key order.
pub type Entries = Seq<(Seq<u8>, Seq<u8>)>;

/// The keys are strictly ascending in bytewise order (so also unique).
pub open spec fn entries_sorted(s: Entries) -> bool {
    forall|i: int, j: int| 0 <= i < j < s.len() ==> lex_lt(#[trigger] s[i].0, #[trigger] s[j].0)
}

/// Whether some entry carries `k`.
pub open spec fn contains_key(s: Entries, k: Seq<u8>) -> bool {
    exists|i: int| 0 <= i < s.len() && (#[trigger] s[i]).0 == k
}

/// The position of the entry carrying `k`, when one does.
pub open spec fn index_of_key(s: Entries, k: Seq<u8>) -> int {
    choose|i: int| 0 <= i < s.len() && (#[trigger] s[i]).0 == k
}

/// The value stored under `k`, if any.
pub open spec fn lookup(s: Entries, k: Seq<u8>) -> Option<Seq<u8>> {
    if contains_key(s, k) {
        Some(s[index_of_key(s, k)].1)
    } else {
        None
    }
}

/// The number of leading entries whose key comes before `k`: in a sorted
/// table, the position of the first entry with key greater than or equal
/// to `k`.
pub open spec fn seek_index(s: Entries, k: Seq<u8>) -> int
    decreases s.len(),
{
    if s.len() == 0 {
        0
    } else if lex_lt(s[0].0, k) {
        1 + seek_index(s.drop_first(), k)
    } else {
        0
    }
}

/// The table after `k` is bound to `v`: an existing entry is overwritten
/// in place, a new one is inserted at its sorted position.
pub open spec fn spec_insert(s: Entries, k: Seq<u8>, v: Seq<u8>) -> Entries {
    if contains_key(s, k) {
        s.update(index_of_key(s, k), (k, v))
    } else {
        s.insert(seek_index(s, k), (k, v))
    }
}

/// The table after the entry carrying `k`, if any, is removed.
pub open spec fn spec_remove(s: Entries, k: Seq<u8>) -> Entries {
    if contains_key(s, k) {
        s.remove(index_of_key(s, k))
    } else {
        s
    }
}

/// `seek_index` stays in bounds, all entries before it have keys below
/// `k`, and the entry at it (when any) does not.
pub proof fn lemma_seek_index_bounds(s: Entries, k: Seq<u8>)
    ensures
        0 <= seek_index(s, k) <= s.len(),
        forall|j: int| 0 <= j < seek_index(s, k) ==> lex_lt(#[trigger] s[j].0, k),
        seek_index(s, k) < s.len() ==> !lex_lt(s[seek_index(s, k)].0, k),
    decreases s.len(),
{
    if s.len() > 0 && lex_lt(s[0].0, k) {
        lemma_seek_index_bounds(s.drop_first(), k);
        assert(forall|j: int|
            0 < j < seek_index(s, k) ==> (#[trigger] s[j]).0 == s.drop_first()[j - 1].0);
    }
}

/// A scan that stopped at the first key not below `k` computed
/// `seek_index`.
pub proof fn lemma_seek_index_characterization(s: Entries, k: Seq<u8>, i: int)
    requires
        0 <= i <= s.len(),
        forall|j: int| 0 <= j < i ==> lex_lt(#[trigger] s[j].0, k),
        i < s.len() ==> !lex_lt(s[i].0, k),
    ensures
        seek_index(s, k) == i,
    decreases s.len(),
{
    if i == 0 {
    } else {
        assert(lex_lt(s[0].0, k));
        let t = s.drop_first();
        assert(forall|j: int| 0 <= j < i - 1 ==> (#[trigger] t[j]).0 == s[j + 1].0);
        lemma_seek_index_characterization(t, k, i - 1);
    }
}

/// In a sorted table a key occurs in at most one entry.
pub proof fn lemma_sorted_key_unique(s: Entries, i: int, j: int)
    requires
        entries_sorted(s),
        0 <= i < s.len(),
        0 <= j < s.len(),
        s[i].0 == s[j].0,
    ensures
        i == j,
{
    if i < j {
        lemma_lex_irreflexive(s[i].0);
    }
    if j < i {
        lemma_lex_irreflexive(s[i].0);
    }
}

/// In a sorted table, seeking a present key lands exactly on its entry.
pub proof fn lemma_seek_finds(s: Entries, k: Seq<u8>)
    requires
        entries_sorted(s),
        contains_key(s, k),
    ensures
        seek_index(s, k) < s.len(),
        s[seek_index(s, k)].0 == k,
        index_of_key(s, k) == seek_index(s, k),
    decreases s.len(),
{
    let w = index_of_key(s, k);
    let p = seek_index(s, k);
    lemma_seek_index_bounds(s, k);
    lemma_lex_irreflexive(k);
    assert(w >= p);
    if p < s.len() && w > p {
        assert(lex_lt(s[p].0, s[w].0));
        lemma_lex_connex(s[p].0, k);
        lemma_lex_transitive(k, s[p].0, s[w].0);
        lemma_lex_irreflexive(k);
        assert(false);
    }
    lemma_sorted_key_unique(s, w, p);
}

/// In a sorted table, seeking an absent key lands where no entry carries
/// it, and inserting there keeps the table sorted.
pub proof fn lemma_insert_sorted(s: Entries, k: Seq<u8>, v: Seq<u8>)
    requires
        entries_sorted(s),
        !contains_key(s, k),
    ensures
        entries_sorted(s.insert(seek_index(s, k), (k, v))),
{
    let p = seek_index(s, k);
    lemma_seek_index_bounds(s, k);
    let t = s.insert(p, (k, v));
    assert forall|i: int, j: int| 0 <= i < j < t.len() implies lex_lt(t[i].0, t[j].0) by {
        if p < s.len() {
            assert(s[p].0 != k);
            lemma_lex_connex(s[p].0, k);
        }
        if i < p && j > p {
            assert(t[i] == s[i] && t[j] == s[j - 1]);
        }
        if i == p && j > p {
            // k comes before the entry that was at p, and so before all later ones.
            assert(t[j] == s[j - 1]);
            if j - 1 > p {
                lemma_lex_transitive(k, s[p].0, s[j - 1].0);
            }
        }
        if j == p && i < p {
            assert(t[i] == s[i]);
        }
    }
}

/// Removing an entry keeps the table sorted.
pub proof fn lemma_remove_sorted(s: Entries, p: int)
    requires
        entries_sorted(s),
        0 <= p < s.len(),
    ensures
        entries_sorted(s.remove(p)),
{
    let t = s.remove(p);
    assert forall|i: int, j: int| 0 <= i < j < t.len() implies lex_lt(t[i].0, t[j].0) by {
        let si = if i < p { i } else { i + 1 };
        let sj = if j < p { j } else { j + 1 };
        assert(t[i] == s[si] && t[j] == s[sj]);
    }
}

/// One sorted table of the store.
pub struct Table {
    entries: Vec<(Vec<u8>, Vec<u8>)>,
}

impl View for Table {
    type V = Entries;

    closed spec fn view(&self) -> Entries {
        Seq::new(self.entries@.len(), |i: int| (self.entries@[i].0@, self.entries@[i].1@))
    }
}

impl Table {
    /// The keys are strictly ascending.
    pub open spec fn wf(&self) -> bool {
        entries_sorted(self@)
    }

    /// An empty table.
    pub fn new() -> (t: Table)
        ensures
            t.wf(),
            t@ == Seq::<(Seq<u8>, Seq<u8>)>::empty(),
    {
        let t = Table { entries: Vec::new() };
        proof {
            assert(t@ =~= Seq::<(Seq<u8>, Seq<u8>)>::empty());
        }
        t
    }

    /// How many entries the table holds.
    pub fn len(&self) -> (n: usize)
        ensures
            n == self@.len(),
    {
        self.entries.len()
    }

    /// The entry at position `i`, borrowed.
    pub fn entry_at<'a>(&'a self, i: usize) -> (kv: (&'a Vec<u8>, &'a Vec<u8>))
        requires
            i < self@.len(),
        ensures
            kv.0@ == self@[i as int].0,
            kv.1@ == self@[i as int].1,
    {
        let e = &self.entries[i];
        (&e.0, &e.1)
    }

    /// The position of the first entry with key greater than or equal to
    /// `key`; the table length when there is none.
    pub fn seek_ge_index(&self, key: &[u8]) -> (i: usize)
        ensures
            i == seek_index(self@, key@),
            i <= self@.len(),
    {
        let n = self.entries.len();
        let mut i: usize = 0;
        while i < n
            invariant
                0 <= i <= n,
                n == self@.len(),
                forall|j: int| 0 <= j < i ==> lex_lt(#[trigger] self@[j].0, key@),
            decreases n - i,
        {
            let e = &self.entries[i];
            match compare_bytes(e.0.as_slice(), key) {
                KeyOrder::Less => {
                    i += 1;
                },
                _ => {
                    proof {
                        lemma_seek_index_characterization(self@, key@, i as int);
                    }
                    return i;
                },
            }
        }
        proof {
            lemma_seek_index_characterization(self@, key@, n as int);
        }
        n
    }

    /// The value stored under `key`, borrowed, or `None` if absent.
    pub fn get<'a>(&'a self, key: &[u8]) -> (r: Option<&'a Vec<u8>>)
        requires
            self.wf(),
        ensures
            r matches Some(v) ==> lookup(self@, key@) == Some(v@),
            r is None ==> lookup(self@, key@) is None,
    {
        let i = self.seek_ge_index(key);
        if i < self.entries.len() {
            let e = &self.entries[i];
            match compare_bytes(e.0.as_slice(), key) {
                KeyOrder::Equal => {
                    proof {
                        assert(self@[i as int].0 == key@);
                        assert(contains_key(self@, key@));
                        lemma_seek_finds(self@, key@);
                    }
                    Some(&e.1)
                },
                _ => {
                    proof {
                        if contains_key(self@, key@) {
                            lemma_seek_finds(self@, key@);
                        }
                    }
                    None
                },
            }
        } else {
            proof {
                if contains_key(self@, key@) {
                    lemma_seek_finds(self@, key@);
                }
            }
            None
        }
    }

    /// Binds `key` to `value`, overwriting any existing binding.
    pub fn insert(&mut self, key: Vec<u8>, value: Vec<u8>)
        requires
            old(self).wf(),
        ensures
            final(self).wf(),
            final(self)@ == spec_insert(old(self)@, key@, value@),
    {
        let ghost s = self@;
        let i = self.seek_ge_index(key.as_slice());
        let mut found = false;
        if i < self.entries.len() {
            let e = &self.entries[i];
            match compare_bytes(e.0.as_slice(), key.as_slice()) {
                KeyOrder::Equal => {
                    proof {
                        assert(s[i as int].0 == key@);
                        assert(contains_key(s, key@));
                    }
                    found = true;
                },
                _ => {},
            }
        }
        if found {
            proof {
                assert(contains_key(s, key@));
                lemma_seek_finds(s, key@);
            }
            self.entries[i] = (key, value);
            proof {
                assert(final(self)@ =~= spec_insert(s, key@, value@));
                assert forall|a: int, b: int|
                    0 <= a < b < final(self)@.len() implies lex_lt(
                    final(self)@[a].0,
                    final(self)@[b].0,
                ) by {
                    assert(final(self)@[a].0 == s[a].0 && final(self)@[b].0 == s[b].0);
                }
            }
        } else {
            proof {
                lemma_seek_index_bounds(s, key@);
                if contains_key(s, key@) {
                    lemma_seek_finds(s, key@);
                    assert(false);
                }
                lemma_insert_sorted(s, key@, value@);
            }
            self.entries.insert(i, (key, value));
            proof {
                assert(final(self)@ =~= s.insert(i as int, (key@, value@)));
            }
        }
    }

    /// Removes the entry carrying `key`; reports whether one existed.
    pub fn remove(&mut self, key: &[u8]) -> (r: bool)
        requires
            old(self).wf(),
        ensures
            final(self).wf(),
            final(self)@ == spec_remove(old(self)@, key@),
            r == contains_key(old(self)@, key@),
    {
        let ghost s = self@;
        let i = self.seek_ge_index(key);
        let mut found = false;
        if i < self.entries.len() {
            let e = &self.entries[i];
            match compare_bytes(e.0.as_slice(), key) {
                KeyOrder::Equal => {
                    proof {
                        assert(s[i as int].0 == key@);
                        assert(contains_key(s, key@));
                    }
                    found = true;
                },
                _ => {},
            }
        }
        proof {
            if contains_key(s, key@) {
                lemma_seek_finds(s, key@);
            }
        }
        if found {
            proof {
                assert(contains_key(s, key@));
                lemma_remove_sorted(s, i as int);
            }
            self.entries.remove(i);
            proof {
                assert(final(self)@ =~= s.remove(i as int));
            }
            true
        } else {
            false
        }
    }

    /// Removes every entry.
    pub fn clear(&mut self)
        ensures
            final(self).wf(),
            final(self)@ == Seq::<(Seq<u8>, Seq<u8>)>::empty(),
    {
        self.entries.clear();
        proof {
            assert(final(self)@ =~= Seq::<(Seq<u8>, Seq<u8>)>::empty());
        }
    }

    /// Appends an entry whose key must come after every present key; used
    /// by the sorted bulk-loading path.
    pub fn push_last(&mut self, key: Vec<u8>, value: Vec<u8>)
        requires
            old(self).wf(),
            old(self)@.len() > 0 ==> lex_lt(old(self)@.last().0, key@),
        ensures
            final(self).wf(),
            final(self)@ == old(self)@.push((key@, value@)),
    {
        let ghost s = self@;
        self.entries.push((key, value));
        proof {
            assert(final(self)@ =~= s.push((key@, value@)));
            assert forall|a: int, b: int|
                0 <= a < b < final(self)@.len() implies lex_lt(
                final(self)@[a].0,
                final(self)@[b].0,
            ) by {
                if b < s.len() {
                } else {
                    assert(final(self)@[b].0 == key@);
                    if a < s.len() - 1 {
                        assert(lex_lt(s[a].0, s[s.len() - 1].0));
                        lemma_lex_transitive(s[a].0, s[s.len() - 1].0, key@);
                    }
                }
            }
        }
    }

    /// The whole table, cloned entry by entry; transactions use it to take
    /// snapshots.
    pub fn snapshot(&self) -> (t: Table)
        ensures
            t@ == self@,
            self.wf() ==> t.wf(),
    {
        let mut entries: Vec<(Vec<u8>, Vec<u8>)> = Vec::new();
        let n = self.entries.len();
        let mut i: usize = 0;
        while i < n
            invariant
                0 <= i <= n,
                n == self@.len(),
                entries@.len() == i,
                forall|j: int|
                    0 <= j < i ==> (#[trigger] entries@[j]).0@ == self@[j].0 && entries@[j].1@
                        == self@[j].1,
            decreases n - i,
        {
            let e = &self.entries[i];
            let k = copy_bytes(&e.0);
            let v = copy_bytes(&e.1);
            entries.push((k, v));
            i += 1;
        }
        let t = Table { entries };
        proof {
            assert(t@ =~= self@);
        }
        t
    }
}

/// The position of the first entry whose key is strictly greater than
/// `k`; the table length when there is none.
pub open spec fn above_index(s: Entries, k: Seq<u8>) -> int {
    if contains_key(s, k) {
        index_of_key(s, k) + 1
    } else {
        seek_index(s, k)
    }
}

/// The position of the last entry whose key is strictly less than `k`;
/// `-1` when there is none.
pub open spec fn below_index(s: Entries, k: Seq<u8>) -> int {
    seek_index(s, k) - 1
}

impl Table {
    /// The first entry with key strictly greater than `key`, borrowed.
    pub fn above<'a>(&'a self, key: &[u8]) -> (r: Option<(&'a Vec<u8>, &'a Vec<u8>)>)
        requires
            self.wf(),
        ensures
            r is Some <==> above_index(self@, key@) < self@.len(),
            r matches Some(kv) ==> kv.0@ == self@[above_index(self@, key@)].0 && kv.1@
                == self@[above_index(self@, key@)].1,
    {
        let i = self.seek_ge_index(key);
        proof {
            lemma_seek_index_bounds(self@, key@);
            if contains_key(self@, key@) {
                lemma_seek_finds(self@, key@);
            } else {
                if i < self@.len() {
                    assert(self@[i as int].0 != key@);
                }
            }
        }
        if i < self.entries.len() {
            let e = &self.entries[i];
            match compare_bytes(e.0.as_slice(), key) {
                KeyOrder::Equal => {
                    proof {
                        assert(self@[i as int].0 == key@);
                        assert(contains_key(self@, key@));
                    }
                    if i + 1 < self.entries.len() {
                        Some(self.entry_at(i + 1))
                    } else {
                        None
                    }
                },
                _ => {
                    proof {
                        assert(self@[i as int].0 != key@);
                    }
                    Some(self.entry_at(i))
                },
            }
        } else {
            None
        }
    }

    /// The last entry with key strictly less than `key`, borrowed.
    pub fn below<'a>(&'a self, key: &[u8]) -> (r: Option<(&'a Vec<u8>, &'a Vec<u8>)>)
        requires
            self.wf(),
        ensures
            r is Some <==> below_index(self@, key@) >= 0,
            r matches Some(kv) ==> kv.0@ == self@[below_index(self@, key@)].0 && kv.1@
                == self@[below_index(self@, key@)].1,
    {
        let i = self.seek_ge_index(key);
        proof {
            lemma_seek_index_bounds(self@, key@);
        }
        if i == 0 {
            None
        } else {
            Some(self.entry_at(i - 1))
        }
    }
}

/// The abstract contents of a sequence of tables, one entry sequence per
/// table.
pub open spec fn tables_view_of(ts: Seq<Table>) -> Seq<Entries> {
    Seq::new(ts.len(), |i: int| ts[i]@)
}

/// A deep copy of every table: how transactions take their snapshots.
pub(crate) fn snapshot_all(ts: &Vec<Table>) -> (r: Vec<Table>)
    ensures
        r@.len() == ts@.len(),
        tables_view_of(r@) == tables_view_of(ts@),
{
    let mut r: Vec<Table> = Vec::new();
    let n = ts.len();
    let mut i: usize = 0;
    while i < n
        invariant
            0 <= i <= n,
            n == ts@.len(),
            r@.len() == i,
            forall|j: int| 0 <= j < i ==> (#[trigger] r@[j])@ == ts@[j]@,
        decreases n - i,
    {
        r.push(ts[i].snapshot());
        i += 1;
    }
    proof {
        assert(tables_view_of(r@) =~= tables_view_of(ts@));
    }
    r
}

/// A fresh owned copy of a byte vector.
pub(crate) fn copy_bytes(v: &Vec<u8>) -> (r: Vec<u8>)
    ensures
        r@ == v@,
{
    let mut r: Vec<u8> = Vec::new();
    let n = v.len();
    let mut i: usize = 0;
    while i < n
        invariant
            0 <= i <= n,
            n == v@.len(),
            r@ =~= v@.take(i as int),
        decreases n - i,
    {
        r.push(v[i]);
        proof {
            assert(r@ =~= v@.take(i as int + 1));
        }
        i += 1;
    }
    proof {
        assert(v@.take(n as int) =~= v@);
    }
    r
}

} // verus!
