//! The identifier allocator: gap discovery over an integer-keyed table.
//!
//! [`DiscoverIds`] scans a table whose keys are 32-bit integers stored
//! big-endian (so the table's byte order is their numeric order) and
//! yields the smallest integers not present as keys, strictly
//! ascending, without a free list: first the gaps between stored keys,
//! then everything above the largest key, up to but excluding
//! `u32::MAX`.  [`IdsMap`] combines the scan with a name-to-identifier
//! table so that known names keep their identifier and only unknown
//! names consume fresh ones.

use vstd::prelude::*;

use crate::fixed::{
    lemma_be32_lex_to_lt, spec_u32_from_be_bytes, spec_u32_to_be_bytes, BEU32, FixedBytes,
};
use crate::database::Database;
use crate::table::{entries_sorted, lookup, Entries};
use crate::traits::BytesEncode;
use crate::types::{OwnedType, Str};
use crate::txn::{RoTxn, RwTxn};
use crate::{CodecError, Error, MdbError};

verus! {

/// The integer keys of an integer-keyed table, in table order.
pub open spec fn keys_of(tbl: Entries) -> Seq<u32> {
    Seq::new(tbl.len(), |i: int| spec_u32_from_be_bytes(tbl[i].0))
}

/// Every key of the table is four bytes wide.
pub open spec fn keys_u32_wf(tbl: Entries) -> bool {
    forall|i: int| 0 <= i < tbl.len() ==> (#[trigger] tbl[i].0).len() == 4
}

/// Whether `x` occurs in `keys`.
pub open spec fn id_used(keys: Seq<u32>, x: u32) -> bool {
    exists|i: int| 0 <= i < keys.len() && keys[i] == x
}

/// The smallest identifier not below `a` that is unused and below
/// `u32::MAX`, or `None` when there is none: what the allocator owes
/// next when everything below `a` is already dealt with.
pub open spec fn next_free_above(keys: Seq<u32>, a: int) -> Option<u32>
    decreases u32::MAX as int - a
        when a <= u32::MAX as int
{
    if a < 0 || a >= u32::MAX as int {
        Option::None
    } else if !id_used(keys, a as u32) {
        Option::Some(a as u32)
    } else {
        next_free_above(keys, a + 1)
    }
}

/// What the allocator owes is really free, really the smallest, and at
/// least the bound: an emitted identifier is not a key of the table, no
/// unused identifier below it was skipped, and exhaustion is reported
/// only when nothing below `u32::MAX` is left.
pub proof fn lemma_next_free_above_correct(keys: Seq<u32>, a: int)
    requires
        0 <= a <= u32::MAX as int,
    ensures
        ({
            match next_free_above(keys, a) {
                Option::Some(id) => {
                    &&& !id_used(keys, id)
                    &&& a <= id < u32::MAX
                    &&& forall|v: int| a <= v < id ==> id_used(keys, (#[trigger] (v as u32)))
                },
                Option::None => forall|v: int|
                    a <= v < u32::MAX as int ==> id_used(keys, (#[trigger] (v as u32))),
            }
        }),
    decreases u32::MAX as int - a,
{
    if a < u32::MAX as int && id_used(keys, a as u32) {
        lemma_next_free_above_correct(keys, a + 1);
        match next_free_above(keys, a) {
            Option::Some(id) => {
                assert forall|v: int| a <= v < id implies id_used(
                    keys,
                    (#[trigger] (v as u32)),
                ) by {
                    if v == a {
                        assert(id_used(keys, a as u32));
                    }
                }
            },
            Option::None => {
                assert forall|v: int| a <= v < u32::MAX as int implies id_used(
                    keys,
                    (#[trigger] (v as u32)),
                ) by {
                    if v == a {
                        assert(id_used(keys, a as u32));
                    }
                }
            },
        }
    }
}

/// When everything in `[a, i)` is used and `i` is free, `i` is the next
/// free identifier above `a`.
proof fn lemma_next_free_found(keys: Seq<u32>, a: int, i: int)
    requires
        0 <= a <= i < u32::MAX as int,
        forall|v: int| a <= v < i ==> id_used(keys, (#[trigger] (v as u32))),
        !id_used(keys, i as u32),
    ensures
        next_free_above(keys, a) == Option::Some(i as u32),
    decreases i - a,
{
    if a < i {
        lemma_next_free_found(keys, a + 1, i);
    }
}

/// When everything in `[a, u32::MAX)` is used, no identifier is left.
proof fn lemma_next_free_none(keys: Seq<u32>, a: int)
    requires
        0 <= a <= u32::MAX as int,
        forall|v: int| a <= v < u32::MAX as int ==> id_used(keys, (#[trigger] (v as u32))),
    ensures
        next_free_above(keys, a) is None,
    decreases u32::MAX as int - a,
{
    if a < u32::MAX as int {
        lemma_next_free_none(keys, a + 1);
    }
}

/// In a sorted table of four-byte keys the integer keys are strictly
/// ascending.
pub proof fn lemma_keys_ascending(tbl: Entries)
    requires
        entries_sorted(tbl),
        keys_u32_wf(tbl),
    ensures
        forall|i: int, j: int|
            0 <= i < j < tbl.len() ==> #[trigger] keys_of(tbl)[i] < #[trigger] keys_of(tbl)[j],
{
    assert forall|i: int, j: int|
        0 <= i < j < tbl.len() implies #[trigger] keys_of(tbl)[i] < #[trigger] keys_of(
        tbl,
    )[j] by {
        lemma_be32_lex_to_lt(tbl[i].0, tbl[j].0);
    }
}

/// An integer strictly between two consecutive keys of an ascending key
/// sequence is unused.
proof fn lemma_between_unused(keys: Seq<u32>, j: int, v: u32)
    requires
        forall|a: int, b: int| 0 <= a < b < keys.len() ==> #[trigger] keys[a] < #[trigger] keys[b],
        1 <= j < keys.len(),
        keys[j - 1] < v < keys[j],
    ensures
        !id_used(keys, v),
{
    if id_used(keys, v) {
        let w = choose|w: int| 0 <= w < keys.len() && keys[w] == v;
        if w < j {
            assert(w <= j - 1);
            if w < j - 1 {
                assert(keys[w] < keys[j - 1]);
            }
        } else {
            if w > j {
                assert(keys[j] < keys[w]);
            }
        }
    }
}

/// Nothing above the last key of an ascending key sequence is used.
proof fn lemma_above_last_unused(keys: Seq<u32>, v: u32)
    requires
        forall|a: int, b: int| 0 <= a < b < keys.len() ==> #[trigger] keys[a] < #[trigger] keys[b],
        keys.len() > 0,
        keys[keys.len() - 1] < v,
    ensures
        !id_used(keys, v),
{
    if id_used(keys, v) {
        let w = choose|w: int| 0 <= w < keys.len() && keys[w] == v;
        if w < keys.len() - 1 {
            assert(keys[w] < keys[keys.len() - 1]);
        }
    }
}

/// Nothing below the first key of an ascending key sequence is used.
proof fn lemma_below_first_unused(keys: Seq<u32>, v: u32)
    requires
        forall|a: int, b: int| 0 <= a < b < keys.len() ==> #[trigger] keys[a] < #[trigger] keys[b],
        keys.len() > 0,
        v < keys[0],
    ensures
        !id_used(keys, v),
{
    if id_used(keys, v) {
        let w = choose|w: int| 0 <= w < keys.len() && keys[w] == v;
        if w > 0 {
            assert(keys[0] < keys[w]);
        }
    }
}

/// The gap-discovery scan: a cursor position in the identifier table
/// plus the candidate range of identifiers known to be free and not yet
/// emitted.
pub struct DiscoverIds {
    pub(crate) dbi: usize,
    pub(crate) idx: usize,
    pub(crate) range_start: u32,
    pub(crate) range_end: u32,
    pub(crate) keys: Ghost<Seq<u32>>,
}

impl DiscoverIds {
    /// The table the scan runs over.
    pub closed spec fn dbi_spec(&self) -> int {
        self.dbi as int
    }

    /// Everything below this bound has been emitted or is a used key;
    /// the next identifier the scan owes is `next_free_above` of it.
    pub closed spec fn start_spec(&self) -> int {
        self.range_start as int
    }

    /// The key sequence the scan was created over.
    pub closed spec fn keys_spec(&self) -> Seq<u32> {
        self.keys@
    }

    /// The scan state is consistent with the table `tbl`.
    pub closed spec fn wf_for(&self, tbl: Entries) -> bool {
        let keys = self.keys@;
        &&& keys == keys_of(tbl)
        &&& keys_u32_wf(tbl)
        &&& entries_sorted(tbl)
        &&& self.idx <= keys.len()
        &&& self.range_start <= self.range_end
        &&& forall|v: int|
            self.range_start <= v < self.range_end ==> !id_used(keys, (#[trigger] (v as u32)))
        &&& (self.idx == 0 ==> keys.len() == 0 && self.range_end == u32::MAX)
        &&& (self.idx >= 1 ==> (self.range_end == u32::MAX && self.idx == keys.len())
            || self.range_end == keys[self.idx - 1])
    }

    /// Begins a scan over the identifier table of `dbi`, positioned so
    /// that the first emission is the smallest unused identifier.
    ///
    /// The whole table is validated up front: a key that is not four
    /// bytes wide is a decoding error.
    pub fn new(txn: &RoTxn, dbi: usize) -> (r: Result<DiscoverIds, Error>)
        requires
            txn.wf(),
        ensures
            dbi >= txn.view().len() ==> r == Err::<DiscoverIds, Error>(
                Error::Mdb(MdbError::BadDbi),
            ),
            dbi < txn.view().len() ==> ({
                let tbl = txn.view()[dbi as int];
                &&& !keys_u32_wf(tbl) ==> r == Err::<DiscoverIds, Error>(
                    Error::Decoding(CodecError::SizeMismatch),
                )
                &&& keys_u32_wf(tbl) ==> (r matches Ok(d) && d.dbi_spec() == dbi && d.wf_for(tbl)
                    && d.start_spec() == 0)
            }),
    {
        if dbi >= txn.num_tables() {
            return Err(Error::Mdb(MdbError::BadDbi));
        }
        let table = txn.table_ref(dbi);
        let n = table.len();
        let mut i: usize = 0;
        while i < n
            invariant
                0 <= i <= n,
                n == table@.len(),
                table@ == txn.view()[dbi as int],
                dbi < txn.view().len(),
                forall|j: int| 0 <= j < i ==> (#[trigger] table@[j].0).len() == 4,
            decreases n - i,
        {
            let kv = table.entry_at(i);
            if kv.0.len() != 4 {
                proof {
                    assert(table@[i as int].0.len() != 4);
                    assert(!keys_u32_wf(table@));
                }
                return Err(Error::Decoding(CodecError::SizeMismatch));
            }
            i += 1;
        }
        let ghost keys = keys_of(table@);
        if n == 0 {
            Ok(DiscoverIds { dbi, idx: 0, range_start: 0, range_end: u32::MAX, keys: Ghost(keys) })
        } else {
            let kv = table.entry_at(0);
            let first = BEU32::from_bytes(kv.0.as_slice());
            proof {
                lemma_keys_ascending(table@);
                assert forall|v: int| 0 <= v < first.0 implies !id_used(
                    keys,
                    (#[trigger] (v as u32)),
                ) by {
                    lemma_below_first_unused(keys, v as u32);
                }
            }
            Ok(DiscoverIds {
                dbi,
                idx: 1,
                range_start: 0,
                range_end: first.get(),
                keys: Ghost(keys),
            })
        }
    }

    /// Emits the smallest unused identifier that was not emitted before:
    /// exactly `next_free_above` of the scan's bound.  `None` once the
    /// identifier space up to `u32::MAX` is exhausted; the exhaustion is
    /// permanent for this scan.
    pub fn next(&mut self, txn: &RoTxn) -> (r: Option<u32>)
        requires
            txn.wf(),
            old(self).dbi_spec() < txn.view().len(),
            old(self).wf_for(txn.view()[old(self).dbi_spec()]),
        ensures
            final(self).dbi_spec() == old(self).dbi_spec(),
            final(self).wf_for(txn.view()[old(self).dbi_spec()]),
            r == next_free_above(old(self).keys_spec(), old(self).start_spec()),
            final(self).keys_spec() == old(self).keys_spec(),
            r matches Some(x) ==> final(self).start_spec() == x + 1,
            r is None ==> final(self).start_spec() == u32::MAX,
    {
        let ghost keys = self.keys@;
        let ghost tbl = txn.view()[self.dbi as int];
        let table = txn.table_ref(self.dbi);
        proof {
            lemma_keys_ascending(tbl);
        }
        if self.range_start < self.range_end {
            let id = self.range_start;
            self.range_start = id + 1;
            proof {
                lemma_next_free_found(keys, id as int, id as int);
            }
            return Some(id);
        }
        if self.range_end == u32::MAX {
            proof {
                assert(self.range_start == u32::MAX);
                lemma_next_free_none(keys, u32::MAX as int);
                if 1 <= self.idx && self.idx < keys.len() {
                    assert(keys[self.idx - 1] < keys[self.idx as int]);
                }
            }
            self.range_start = u32::MAX;
            return None;
        }
        // The candidate range is exhausted and the scan stands inside the
        // table: walk the remaining keys for the next gap.
        let n = table.len();
        let ghost start0 = self.range_start as int;
        proof {
            assert(self.idx >= 1);
            assert(self.range_end == keys[self.idx - 1]);
            assert(id_used(keys, keys[self.idx - 1])) by {
                assert(keys[self.idx - 1] == keys[self.idx - 1]);
            }
            assert forall|v: int| start0 <= v <= keys[self.idx - 1] implies id_used(
                keys,
                (#[trigger] (v as u32)),
            ) by {
                assert(v == keys[self.idx - 1]);
            }
        }
        let mut j = self.idx;
        while j < n
            invariant
                txn.wf(),
                self.dbi == old(self).dbi,
                self.range_end == old(self).range_end,
                start0 == old(self).start_spec(),
                keys == old(self).keys_spec(),
                self.dbi_spec() < txn.view().len(),
                tbl == txn.view()[self.dbi_spec()],
                table@ == tbl,
                keys == keys_of(tbl),
                keys == self.keys@,
                keys_u32_wf(tbl),
                entries_sorted(tbl),
                forall|a: int, b: int|
                    0 <= a < b < keys.len() ==> #[trigger] keys[a] < #[trigger] keys[b],
                n == tbl.len(),
                1 <= j <= n,
                self.range_start as int == start0,
                start0 <= keys[j - 1] + 1,
                forall|v: int| start0 <= v <= keys[j - 1] ==> id_used(keys, (#[trigger] (v as u32))),
            decreases n - j,
        {
            let left = BEU32::from_bytes(table.entry_at(j - 1).0.as_slice()).get();
            let right = BEU32::from_bytes(table.entry_at(j).0.as_slice()).get();
            proof {
                assert(left == keys[j - 1] && right == keys[j as int]);
                assert(left < right);
            }
            if left + 1 < right {
                let id = left + 1;
                proof {
                    assert forall|v: int| id < v < right implies !id_used(
                        keys,
                        (#[trigger] (v as u32)),
                    ) by {
                        lemma_between_unused(keys, j as int, v as u32);
                    }
                    lemma_between_unused(keys, j as int, id);
                    lemma_next_free_found(keys, start0, id as int);
                }
                self.idx = j + 1;
                self.range_start = id + 1;
                self.range_end = right;
                return Some(id);
            }
            proof {
                assert(id_used(keys, right)) by {
                    assert(keys[j as int] == right);
                }
                assert forall|v: int| start0 <= v <= keys[j as int] implies id_used(
                    keys,
                    (#[trigger] (v as u32)),
                ) by {
                    if v <= keys[j - 1] {
                    } else {
                        assert(v == keys[j as int]);
                    }
                }
            }
            self.idx = j + 1;
            j = j + 1;
        }
        // The last key is reached: everything above it is free.
        let left = BEU32::from_bytes(table.entry_at(n - 1).0.as_slice()).get();
        proof {
            assert(left == keys[n - 1]);
        }
        if left == u32::MAX || left + 1 == u32::MAX {
            proof {
                assert forall|v: int| self.range_start <= v < u32::MAX implies id_used(
                    keys,
                    (#[trigger] (v as u32)),
                ) by {}
                lemma_next_free_none(keys, start0);
            }
            self.idx = n;
            self.range_start = u32::MAX;
            self.range_end = u32::MAX;
            None
        } else {
            let id = left + 1;
            proof {
                assert forall|v: int| id < v < u32::MAX implies !id_used(
                    keys,
                    (#[trigger] (v as u32)),
                ) by {
                    lemma_above_last_unused(keys, v as u32);
                }
                lemma_above_last_unused(keys, id);
                lemma_next_free_found(keys, start0, id as int);
            }
            self.idx = n;
            self.range_start = id + 1;
            self.range_end = u32::MAX;
            Some(id)
        }
    }
}

/// The byte keys a sequence of requested names is looked up under: each
/// name as its UTF-8 bytes.
pub open spec fn encoded_names(userids: Seq<String>) -> Seq<Seq<u8>> {
    Seq::new(userids.len(), |i: int| vstd::utf8::encode_utf8(userids[i]@))
}

/// What allocating identifiers for `names` owes, given the
/// name-to-identifier table `assigned`, the used identifier `keys`, and
/// the allocation bound `floor`: an already assigned name yields its
/// stored identifier, an unassigned one the next free identifier, which
/// is then consumed; a malformed stored identifier is a decoding error
/// and a depleted identifier space a hard exhaustion error.
pub open spec fn gen_ids_spec(
    names: Seq<Seq<u8>>,
    assigned: Entries,
    keys: Seq<u32>,
    floor: int,
) -> Result<Seq<u32>, Error>
    decreases names.len(),
{
    if names.len() == 0 {
        Result::Ok(Seq::empty())
    } else {
        match lookup(assigned, names[0]) {
            Option::Some(bytes) => {
                if bytes.len() == 4 {
                    match gen_ids_spec(names.drop_first(), assigned, keys, floor) {
                        Result::Ok(rest) => Result::Ok(
                            seq![spec_u32_from_be_bytes(bytes)] + rest,
                        ),
                        Result::Err(e) => Result::Err(e),
                    }
                } else {
                    Result::Err(Error::Decoding(CodecError::SizeMismatch))
                }
            },
            Option::None => {
                match next_free_above(keys, floor) {
                    Option::Some(id) => {
                        match gen_ids_spec(names.drop_first(), assigned, keys, id as int + 1) {
                            Result::Ok(rest) => Result::Ok(seq![id] + rest),
                            Result::Err(e) => Result::Err(e),
                        }
                    },
                    Option::None => Result::Err(Error::Exhausted),
                }
            },
        }
    }
}

/// A pair of tables binding identifiers to names and names to
/// identifiers, with name-aware identifier allocation on top.
pub struct IdsMap {
    /// Identifier to name, keyed by big-endian identifiers so that the
    /// table's byte order is the numeric identifier order.
    pub ids_userids: Database<OwnedType<BEU32>, Str>,
    /// Name to identifier.
    pub userids_ids: Database<Str, OwnedType<BEU32>>,
}

impl IdsMap {
    /// Hands each requested name an identifier: an already known name
    /// keeps its stored identifier, and each unknown name consumes the
    /// smallest identifier still free in the identifier table, in
    /// request order.  Nothing is written: repeated unknown names
    /// consume successive identifiers.
    pub fn generate_ids(&self, rtxn: &RoTxn, userids: &Vec<String>) -> (r: Result<Vec<u32>, Error>)
        requires
            rtxn.wf(),
            self.ids_userids.dbi_spec() < rtxn.view().len(),
            self.userids_ids.dbi_spec() < rtxn.view().len(),
        ensures
            ({
                let ids_tbl = rtxn.view()[self.ids_userids.dbi_spec()];
                let names_tbl = rtxn.view()[self.userids_ids.dbi_spec()];
                &&& !keys_u32_wf(ids_tbl) ==> r == Err::<Vec<u32>, Error>(
                    Error::Decoding(CodecError::SizeMismatch),
                )
                &&& keys_u32_wf(ids_tbl) ==> match gen_ids_spec(
                    encoded_names(userids@),
                    names_tbl,
                    keys_of(ids_tbl),
                    0,
                ) {
                    Result::Ok(ids) => r matches Ok(v) && v@ == ids,
                    Result::Err(e) => r == Err::<Vec<u32>, Error>(e),
                }
            }),
    {
        let ids_dbi = self.ids_userids.dbi();
        let names_dbi = self.userids_ids.dbi();
        let ghost ids_tbl = rtxn.view()[ids_dbi as int];
        let ghost names_tbl = rtxn.view()[names_dbi as int];
        let ghost names = encoded_names(userids@);
        let ghost keys = keys_of(ids_tbl);
        let mut available = match DiscoverIds::new(rtxn, ids_dbi) {
            Ok(d) => d,
            Err(e) => {
                return Err(e);
            },
        };
        let names_table = rtxn.table_ref(names_dbi);
        let mut out: Vec<u32> = Vec::new();
        let n = userids.len();
        let mut i: usize = 0;
        proof {
            assert(names.skip(0) =~= names);
        }
        while i < n
            invariant
                rtxn.wf(),
                n == userids@.len(),
                0 <= i <= n,
                names == encoded_names(userids@),
                ids_dbi < rtxn.view().len(),
                names_dbi < rtxn.view().len(),
                ids_dbi == self.ids_userids.dbi_spec(),
                names_dbi == self.userids_ids.dbi_spec(),
                ids_tbl == rtxn.view()[ids_dbi as int],
                names_tbl == rtxn.view()[names_dbi as int],
                names_table@ == names_tbl,
                entries_sorted(names_tbl),
                keys == keys_of(ids_tbl),
                keys_u32_wf(ids_tbl),
                available.dbi_spec() == ids_dbi,
                available.wf_for(ids_tbl),
                available.keys_spec() == keys,
                gen_ids_spec(names, names_tbl, keys, 0) == (match gen_ids_spec(
                    names.skip(i as int),
                    names_tbl,
                    keys,
                    available.start_spec(),
                ) {
                    Result::Ok(rest) => Result::Ok(out@ + rest),
                    Result::Err(e) => Result::Err(e),
                }),
            decreases n - i,
        {
            let ghost rest_names = names.skip(i as int);
            let ghost floor = available.start_spec();
            proof {
                assert(rest_names[0] == names[i as int]);
                assert(rest_names.drop_first() =~= names.skip(i as int + 1));
            }
            let name = &userids[i];
            let name_bytes = match <Str as BytesEncode>::bytes_encode(name) {
                Ok(b) => b,
                Err(e) => {
                    return Err(e);
                },
            };
            proof {
                assert(name_bytes@ == names[i as int]);
            }
            match names_table.get(name_bytes.as_slice()) {
                Some(bytes) => {
                    if bytes.len() == 4 {
                        let id = BEU32::from_bytes(bytes.as_slice()).get();
                        proof {
                            assert(lookup(names_tbl, rest_names[0]) == Option::Some(bytes@));
                            assert(id == spec_u32_from_be_bytes(bytes@));
                            let rest = gen_ids_spec(
                                names.skip(i as int + 1),
                                names_tbl,
                                keys,
                                floor,
                            );
                            assert(gen_ids_spec(rest_names, names_tbl, keys, floor) == (match rest {
                                Result::Ok(rs) => Result::<Seq<u32>, Error>::Ok(seq![id] + rs),
                                Result::Err(e) => Result::<Seq<u32>, Error>::Err(e),
                            }));
                            if rest is Ok {
                                assert(out@.push(id) =~= out@ + seq![id]);
                                assert((out@ + seq![id]) + rest->Ok_0 =~= out@ + (seq![id]
                                    + rest->Ok_0));
                            }
                        }
                        out.push(id);
                    } else {
                        proof {
                            assert(lookup(names_tbl, rest_names[0]) == Option::Some(bytes@));
                            assert(gen_ids_spec(rest_names, names_tbl, keys, floor)
                                == Result::<Seq<u32>, Error>::Err(
                                Error::Decoding(CodecError::SizeMismatch),
                            ));
                        }
                        return Err(Error::Decoding(CodecError::SizeMismatch));
                    }
                },
                None => {
                    match available.next(rtxn) {
                        Some(id) => {
                            proof {
                                assert(lookup(names_tbl, rest_names[0]) is None);
                                assert(next_free_above(keys, floor) == Option::Some(id));
                                let rest = gen_ids_spec(
                                    names.skip(i as int + 1),
                                    names_tbl,
                                    keys,
                                    id as int + 1,
                                );
                                assert(gen_ids_spec(rest_names, names_tbl, keys, floor) == (match rest {
                                    Result::Ok(rs) => Result::<Seq<u32>, Error>::Ok(seq![id] + rs),
                                    Result::Err(e) => Result::<Seq<u32>, Error>::Err(e),
                                }));
                                if rest is Ok {
                                    assert(out@.push(id) =~= out@ + seq![id]);
                                    assert((out@ + seq![id]) + rest->Ok_0 =~= out@ + (seq![id]
                                        + rest->Ok_0));
                                }
                            }
                            out.push(id);
                        },
                        None => {
                            proof {
                                assert(lookup(names_tbl, rest_names[0]) is None);
                                assert(next_free_above(keys, floor) is None);
                                assert(gen_ids_spec(rest_names, names_tbl, keys, floor)
                                    == Result::<Seq<u32>, Error>::Err(Error::Exhausted));
                            }
                            return Err(Error::Exhausted);
                        },
                    }
                },
            }
            i += 1;
        }
        proof {
            assert(names.skip(n as int) =~= Seq::<Seq<u8>>::empty());
            assert(out@ + Seq::<u32>::empty() =~= out@);
        }
        Ok(out)
    }

    /// Records the binding of `id` and `userid` in both directions.
    pub fn insert_id(&self, wtxn: &mut RwTxn, id: u32, userid: &String) -> (r: Result<(), Error>)
        requires
            old(wtxn).wf(),
            self.ids_userids.dbi_spec() < old(wtxn).view().len(),
            self.userids_ids.dbi_spec() < old(wtxn).view().len(),
        ensures
            final(wtxn).wf(),
            final(wtxn).epoch_spec() == old(wtxn).epoch_spec(),
            r is Ok,
            ({
                let ids_dbi = self.ids_userids.dbi_spec();
                let names_dbi = self.userids_ids.dbi_spec();
                let name = vstd::utf8::encode_utf8(userid@);
                let key = spec_u32_to_be_bytes(id);
                let mid = old(wtxn).view().update(
                    ids_dbi,
                    crate::table::spec_insert(old(wtxn).view()[ids_dbi], key, name),
                );
                final(wtxn).view() == mid.update(
                    names_dbi,
                    crate::table::spec_insert(mid[names_dbi], name, key),
                )
            }),
    {
        let key = BEU32::new(id);
        let ids_dbi = self.ids_userids.dbi();
        let names_dbi = self.userids_ids.dbi();
        match self.ids_userids.put(wtxn, &key, userid) {
            Ok(_) => {},
            Err(e) => {
                proof {
                    assert(false);
                }
                return Err(e);
            },
        }
        match self.userids_ids.put(wtxn, userid, &key) {
            Ok(_) => {},
            Err(e) => {
                proof {
                    assert(false);
                }
                return Err(e);
            },
        }
        Ok(())
    }
}

} // verus!
