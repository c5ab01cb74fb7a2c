//! Lazily decoded, ordered traversal over one table.
//!
//! An iterator is a cursor position plus the pair of codecs to decode
//! each entry with.  It is single-pass and finite: each `next` hands out
//! one decoded entry and moves on, and a decoding failure is reported
//! for that entry alone without ending the traversal.

use vstd::prelude::*;

use crate::cursor::{next_index, prev_index, view_at};
use crate::table::Entries;
use crate::traits::BytesDecode;
use crate::txn::RoTxn;
use crate::Error;

verus! {

/// A forward iterator over one table, decoding keys with `KC` and
/// values with `VC`.
pub struct RoIter<KC, VC> {
    pub(crate) dbi: usize,
    pub(crate) at: Option<Vec<u8>>,
    pub(crate) done: bool,
    pub(crate) marker: core::marker::PhantomData<(KC, VC)>,
}

impl<KC, VC> RoIter<KC, VC> {
    /// The table this iterator walks.
    pub closed spec fn dbi_spec(&self) -> int {
        self.dbi as int
    }

    /// The key of the last entry handed out, or `None` before the first.
    pub closed spec fn at_spec(&self) -> Option<Seq<u8>> {
        view_at(self.at)
    }

    /// Whether the traversal has reached the end.
    pub closed spec fn done_spec(&self) -> bool {
        self.done
    }

    /// Begins a traversal before the first entry.
    pub(crate) fn new(dbi: usize) -> (r: RoIter<KC, VC>)
        ensures
            r.dbi_spec() == dbi,
            r.at_spec() is None,
            !r.done_spec(),
    {
        RoIter { dbi, at: None, done: false, marker: core::marker::PhantomData }
    }

    /// Hands out the next entry in ascending key order, decoded, or
    /// `None` after the last one.  A decoding failure is reported for
    /// this entry alone; the traversal continues past it.
    pub fn next(&mut self, txn: &RoTxn) -> (r: Result<
        Option<(KC::DItem, VC::DItem)>,
        Error,
    >) where KC: BytesDecode, VC: BytesDecode
        requires
            txn.wf(),
            old(self).dbi_spec() < txn.view().len(),
        ensures
            final(self).dbi_spec() == old(self).dbi_spec(),
            ({
                let tbl = txn.view()[old(self).dbi_spec()];
                let i = next_index(tbl, old(self).at_spec());
                &&& old(self).done_spec() ==> (r matches Ok(o) && o is None) && *final(self)
                    == *old(self)
                &&& !old(self).done_spec() && i >= tbl.len() ==> (r matches Ok(o) && o is None)
                    && final(self).done_spec()
                &&& !old(self).done_spec() && i < tbl.len() ==> {
                    &&& final(self).at_spec() == Option::Some(tbl[i].0)
                    &&& !final(self).done_spec()
                    &&& KC::decode_ok(tbl[i].0) && VC::decode_ok(tbl[i].1) ==> (r matches Ok(o)
                        && o matches Some(kv) && KC::decoded_to(tbl[i].0, &kv.0)
                        && VC::decoded_to(tbl[i].1, &kv.1))
                    &&& !(KC::decode_ok(tbl[i].0) && VC::decode_ok(tbl[i].1)) ==> (r matches Err(
                        e,
                    ) && e matches Error::Decoding(_))
                }
            }),
    {
        if self.done {
            return Ok(None);
        }
        let table = txn.table_ref(self.dbi);
        let stepped = crate::cursor::step_next(&mut self.at, table);
        match stepped {
            Some(kv) => {
                let k = KC::bytes_decode(kv.0.as_slice())?;
                let v = VC::bytes_decode(kv.1.as_slice())?;
                Ok(Some((k, v)))
            },
            None => {
                self.done = true;
                Ok(None)
            },
        }
    }
}

/// A reverse iterator over one table, decoding keys with `KC` and
/// values with `VC`.
pub struct RoRevIter<KC, VC> {
    pub(crate) dbi: usize,
    pub(crate) at: Option<Vec<u8>>,
    pub(crate) done: bool,
    pub(crate) marker: core::marker::PhantomData<(KC, VC)>,
}

impl<KC, VC> RoRevIter<KC, VC> {
    /// The table this iterator walks.
    pub closed spec fn dbi_spec(&self) -> int {
        self.dbi as int
    }

    /// The key of the last entry handed out, or `None` before the first.
    pub closed spec fn at_spec(&self) -> Option<Seq<u8>> {
        view_at(self.at)
    }

    /// Whether the traversal has reached the beginning.
    pub closed spec fn done_spec(&self) -> bool {
        self.done
    }

    /// Begins a traversal after the last entry.
    pub(crate) fn new(dbi: usize) -> (r: RoRevIter<KC, VC>)
        ensures
            r.dbi_spec() == dbi,
            r.at_spec() is None,
            !r.done_spec(),
    {
        RoRevIter { dbi, at: None, done: false, marker: core::marker::PhantomData }
    }

    /// Hands out the next entry in descending key order, decoded, or
    /// `None` after the smallest one.  A decoding failure is reported
    /// for this entry alone; the traversal continues past it.
    pub fn next(&mut self, txn: &RoTxn) -> (r: Result<
        Option<(KC::DItem, VC::DItem)>,
        Error,
    >) where KC: BytesDecode, VC: BytesDecode
        requires
            txn.wf(),
            old(self).dbi_spec() < txn.view().len(),
        ensures
            final(self).dbi_spec() == old(self).dbi_spec(),
            ({
                let tbl = txn.view()[old(self).dbi_spec()];
                let i = prev_index(tbl, old(self).at_spec());
                &&& old(self).done_spec() ==> (r matches Ok(o) && o is None) && *final(self)
                    == *old(self)
                &&& !old(self).done_spec() && i < 0 ==> (r matches Ok(o) && o is None)
                    && final(self).done_spec()
                &&& !old(self).done_spec() && 0 <= i ==> {
                    &&& final(self).at_spec() == Option::Some(tbl[i].0)
                    &&& !final(self).done_spec()
                    &&& KC::decode_ok(tbl[i].0) && VC::decode_ok(tbl[i].1) ==> (r matches Ok(o)
                        && o matches Some(kv) && KC::decoded_to(tbl[i].0, &kv.0)
                        && VC::decoded_to(tbl[i].1, &kv.1))
                    &&& !(KC::decode_ok(tbl[i].0) && VC::decode_ok(tbl[i].1)) ==> (r matches Err(
                        e,
                    ) && e matches Error::Decoding(_))
                }
            }),
    {
        if self.done {
            return Ok(None);
        }
        let table = txn.table_ref(self.dbi);
        let stepped = crate::cursor::step_prev(&mut self.at, table);
        match stepped {
            Some(kv) => {
                let k = KC::bytes_decode(kv.0.as_slice())?;
                let v = VC::bytes_decode(kv.1.as_slice())?;
                Ok(Some((k, v)))
            },
            None => {
                self.done = true;
                Ok(None)
            },
        }
    }
}

/// One end of a key range.
pub enum RangeBound<T> {
    /// The bound itself belongs to the range.
    Included(T),
    /// Everything strictly beyond the bound belongs to the range.
    Excluded(T),
    /// The range is open at this end.
    Unbounded,
}

/// The abstract bound an encoded bound stands for.
pub open spec fn bound_view(b: &RangeBound<Vec<u8>>) -> RangeBound<Seq<u8>> {
    match b {
        RangeBound::Included(k) => RangeBound::Included(k@),
        RangeBound::Excluded(k) => RangeBound::Excluded(k@),
        RangeBound::Unbounded => RangeBound::Unbounded,
    }
}

/// The position of the first entry inside the lower bound.
pub open spec fn range_start_index(tbl: Entries, low: RangeBound<Seq<u8>>) -> int {
    match low {
        RangeBound::Included(k) => crate::table::seek_index(tbl, k),
        RangeBound::Excluded(k) => crate::table::above_index(tbl, k),
        RangeBound::Unbounded => 0,
    }
}

/// Whether a key lies inside the upper bound.
pub open spec fn below_high(key: Seq<u8>, high: RangeBound<Seq<u8>>) -> bool {
    match high {
        RangeBound::Included(h) => crate::lex::lex_le(key, h),
        RangeBound::Excluded(h) => crate::lex::lex_lt(key, h),
        RangeBound::Unbounded => true,
    }
}

/// Whether the bound's key, if it has one, can be encoded.
pub open spec fn bound_encode_ok<KC: crate::traits::BytesEncode>(b: &RangeBound<&KC::EItem>) -> bool {
    match b {
        RangeBound::Included(k) => KC::encode_ok(k),
        RangeBound::Excluded(k) => KC::encode_ok(k),
        RangeBound::Unbounded => true,
    }
}

/// The bound with its key encoded.
pub open spec fn bound_encoded<KC: crate::traits::BytesEncode>(b: &RangeBound<&KC::EItem>) -> RangeBound<
    Seq<u8>,
> {
    match b {
        RangeBound::Included(k) => RangeBound::Included(KC::encoded(k)),
        RangeBound::Excluded(k) => RangeBound::Excluded(KC::encoded(k)),
        RangeBound::Unbounded => RangeBound::Unbounded,
    }
}

/// Encodes a typed bound to a byte bound.
pub(crate) fn encode_bound<KC: crate::traits::BytesEncode>(b: RangeBound<&KC::EItem>) -> (r: Result<
    RangeBound<Vec<u8>>,
    Error,
>)
    ensures
        r is Ok <==> bound_encode_ok::<KC>(&b),
        r matches Ok(eb) ==> bound_view(&eb) == bound_encoded::<KC>(&b),
        r matches Err(e) ==> e matches Error::Encoding(_),
{
    match b {
        RangeBound::Included(k) => Ok(RangeBound::Included(KC::bytes_encode(k)?)),
        RangeBound::Excluded(k) => Ok(RangeBound::Excluded(KC::bytes_encode(k)?)),
        RangeBound::Unbounded => Ok(RangeBound::Unbounded),
    }
}

/// The position a range traversal starts from, computed on the table.
fn start_index_of(table: &crate::table::Table, low: &RangeBound<Vec<u8>>) -> (i: usize)
    requires
        table.wf(),
    ensures
        i == range_start_index(table@, bound_view(low)),
        0 <= i <= table@.len(),
{
    match low {
        RangeBound::Included(k) => table.seek_ge_index(k.as_slice()),
        RangeBound::Excluded(k) => {
            let i = table.seek_ge_index(k.as_slice());
            proof {
                crate::table::lemma_seek_index_bounds(table@, k@);
                if crate::table::contains_key(table@, k@) {
                    crate::table::lemma_seek_finds(table@, k@);
                }
            }
            if i < table.len() {
                let kv = table.entry_at(i);
                match crate::lex::compare_bytes(kv.0.as_slice(), k.as_slice()) {
                    crate::lex::KeyOrder::Equal => {
                        proof {
                            assert(table@[i as int].0 == k@);
                            assert(crate::table::contains_key(table@, k@));
                        }
                        i + 1
                    },
                    _ => {
                        proof {
                            assert(table@[i as int].0 != k@);
                        }
                        i
                    },
                }
            } else {
                i
            }
        },
        RangeBound::Unbounded => 0,
    }
}

/// Whether an entry's key lies inside the upper bound, computed.
fn key_below_high(key: &Vec<u8>, high: &RangeBound<Vec<u8>>) -> (r: bool)
    ensures
        r == below_high(key@, bound_view(high)),
{
    match high {
        RangeBound::Included(h) => {
            match crate::lex::compare_bytes(key.as_slice(), h.as_slice()) {
                crate::lex::KeyOrder::Greater => false,
                _ => true,
            }
        },
        RangeBound::Excluded(h) => {
            match crate::lex::compare_bytes(key.as_slice(), h.as_slice()) {
                crate::lex::KeyOrder::Less => true,
                _ => false,
            }
        },
        RangeBound::Unbounded => true,
    }
}

/// A bounded forward traversal over one table: the entries between a
/// lower and an upper bound, in ascending key order, lazily decoded.
pub struct RoRange<KC, VC> {
    pub(crate) dbi: usize,
    pub(crate) at: Option<Vec<u8>>,
    pub(crate) started: bool,
    pub(crate) done: bool,
    pub(crate) low: RangeBound<Vec<u8>>,
    pub(crate) high: RangeBound<Vec<u8>>,
    pub(crate) marker: core::marker::PhantomData<(KC, VC)>,
}

impl<KC, VC> RoRange<KC, VC> {
    /// The table this traversal walks.
    pub closed spec fn dbi_spec(&self) -> int {
        self.dbi as int
    }

    /// The key of the last entry handed out.
    pub closed spec fn at_spec(&self) -> Option<Seq<u8>> {
        view_at(self.at)
    }

    /// Whether the first entry was already sought.
    pub closed spec fn started_spec(&self) -> bool {
        self.started
    }

    /// Whether the traversal has ended.
    pub closed spec fn done_spec(&self) -> bool {
        self.done
    }

    /// The lower bound.
    pub closed spec fn low_spec(&self) -> RangeBound<Seq<u8>> {
        bound_view(&self.low)
    }

    /// The upper bound.
    pub closed spec fn high_spec(&self) -> RangeBound<Seq<u8>> {
        bound_view(&self.high)
    }

    /// Begins a bounded traversal before its first entry.
    pub(crate) fn new(dbi: usize, low: RangeBound<Vec<u8>>, high: RangeBound<Vec<u8>>) -> (r:
        RoRange<KC, VC>)
        ensures
            r.dbi_spec() == dbi,
            !r.started_spec(),
            !r.done_spec(),
            r.low_spec() == bound_view(&low),
            r.high_spec() == bound_view(&high),
    {
        RoRange { dbi, at: None, started: false, done: false, low, high, marker: core::marker::PhantomData }
    }

    /// Hands out the next entry of the range in ascending key order,
    /// decoded, or `None` once the range is exhausted.
    pub fn next(&mut self, txn: &RoTxn) -> (r: Result<
        Option<(KC::DItem, VC::DItem)>,
        Error,
    >) where KC: BytesDecode, VC: BytesDecode
        requires
            txn.wf(),
            old(self).dbi_spec() < txn.view().len(),
        ensures
            final(self).dbi_spec() == old(self).dbi_spec(),
            final(self).low_spec() == old(self).low_spec(),
            final(self).high_spec() == old(self).high_spec(),
            ({
                let tbl = txn.view()[old(self).dbi_spec()];
                let i = if !old(self).started_spec() {
                    range_start_index(tbl, old(self).low_spec())
                } else {
                    next_index(tbl, old(self).at_spec())
                };
                &&& old(self).done_spec() ==> (r matches Ok(o) && o is None) && *final(self)
                    == *old(self)
                &&& !old(self).done_spec() && (i >= tbl.len() || !below_high(
                    tbl[i].0,
                    old(self).high_spec(),
                )) ==> (r matches Ok(o) && o is None) && final(self).done_spec()
                &&& !old(self).done_spec() && i < tbl.len() && below_high(
                    tbl[i].0,
                    old(self).high_spec(),
                ) ==> {
                    &&& final(self).at_spec() == Option::Some(tbl[i].0)
                    &&& final(self).started_spec()
                    &&& !final(self).done_spec()
                    &&& KC::decode_ok(tbl[i].0) && VC::decode_ok(tbl[i].1) ==> (r matches Ok(o)
                        && o matches Some(kv) && KC::decoded_to(tbl[i].0, &kv.0)
                        && VC::decoded_to(tbl[i].1, &kv.1))
                    &&& !(KC::decode_ok(tbl[i].0) && VC::decode_ok(tbl[i].1)) ==> (r matches Err(
                        e,
                    ) && e matches Error::Decoding(_))
                }
            }),
    {
        if self.done {
            return Ok(None);
        }
        let table = txn.table_ref(self.dbi);
        let i: usize = if !self.started {
            start_index_of(table, &self.low)
        } else {
            match &self.at {
                Some(k) => {
                    proof {
                        crate::table::lemma_seek_index_bounds(table@, k@);
                        if crate::table::contains_key(table@, k@) {
                            crate::table::lemma_seek_finds(table@, k@);
                        }
                    }
                    let p = table.seek_ge_index(k.as_slice());
                    if p < table.len() {
                        let kv = table.entry_at(p);
                        match crate::lex::compare_bytes(kv.0.as_slice(), k.as_slice()) {
                            crate::lex::KeyOrder::Equal => {
                                proof {
                                    assert(table@[p as int].0 == k@);
                                    assert(crate::table::contains_key(table@, k@));
                                }
                                p + 1
                            },
                            _ => {
                                proof {
                                    assert(table@[p as int].0 != k@);
                                }
                                p
                            },
                        }
                    } else {
                        p
                    }
                },
                None => 0,
            }
        };
        if i >= table.len() {
            self.done = true;
            return Ok(None);
        }
        let kv = table.entry_at(i);
        if !key_below_high(kv.0, &self.high) {
            self.done = true;
            return Ok(None);
        }
        self.started = true;
        self.at = Some(crate::table::copy_bytes(kv.0));
        let k = KC::bytes_decode(kv.0.as_slice())?;
        let v = VC::bytes_decode(kv.1.as_slice())?;
        Ok(Some((k, v)))
    }
}

/// The position of the last entry inside the upper bound; `-1` when
/// there is none.
pub open spec fn range_rev_start_index(tbl: Entries, high: RangeBound<Seq<u8>>) -> int {
    match high {
        RangeBound::Included(h) => {
            if crate::table::contains_key(tbl, h) {
                crate::table::index_of_key(tbl, h)
            } else {
                crate::table::seek_index(tbl, h) - 1
            }
        },
        RangeBound::Excluded(h) => crate::table::seek_index(tbl, h) - 1,
        RangeBound::Unbounded => tbl.len() - 1,
    }
}

/// Whether a key lies inside the lower bound.
pub open spec fn above_low(key: Seq<u8>, low: RangeBound<Seq<u8>>) -> bool {
    match low {
        RangeBound::Included(l) => crate::lex::lex_le(l, key),
        RangeBound::Excluded(l) => crate::lex::lex_lt(l, key),
        RangeBound::Unbounded => true,
    }
}

/// One past the position a reverse range traversal starts from.
fn rev_start_pos_of(table: &crate::table::Table, high: &RangeBound<Vec<u8>>) -> (i: usize)
    requires
        table.wf(),
    ensures
        i == range_rev_start_index(table@, bound_view(high)) + 1,
        0 <= i <= table@.len(),
{
    match high {
        RangeBound::Included(h) => {
            let p = table.seek_ge_index(h.as_slice());
            proof {
                crate::table::lemma_seek_index_bounds(table@, h@);
                if crate::table::contains_key(table@, h@) {
                    crate::table::lemma_seek_finds(table@, h@);
                }
            }
            if p < table.len() {
                let kv = table.entry_at(p);
                match crate::lex::compare_bytes(kv.0.as_slice(), h.as_slice()) {
                    crate::lex::KeyOrder::Equal => {
                        proof {
                            assert(table@[p as int].0 == h@);
                            assert(crate::table::contains_key(table@, h@));
                        }
                        p + 1
                    },
                    _ => {
                        proof {
                            assert(table@[p as int].0 != h@);
                        }
                        p
                    },
                }
            } else {
                p
            }
        },
        RangeBound::Excluded(h) => {
            proof {
                crate::table::lemma_seek_index_bounds(table@, h@);
            }
            table.seek_ge_index(h.as_slice())
        },
        RangeBound::Unbounded => table.len(),
    }
}

/// Whether an entry's key lies inside the lower bound, computed.
fn key_above_low(key: &Vec<u8>, low: &RangeBound<Vec<u8>>) -> (r: bool)
    ensures
        r == above_low(key@, bound_view(low)),
{
    match low {
        RangeBound::Included(l) => {
            match crate::lex::compare_bytes(key.as_slice(), l.as_slice()) {
                crate::lex::KeyOrder::Less => false,
                _ => true,
            }
        },
        RangeBound::Excluded(l) => {
            match crate::lex::compare_bytes(key.as_slice(), l.as_slice()) {
                crate::lex::KeyOrder::Greater => true,
                _ => false,
            }
        },
        RangeBound::Unbounded => true,
    }
}

/// A bounded backward traversal over one table: the entries between a
/// lower and an upper bound, in descending key order, lazily decoded.
pub struct RoRevRange<KC, VC> {
    pub(crate) dbi: usize,
    pub(crate) at: Option<Vec<u8>>,
    pub(crate) started: bool,
    pub(crate) done: bool,
    pub(crate) low: RangeBound<Vec<u8>>,
    pub(crate) high: RangeBound<Vec<u8>>,
    pub(crate) marker: core::marker::PhantomData<(KC, VC)>,
}

impl<KC, VC> RoRevRange<KC, VC> {
    /// The table this traversal walks.
    pub closed spec fn dbi_spec(&self) -> int {
        self.dbi as int
    }

    /// The key of the last entry handed out.
    pub closed spec fn at_spec(&self) -> Option<Seq<u8>> {
        view_at(self.at)
    }

    /// Whether the first entry was already sought.
    pub closed spec fn started_spec(&self) -> bool {
        self.started
    }

    /// Whether the traversal has ended.
    pub closed spec fn done_spec(&self) -> bool {
        self.done
    }

    /// The lower bound.
    pub closed spec fn low_spec(&self) -> RangeBound<Seq<u8>> {
        bound_view(&self.low)
    }

    /// The upper bound.
    pub closed spec fn high_spec(&self) -> RangeBound<Seq<u8>> {
        bound_view(&self.high)
    }

    /// Begins a backward bounded traversal before its first entry.
    pub(crate) fn new(dbi: usize, low: RangeBound<Vec<u8>>, high: RangeBound<Vec<u8>>) -> (r:
        RoRevRange<KC, VC>)
        ensures
            r.dbi_spec() == dbi,
            !r.started_spec(),
            !r.done_spec(),
            r.low_spec() == bound_view(&low),
            r.high_spec() == bound_view(&high),
    {
        RoRevRange {
            dbi,
            at: None,
            started: false,
            done: false,
            low,
            high,
            marker: core::marker::PhantomData,
        }
    }

    /// Hands out the next entry of the range in descending key order,
    /// decoded, or `None` once the range is exhausted.
    pub fn next(&mut self, txn: &RoTxn) -> (r: Result<
        Option<(KC::DItem, VC::DItem)>,
        Error,
    >) where KC: BytesDecode, VC: BytesDecode
        requires
            txn.wf(),
            old(self).dbi_spec() < txn.view().len(),
        ensures
            final(self).dbi_spec() == old(self).dbi_spec(),
            final(self).low_spec() == old(self).low_spec(),
            final(self).high_spec() == old(self).high_spec(),
            ({
                let tbl = txn.view()[old(self).dbi_spec()];
                let i = if !old(self).started_spec() {
                    range_rev_start_index(tbl, old(self).high_spec())
                } else {
                    prev_index(tbl, old(self).at_spec())
                };
                &&& old(self).done_spec() ==> (r matches Ok(o) && o is None) && *final(self)
                    == *old(self)
                &&& !old(self).done_spec() && (i < 0 || !above_low(tbl[i].0, old(self).low_spec()))
                    ==> (r matches Ok(o) && o is None) && final(self).done_spec()
                &&& !old(self).done_spec() && 0 <= i && above_low(tbl[i].0, old(self).low_spec())
                    ==> {
                    &&& final(self).at_spec() == Option::Some(tbl[i].0)
                    &&& final(self).started_spec()
                    &&& !final(self).done_spec()
                    &&& KC::decode_ok(tbl[i].0) && VC::decode_ok(tbl[i].1) ==> (r matches Ok(o)
                        && o matches Some(kv) && KC::decoded_to(tbl[i].0, &kv.0)
                        && VC::decoded_to(tbl[i].1, &kv.1))
                    &&& !(KC::decode_ok(tbl[i].0) && VC::decode_ok(tbl[i].1)) ==> (r matches Err(
                        e,
                    ) && e matches Error::Decoding(_))
                }
            }),
    {
        if self.done {
            return Ok(None);
        }
        let table = txn.table_ref(self.dbi);
        let ip1: usize = if !self.started {
            rev_start_pos_of(table, &self.high)
        } else {
            match &self.at {
                Some(k) => {
                    proof {
                        crate::table::lemma_seek_index_bounds(table@, k@);
                    }
                    table.seek_ge_index(k.as_slice())
                },
                None => table.len(),
            }
        };
        if ip1 == 0 {
            self.done = true;
            return Ok(None);
        }
        let kv = table.entry_at(ip1 - 1);
        if !key_above_low(kv.0, &self.low) {
            self.done = true;
            return Ok(None);
        }
        self.started = true;
        self.at = Some(crate::table::copy_bytes(kv.0));
        let k = KC::bytes_decode(kv.0.as_slice())?;
        let v = VC::bytes_decode(kv.1.as_slice())?;
        Ok(Some((k, v)))
    }
}

/// Whether `key` begins with the bytes of `p`.
pub open spec fn has_prefix(key: Seq<u8>, p: Seq<u8>) -> bool {
    p.len() <= key.len() && key.take(p.len() as int) == p
}

/// Whether `key` begins with the bytes of `p`, computed.
fn key_has_prefix(key: &Vec<u8>, p: &Vec<u8>) -> (r: bool)
    ensures
        r == has_prefix(key@, p@),
{
    let plen = p.len();
    if key.len() < plen {
        return false;
    }
    let mut i: usize = 0;
    while i < plen
        invariant
            0 <= i <= plen,
            plen == p@.len(),
            plen <= key@.len(),
            forall|j: int| 0 <= j < i ==> key@[j] == p@[j],
        decreases plen - i,
    {
        if key[i] != p[i] {
            proof {
                assert(key@.take(plen as int)[i as int] != p@[i as int]);
            }
            return false;
        }
        i += 1;
    }
    proof {
        assert(key@.take(plen as int) =~= p@);
    }
    true
}

/// A forward traversal over all entries whose keys share one byte
/// prefix, in ascending key order, lazily decoded.
pub struct RoPrefix<KC, VC> {
    pub(crate) dbi: usize,
    pub(crate) at: Option<Vec<u8>>,
    pub(crate) started: bool,
    pub(crate) done: bool,
    pub(crate) prefix: Vec<u8>,
    pub(crate) marker: core::marker::PhantomData<(KC, VC)>,
}

impl<KC, VC> RoPrefix<KC, VC> {
    /// The table this traversal walks.
    pub closed spec fn dbi_spec(&self) -> int {
        self.dbi as int
    }

    /// The key of the last entry handed out.
    pub closed spec fn at_spec(&self) -> Option<Seq<u8>> {
        view_at(self.at)
    }

    /// Whether the first entry was already sought.
    pub closed spec fn started_spec(&self) -> bool {
        self.started
    }

    /// Whether the traversal has ended.
    pub closed spec fn done_spec(&self) -> bool {
        self.done
    }

    /// The shared prefix.
    pub closed spec fn prefix_spec(&self) -> Seq<u8> {
        self.prefix@
    }

    /// Begins a prefix traversal before its first entry.
    pub(crate) fn new(dbi: usize, prefix: Vec<u8>) -> (r: RoPrefix<KC, VC>)
        ensures
            r.dbi_spec() == dbi,
            !r.started_spec(),
            !r.done_spec(),
            r.prefix_spec() == prefix@,
    {
        RoPrefix { dbi, at: None, started: false, done: false, prefix, marker: core::marker::PhantomData }
    }

    /// Hands out the next entry carrying the prefix, in ascending key
    /// order, decoded, or `None` once the prefixed keys are exhausted.
    pub fn next(&mut self, txn: &RoTxn) -> (r: Result<
        Option<(KC::DItem, VC::DItem)>,
        Error,
    >) where KC: BytesDecode, VC: BytesDecode
        requires
            txn.wf(),
            old(self).dbi_spec() < txn.view().len(),
        ensures
            final(self).dbi_spec() == old(self).dbi_spec(),
            final(self).prefix_spec() == old(self).prefix_spec(),
            ({
                let tbl = txn.view()[old(self).dbi_spec()];
                let p = old(self).prefix_spec();
                let i = if !old(self).started_spec() {
                    crate::table::seek_index(tbl, p)
                } else {
                    next_index(tbl, old(self).at_spec())
                };
                &&& old(self).done_spec() ==> (r matches Ok(o) && o is None) && *final(self)
                    == *old(self)
                &&& !old(self).done_spec() && (i >= tbl.len() || !has_prefix(tbl[i].0, p)) ==> (r
                    matches Ok(o) && o is None) && final(self).done_spec()
                &&& !old(self).done_spec() && i < tbl.len() && has_prefix(tbl[i].0, p) ==> {
                    &&& final(self).at_spec() == Option::Some(tbl[i].0)
                    &&& final(self).started_spec()
                    &&& !final(self).done_spec()
                    &&& KC::decode_ok(tbl[i].0) && VC::decode_ok(tbl[i].1) ==> (r matches Ok(o)
                        && o matches Some(kv) && KC::decoded_to(tbl[i].0, &kv.0)
                        && VC::decoded_to(tbl[i].1, &kv.1))
                    &&& !(KC::decode_ok(tbl[i].0) && VC::decode_ok(tbl[i].1)) ==> (r matches Err(
                        e,
                    ) && e matches Error::Decoding(_))
                }
            }),
    {
        if self.done {
            return Ok(None);
        }
        let table = txn.table_ref(self.dbi);
        let i: usize = if !self.started {
            table.seek_ge_index(self.prefix.as_slice())
        } else {
            match &self.at {
                Some(k) => {
                    proof {
                        crate::table::lemma_seek_index_bounds(table@, k@);
                        if crate::table::contains_key(table@, k@) {
                            crate::table::lemma_seek_finds(table@, k@);
                        }
                    }
                    let p = table.seek_ge_index(k.as_slice());
                    if p < table.len() {
                        let kv = table.entry_at(p);
                        match crate::lex::compare_bytes(kv.0.as_slice(), k.as_slice()) {
                            crate::lex::KeyOrder::Equal => {
                                proof {
                                    assert(table@[p as int].0 == k@);
                                    assert(crate::table::contains_key(table@, k@));
                                }
                                p + 1
                            },
                            _ => {
                                proof {
                                    assert(table@[p as int].0 != k@);
                                }
                                p
                            },
                        }
                    } else {
                        p
                    }
                },
                None => 0,
            }
        };
        if i >= table.len() {
            self.done = true;
            return Ok(None);
        }
        let kv = table.entry_at(i);
        if !key_has_prefix(kv.0, &self.prefix) {
            self.done = true;
            return Ok(None);
        }
        self.started = true;
        self.at = Some(crate::table::copy_bytes(kv.0));
        let k = KC::bytes_decode(kv.0.as_slice())?;
        let v = VC::bytes_decode(kv.1.as_slice())?;
        Ok(Some((k, v)))
    }
}

} // verus!
