//! Cursors: positioned, ordered traversal over one table's sorted keys.
//!
//! A cursor remembers the key it stands on and is driven against the
//! transaction it was created from; every movement states exactly which
//! entry it lands on in the table's key order.  A read-only cursor comes
//! from a read transaction; a read-write cursor, a superset capability,
//! comes from the write transaction and can also mutate at its position
//! and append in sorted order.
//!
//! The byte views a cursor hands out are borrowed from the transaction
//! and live no longer than it: ending the transaction invalidates them by
//! construction.

use vstd::prelude::*;

use crate::lex::{compare_bytes, lex_lt, KeyOrder};
use crate::table::{
    above_index, below_index, contains_key, lookup, seek_index, spec_insert, spec_remove, Entries,
    Table,
};
use crate::txn::{RoTxn, RwTxn};
use crate::{Error, MdbError};

verus! {

/// Where the next forward step from `at` lands in `tbl`: the first entry
/// for an unpositioned cursor, the first strictly greater key otherwise.
pub open spec fn next_index(tbl: Entries, at: Option<Seq<u8>>) -> int {
    match at {
        Option::None => 0,
        Option::Some(k) => above_index(tbl, k),
    }
}

/// Where the next backward step from `at` lands in `tbl`: the last entry
/// for an unpositioned cursor, the last strictly smaller key otherwise.
pub open spec fn prev_index(tbl: Entries, at: Option<Seq<u8>>) -> int {
    match at {
        Option::None => tbl.len() - 1,
        Option::Some(k) => below_index(tbl, k),
    }
}

/// Positions the cursor state on the entry at `i`, or unpositions it when
/// `i` is out of range, handing the entry back borrowed.
fn land<'t>(at: &mut Option<Vec<u8>>, table: &'t Table, i: usize) -> (r: Option<
    (&'t Vec<u8>, &'t Vec<u8>)
>)
    ensures
        i < table@.len() ==> {
            &&& (r matches Some(kv) && kv.0@ == table@[i as int].0 && kv.1@ == table@[i as int].1)
            &&& *final(at) matches Some(k) && k@ == table@[i as int].0
        },
        i >= table@.len() ==> r is None && *final(at) is None,
{
    if i < table.len() {
        let kv = table.entry_at(i);
        *at = Some(crate::table::copy_bytes(kv.0));
        Some(kv)
    } else {
        *at = None;
        None
    }
}

/// One forward step of a cursor standing at `at` over `table`.
pub(crate) fn step_next<'t>(at: &mut Option<Vec<u8>>, table: &'t Table) -> (r: Option<
    (&'t Vec<u8>, &'t Vec<u8>)
>)
    requires
        table.wf(),
    ensures
        ({
            let i = next_index(table@, view_at(*old(at)));
            &&& 0 <= i
            &&& i < table@.len() ==> {
                &&& (r matches Some(kv) && kv.0@ == table@[i].0 && kv.1@ == table@[i].1)
                &&& view_at(*final(at)) == Option::Some(table@[i].0)
            }
            &&& i >= table@.len() ==> r is None && *final(at) is None
        }),
{
    let mut cur: Option<Vec<u8>> = None;
    core::mem::swap(&mut cur, at);
    match cur {
        Some(k) => {
            proof {
                crate::table::lemma_seek_index_bounds(table@, k@);
                if contains_key(table@, k@) {
                    crate::table::lemma_seek_finds(table@, k@);
                }
            }
            match table.above(k.as_slice()) {
                Some(kv) => {
                    *at = Some(crate::table::copy_bytes(kv.0));
                    Some(kv)
                },
                None => {
                    *at = None;
                    None
                },
            }
        },
        None => land(at, table, 0),
    }
}

/// One backward step of a cursor standing at `at` over `table`.
pub(crate) fn step_prev<'t>(at: &mut Option<Vec<u8>>, table: &'t Table) -> (r: Option<
    (&'t Vec<u8>, &'t Vec<u8>)
>)
    requires
        table.wf(),
    ensures
        ({
            let i = prev_index(table@, view_at(*old(at)));
            &&& i < table@.len()
            &&& 0 <= i ==> {
                &&& (r matches Some(kv) && kv.0@ == table@[i].0 && kv.1@ == table@[i].1)
                &&& view_at(*final(at)) == Option::Some(table@[i].0)
            }
            &&& i < 0 ==> r is None && *final(at) is None
        }),
{
    let mut cur: Option<Vec<u8>> = None;
    core::mem::swap(&mut cur, at);
    match cur {
        Some(k) => {
            proof {
                crate::table::lemma_seek_index_bounds(table@, k@);
            }
            match table.below(k.as_slice()) {
                Some(kv) => {
                    *at = Some(crate::table::copy_bytes(kv.0));
                    Some(kv)
                },
                None => {
                    *at = None;
                    None
                },
            }
        },
        None => {
            let n = table.len();
            if n == 0 {
                *at = None;
                None
            } else {
                land(at, table, n - 1)
            }
        },
    }
}

/// The abstract position a stored key stands for.
pub open spec fn view_at(at: Option<Vec<u8>>) -> Option<Seq<u8>> {
    match at {
        Option::None => Option::None,
        Option::Some(k) => Option::Some(k@),
    }
}

/// A read-only cursor over one table of a read transaction.
pub struct RoCursor {
    pub(crate) dbi: usize,
    pub(crate) at: Option<Vec<u8>>,
}

impl RoCursor {
    /// The table this cursor traverses.
    pub closed spec fn dbi_spec(&self) -> int {
        self.dbi as int
    }

    /// The key the cursor stands on, or `None` when unpositioned.
    pub closed spec fn at_spec(&self) -> Option<Seq<u8>> {
        view_at(self.at)
    }

    /// Opens an unpositioned cursor over the table of `dbi`.
    pub fn new(txn: &RoTxn, dbi: usize) -> (r: Result<RoCursor, Error>)
        ensures
            dbi < txn.view().len() ==> (r matches Ok(c) && c.dbi_spec() == dbi && c.at_spec()
                is None),
            dbi >= txn.view().len() ==> r == Err::<RoCursor, Error>(Error::Mdb(MdbError::BadDbi)),
    {
        if dbi < txn.num_tables() {
            Ok(RoCursor { dbi, at: None })
        } else {
            Err(Error::Mdb(MdbError::BadDbi))
        }
    }

    /// Re-reads the entry at the current position without moving: `None`
    /// when unpositioned or when the entry under the cursor is gone.
    pub fn current<'t>(&self, txn: &'t RoTxn) -> (r: Result<
        Option<(&'t Vec<u8>, &'t Vec<u8>)>,
        Error,
    >)
        requires
            txn.wf(),
            self.dbi_spec() < txn.view().len(),
        ensures
            ({
                let tbl = txn.view()[self.dbi_spec()];
                match self.at_spec() {
                    Option::None => r matches Ok(o) && o is None,
                    Option::Some(k) => {
                        &&& lookup(tbl, k) is None ==> (r matches Ok(o) && o is None)
                        &&& lookup(tbl, k) matches Some(v) ==> (r matches Ok(o) && o matches Some(
                            kv,
                        ) && kv.0@ == k && kv.1@ == v)
                    },
                }
            }),
    {
        let table = txn.table_ref(self.dbi);
        match &self.at {
            Some(k) => {
                match table.get(k.as_slice()) {
                    Some(v) => {
                        proof {
                            crate::table::lemma_seek_finds(table@, k@);
                        }
                        let i = table.seek_ge_index(k.as_slice());
                        let kv = table.entry_at(i);
                        Ok(Some(kv))
                    },
                    None => Ok(None),
                }
            },
            None => Ok(None),
        }
    }

    /// Moves to the entry with the smallest key; `None` on an empty
    /// table, leaving the cursor unpositioned.
    pub fn move_on_first<'t>(&mut self, txn: &'t RoTxn) -> (r: Result<
        Option<(&'t Vec<u8>, &'t Vec<u8>)>,
        Error,
    >)
        requires
            txn.wf(),
            old(self).dbi_spec() < txn.view().len(),
        ensures
            final(self).dbi_spec() == old(self).dbi_spec(),
            ({
                let tbl = txn.view()[old(self).dbi_spec()];
                &&& tbl.len() > 0 ==> (r matches Ok(o) && o matches Some(kv) && kv.0@ == tbl[0].0
                    && kv.1@ == tbl[0].1) && final(self).at_spec() == Option::Some(tbl[0].0)
                &&& tbl.len() == 0 ==> (r matches Ok(o) && o is None) && final(self).at_spec()
                    is None
            }),
    {
        let table = txn.table_ref(self.dbi);
        Ok(land(&mut self.at, table, 0))
    }

    /// Moves to the entry with the greatest key; `None` on an empty
    /// table, leaving the cursor unpositioned.
    pub fn move_on_last<'t>(&mut self, txn: &'t RoTxn) -> (r: Result<
        Option<(&'t Vec<u8>, &'t Vec<u8>)>,
        Error,
    >)
        requires
            txn.wf(),
            old(self).dbi_spec() < txn.view().len(),
        ensures
            final(self).dbi_spec() == old(self).dbi_spec(),
            ({
                let tbl = txn.view()[old(self).dbi_spec()];
                &&& tbl.len() > 0 ==> (r matches Ok(o) && o matches Some(kv) && kv.0@ == tbl[tbl.len()
                    - 1].0 && kv.1@ == tbl[tbl.len() - 1].1) && final(self).at_spec()
                    == Option::Some(tbl[tbl.len() - 1].0)
                &&& tbl.len() == 0 ==> (r matches Ok(o) && o is None) && final(self).at_spec()
                    is None
            }),
    {
        let table = txn.table_ref(self.dbi);
        let n = table.len();
        if n == 0 {
            self.at = None;
            Ok(None)
        } else {
            Ok(land(&mut self.at, table, n - 1))
        }
    }

    /// Seeks to the first entry whose key is greater than or equal to
    /// `key`; `None` when there is none, leaving the cursor unpositioned.
    pub fn move_on_key_greater_than_or_equal_to<'t>(&mut self, txn: &'t RoTxn, key: &[u8]) -> (r:
        Result<Option<(&'t Vec<u8>, &'t Vec<u8>)>, Error>)
        requires
            txn.wf(),
            old(self).dbi_spec() < txn.view().len(),
        ensures
            final(self).dbi_spec() == old(self).dbi_spec(),
            ({
                let tbl = txn.view()[old(self).dbi_spec()];
                let i = seek_index(tbl, key@);
                &&& i < tbl.len() ==> (r matches Ok(o) && o matches Some(kv) && kv.0@ == tbl[i].0
                    && kv.1@ == tbl[i].1) && final(self).at_spec() == Option::Some(tbl[i].0)
                &&& i >= tbl.len() ==> (r matches Ok(o) && o is None) && final(self).at_spec()
                    is None
            }),
    {
        let table = txn.table_ref(self.dbi);
        let i = table.seek_ge_index(key);
        Ok(land(&mut self.at, table, i))
    }

    /// Advances one entry: to the first key greater than the current one,
    /// or to the first entry when unpositioned.  `None` at the end,
    /// leaving the cursor unpositioned.
    pub fn move_on_next<'t>(&mut self, txn: &'t RoTxn) -> (r: Result<
        Option<(&'t Vec<u8>, &'t Vec<u8>)>,
        Error,
    >)
        requires
            txn.wf(),
            old(self).dbi_spec() < txn.view().len(),
        ensures
            final(self).dbi_spec() == old(self).dbi_spec(),
            ({
                let tbl = txn.view()[old(self).dbi_spec()];
                let i = next_index(tbl, old(self).at_spec());
                &&& i < tbl.len() ==> (r matches Ok(o) && o matches Some(kv) && kv.0@ == tbl[i].0
                    && kv.1@ == tbl[i].1) && final(self).at_spec() == Option::Some(tbl[i].0)
                &&& i >= tbl.len() ==> (r matches Ok(o) && o is None) && final(self).at_spec()
                    is None
            }),
    {
        let table = txn.table_ref(self.dbi);
        Ok(step_next(&mut self.at, table))
    }

    /// Retreats one entry: to the last key smaller than the current one,
    /// or to the last entry when unpositioned.  `None` at the beginning,
    /// leaving the cursor unpositioned.
    pub fn move_on_prev<'t>(&mut self, txn: &'t RoTxn) -> (r: Result<
        Option<(&'t Vec<u8>, &'t Vec<u8>)>,
        Error,
    >)
        requires
            txn.wf(),
            old(self).dbi_spec() < txn.view().len(),
        ensures
            final(self).dbi_spec() == old(self).dbi_spec(),
            ({
                let tbl = txn.view()[old(self).dbi_spec()];
                let i = prev_index(tbl, old(self).at_spec());
                &&& 0 <= i ==> (r matches Ok(o) && o matches Some(kv) && kv.0@ == tbl[i].0
                    && kv.1@ == tbl[i].1) && final(self).at_spec() == Option::Some(tbl[i].0)
                &&& i < 0 ==> (r matches Ok(o) && o is None) && final(self).at_spec() is None
            }),
    {
        let table = txn.table_ref(self.dbi);
        Ok(step_prev(&mut self.at, table))
    }
}

/// A read-write cursor over one table of the write transaction: every
/// read-only movement, plus mutation at the current position and sorted
/// append.
pub struct RwCursor {
    pub(crate) cursor: RoCursor,
}

impl RwCursor {
    /// The table this cursor traverses.
    pub closed spec fn dbi_spec(&self) -> int {
        self.cursor.dbi_spec()
    }

    /// The key the cursor stands on, or `None` when unpositioned.
    pub closed spec fn at_spec(&self) -> Option<Seq<u8>> {
        self.cursor.at_spec()
    }

    /// Opens an unpositioned read-write cursor over the table of `dbi`.
    pub fn new(txn: &RwTxn, dbi: usize) -> (r: Result<RwCursor, Error>)
        ensures
            dbi < txn.view().len() ==> (r matches Ok(c) && c.dbi_spec() == dbi && c.at_spec()
                is None),
            dbi >= txn.view().len() ==> r == Err::<RwCursor, Error>(Error::Mdb(MdbError::BadDbi)),
    {
        if dbi < txn.num_tables() {
            Ok(RwCursor { cursor: RoCursor { dbi, at: None } })
        } else {
            Err(Error::Mdb(MdbError::BadDbi))
        }
    }

    /// Re-reads the entry at the current position without moving: `None`
    /// when unpositioned or when the entry under the cursor is gone.
    pub fn current<'t>(&self, txn: &'t RwTxn) -> (r: Result<
        Option<(&'t Vec<u8>, &'t Vec<u8>)>,
        Error,
    >)
        requires
            txn.wf(),
            self.dbi_spec() < txn.view().len(),
        ensures
            ({
                let tbl = txn.view()[self.dbi_spec()];
                match self.at_spec() {
                    Option::None => r matches Ok(o) && o is None,
                    Option::Some(k) => {
                        &&& lookup(tbl, k) is None ==> (r matches Ok(o) && o is None)
                        &&& lookup(tbl, k) matches Some(v) ==> (r matches Ok(o) && o matches Some(
                            kv,
                        ) && kv.0@ == k && kv.1@ == v)
                    },
                }
            }),
    {
        let table = txn.table_ref(self.cursor.dbi);
        match &self.cursor.at {
            Some(k) => {
                match table.get(k.as_slice()) {
                    Some(v) => {
                        proof {
                            crate::table::lemma_seek_finds(table@, k@);
                        }
                        let i = table.seek_ge_index(k.as_slice());
                        let kv = table.entry_at(i);
                        Ok(Some(kv))
                    },
                    None => Ok(None),
                }
            },
            None => Ok(None),
        }
    }

    /// Moves to the entry with the smallest key; see
    /// [`RoCursor::move_on_first`].
    pub fn move_on_first<'t>(&mut self, txn: &'t RwTxn) -> (r: Result<
        Option<(&'t Vec<u8>, &'t Vec<u8>)>,
        Error,
    >)
        requires
            txn.wf(),
            old(self).dbi_spec() < txn.view().len(),
        ensures
            final(self).dbi_spec() == old(self).dbi_spec(),
            ({
                let tbl = txn.view()[old(self).dbi_spec()];
                &&& tbl.len() > 0 ==> (r matches Ok(o) && o matches Some(kv) && kv.0@ == tbl[0].0
                    && kv.1@ == tbl[0].1) && final(self).at_spec() == Option::Some(tbl[0].0)
                &&& tbl.len() == 0 ==> (r matches Ok(o) && o is None) && final(self).at_spec()
                    is None
            }),
    {
        let table = txn.table_ref(self.cursor.dbi);
        Ok(land(&mut self.cursor.at, table, 0))
    }

    /// Moves to the entry with the greatest key; see
    /// [`RoCursor::move_on_last`].
    pub fn move_on_last<'t>(&mut self, txn: &'t RwTxn) -> (r: Result<
        Option<(&'t Vec<u8>, &'t Vec<u8>)>,
        Error,
    >)
        requires
            txn.wf(),
            old(self).dbi_spec() < txn.view().len(),
        ensures
            final(self).dbi_spec() == old(self).dbi_spec(),
            ({
                let tbl = txn.view()[old(self).dbi_spec()];
                &&& tbl.len() > 0 ==> (r matches Ok(o) && o matches Some(kv) && kv.0@ == tbl[tbl.len()
                    - 1].0 && kv.1@ == tbl[tbl.len() - 1].1) && final(self).at_spec()
                    == Option::Some(tbl[tbl.len() - 1].0)
                &&& tbl.len() == 0 ==> (r matches Ok(o) && o is None) && final(self).at_spec()
                    is None
            }),
    {
        let table = txn.table_ref(self.cursor.dbi);
        let n = table.len();
        if n == 0 {
            self.cursor.at = None;
            Ok(None)
        } else {
            Ok(land(&mut self.cursor.at, table, n - 1))
        }
    }

    /// Seeks to the first entry whose key is greater than or equal to
    /// `key`; see [`RoCursor::move_on_key_greater_than_or_equal_to`].
    pub fn move_on_key_greater_than_or_equal_to<'t>(&mut self, txn: &'t RwTxn, key: &[u8]) -> (r:
        Result<Option<(&'t Vec<u8>, &'t Vec<u8>)>, Error>)
        requires
            txn.wf(),
            old(self).dbi_spec() < txn.view().len(),
        ensures
            final(self).dbi_spec() == old(self).dbi_spec(),
            ({
                let tbl = txn.view()[old(self).dbi_spec()];
                let i = seek_index(tbl, key@);
                &&& i < tbl.len() ==> (r matches Ok(o) && o matches Some(kv) && kv.0@ == tbl[i].0
                    && kv.1@ == tbl[i].1) && final(self).at_spec() == Option::Some(tbl[i].0)
                &&& i >= tbl.len() ==> (r matches Ok(o) && o is None) && final(self).at_spec()
                    is None
            }),
    {
        let table = txn.table_ref(self.cursor.dbi);
        let i = table.seek_ge_index(key);
        Ok(land(&mut self.cursor.at, table, i))
    }

    /// Advances one entry; see [`RoCursor::move_on_next`].
    pub fn move_on_next<'t>(&mut self, txn: &'t RwTxn) -> (r: Result<
        Option<(&'t Vec<u8>, &'t Vec<u8>)>,
        Error,
    >)
        requires
            txn.wf(),
            old(self).dbi_spec() < txn.view().len(),
        ensures
            final(self).dbi_spec() == old(self).dbi_spec(),
            ({
                let tbl = txn.view()[old(self).dbi_spec()];
                let i = next_index(tbl, old(self).at_spec());
                &&& i < tbl.len() ==> (r matches Ok(o) && o matches Some(kv) && kv.0@ == tbl[i].0
                    && kv.1@ == tbl[i].1) && final(self).at_spec() == Option::Some(tbl[i].0)
                &&& i >= tbl.len() ==> (r matches Ok(o) && o is None) && final(self).at_spec()
                    is None
            }),
    {
        let table = txn.table_ref(self.cursor.dbi);
        Ok(step_next(&mut self.cursor.at, table))
    }

    /// Retreats one entry; see [`RoCursor::move_on_prev`].
    pub fn move_on_prev<'t>(&mut self, txn: &'t RwTxn) -> (r: Result<
        Option<(&'t Vec<u8>, &'t Vec<u8>)>,
        Error,
    >)
        requires
            txn.wf(),
            old(self).dbi_spec() < txn.view().len(),
        ensures
            final(self).dbi_spec() == old(self).dbi_spec(),
            ({
                let tbl = txn.view()[old(self).dbi_spec()];
                let i = prev_index(tbl, old(self).at_spec());
                &&& 0 <= i ==> (r matches Ok(o) && o matches Some(kv) && kv.0@ == tbl[i].0
                    && kv.1@ == tbl[i].1) && final(self).at_spec() == Option::Some(tbl[i].0)
                &&& i < 0 ==> (r matches Ok(o) && o is None) && final(self).at_spec() is None
            }),
    {
        let table = txn.table_ref(self.cursor.dbi);
        Ok(step_prev(&mut self.cursor.at, table))
    }

    /// Removes the entry at the current position; `false` when nothing is
    /// positioned (or the entry under the cursor is already gone).  The
    /// cursor keeps its position, so a following move continues from the
    /// removed key.
    pub fn del_current(&mut self, txn: &mut RwTxn) -> (r: Result<bool, Error>)
        requires
            old(txn).wf(),
            old(self).dbi_spec() < old(txn).view().len(),
        ensures
            final(txn).wf(),
            final(txn).epoch_spec() == old(txn).epoch_spec(),
            *final(self) == *old(self),
            ({
                let tbl = old(txn).view()[old(self).dbi_spec()];
                match old(self).at_spec() {
                    Option::None => r == Ok::<bool, Error>(false) && final(txn).view() == old(txn).view(),
                    Option::Some(k) => {
                        &&& r == Ok::<bool, Error>(contains_key(tbl, k))
                        &&& final(txn).view() == old(txn).view().update(
                            old(self).dbi_spec(),
                            spec_remove(tbl, k),
                        )
                    },
                }
            }),
    {
        match &self.cursor.at {
            Some(k) => {
                let removed = txn.table_remove(self.cursor.dbi, k.as_slice());
                Ok(removed)
            },
            None => Ok(false),
        }
    }

    /// Replaces the value at the current position; the key must be the
    /// one the cursor stands on.  `false` when nothing is positioned or
    /// the entry under the cursor is gone.
    pub fn put_current(&mut self, txn: &mut RwTxn, key: &[u8], data: &[u8]) -> (r: Result<
        bool,
        Error,
    >)
        requires
            old(txn).wf(),
            old(self).dbi_spec() < old(txn).view().len(),
            old(self).at_spec() matches Option::Some(k) ==> key@ == k,
        ensures
            final(txn).wf(),
            final(txn).epoch_spec() == old(txn).epoch_spec(),
            *final(self) == *old(self),
            ({
                let tbl = old(txn).view()[old(self).dbi_spec()];
                match old(self).at_spec() {
                    Option::None => r == Ok::<bool, Error>(false) && final(txn).view() == old(txn).view(),
                    Option::Some(k) => {
                        &&& !contains_key(tbl, k) ==> r == Ok::<bool, Error>(false) && final(txn).view() == old(txn).view()
                        &&& contains_key(tbl, k) ==> r == Ok::<bool, Error>(true) && final(txn).view() == old(txn).view().update(
                            old(self).dbi_spec(),
                            spec_insert(tbl, k, data@),
                        )
                    },
                }
            }),
    {
        let positioned = match &self.cursor.at {
            Some(_) => true,
            None => false,
        };
        if !positioned {
            return Ok(false);
        }
        let table = txn.table_ref(self.cursor.dbi);
        let present = match table.get(key) {
            Some(_) => true,
            None => false,
        };
        if !present {
            return Ok(false);
        }
        let key_vec = vstd::slice::slice_to_vec(key);
        let data_vec = vstd::slice::slice_to_vec(data);
        txn.table_insert(self.cursor.dbi, key_vec, data_vec);
        Ok(true)
    }

    /// Appends an entry whose key the caller asserts comes after every
    /// key already in the table, bypassing the sorted-position search.
    /// Appending a key not strictly greater than the current maximum is
    /// refused with the engine's ordering-violation condition and leaves
    /// the table unchanged.
    pub fn append(&mut self, txn: &mut RwTxn, key: &[u8], data: &[u8]) -> (r: Result<(), Error>)
        requires
            old(txn).wf(),
            old(self).dbi_spec() < old(txn).view().len(),
        ensures
            final(txn).wf(),
            final(txn).epoch_spec() == old(txn).epoch_spec(),
            final(self).dbi_spec() == old(self).dbi_spec(),
            ({
                let tbl = old(txn).view()[old(self).dbi_spec()];
                &&& (tbl.len() > 0 && !lex_lt(tbl.last().0, key@)) ==> r == Err::<(), Error>(
                    Error::Mdb(MdbError::KeyExist),
                ) && final(txn).view() == old(txn).view() && *final(self) == *old(self)
                &&& (tbl.len() == 0 || lex_lt(tbl.last().0, key@)) ==> {
                    &&& r is Ok
                    &&& final(txn).view() == old(txn).view().update(
                        old(self).dbi_spec(),
                        tbl.push((key@, data@)),
                    )
                    &&& final(self).at_spec() == Option::Some(key@)
                }
            }),
    {
        let table = txn.table_ref(self.cursor.dbi);
        let n = table.len();
        if n > 0 {
            let last = table.entry_at(n - 1);
            match compare_bytes(last.0.as_slice(), key) {
                KeyOrder::Less => {},
                _ => {
                    return Err(Error::Mdb(MdbError::KeyExist));
                },
            }
        }
        let key_vec = vstd::slice::slice_to_vec(key);
        let data_vec = vstd::slice::slice_to_vec(data);
        txn.table_append(self.cursor.dbi, key_vec, data_vec);
        self.cursor.at = Some(vstd::slice::slice_to_vec(key));
        Ok(())
    }
}

} // verus!
