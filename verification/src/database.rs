//! A typed database: a codec-typed view over one named table.
//!
//! The handle itself is only an index into the environment's table
//! registry; every operation takes the transaction it should read from or
//! write through.  Keys and values pass through the handle's key codec and
//! value codec, and each operation's contract says exactly which bytes are
//! looked up or written and which errors are reported on which inputs.

use vstd::prelude::*;

use crate::table::{contains_key, lookup, spec_insert, spec_remove};
use crate::traits::{BytesDecode, BytesEncode};
use crate::txn::{RoTxn, RwTxn};
use crate::{Error, MdbError};

verus! {

/// A typed handle to one named table, parameterized by its key codec `KC`
/// and its value codec `VC`.
pub struct Database<KC, VC> {
    pub(crate) dbi: usize,
    pub(crate) marker: core::marker::PhantomData<(KC, VC)>,
}

impl<KC, VC> Database<KC, VC> {
    /// The registry index this handle denotes.
    pub closed spec fn dbi_spec(&self) -> int {
        self.dbi as int
    }

    /// Wraps a registry index in a typed handle.
    pub(crate) fn new(dbi: usize) -> (r: Database<KC, VC>)
        ensures
            r.dbi_spec() == dbi,
    {
        Database { dbi, marker: core::marker::PhantomData }
    }

    /// The registry index, as a machine integer.
    pub fn dbi(&self) -> (r: usize)
        ensures
            r == self.dbi_spec(),
    {
        self.dbi
    }
}

impl<KC: BytesEncode, VC> Database<KC, VC> {
    /// Looks `key` up in the table as this read-only transaction sees it.
    ///
    /// Absence is an expected outcome and comes back as `None`; a key the
    /// codec refuses is an encoding error, stored bytes the value codec
    /// refuses are a decoding error, and a handle the snapshot does not
    /// know is a stale-handle engine error.
    pub fn get(&self, txn: &RoTxn, key: &KC::EItem) -> (r: Result<Option<VC::DItem>, Error>) where
        VC: BytesDecode
        requires
            txn.wf(),
        ensures
            ({
                let tables = txn.view();
                &&& !KC::encode_ok(key) ==> (r matches Err(e) && e matches Error::Encoding(_))
                &&& KC::encode_ok(key) && self.dbi_spec() >= tables.len() ==> r == Err::<
                    Option<VC::DItem>,
                    Error,
                >(Error::Mdb(MdbError::BadDbi))
                &&& KC::encode_ok(key) && self.dbi_spec() < tables.len() ==> {
                    let found = lookup(tables[self.dbi_spec()], KC::encoded(key));
                    &&& found is None ==> (r matches Ok(v) && v is None)
                    &&& found matches Some(bytes) ==> {
                        &&& VC::decode_ok(bytes) ==> (r matches Ok(o) && o matches Some(v)
                            && VC::decoded_to(bytes, &v))
                        &&& !VC::decode_ok(bytes) ==> (r matches Err(e) && e
                            matches Error::Decoding(_))
                    }
                }
            }),
    {
        let key_bytes = KC::bytes_encode(key)?;
        if self.dbi >= txn.num_tables() {
            return Err(Error::Mdb(MdbError::BadDbi));
        }
        let table = txn.table_ref(self.dbi);
        match table.get(key_bytes.as_slice()) {
            Some(value_bytes) => {
                let v = VC::bytes_decode(value_bytes.as_slice())?;
                Ok(Some(v))
            },
            None => Ok(None),
        }
    }

    /// Looks `key` up in the table as this read-write transaction has
    /// staged it (so a transaction reads its own uncommitted writes).
    pub fn rw_get(&self, txn: &RwTxn, key: &KC::EItem) -> (r: Result<
        Option<VC::DItem>,
        Error,
    >) where VC: BytesDecode
        requires
            txn.wf(),
        ensures
            ({
                let tables = txn.view();
                &&& !KC::encode_ok(key) ==> (r matches Err(e) && e matches Error::Encoding(_))
                &&& KC::encode_ok(key) && self.dbi_spec() >= tables.len() ==> r == Err::<
                    Option<VC::DItem>,
                    Error,
                >(Error::Mdb(MdbError::BadDbi))
                &&& KC::encode_ok(key) && self.dbi_spec() < tables.len() ==> {
                    let found = lookup(tables[self.dbi_spec()], KC::encoded(key));
                    &&& found is None ==> (r matches Ok(v) && v is None)
                    &&& found matches Some(bytes) ==> {
                        &&& VC::decode_ok(bytes) ==> (r matches Ok(o) && o matches Some(v)
                            && VC::decoded_to(bytes, &v))
                        &&& !VC::decode_ok(bytes) ==> (r matches Err(e) && e
                            matches Error::Decoding(_))
                    }
                }
            }),
    {
        let key_bytes = KC::bytes_encode(key)?;
        if self.dbi >= txn.num_tables() {
            return Err(Error::Mdb(MdbError::BadDbi));
        }
        let table = txn.table_ref(self.dbi);
        match table.get(key_bytes.as_slice()) {
            Some(value_bytes) => {
                let v = VC::bytes_decode(value_bytes.as_slice())?;
                Ok(Some(v))
            },
            None => Ok(None),
        }
    }

    /// Begins a lazy bounded traversal of the table between the two key
    /// bounds, in ascending key order, as this read-only transaction
    /// sees it.
    pub fn range(
        &self,
        txn: &RoTxn,
        low: crate::iter::RangeBound<&KC::EItem>,
        high: crate::iter::RangeBound<&KC::EItem>,
    ) -> (r: Result<crate::iter::RoRange<KC, VC>, Error>)
        ensures
            !(crate::iter::bound_encode_ok::<KC>(&low) && crate::iter::bound_encode_ok::<KC>(
                &high,
            )) ==> (r matches Err(e) && e matches Error::Encoding(_)),
            crate::iter::bound_encode_ok::<KC>(&low) && crate::iter::bound_encode_ok::<KC>(&high)
                && self.dbi_spec() >= txn.view().len() ==> r == Err::<
                crate::iter::RoRange<KC, VC>,
                Error,
            >(Error::Mdb(MdbError::BadDbi)),
            crate::iter::bound_encode_ok::<KC>(&low) && crate::iter::bound_encode_ok::<KC>(&high)
                && self.dbi_spec() < txn.view().len() ==> (r matches Ok(it) && it.dbi_spec()
                == self.dbi_spec() && !it.started_spec() && !it.done_spec() && it.low_spec()
                == crate::iter::bound_encoded::<KC>(&low) && it.high_spec()
                == crate::iter::bound_encoded::<KC>(&high)),
    {
        let low_bytes = crate::iter::encode_bound::<KC>(low)?;
        let high_bytes = crate::iter::encode_bound::<KC>(high)?;
        if self.dbi < txn.num_tables() {
            Ok(crate::iter::RoRange::new(self.dbi, low_bytes, high_bytes))
        } else {
            Err(Error::Mdb(MdbError::BadDbi))
        }
    }

    /// Begins a lazy bounded traversal of the table between the two key
    /// bounds, in descending key order, as this read-only transaction
    /// sees it.
    pub fn rev_range(
        &self,
        txn: &RoTxn,
        low: crate::iter::RangeBound<&KC::EItem>,
        high: crate::iter::RangeBound<&KC::EItem>,
    ) -> (r: Result<crate::iter::RoRevRange<KC, VC>, Error>)
        ensures
            !(crate::iter::bound_encode_ok::<KC>(&low) && crate::iter::bound_encode_ok::<KC>(
                &high,
            )) ==> (r matches Err(e) && e matches Error::Encoding(_)),
            crate::iter::bound_encode_ok::<KC>(&low) && crate::iter::bound_encode_ok::<KC>(&high)
                && self.dbi_spec() >= txn.view().len() ==> r == Err::<
                crate::iter::RoRevRange<KC, VC>,
                Error,
            >(Error::Mdb(MdbError::BadDbi)),
            crate::iter::bound_encode_ok::<KC>(&low) && crate::iter::bound_encode_ok::<KC>(&high)
                && self.dbi_spec() < txn.view().len() ==> (r matches Ok(it) && it.dbi_spec()
                == self.dbi_spec() && !it.started_spec() && !it.done_spec() && it.low_spec()
                == crate::iter::bound_encoded::<KC>(&low) && it.high_spec()
                == crate::iter::bound_encoded::<KC>(&high)),
    {
        let low_bytes = crate::iter::encode_bound::<KC>(low)?;
        let high_bytes = crate::iter::encode_bound::<KC>(high)?;
        if self.dbi < txn.num_tables() {
            Ok(crate::iter::RoRevRange::new(self.dbi, low_bytes, high_bytes))
        } else {
            Err(Error::Mdb(MdbError::BadDbi))
        }
    }

    /// Binds `key` to `value` in the staged state of this read-write
    /// transaction, overwriting any existing binding.
    pub fn put(&self, txn: &mut RwTxn, key: &KC::EItem, value: &VC::EItem) -> (r: Result<
        (),
        Error,
    >) where VC: BytesEncode
        requires
            old(txn).wf(),
        ensures
            final(txn).wf(),
            final(txn).epoch_spec() == old(txn).epoch_spec(),
            !KC::encode_ok(key) ==> (r matches Err(e) && e matches Error::Encoding(_)
                && final(txn).view() == old(txn).view()),
            KC::encode_ok(key) && !VC::encode_ok(value) ==> (r matches Err(e)
                && e matches Error::Encoding(_) && final(txn).view() == old(txn).view()),
            KC::encode_ok(key) && VC::encode_ok(value) && self.dbi_spec() >= old(txn).view().len()
                ==> r == Err::<(), Error>(Error::Mdb(MdbError::BadDbi)) && final(txn).view() == old(txn).view(),
            KC::encode_ok(key) && VC::encode_ok(value) && self.dbi_spec() < old(txn).view().len()
                ==> r is Ok && final(txn).view() == old(txn).view().update(
                self.dbi_spec(),
                spec_insert(
                    old(txn).view()[self.dbi_spec()],
                    KC::encoded(key),
                    VC::encoded(value),
                ),
            ),
    {
        let key_bytes = KC::bytes_encode(key)?;
        let value_bytes = VC::bytes_encode(value)?;
        if self.dbi >= txn.num_tables() {
            return Err(Error::Mdb(MdbError::BadDbi));
        }
        txn.table_insert(self.dbi, key_bytes, value_bytes);
        Ok(())
    }

    /// Removes the binding of `key`, if any, from the staged state of
    /// this read-write transaction; reports whether one existed.
    pub fn delete(&self, txn: &mut RwTxn, key: &KC::EItem) -> (r: Result<bool, Error>)
        requires
            old(txn).wf(),
        ensures
            final(txn).wf(),
            final(txn).epoch_spec() == old(txn).epoch_spec(),
            !KC::encode_ok(key) ==> (r matches Err(e) && e matches Error::Encoding(_)
                && final(txn).view() == old(txn).view()),
            KC::encode_ok(key) && self.dbi_spec() >= old(txn).view().len() ==> r == Err::<
                bool,
                Error,
            >(Error::Mdb(MdbError::BadDbi)) && final(txn).view() == old(txn).view(),
            KC::encode_ok(key) && self.dbi_spec() < old(txn).view().len() ==> {
                &&& r == Ok::<bool, Error>(
                    contains_key(old(txn).view()[self.dbi_spec()], KC::encoded(key)),
                )
                &&& final(txn).view() == old(txn).view().update(
                    self.dbi_spec(),
                    spec_remove(old(txn).view()[self.dbi_spec()], KC::encoded(key)),
                )
            },
    {
        let key_bytes = KC::bytes_encode(key)?;
        if self.dbi >= txn.num_tables() {
            return Err(Error::Mdb(MdbError::BadDbi));
        }
        let existed = txn.table_remove(self.dbi, key_bytes.as_slice());
        Ok(existed)
    }
}

impl<KC, VC> Database<KC, VC> {
    /// Begins a lazy forward traversal of the table in ascending key
    /// order, as this read-only transaction sees it.
    pub fn iter(&self, txn: &RoTxn) -> (r: Result<crate::iter::RoIter<KC, VC>, Error>)
        ensures
            self.dbi_spec() < txn.view().len() ==> (r matches Ok(it) && it.dbi_spec()
                == self.dbi_spec() && it.at_spec() is None && !it.done_spec()),
            self.dbi_spec() >= txn.view().len() ==> r == Err::<crate::iter::RoIter<KC, VC>, Error>(
                Error::Mdb(MdbError::BadDbi),
            ),
    {
        if self.dbi < txn.num_tables() {
            Ok(crate::iter::RoIter::new(self.dbi))
        } else {
            Err(Error::Mdb(MdbError::BadDbi))
        }
    }

    /// Begins a lazy backward traversal of the table in descending key
    /// order, as this read-only transaction sees it.
    pub fn rev_iter(&self, txn: &RoTxn) -> (r: Result<crate::iter::RoRevIter<KC, VC>, Error>)
        ensures
            self.dbi_spec() < txn.view().len() ==> (r matches Ok(it) && it.dbi_spec()
                == self.dbi_spec() && it.at_spec() is None && !it.done_spec()),
            self.dbi_spec() >= txn.view().len() ==> r == Err::<
                crate::iter::RoRevIter<KC, VC>,
                Error,
            >(Error::Mdb(MdbError::BadDbi)),
    {
        if self.dbi < txn.num_tables() {
            Ok(crate::iter::RoRevIter::new(self.dbi))
        } else {
            Err(Error::Mdb(MdbError::BadDbi))
        }
    }

    /// Begins a lazy traversal over all entries whose keys share the
    /// byte prefix, in ascending key order, as this read-only
    /// transaction sees them.
    pub fn prefix(&self, txn: &RoTxn, prefix: &[u8]) -> (r: Result<
        crate::iter::RoPrefix<KC, VC>,
        Error,
    >)
        ensures
            self.dbi_spec() < txn.view().len() ==> (r matches Ok(it) && it.dbi_spec()
                == self.dbi_spec() && !it.started_spec() && !it.done_spec() && it.prefix_spec()
                == prefix@),
            self.dbi_spec() >= txn.view().len() ==> r == Err::<
                crate::iter::RoPrefix<KC, VC>,
                Error,
            >(Error::Mdb(MdbError::BadDbi)),
    {
        if self.dbi < txn.num_tables() {
            Ok(crate::iter::RoPrefix::new(self.dbi, vstd::slice::slice_to_vec(prefix)))
        } else {
            Err(Error::Mdb(MdbError::BadDbi))
        }
    }

    /// Removes every entry of the table from the staged state of this
    /// read-write transaction.
    pub fn clear(&self, txn: &mut RwTxn) -> (r: Result<(), Error>)
        requires
            old(txn).wf(),
        ensures
            final(txn).wf(),
            final(txn).epoch_spec() == old(txn).epoch_spec(),
            self.dbi_spec() >= old(txn).view().len() ==> r == Err::<(), Error>(
                Error::Mdb(MdbError::BadDbi),
            ) && final(txn).view() == old(txn).view(),
            self.dbi_spec() < old(txn).view().len() ==> r is Ok && final(txn).view() == old(txn).view().update(self.dbi_spec(), Seq::<(Seq<u8>, Seq<u8>)>::empty()),
    {
        if self.dbi >= txn.num_tables() {
            return Err(Error::Mdb(MdbError::BadDbi));
        }
        txn.table_clear(self.dbi);
        Ok(())
    }
}

} // verus!
