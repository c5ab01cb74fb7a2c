//! Read-only and read-write transactions.
//!
//! A read-only transaction owns a snapshot of every table, fixed at its
//! begin: nothing that happens to the environment afterwards changes what
//! it reads.  A read-write transaction owns a working copy of every table;
//! its writes stay private until `commit` publishes them into the
//! environment, and are discarded by `abort`.  Both are consumed when they
//! end, so no handle to an ended transaction can remain in use.  End every
//! transaction through `commit` or `abort`: one that is merely dropped has
//! discarded its writes, as an abort would, but has not handed its reader
//! slot or write token back to the environment.

use vstd::prelude::*;

use crate::env::Env;
use crate::lex::lex_lt;
use crate::table::{
    contains_key, entries_sorted, spec_insert, spec_remove, tables_view_of, Entries, Table,
};
use crate::Error;

verus! {

/// A read-only transaction: an immutable snapshot of all tables.
pub struct RoTxn {
    pub(crate) tables: Vec<Table>,
}

impl RoTxn {
    /// The snapshot: one entry sequence per table, indexed by database
    /// handle.
    pub closed spec fn view(&self) -> Seq<Entries> {
        tables_view_of(self.tables@)
    }

    /// Every snapshot table is sorted.
    pub open spec fn wf(&self) -> bool {
        forall|i: int| 0 <= i < self.view().len() ==> entries_sorted(#[trigger] self.view()[i])
    }

    /// How many tables the snapshot holds.
    pub fn num_tables(&self) -> (n: usize)
        ensures
            n == self.view().len(),
    {
        self.tables.len()
    }

    /// The snapshot table for one database handle, borrowed.
    pub(crate) fn table_ref<'a>(&'a self, dbi: usize) -> (t: &'a Table)
        requires
            dbi < self.view().len(),
        ensures
            t@ == self.view()[dbi as int],
            self.wf() ==> t.wf(),
    {
        let t = &self.tables[dbi];
        proof {
            assert(t@ == self.view()[dbi as int]);
        }
        t
    }

    /// Wraps freshly snapshotted tables in a read-only transaction.
    pub(crate) fn from_tables(tables: Vec<Table>) -> (r: RoTxn)
        ensures
            r.view() == tables_view_of(tables@),
    {
        RoTxn { tables }
    }

    /// Ends the read-only transaction, releasing its reader slot.  The
    /// snapshot is dropped; nothing in the environment changes besides the
    /// reader count.
    pub fn abort(self, env: &mut Env)
        requires
            old(env).readers_spec() > 0,
        ensures
            final(env).readers_spec() == old(env).readers_spec() - 1,
            final(env).tables_view() == old(env).tables_view(),
            final(env).names_view() == old(env).names_view(),
            final(env).tags_view() == old(env).tags_view(),
            final(env).writer_active_spec() == old(env).writer_active_spec(),
            final(env).closing_spec() == old(env).closing_spec(),
            final(env).epoch_spec() == old(env).epoch_spec(),
            final(env).config_spec() == old(env).config_spec(),
            old(env).wf() ==> final(env).wf(),
    {
        env.release_reader();
    }
}

/// A read-write transaction: a private working copy of all tables, plus
/// the exclusive write token of its environment.
pub struct RwTxn {
    pub(crate) tables: Vec<Table>,
    pub(crate) epoch: Ghost<int>,
}

impl RwTxn {
    /// The staged state: one entry sequence per table, indexed by database
    /// handle, as this transaction would publish it.
    pub closed spec fn view(&self) -> Seq<Entries> {
        tables_view_of(self.tables@)
    }

    /// The environment epoch this transaction was begun in; `commit` and
    /// `abort` demand the same epoch, which ties the transaction to the
    /// environment and currency it came from.
    pub closed spec fn epoch_spec(&self) -> int {
        self.epoch@
    }

    /// Every staged table is sorted.
    pub open spec fn wf(&self) -> bool {
        forall|i: int| 0 <= i < self.view().len() ==> entries_sorted(#[trigger] self.view()[i])
    }

    /// How many tables the transaction sees.
    pub fn num_tables(&self) -> (n: usize)
        ensures
            n == self.view().len(),
    {
        self.tables.len()
    }

    /// The staged table for one database handle, borrowed.
    pub(crate) fn table_ref<'a>(&'a self, dbi: usize) -> (t: &'a Table)
        requires
            dbi < self.view().len(),
        ensures
            t@ == self.view()[dbi as int],
            self.wf() ==> t.wf(),
    {
        let t = &self.tables[dbi];
        proof {
            assert(t@ == self.view()[dbi as int]);
        }
        t
    }

    /// Wraps freshly snapshotted tables in a read-write transaction begun
    /// at the given epoch.
    pub(crate) fn from_tables(tables: Vec<Table>, epoch: Ghost<int>) -> (r: RwTxn)
        ensures
            r.view() == tables_view_of(tables@),
            r.epoch_spec() == epoch@,
    {
        RwTxn { tables, epoch }
    }

    /// Binds `key` to `value` in one staged table.
    pub(crate) fn table_insert(&mut self, dbi: usize, key: Vec<u8>, value: Vec<u8>)
        requires
            old(self).wf(),
            dbi < old(self).view().len(),
        ensures
            final(self).wf(),
            final(self).epoch_spec() == old(self).epoch_spec(),
            final(self).view() == old(self).view().update(
                dbi as int,
                spec_insert(old(self).view()[dbi as int], key@, value@),
            ),
    {
        let ghost prev = *self;
        proof {
            assert(self.view()[dbi as int] == self.tables@[dbi as int]@);
            assert(entries_sorted(self.tables@[dbi as int]@));
        }
        let t = &mut self.tables[dbi];
        t.insert(key, value);
        proof {
            assert(self.view() =~= prev.view().update(
                dbi as int,
                spec_insert(prev.view()[dbi as int], key@, value@),
            ));
        }
    }

    /// Removes the entry carrying `key`, if any, from one staged table.
    pub(crate) fn table_remove(&mut self, dbi: usize, key: &[u8]) -> (r: bool)
        requires
            old(self).wf(),
            dbi < old(self).view().len(),
        ensures
            final(self).wf(),
            final(self).epoch_spec() == old(self).epoch_spec(),
            r == contains_key(old(self).view()[dbi as int], key@),
            final(self).view() == old(self).view().update(
                dbi as int,
                spec_remove(old(self).view()[dbi as int], key@),
            ),
    {
        let ghost prev = *self;
        proof {
            assert(self.view()[dbi as int] == self.tables@[dbi as int]@);
            assert(entries_sorted(self.tables@[dbi as int]@));
        }
        let t = &mut self.tables[dbi];
        let r = t.remove(key);
        proof {
            assert(self.view() =~= prev.view().update(
                dbi as int,
                spec_remove(prev.view()[dbi as int], key@),
            ));
        }
        r
    }

    /// Empties one staged table.
    pub(crate) fn table_clear(&mut self, dbi: usize)
        requires
            old(self).wf(),
            dbi < old(self).view().len(),
        ensures
            final(self).wf(),
            final(self).epoch_spec() == old(self).epoch_spec(),
            final(self).view() == old(self).view().update(
                dbi as int,
                Seq::<(Seq<u8>, Seq<u8>)>::empty(),
            ),
    {
        let ghost prev = *self;
        proof {
            assert(self.view()[dbi as int] == self.tables@[dbi as int]@);
            assert(entries_sorted(self.tables@[dbi as int]@));
        }
        let t = &mut self.tables[dbi];
        t.clear();
        proof {
            assert(self.view() =~= prev.view().update(
                dbi as int,
                Seq::<(Seq<u8>, Seq<u8>)>::empty(),
            ));
        }
    }

    /// Appends an entry after every present key of one staged table.
    pub(crate) fn table_append(&mut self, dbi: usize, key: Vec<u8>, value: Vec<u8>)
        requires
            old(self).wf(),
            dbi < old(self).view().len(),
            old(self).view()[dbi as int].len() > 0 ==> lex_lt(
                old(self).view()[dbi as int].last().0,
                key@,
            ),
        ensures
            final(self).wf(),
            final(self).epoch_spec() == old(self).epoch_spec(),
            final(self).view() == old(self).view().update(
                dbi as int,
                old(self).view()[dbi as int].push((key@, value@)),
            ),
    {
        let ghost prev = *self;
        proof {
            assert(self.view()[dbi as int] == self.tables@[dbi as int]@);
            assert(entries_sorted(self.tables@[dbi as int]@));
        }
        let t = &mut self.tables[dbi];
        t.push_last(key, value);
        proof {
            assert(self.view() =~= prev.view().update(
                dbi as int,
                prev.view()[dbi as int].push((key@, value@)),
            ));
        }
    }

    /// Atomically publishes all writes of this transaction into the
    /// environment and releases the write token.  In this engine model
    /// publishing cannot fail, so the result is always `Ok`; the `Result`
    /// carries the engine vocabulary for callers that match on it.
    pub fn commit(self, env: &mut Env) -> (r: Result<(), Error>)
        requires
            old(env).wf(),
            self.wf(),
            old(env).writer_active_spec(),
            self.epoch_spec() == old(env).epoch_spec(),
            self.view().len() == old(env).names_view().len(),
        ensures
            r is Ok,
            final(env).wf(),
            final(env).tables_view() == self.view(),
            !final(env).writer_active_spec(),
            final(env).names_view() == old(env).names_view(),
            final(env).tags_view() == old(env).tags_view(),
            final(env).readers_spec() == old(env).readers_spec(),
            final(env).closing_spec() == old(env).closing_spec(),
            final(env).epoch_spec() == old(env).epoch_spec(),
            final(env).config_spec() == old(env).config_spec(),
            crate::env::commit_rel(*old(env), self.view(), *final(env)),
    {
        env.publish(self.tables);
        Ok(())
    }

    /// Discards all writes of this transaction and releases the write
    /// token.  The environment keeps the state of the last commit.
    pub fn abort(self, env: &mut Env)
        requires
            old(env).writer_active_spec(),
            self.epoch_spec() == old(env).epoch_spec(),
        ensures
            !final(env).writer_active_spec(),
            final(env).tables_view() == old(env).tables_view(),
            final(env).names_view() == old(env).names_view(),
            final(env).tags_view() == old(env).tags_view(),
            final(env).readers_spec() == old(env).readers_spec(),
            final(env).closing_spec() == old(env).closing_spec(),
            final(env).epoch_spec() == old(env).epoch_spec(),
            final(env).config_spec() == old(env).config_spec(),
            old(env).wf() ==> final(env).wf(),
    {
        env.release_writer();
    }
}

} // verus!
