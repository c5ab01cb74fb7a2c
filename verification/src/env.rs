//! The environment: one open store, its named tables, and the transaction
//! tokens.
//!
//! The environment owns the committed state of every named table, the
//! registry binding table names to database handles and codec taggings,
//! the single write token, the count of live readers, and the closing
//! flag.  Beginning a read-write transaction takes the write token; while
//! it is taken, a second read-write transaction and any registry change
//! are refused with a busy condition (a threaded engine binding would
//! block there instead).

use vstd::prelude::*;

use crate::database::Database;
use crate::lex::{compare_bytes, KeyOrder};
use crate::table::{entries_sorted, snapshot_all, tables_view_of, Entries, Table};
use crate::traits::BytesEncode;
use crate::txn::{RoTxn, RwTxn};
use crate::{Error, MdbError};

verus! {

/// The configuration an environment is opened with.
#[derive(Clone, Copy, Debug, PartialEq, Eq, Structural)]
pub struct EnvOpenOptions {
    /// The mapped-size ceiling of the store, in bytes.  The model engine
    /// carries it as configuration; it does not meter pages.
    pub map_size: usize,
    /// The maximum number of named tables.
    pub max_dbs: usize,
    /// The maximum number of concurrently live read-only transactions.
    pub max_readers: usize,
    /// Whether commits ask the engine for a durable (synchronous) write.
    pub durable_sync: bool,
}

impl EnvOpenOptions {
    /// The default configuration: a 10 MiB map, one named table, 126
    /// readers, durable commits.
    pub fn new() -> (r: EnvOpenOptions)
        ensures
            r.map_size == 10485760usize,
            r.max_dbs == 1usize,
            r.max_readers == 126usize,
            r.durable_sync == true,
    {
        EnvOpenOptions { map_size: 10485760, max_dbs: 1, max_readers: 126, durable_sync: true }
    }

    /// Sets the mapped-size ceiling.
    pub fn map_size(self, size: usize) -> (r: EnvOpenOptions)
        ensures
            r == (EnvOpenOptions { map_size: size, ..self }),
    {
        EnvOpenOptions { map_size: size, ..self }
    }

    /// Sets the maximum number of named tables.
    pub fn max_dbs(self, n: usize) -> (r: EnvOpenOptions)
        ensures
            r == (EnvOpenOptions { max_dbs: n, ..self }),
    {
        EnvOpenOptions { max_dbs: n, ..self }
    }

    /// Sets the maximum number of concurrent readers.
    pub fn max_readers(self, n: usize) -> (r: EnvOpenOptions)
        ensures
            r == (EnvOpenOptions { max_readers: n, ..self }),
    {
        EnvOpenOptions { max_readers: n, ..self }
    }

    /// Sets the durability mode of commits.
    pub fn durable_sync(self, yes: bool) -> (r: EnvOpenOptions)
        ensures
            r == (EnvOpenOptions { durable_sync: yes, ..self }),
    {
        EnvOpenOptions { durable_sync: yes, ..self }
    }

    /// Opens a fresh environment with this configuration.  The model
    /// engine has no file to map, so opening cannot fail; the `Result`
    /// carries the I/O vocabulary of a real mapping.
    pub fn open(&self) -> (r: Result<Env, Error>)
        ensures
            r matches Ok(env) ==> {
                &&& env.wf()
                &&& env.tables_view() == Seq::<Entries>::empty()
                &&& env.names_view() == Seq::<Seq<u8>>::empty()
                &&& env.tags_view() == Seq::<(u64, u64)>::empty()
                &&& !env.writer_active_spec()
                &&& !env.closing_spec()
                &&& env.readers_spec() == 0
                &&& env.config_spec() == *self
            },
            r is Ok,
    {
        let env = Env {
            tables: Vec::new(),
            names: Vec::new(),
            tags: Vec::new(),
            writer_active: false,
            closing: false,
            readers: 0,
            config: *self,
            epoch: Ghost(0),
        };
        proof {
            assert(env.tables_view() =~= Seq::<Entries>::empty());
            assert(env.names_view() =~= Seq::<Seq<u8>>::empty());
        }
        Ok(env)
    }
}

/// What `Env::write_txn` has ensured when it handed a transaction out:
/// the write token was free and is now taken, and the epoch advanced.
pub open spec fn write_txn_began(pre: Env, post: Env) -> bool {
    &&& !pre.closing_spec()
    &&& !pre.writer_active_spec()
    &&& post.writer_active_spec()
    &&& post.epoch_spec() == pre.epoch_spec() + 1
    &&& post.tables_view() == pre.tables_view()
}

/// What `Env::read_txn` has ensured when it handed a snapshot out: the
/// snapshot is the committed state at its begin.
pub open spec fn read_txn_began(pre: Env, txn: RoTxn) -> bool {
    txn.view() == pre.tables_view()
}

/// What `RwTxn::commit` does to the environment: the staged state is
/// published and the write token handed back.
pub open spec fn commit_rel(pre: Env, staged: Seq<Entries>, post: Env) -> bool {
    &&& post.tables_view() == staged
    &&& !post.writer_active_spec()
    &&& post.names_view() == pre.names_view()
    &&& post.epoch_spec() == pre.epoch_spec()
}

/// Exclusivity of the write transaction: once one has begun and before
/// its commit or abort hands the write token back, no second one can
/// begin on the same environment.  A threaded engine binding would
/// block the second caller here; this layer reports the contention and
/// lets the caller retry, which cannot succeed until the token is
/// returned.
pub proof fn lemma_write_exclusivity(e0: Env, e1: Env)
    requires
        write_txn_began(e0, e1),
    ensures
        forall|e2: Env| !#[trigger] write_txn_began(e1, e2),
{
}

/// Isolation of read-only transactions: one begun before a commit keeps
/// observing the committed state of its begin.  The commit rewrites the
/// environment alone, never the snapshot the transaction owns, so every
/// read through the transaction returns what it would have returned
/// before the commit, whatever state the commit published.
pub proof fn lemma_snapshot_isolation(
    pre: Env,
    rt: RoTxn,
    staged: Seq<Entries>,
    post: Env,
    dbi: int,
    key: Seq<u8>,
)
    requires
        read_txn_began(pre, rt),
        commit_rel(pre, staged, post),
        0 <= dbi < rt.view().len(),
    ensures
        crate::table::lookup(rt.view()[dbi], key) == crate::table::lookup(
            pre.tables_view()[dbi],
            key,
        ),
{
}

/// Whether some registered name equals `n`.
pub open spec fn names_contain(names: Seq<Seq<u8>>, n: Seq<u8>) -> bool {
    exists|i: int| 0 <= i < names.len() && names[i] == n
}

/// The handle index registered under `n`, when it is registered.
pub open spec fn name_index(names: Seq<Seq<u8>>, n: Seq<u8>) -> int {
    choose|i: int| 0 <= i < names.len() && names[i] == n
}

/// One open store: committed tables, registry, and transaction tokens.
pub struct Env {
    pub(crate) tables: Vec<Table>,
    pub(crate) names: Vec<Vec<u8>>,
    pub(crate) tags: Vec<(u64, u64)>,
    pub(crate) writer_active: bool,
    pub(crate) closing: bool,
    pub(crate) readers: usize,
    pub(crate) config: EnvOpenOptions,
    pub(crate) epoch: Ghost<int>,
}

impl Env {
    /// The committed contents of every table, indexed by database handle.
    pub closed spec fn tables_view(&self) -> Seq<Entries> {
        tables_view_of(self.tables@)
    }

    /// The registered table names, indexed by database handle.
    pub closed spec fn names_view(&self) -> Seq<Seq<u8>> {
        Seq::new(self.names@.len(), |i: int| self.names@[i]@)
    }

    /// The codec tag pairing each table was created with.
    pub closed spec fn tags_view(&self) -> Seq<(u64, u64)> {
        self.tags@
    }

    /// Whether a read-write transaction currently holds the write token.
    pub closed spec fn writer_active_spec(&self) -> bool {
        self.writer_active
    }

    /// Whether the environment is in its closing phase.
    pub closed spec fn closing_spec(&self) -> bool {
        self.closing
    }

    /// How many read-only transactions are live.
    pub closed spec fn readers_spec(&self) -> nat {
        self.readers as nat
    }

    /// Counts how many read-write transactions were ever begun; each
    /// transaction remembers the count it was begun at.
    pub closed spec fn epoch_spec(&self) -> int {
        self.epoch@
    }

    /// The configuration the environment was opened with.
    pub closed spec fn config_spec(&self) -> EnvOpenOptions {
        self.config
    }

    /// Registry and tables line up, every table is sorted, and names are
    /// unique.
    pub open spec fn wf(&self) -> bool {
        &&& self.tables_view().len() == self.names_view().len()
        &&& self.names_view().len() == self.tags_view().len()
        &&& forall|i: int|
            0 <= i < self.tables_view().len() ==> entries_sorted(#[trigger] self.tables_view()[i])
        &&& forall|i: int, j: int|
            0 <= i < j < self.names_view().len() ==> #[trigger] self.names_view()[i]
                != #[trigger] self.names_view()[j]
    }

    /// Looks a name up in the registry.
    fn find_name(&self, name: &Vec<u8>) -> (r: Option<usize>)
        ensures
            r matches Some(i) ==> i < self.names_view().len() && self.names_view()[i as int]
                == name@,
            r is None ==> !names_contain(self.names_view(), name@),
    {
        let n = self.names.len();
        let mut i: usize = 0;
        while i < n
            invariant
                0 <= i <= n,
                n == self.names_view().len(),
                n == self.names@.len(),
                forall|j: int| 0 <= j < i ==> #[trigger] self.names_view()[j] != name@,
            decreases n - i,
        {
            match compare_bytes(self.names[i].as_slice(), name.as_slice()) {
                KeyOrder::Equal => {
                    proof {
                        assert(self.names_view()[i as int] == self.names@[i as int]@);
                    }
                    return Some(i);
                },
                _ => {
                    proof {
                        assert(self.names_view()[i as int] == self.names@[i as int]@);
                    }
                },
            }
            i += 1;
        }
        None
    }

    /// Creates the named table or opens it if it exists, handing back a
    /// typed database handle.
    ///
    /// Refused while closing, and while a read-write transaction is live
    /// (registry changes are serialized with writes).  Reopening under a
    /// codec pairing differing from the one recorded at creation is a
    /// typing error; creating beyond the configured table maximum reports
    /// the store full of tables.
    pub fn create_database<KC: BytesEncode, VC: BytesEncode>(&mut self, name: &Vec<u8>) -> (r:
        Result<Database<KC, VC>, Error>)
        requires
            old(self).wf(),
        ensures
            final(self).wf(),
            final(self).writer_active_spec() == old(self).writer_active_spec(),
            final(self).closing_spec() == old(self).closing_spec(),
            final(self).readers_spec() == old(self).readers_spec(),
            final(self).epoch_spec() == old(self).epoch_spec(),
            final(self).config_spec() == old(self).config_spec(),
            old(self).closing_spec() ==> r == Err::<Database<KC, VC>, Error>(
                Error::DatabaseClosing,
            ) && *final(self) == *old(self),
            !old(self).closing_spec() && old(self).writer_active_spec() ==> r == Err::<
                Database<KC, VC>,
                Error,
            >(Error::Mdb(MdbError::Busy)) && *final(self) == *old(self),
            !old(self).closing_spec() && !old(self).writer_active_spec() && names_contain(
                old(self).names_view(),
                name@,
            ) ==> ({
                let i = name_index(old(self).names_view(), name@);
                &&& *final(self) == *old(self)
                &&& old(self).tags_view()[i] == (
                    KC::tag_spec() as u64,
                    VC::tag_spec() as u64,
                ) ==> (r matches Ok(db) && db.dbi_spec() == i)
                &&& old(self).tags_view()[i] != (
                    KC::tag_spec() as u64,
                    VC::tag_spec() as u64,
                ) ==> r == Err::<Database<KC, VC>, Error>(Error::InvalidDatabaseTyping)
            }),
            !old(self).closing_spec() && !old(self).writer_active_spec() && !names_contain(
                old(self).names_view(),
                name@,
            ) ==> {
                &&& old(self).names_view().len() >= old(self).config_spec().max_dbs ==> r == Err::<
                    Database<KC, VC>,
                    Error,
                >(Error::Mdb(MdbError::DbsFull)) && *final(self) == *old(self)
                &&& old(self).names_view().len() < old(self).config_spec().max_dbs ==> {
                    &&& (r matches Ok(db) && db.dbi_spec() == old(self).names_view().len())
                    &&& final(self).tables_view() == old(self).tables_view().push(
                        Seq::<(Seq<u8>, Seq<u8>)>::empty(),
                    )
                    &&& final(self).names_view() == old(self).names_view().push(name@)
                    &&& final(self).tags_view() == old(self).tags_view().push(
                        (KC::tag_spec() as u64, VC::tag_spec() as u64),
                    )
                }
            },
    {
        if self.closing {
            return Err(Error::DatabaseClosing);
        }
        if self.writer_active {
            return Err(Error::Mdb(MdbError::Busy));
        }
        let kc_tag = KC::codec_tag();
        let vc_tag = VC::codec_tag();
        match self.find_name(name) {
            Some(i) => {
                proof {
                    assert(names_contain(self.names_view(), name@));
                    let w = name_index(self.names_view(), name@);
                    if w != i {
                        assert(self.names_view()[w] == self.names_view()[i as int]);
                        assert(false);
                    }
                }
                let t = self.tags[i];
                if t.0 == kc_tag && t.1 == vc_tag {
                    Ok(Database::new(i))
                } else {
                    Err(Error::InvalidDatabaseTyping)
                }
            },
            None => {
                if self.names.len() >= self.config.max_dbs {
                    return Err(Error::Mdb(MdbError::DbsFull));
                }
                let dbi = self.names.len();
                let ghost old_env = *self;
                self.tables.push(Table::new());
                self.names.push(crate::table::copy_bytes(name));
                self.tags.push((kc_tag, vc_tag));
                proof {
                    assert(self.tables_view() =~= old_env.tables_view().push(
                        Seq::<(Seq<u8>, Seq<u8>)>::empty(),
                    ));
                    assert(self.names_view() =~= old_env.names_view().push(name@));
                    assert forall|a: int, b: int|
                        0 <= a < b < self.names_view().len() implies #[trigger] self.names_view()[a]
                        != #[trigger] self.names_view()[b] by {
                        if b == self.names_view().len() - 1 {
                            assert(self.names_view()[b] == name@);
                            assert(self.names_view()[a] == old_env.names_view()[a]);
                            if old_env.names_view()[a] == name@ {
                                assert(names_contain(old_env.names_view(), name@));
                            }
                        } else {
                            assert(self.names_view()[a] == old_env.names_view()[a]);
                            assert(self.names_view()[b] == old_env.names_view()[b]);
                        }
                    }
                }
                Ok(Database::new(dbi))
            },
        }
    }

    /// Begins a read-only transaction: a snapshot of the committed state
    /// as of now.  Refused while closing, and when the configured reader
    /// maximum is reached.
    pub fn read_txn(&mut self) -> (r: Result<RoTxn, Error>)
        requires
            old(self).wf(),
        ensures
            final(self).wf(),
            final(self).tables_view() == old(self).tables_view(),
            final(self).names_view() == old(self).names_view(),
            final(self).tags_view() == old(self).tags_view(),
            final(self).writer_active_spec() == old(self).writer_active_spec(),
            final(self).closing_spec() == old(self).closing_spec(),
            final(self).epoch_spec() == old(self).epoch_spec(),
            final(self).config_spec() == old(self).config_spec(),
            old(self).closing_spec() ==> (r matches Err(e) && e == Error::DatabaseClosing
                && *final(self) == *old(self)),
            !old(self).closing_spec() && old(self).readers_spec() >= old(self).config_spec().max_readers ==> (r matches Err(e) && e == Error::Mdb(
                MdbError::ReadersFull,
            ) && *final(self) == *old(self)),
            !old(self).closing_spec() && old(self).readers_spec() < old(self).config_spec().max_readers ==> {
                &&& (r matches Ok(txn) && txn.view() == old(self).tables_view() && txn.wf()
                    && read_txn_began(*old(self), txn))
                &&& final(self).readers_spec() == old(self).readers_spec() + 1
            },
            r is Err ==> final(self).readers_spec() == old(self).readers_spec(),
    {
        if self.closing {
            return Err(Error::DatabaseClosing);
        }
        if self.readers >= self.config.max_readers {
            return Err(Error::Mdb(MdbError::ReadersFull));
        }
        let tables = snapshot_all(&self.tables);
        self.readers = self.readers + 1;
        Ok(RoTxn::from_tables(tables))
    }

    /// Begins the read-write transaction: a working copy of the committed
    /// state, together with the write token.  Refused while closing; while
    /// another read-write transaction is live the engine reports the
    /// contention (a threaded binding would block until the token is
    /// free).
    pub fn write_txn(&mut self) -> (r: Result<RwTxn, Error>)
        requires
            old(self).wf(),
        ensures
            final(self).wf(),
            final(self).tables_view() == old(self).tables_view(),
            final(self).names_view() == old(self).names_view(),
            final(self).tags_view() == old(self).tags_view(),
            final(self).closing_spec() == old(self).closing_spec(),
            final(self).readers_spec() == old(self).readers_spec(),
            final(self).config_spec() == old(self).config_spec(),
            old(self).closing_spec() ==> (r matches Err(e) && e == Error::DatabaseClosing
                && *final(self) == *old(self)),
            !old(self).closing_spec() && old(self).writer_active_spec() ==> (r matches Err(e)
                && e == Error::Mdb(MdbError::Busy) && *final(self) == *old(self)),
            !old(self).closing_spec() && !old(self).writer_active_spec() ==> {
                &&& r matches Ok(txn)
                &&& txn.view() == old(self).tables_view()
                &&& txn.wf()
                &&& txn.view().len() == old(self).names_view().len()
                &&& txn.epoch_spec() == final(self).epoch_spec()
                &&& final(self).writer_active_spec()
                &&& final(self).epoch_spec() == old(self).epoch_spec() + 1
                &&& write_txn_began(*old(self), *final(self))
            },
            r is Err ==> *final(self) == *old(self),
    {
        if self.closing {
            return Err(Error::DatabaseClosing);
        }
        if self.writer_active {
            return Err(Error::Mdb(MdbError::Busy));
        }
        let tables = snapshot_all(&self.tables);
        self.writer_active = true;
        let ghost e = self.epoch@ + 1;
        self.epoch = Ghost(e);
        Ok(RwTxn::from_tables(tables, Ghost(e)))
    }

    /// Begins the closing phase: every later attempt to register a table
    /// or begin a transaction is refused with the closing condition.
    /// Transactions already live finish normally; [`Self::close_done`]
    /// reports when the last of them has ended.
    pub fn close(&mut self)
        ensures
            final(self).closing_spec(),
            final(self).tables_view() == old(self).tables_view(),
            final(self).names_view() == old(self).names_view(),
            final(self).tags_view() == old(self).tags_view(),
            final(self).writer_active_spec() == old(self).writer_active_spec(),
            final(self).readers_spec() == old(self).readers_spec(),
            final(self).epoch_spec() == old(self).epoch_spec(),
            final(self).config_spec() == old(self).config_spec(),
    {
        self.closing = true;
    }

    /// The close-completion signal: the closing phase has begun and no
    /// transaction is live any more.  Waiters for the close poll this.
    pub fn close_done(&self) -> (r: bool)
        ensures
            r == (self.closing_spec() && !self.writer_active_spec() && self.readers_spec() == 0),
    {
        self.closing && !self.writer_active && self.readers == 0
    }

    /// Whether the closing phase has begun.
    pub fn is_closing(&self) -> (r: bool)
        ensures
            r == self.closing_spec(),
    {
        self.closing
    }

    /// Whether a read-write transaction currently holds the write token.
    pub fn writer_is_active(&self) -> (r: bool)
        ensures
            r == self.writer_active_spec(),
    {
        self.writer_active
    }

    /// Hands one reader slot back (a read-only transaction ended).
    pub(crate) fn release_reader(&mut self)
        requires
            old(self).readers_spec() > 0,
        ensures
            final(self).readers_spec() == old(self).readers_spec() - 1,
            final(self).tables_view() == old(self).tables_view(),
            final(self).names_view() == old(self).names_view(),
            final(self).tags_view() == old(self).tags_view(),
            final(self).writer_active_spec() == old(self).writer_active_spec(),
            final(self).closing_spec() == old(self).closing_spec(),
            final(self).epoch_spec() == old(self).epoch_spec(),
            final(self).config_spec() == old(self).config_spec(),
            old(self).wf() ==> final(self).wf(),
    {
        self.readers = self.readers - 1;
    }

    /// Hands the write token back without publishing (a read-write
    /// transaction aborted).
    pub(crate) fn release_writer(&mut self)
        requires
            old(self).writer_active_spec(),
        ensures
            !final(self).writer_active_spec(),
            final(self).tables_view() == old(self).tables_view(),
            final(self).names_view() == old(self).names_view(),
            final(self).tags_view() == old(self).tags_view(),
            final(self).readers_spec() == old(self).readers_spec(),
            final(self).closing_spec() == old(self).closing_spec(),
            final(self).epoch_spec() == old(self).epoch_spec(),
            final(self).config_spec() == old(self).config_spec(),
            old(self).wf() ==> final(self).wf(),
    {
        self.writer_active = false;
    }

    /// Replaces the committed tables with a transaction's staged tables
    /// and hands the write token back (a read-write transaction
    /// committed).
    pub(crate) fn publish(&mut self, tables: Vec<Table>)
        requires
            old(self).writer_active_spec(),
            tables@.len() == old(self).names_view().len(),
            forall|i: int|
                0 <= i < tables@.len() ==> entries_sorted(#[trigger] tables_view_of(tables@)[i]),
        ensures
            old(self).wf() ==> final(self).wf(),
            !final(self).writer_active_spec(),
            final(self).tables_view() == tables_view_of(tables@),
            final(self).names_view() == old(self).names_view(),
            final(self).tags_view() == old(self).tags_view(),
            final(self).readers_spec() == old(self).readers_spec(),
            final(self).closing_spec() == old(self).closing_spec(),
            final(self).epoch_spec() == old(self).epoch_spec(),
            final(self).config_spec() == old(self).config_spec(),
    {
        self.tables = tables;
        self.writer_active = false;
    }
}

} // verus!
