//! A typed, transactional access layer over a sorted key/value store.
//!
//! The crate models an embedded store in which every named table maps byte
//! keys, kept in bytewise lexicographic order, to byte values.  On top of the
//! store it verifies:
//!
//! * a codec layer ([`BytesEncode`] / [`BytesDecode`]) turning typed values
//!   into byte sequences and back, with exact byte-level specifications;
//! * environments, read-only snapshot transactions and a single exclusive
//!   read-write transaction per environment;
//! * typed database handles with get/put/delete/clear and ordered iteration;
//! * cursors with directional movement, in-place mutation and sorted append;
//! * a gap-discovery identifier allocator that yields the smallest integers
//!   not yet used as keys of a table.
//!
//! [`BytesEncode`]: crate::traits::BytesEncode
//! [`BytesDecode`]: crate::traits::BytesDecode

use vstd::prelude::*;

pub mod cursor;
pub mod database;
pub mod env;
pub mod fixed;
pub mod ids;
pub mod iter;
pub mod lex;
pub mod table;
pub mod traits;
pub mod txn;
pub mod types;

verus! {

/// Errors reported by the storage engine.
#[derive(Clone, Copy, Debug, PartialEq, Eq, Structural)]
pub enum MdbError {
    /// A key was handed to a sorted append although it does not come after
    /// every key already present.
    KeyExist,
    /// The requested entry is absent.  Lookups translate this to `None`
    /// rather than surfacing it.
    NotFound,
    /// The store has reached its configured mapped-size ceiling.
    MapFull,
    /// The environment already holds its configured maximum of named tables.
    DbsFull,
    /// The environment already has its configured maximum of live readers.
    ReadersFull,
    /// Another read-write transaction is active; a threaded binding would
    /// block here, this layer reports the contention to the caller instead.
    Busy,
    /// A database handle does not denote a table of the transaction.
    BadDbi,
    /// Any other engine failure, as a raw operating-system error code.
    Other(i32),
}

/// Reasons a codec refuses to encode or decode.
#[derive(Clone, Copy, Debug, PartialEq, Eq, Structural)]
pub enum CodecError {
    /// The byte length is inconsistent with the size of the target type.
    SizeMismatch,
    /// The bytes are not a valid encoding (for instance, not valid UTF-8).
    InvalidEncoding,
}

/// An error that encapsulates all possible errors in this crate.
#[derive(Clone, Copy, Debug, PartialEq, Eq, Structural)]
pub enum Error {
    /// A filesystem or mapping failure, as a raw operating-system error code.
    Io(i32),
    /// An underlying store error.
    Mdb(MdbError),
    /// A key or value could not be encoded.
    Encoding(CodecError),
    /// Stored bytes could not be decoded.
    Decoding(CodecError),
    /// A table was reopened with a codec pairing differing from the one it
    /// was created with.
    InvalidDatabaseTyping,
    /// The environment is in its closing phase and refuses new work.
    DatabaseClosing,
    /// The identifier space is depleted: no unused identifier is left.
    Exhausted,
}

impl From<MdbError> for Error {
    /// Engine errors other than `Other` keep their identity; `Other` carries
    /// an operating-system error code and becomes an I/O error.
    fn from(error: MdbError) -> (r: Error) {
        match error {
            MdbError::Other(e) => Error::Io(e),
            _ => Error::Mdb(error),
        }
    }
}

impl vstd::std_specs::convert::FromSpecImpl<MdbError> for Error {
    open spec fn obeys_from_spec() -> bool {
        true
    }

    open spec fn from_spec(t: MdbError) -> Error {
        match t {
            MdbError::Other(e) => Error::Io(e),
            _ => Error::Mdb(t),
        }
    }
}

} // verus!
