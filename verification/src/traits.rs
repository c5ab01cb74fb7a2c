//! The encode/decode contracts between typed values and byte sequences.
//!
//! An encoder maps a typed value to a byte sequence; a decoder maps a byte
//! sequence back to a typed value.  Each implementation fixes, at the
//! specification level, exactly which byte sequence a value encodes to and
//! exactly which values a byte sequence decodes to.

use vstd::prelude::*;

use crate::Error;

verus! {

/// A codec that turns typed values into byte sequences.
pub trait BytesEncode {
    /// The type of the values this codec encodes.
    type EItem;

    /// A tag identifying this codec.  The environment records the tag
    /// pairing a table was created with and refuses to reopen the table
    /// under a different pairing.
    spec fn tag_spec() -> int;

    /// The tag, as a machine integer.
    fn codec_tag() -> (t: u64)
        ensures
            t as int == Self::tag_spec(),
    ;

    /// Whether `item` can be encoded at all.
    spec fn encode_ok(item: &Self::EItem) -> bool;

    /// The byte sequence `item` encodes to, when `encode_ok` holds of it.
    spec fn encoded(item: &Self::EItem) -> Seq<u8>;

    /// Encodes `item`, or reports an [`Error::Encoding`] condition.
    fn bytes_encode(item: &Self::EItem) -> (r: Result<Vec<u8>, Error>)
        ensures
            r is Ok <==> Self::encode_ok(item),
            r matches Ok(v) ==> v@ == Self::encoded(item),
            r matches Err(e) ==> e matches Error::Encoding(_),
    ;
}

/// A codec that turns byte sequences back into typed values.
pub trait BytesDecode {
    /// The type of the values this codec decodes to.
    type DItem;

    /// Whether `bytes` is a valid encoding of some value.
    spec fn decode_ok(bytes: Seq<u8>) -> bool;

    /// The exact relation between input bytes and the decoded value: for a
    /// given `bytes` it determines the result up to its abstract view.
    spec fn decoded_to(bytes: Seq<u8>, v: &Self::DItem) -> bool;

    /// Decodes `bytes`, or reports an [`Error::Decoding`] condition.
    fn bytes_decode(bytes: &[u8]) -> (r: Result<Self::DItem, Error>)
        ensures
            r is Ok <==> Self::decode_ok(bytes@),
            r matches Ok(v) ==> Self::decoded_to(bytes@, &v),
            r matches Err(e) ==> e matches Error::Decoding(_),
    ;
}

} // verus!
