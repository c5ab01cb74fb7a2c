//! Fixed-size plain-data values and their byte representations.
//!
//! A [`FixedBytes`] type occupies a fixed number of bytes and converts to and
//! from them losslessly.  The integer wrappers fix a byte order: big-endian
//! wrappers sort numerically under the bytewise key order (see
//! [`lemma_beu32_preserves_order`]), which makes them the right key type for
//! integer-keyed tables; little-endian wrappers do not.

use vstd::prelude::*;

use crate::lex::{lex_lt, lemma_lex_common_prefix};

verus! {

/// A value with a fixed-size, lossless byte representation.
pub trait FixedBytes: Sized + Copy {
    /// How many bytes the representation occupies.
    spec fn size_spec() -> nat;

    /// The bytes representing `self`.
    spec fn to_bytes_spec(self) -> Seq<u8>;

    /// The value a representation of `size_spec()` bytes stands for.
    spec fn from_bytes_spec(b: Seq<u8>) -> Self;

    /// The representation has exactly `size_spec()` bytes.
    proof fn lemma_size(self)
        ensures
            self.to_bytes_spec().len() == Self::size_spec(),
    ;

    /// The representation is never empty.
    proof fn lemma_size_pos()
        ensures
            0 < Self::size_spec(),
    ;

    /// A small tag identifying this representation inside codec tags.
    spec fn tag_spec() -> int;

    /// The tag, as a machine integer below 256.
    fn type_tag() -> (t: u64)
        ensures
            t as int == Self::tag_spec(),
            t < 256,
    ;

    /// Reading a value's representation back gives the value.
    proof fn lemma_round_trip(self)
        ensures
            Self::from_bytes_spec(self.to_bytes_spec()) == self,
    ;

    /// The size, as a machine integer.
    fn byte_size() -> (n: usize)
        ensures
            n as nat == Self::size_spec(),
            0 < n,
    ;

    /// Writes the representation of `self`.
    fn to_bytes(&self) -> (r: Vec<u8>)
        ensures
            r@ == self.to_bytes_spec(),
    ;

    /// Reads a value back from its representation.
    fn from_bytes(b: &[u8]) -> (r: Self)
        requires
            b@.len() == Self::size_spec(),
        ensures
            r == Self::from_bytes_spec(b@),
    ;
}

/// The big-endian bytes of a 32-bit integer, most significant first.
pub open spec fn spec_u32_to_be_bytes(x: u32) -> Seq<u8> {
    seq![
        ((x >> 24) & 0xff) as u8,
        ((x >> 16) & 0xff) as u8,
        ((x >> 8) & 0xff) as u8,
        (x & 0xff) as u8,
    ]
}

/// The 32-bit integer four big-endian bytes stand for.
pub open spec fn spec_u32_from_be_bytes(s: Seq<u8>) -> u32
    recommends
        s.len() == 4,
{
    ((s[0] as u32) << 24 | (s[1] as u32) << 16 | (s[2] as u32) << 8 | (s[3] as u32)) as u32
}

/// Big-endian writing and reading of a 32-bit integer are inverses.
pub proof fn lemma_u32_be_round_trip(x: u32)
    ensures
        spec_u32_from_be_bytes(spec_u32_to_be_bytes(x)) == x,
{
    let b0 = ((x >> 24) & 0xff) as u8;
    let b1 = ((x >> 16) & 0xff) as u8;
    let b2 = ((x >> 8) & 0xff) as u8;
    let b3 = (x & 0xff) as u8;
    assert(((b0 as u32) << 24 | (b1 as u32) << 16 | (b2 as u32) << 8 | (b3 as u32)) as u32 == x)
        by (bit_vector)
        requires
            b0 == ((x >> 24) & 0xff) as u8,
            b1 == ((x >> 16) & 0xff) as u8,
            b2 == ((x >> 8) & 0xff) as u8,
            b3 == (x & 0xff) as u8,
    ;
}

/// A 32-bit unsigned integer stored as four big-endian bytes.
#[derive(Clone, Copy, Debug, PartialEq, Eq, Structural)]
pub struct BEU32(pub u32);

impl BEU32 {
    /// Wraps an integer.
    pub fn new(n: u32) -> (r: BEU32)
        ensures
            r.0 == n,
    {
        BEU32(n)
    }

    /// The wrapped integer.
    pub fn get(&self) -> (r: u32)
        ensures
            r == self.0,
    {
        self.0
    }
}

impl FixedBytes for BEU32 {
    open spec fn size_spec() -> nat {
        4
    }

    open spec fn to_bytes_spec(self) -> Seq<u8> {
        spec_u32_to_be_bytes(self.0)
    }

    open spec fn from_bytes_spec(b: Seq<u8>) -> Self {
        BEU32(spec_u32_from_be_bytes(b))
    }

    proof fn lemma_size(self) {
    }

    proof fn lemma_size_pos() {
    }

    open spec fn tag_spec() -> int {
        1
    }

    fn type_tag() -> (t: u64) {
        1
    }

    proof fn lemma_round_trip(self) {
        lemma_u32_be_round_trip(self.0);
    }

    fn byte_size() -> (n: usize) {
        4
    }

    fn to_bytes(&self) -> (r: Vec<u8>) {
        let x = self.0;
        let mut v: Vec<u8> = Vec::new();
        v.push(((x >> 24) & 0xff) as u8);
        v.push(((x >> 16) & 0xff) as u8);
        v.push(((x >> 8) & 0xff) as u8);
        v.push((x & 0xff) as u8);
        proof {
            assert(v@ =~= spec_u32_to_be_bytes(x));
        }
        v
    }

    fn from_bytes(b: &[u8]) -> (r: Self) {
        let x = (b[0] as u32) << 24 | (b[1] as u32) << 16 | (b[2] as u32) << 8 | (b[3] as u32);
        BEU32(x)
    }
}

/// Big-endian encoding preserves the numeric order under the bytewise key
/// order: smaller integers encode to lexicographically smaller keys.
pub proof fn lemma_beu32_preserves_order(a: u32, b: u32)
    requires
        a < b,
    ensures
        lex_lt(spec_u32_to_be_bytes(a), spec_u32_to_be_bytes(b)),
{
    let sa = spec_u32_to_be_bytes(a);
    let sb = spec_u32_to_be_bytes(b);
    let a0 = ((a >> 24) & 0xff) as u8;
    let a1 = ((a >> 16) & 0xff) as u8;
    let a2 = ((a >> 8) & 0xff) as u8;
    let a3 = (a & 0xff) as u8;
    let b0 = ((b >> 24) & 0xff) as u8;
    let b1 = ((b >> 16) & 0xff) as u8;
    let b2 = ((b >> 8) & 0xff) as u8;
    let b3 = (b & 0xff) as u8;
    assert(a0 < b0 || (a0 == b0 && (a1 < b1 || (a1 == b1 && (a2 < b2 || (a2 == b2 && a3 < b3))))))
        by (bit_vector)
        requires
            a < b,
            a0 == ((a >> 24) & 0xff) as u8,
            a1 == ((a >> 16) & 0xff) as u8,
            a2 == ((a >> 8) & 0xff) as u8,
            a3 == (a & 0xff) as u8,
            b0 == ((b >> 24) & 0xff) as u8,
            b1 == ((b >> 16) & 0xff) as u8,
            b2 == ((b >> 8) & 0xff) as u8,
            b3 == (b & 0xff) as u8,
    ;
    if a0 < b0 {
        lemma_lex_common_prefix(sa, sb, 0);
    } else if a1 < b1 {
        lemma_lex_common_prefix(sa, sb, 1);
    } else if a2 < b2 {
        lemma_lex_common_prefix(sa, sb, 2);
    } else {
        lemma_lex_common_prefix(sa, sb, 3);
    }
}

/// Reading four big-endian bytes and writing them again gives the bytes
/// back.
pub proof fn lemma_u32_be_to_from(s: Seq<u8>)
    requires
        s.len() == 4,
    ensures
        spec_u32_to_be_bytes(spec_u32_from_be_bytes(s)) == s,
{
    let x = spec_u32_from_be_bytes(s);
    let b0 = s[0];
    let b1 = s[1];
    let b2 = s[2];
    let b3 = s[3];
    assert(((x >> 24) & 0xff) as u8 == b0 && ((x >> 16) & 0xff) as u8 == b1 && ((x >> 8)
        & 0xff) as u8 == b2 && (x & 0xff) as u8 == b3) by (bit_vector)
        requires
            x == ((b0 as u32) << 24 | (b1 as u32) << 16 | (b2 as u32) << 8 | (b3 as u32)) as u32,
    ;
    assert(spec_u32_to_be_bytes(x) =~= s);
}

/// The bytewise order of four-byte big-endian keys is the numeric order
/// of the integers they stand for.
pub proof fn lemma_be32_lex_to_lt(a: Seq<u8>, b: Seq<u8>)
    requires
        a.len() == 4,
        b.len() == 4,
        lex_lt(a, b),
    ensures
        spec_u32_from_be_bytes(a) < spec_u32_from_be_bytes(b),
{
    let x = spec_u32_from_be_bytes(a);
    let y = spec_u32_from_be_bytes(b);
    lemma_u32_be_to_from(a);
    lemma_u32_be_to_from(b);
    if x == y {
        crate::lex::lemma_lex_irreflexive(a);
    }
    if x > y {
        lemma_beu32_preserves_order(y, x);
        crate::lex::lemma_lex_asymmetric(a, b);
    }
}

impl FixedBytes for u8 {
    open spec fn size_spec() -> nat {
        1
    }

    open spec fn to_bytes_spec(self) -> Seq<u8> {
        seq![self]
    }

    open spec fn from_bytes_spec(b: Seq<u8>) -> Self {
        b[0]
    }

    proof fn lemma_size(self) {
    }

    proof fn lemma_size_pos() {
    }

    open spec fn tag_spec() -> int {
        3
    }

    fn type_tag() -> (t: u64) {
        3
    }

    proof fn lemma_round_trip(self) {
    }

    fn byte_size() -> (n: usize) {
        1
    }

    fn to_bytes(&self) -> (r: Vec<u8>) {
        let mut v: Vec<u8> = Vec::new();
        v.push(*self);
        proof {
            assert(v@ =~= seq![*self]);
        }
        v
    }

    fn from_bytes(b: &[u8]) -> (r: Self) {
        b[0]
    }
}

/// A 32-bit unsigned integer stored as four little-endian bytes.
///
/// Little-endian keys do not sort numerically; use [`BEU32`] where the
/// numeric order of the keys matters.
#[derive(Clone, Copy, Debug, PartialEq, Eq, Structural)]
pub struct LEU32(pub u32);

impl LEU32 {
    /// Wraps an integer.
    pub fn new(n: u32) -> (r: LEU32)
        ensures
            r.0 == n,
    {
        LEU32(n)
    }

    /// The wrapped integer.
    pub fn get(&self) -> (r: u32)
        ensures
            r == self.0,
    {
        self.0
    }
}

impl FixedBytes for LEU32 {
    open spec fn size_spec() -> nat {
        4
    }

    open spec fn to_bytes_spec(self) -> Seq<u8> {
        vstd::bytes::spec_u32_to_le_bytes(self.0)
    }

    open spec fn from_bytes_spec(b: Seq<u8>) -> Self {
        LEU32(vstd::bytes::spec_u32_from_le_bytes(b))
    }

    proof fn lemma_size(self) {
        vstd::bytes::lemma_auto_spec_u32_to_from_le_bytes();
    }

    proof fn lemma_size_pos() {
    }

    open spec fn tag_spec() -> int {
        2
    }

    fn type_tag() -> (t: u64) {
        2
    }

    proof fn lemma_round_trip(self) {
        vstd::bytes::lemma_auto_spec_u32_to_from_le_bytes();
        assert(vstd::bytes::spec_u32_to_le_bytes(self.0).len() == 4);
        assert(vstd::bytes::spec_u32_from_le_bytes(vstd::bytes::spec_u32_to_le_bytes(self.0))
            == self.0);
    }

    fn byte_size() -> (n: usize) {
        4
    }

    fn to_bytes(&self) -> (r: Vec<u8>) {
        vstd::bytes::u32_to_le_bytes(self.0)
    }

    fn from_bytes(b: &[u8]) -> (r: Self) {
        LEU32(vstd::bytes::u32_from_le_bytes(b))
    }
}

} // verus!
