//! Concrete codecs: the types that can be stored in databases.
//!
//! Each codec fixes, at the specification level, exactly which byte sequence
//! a value encodes to and which values a byte sequence decodes to, and comes
//! with a proved round-trip law: decoding an encoded value gives the value
//! back.

use vstd::prelude::*;

use crate::fixed::FixedBytes;
use vstd::string::StrSliceExecFns;
use crate::traits::{BytesDecode, BytesEncode};
use crate::{CodecError, Error};

verus! {

/// Describes a fixed-size value that is decoded into a fresh owned value,
/// safe regardless of how the source bytes were placed in memory.
pub struct OwnedType<T>(core::marker::PhantomData<T>);

impl<T: FixedBytes> BytesEncode for OwnedType<T> {
    type EItem = T;

    open spec fn tag_spec() -> int {
        0x300 + T::tag_spec()
    }

    fn codec_tag() -> (t: u64) {
        0x300u64 + T::type_tag()
    }

    open spec fn encode_ok(item: &T) -> bool {
        true
    }

    open spec fn encoded(item: &T) -> Seq<u8> {
        item.to_bytes_spec()
    }

    fn bytes_encode(item: &T) -> (r: Result<Vec<u8>, Error>) {
        Ok(item.to_bytes())
    }
}

impl<T: FixedBytes> BytesDecode for OwnedType<T> {
    type DItem = T;

    open spec fn decode_ok(bytes: Seq<u8>) -> bool {
        bytes.len() == T::size_spec()
    }

    open spec fn decoded_to(bytes: Seq<u8>, v: &T) -> bool {
        *v == T::from_bytes_spec(bytes)
    }

    fn bytes_decode(bytes: &[u8]) -> (r: Result<T, Error>) {
        if bytes.len() == T::byte_size() {
            Ok(T::from_bytes(bytes))
        } else {
            Err(Error::Decoding(CodecError::SizeMismatch))
        }
    }
}

/// Decoding an encoded fixed-size value gives the value back.
pub proof fn lemma_owned_type_round_trip<T: FixedBytes>(x: T, v: T)
    ensures
        <OwnedType<T> as BytesDecode>::decode_ok(<OwnedType<T> as BytesEncode>::encoded(&x)),
        <OwnedType<T> as BytesDecode>::decoded_to(<OwnedType<T> as BytesEncode>::encoded(&x), &v)
            ==> v == x,
{
    x.lemma_size();
    x.lemma_round_trip();
}

/// Describes a fixed-size value whose byte representation carries no
/// alignment requirement of its own, so reading it back never has to care
/// how the source bytes were placed in memory.
pub struct UnalignedType<T>(core::marker::PhantomData<T>);

impl<T: FixedBytes> BytesEncode for UnalignedType<T> {
    type EItem = T;

    open spec fn tag_spec() -> int {
        0x400 + T::tag_spec()
    }

    fn codec_tag() -> (t: u64) {
        0x400u64 + T::type_tag()
    }

    open spec fn encode_ok(item: &T) -> bool {
        true
    }

    open spec fn encoded(item: &T) -> Seq<u8> {
        item.to_bytes_spec()
    }

    fn bytes_encode(item: &T) -> (r: Result<Vec<u8>, Error>) {
        Ok(item.to_bytes())
    }
}

impl<T: FixedBytes> BytesDecode for UnalignedType<T> {
    type DItem = T;

    open spec fn decode_ok(bytes: Seq<u8>) -> bool {
        bytes.len() == T::size_spec()
    }

    open spec fn decoded_to(bytes: Seq<u8>, v: &T) -> bool {
        *v == T::from_bytes_spec(bytes)
    }

    fn bytes_decode(bytes: &[u8]) -> (r: Result<T, Error>) {
        if bytes.len() == T::byte_size() {
            Ok(T::from_bytes(bytes))
        } else {
            Err(Error::Decoding(CodecError::SizeMismatch))
        }
    }
}

/// Decoding an encoded alignment-free value gives the value back.
pub proof fn lemma_unaligned_type_round_trip<T: FixedBytes>(x: T, v: T)
    ensures
        <UnalignedType<T> as BytesDecode>::decode_ok(<UnalignedType<T> as BytesEncode>::encoded(
            &x,
        )),
        <UnalignedType<T> as BytesDecode>::decoded_to(
            <UnalignedType<T> as BytesEncode>::encoded(&x),
            &v,
        ) ==> v == x,
{
    x.lemma_size();
    x.lemma_round_trip();
}

/// Describes UTF-8 text, stored without transformation.
pub struct Str;

impl BytesEncode for Str {
    type EItem = String;

    open spec fn tag_spec() -> int {
        1
    }

    fn codec_tag() -> (t: u64) {
        1
    }

    open spec fn encode_ok(item: &String) -> bool {
        true
    }

    open spec fn encoded(item: &String) -> Seq<u8> {
        vstd::utf8::encode_utf8(item@)
    }

    fn bytes_encode(item: &String) -> (r: Result<Vec<u8>, Error>) {
        Ok(item.as_str().as_bytes_vec())
    }
}

/// Relies on `String::from_utf8`: it succeeds exactly on valid UTF-8 input
/// and then returns the string those bytes encode.
#[verifier::external_body]
fn string_from_utf8(bytes: &[u8]) -> (r: Option<String>)
    ensures
        r is Some <==> vstd::utf8::valid_utf8(bytes@),
        r matches Some(s) ==> vstd::utf8::encode_utf8(s@) == bytes@,
{
    match String::from_utf8(bytes.to_vec()) {
        Ok(s) => Some(s),
        Err(_) => None,
    }
}

impl BytesDecode for Str {
    type DItem = String;

    open spec fn decode_ok(bytes: Seq<u8>) -> bool {
        vstd::utf8::valid_utf8(bytes)
    }

    open spec fn decoded_to(bytes: Seq<u8>, v: &String) -> bool {
        vstd::utf8::encode_utf8(v@) == bytes
    }

    fn bytes_decode(bytes: &[u8]) -> (r: Result<String, Error>) {
        match string_from_utf8(bytes) {
            Some(s) => Ok(s),
            None => Err(Error::Decoding(CodecError::InvalidEncoding)),
        }
    }
}

/// Decoding an encoded string gives text with the same characters back.
pub proof fn lemma_str_round_trip(s: String, v: String)
    ensures
        Str::decode_ok(Str::encoded(&s)),
        Str::decoded_to(Str::encoded(&s), &v) ==> v@ == s@,
{
    broadcast use vstd::utf8::encode_utf8_valid_utf8;
    broadcast use vstd::utf8::encode_utf8_decode_utf8;

    assert(vstd::utf8::decode_utf8(vstd::utf8::encode_utf8(s@)) == s@);
    assert(vstd::utf8::decode_utf8(vstd::utf8::encode_utf8(v@)) == v@);
}

/// Describes the unit `()` type, encoded as zero bytes.
pub struct Unit;

impl BytesEncode for Unit {
    type EItem = ();

    open spec fn tag_spec() -> int {
        2
    }

    fn codec_tag() -> (t: u64) {
        2
    }

    open spec fn encode_ok(item: &()) -> bool {
        true
    }

    open spec fn encoded(item: &()) -> Seq<u8> {
        Seq::empty()
    }

    fn bytes_encode(item: &()) -> (r: Result<Vec<u8>, Error>) {
        let v: Vec<u8> = Vec::new();
        proof {
            assert(v@ =~= Seq::<u8>::empty());
        }
        Ok(v)
    }
}

impl BytesDecode for Unit {
    type DItem = ();

    open spec fn decode_ok(bytes: Seq<u8>) -> bool {
        bytes.len() == 0
    }

    open spec fn decoded_to(bytes: Seq<u8>, v: &()) -> bool {
        true
    }

    fn bytes_decode(bytes: &[u8]) -> (r: Result<(), Error>) {
        if bytes.len() == 0 {
            Ok(())
        } else {
            Err(Error::Decoding(CodecError::SizeMismatch))
        }
    }
}

/// The concatenation of the byte representations of a sequence of
/// fixed-size values.
pub open spec fn encoded_slice<T: FixedBytes>(items: Seq<T>) -> Seq<u8>
    decreases items.len(),
{
    if items.len() == 0 {
        Seq::empty()
    } else {
        items[0].to_bytes_spec() + encoded_slice(items.drop_first())
    }
}

/// The sequence of fixed-size values read back from a concatenation of
/// their byte representations, chunk by chunk.
pub open spec fn decoded_slice<T: FixedBytes>(bytes: Seq<u8>) -> Seq<T>
    decreases bytes.len(),
{
    if T::size_spec() == 0 || bytes.len() < T::size_spec() {
        Seq::empty()
    } else {
        seq![T::from_bytes_spec(bytes.take(T::size_spec() as int))] + decoded_slice::<T>(
            bytes.skip(T::size_spec() as int),
        )
    }
}

/// An encoded slice takes one chunk of bytes per element.
pub proof fn lemma_encoded_slice_len<T: FixedBytes>(items: Seq<T>)
    ensures
        encoded_slice(items).len() == items.len() * T::size_spec(),
    decreases items.len(),
{
    if items.len() == 0 {
        assert(items.len() * T::size_spec() == 0) by (nonlinear_arith)
            requires
                items.len() == 0,
        ;
    } else {
        items[0].lemma_size();
        lemma_encoded_slice_len::<T>(items.drop_first());
        assert(T::size_spec() + (items.len() - 1) * T::size_spec() == items.len()
            * T::size_spec()) by (nonlinear_arith);
    }
}

/// Decoding an encoded slice gives the elements back.
pub proof fn lemma_slice_round_trip<T: FixedBytes>(items: Seq<T>)
    ensures
        decoded_slice::<T>(encoded_slice(items)) == items,
    decreases items.len(),
{
    T::lemma_size_pos();
    let size = T::size_spec() as int;
    if items.len() == 0 {
        assert(decoded_slice::<T>(encoded_slice(items)) =~= items);
    } else {
        let head = items[0];
        let rest = items.drop_first();
        head.lemma_size();
        head.lemma_round_trip();
        lemma_encoded_slice_len::<T>(rest);
        assert(rest.len() * T::size_spec() >= 0) by (nonlinear_arith);
        let e = encoded_slice(items);
        assert(e.take(size) =~= head.to_bytes_spec());
        assert(e.skip(size) =~= encoded_slice(rest));
        lemma_slice_round_trip::<T>(rest);
        assert(decoded_slice::<T>(e) =~= items);
    }
}

/// The length of an encoded slice is divisible by the chunk size.
pub proof fn lemma_encoded_slice_divisible<T: FixedBytes>(items: Seq<T>)
    ensures
        encoded_slice(items).len() % T::size_spec() == 0,
{
    T::lemma_size_pos();
    lemma_encoded_slice_len::<T>(items);
    assert((items.len() * T::size_spec()) % T::size_spec() == 0) by (nonlinear_arith)
        requires
            T::size_spec() > 0,
    ;
}

/// Writes the concatenated representations of `items`.
fn encode_fixed_slice<T: FixedBytes>(items: &Vec<T>) -> (r: Vec<u8>)
    ensures
        r@ == encoded_slice(items@),
{
    let ghost all = items@;
    let mut out: Vec<u8> = Vec::new();
    let mut i: usize = 0;
    proof {
        assert(all.skip(0) =~= all);
        assert(out@ + encoded_slice(all) =~= encoded_slice(all));
    }
    while i < items.len()
        invariant
            0 <= i <= all.len(),
            items@ == all,
            out@ + encoded_slice(all.skip(i as int)) == encoded_slice(all),
        decreases all.len() - i,
    {
        let mut b = items[i].to_bytes();
        proof {
            let tail = all.skip(i as int);
            assert(tail[0] == all[i as int]);
            assert(tail.drop_first() =~= all.skip(i as int + 1));
            assert(encoded_slice(tail) == all[i as int].to_bytes_spec() + encoded_slice(
                all.skip(i as int + 1),
            ));
            assert((out@ + b@) + encoded_slice(all.skip(i as int + 1)) =~= out@ + (b@
                + encoded_slice(all.skip(i as int + 1))));
        }
        out.append(&mut b);
        i += 1;
    }
    proof {
        assert(all.skip(all.len() as int) =~= Seq::empty());
        assert(out@ + Seq::<u8>::empty() =~= out@);
    }
    out
}

/// Reads fixed-size values back from concatenated representations, or
/// reports that the length does not divide into chunks.
fn decode_fixed_slice<T: FixedBytes>(bytes: &[u8]) -> (r: Option<Vec<T>>)
    ensures
        r is Some <==> bytes@.len() % T::size_spec() == 0,
        r matches Some(v) ==> v@ == decoded_slice::<T>(bytes@),
{
    let size = T::byte_size();
    let len = bytes.len();
    if len % size != 0 {
        return None;
    }
    let n = len / size;
    proof {
        vstd::arithmetic::div_mod::lemma_fundamental_div_mod(len as int, size as int);
        assert(n * size == len) by (nonlinear_arith)
            requires
                size > 0,
                len % size == 0,
                n == len / size,
                size * (len / size) + len % size == len,
        ;
    }
    let mut out: Vec<T> = Vec::new();
    let mut j: usize = 0;
    let mut i: usize = 0;
    proof {
        assert(bytes@.skip(0) =~= bytes@);
        assert(out@ + decoded_slice::<T>(bytes@) =~= decoded_slice::<T>(bytes@));
        assert(0 == 0 * T::size_spec()) by (nonlinear_arith);
    }
    while j < n
        invariant
            0 <= j <= n,
            i == j * T::size_spec(),
            size == T::size_spec(),
            0 < size,
            n * size == len,
            len == bytes@.len(),
            out@.len() == j,
            out@ + decoded_slice::<T>(bytes@.skip(i as int)) == decoded_slice::<T>(bytes@),
        decreases n - j,
    {
        proof {
            assert(i + size <= len && (j + 1) * size == i + size) by (nonlinear_arith)
                requires
                    i == j * size,
                    j < n,
                    n * size == len,
                    0 < size,
            ;
        }
        let chunk = vstd::slice::slice_subrange(bytes, i, i + size);
        let item = T::from_bytes(chunk);
        proof {
            let tail = bytes@.skip(i as int);
            assert(tail.take(size as int) =~= bytes@.subrange(i as int, i as int + size as int));
            assert(tail.skip(size as int) =~= bytes@.skip(i as int + size as int));
            assert(decoded_slice::<T>(tail) == seq![item] + decoded_slice::<T>(
                bytes@.skip(i as int + size as int),
            ));
            assert((out@ + seq![item]) + decoded_slice::<T>(bytes@.skip(i as int + size as int))
                =~= out@ + (seq![item] + decoded_slice::<T>(bytes@.skip(i as int + size as int))));
        }
        out.push(item);
        j += 1;
        i += size;
    }
    proof {
        assert(i == len) by (nonlinear_arith)
            requires
                i == n * T::size_spec(),
                n * T::size_spec() == len,
        ;
        assert(bytes@.skip(len as int) =~= Seq::empty());
        assert(out@ + Seq::<T>::empty() =~= out@);
    }
    Some(out)
}

/// Describes a slice of fixed-size values whose representation would have
/// to be memory aligned to be reused in place: decoding reads the chunks
/// out into a fresh vector, so it never fails for alignment reasons, only
/// when the byte length does not divide into chunks.
pub struct CowSlice<T>(core::marker::PhantomData<T>);

impl<T: FixedBytes> BytesEncode for CowSlice<T> {
    type EItem = Vec<T>;

    open spec fn tag_spec() -> int {
        0x500 + T::tag_spec()
    }

    fn codec_tag() -> (t: u64) {
        0x500u64 + T::type_tag()
    }

    open spec fn encode_ok(item: &Vec<T>) -> bool {
        true
    }

    open spec fn encoded(item: &Vec<T>) -> Seq<u8> {
        encoded_slice(item@)
    }

    fn bytes_encode(item: &Vec<T>) -> (r: Result<Vec<u8>, Error>) {
        Ok(encode_fixed_slice(item))
    }
}

impl<T: FixedBytes> BytesDecode for CowSlice<T> {
    type DItem = Vec<T>;

    open spec fn decode_ok(bytes: Seq<u8>) -> bool {
        bytes.len() % T::size_spec() == 0
    }

    open spec fn decoded_to(bytes: Seq<u8>, v: &Vec<T>) -> bool {
        v@ == decoded_slice::<T>(bytes)
    }

    fn bytes_decode(bytes: &[u8]) -> (r: Result<Vec<T>, Error>) {
        match decode_fixed_slice(bytes) {
            Some(v) => Ok(v),
            None => Err(Error::Decoding(CodecError::SizeMismatch)),
        }
    }
}

/// Decoding an encoded slice of values gives the values back.
pub proof fn lemma_cow_slice_round_trip<T: FixedBytes>(items: Vec<T>, v: Vec<T>)
    ensures
        <CowSlice<T> as BytesDecode>::decode_ok(<CowSlice<T> as BytesEncode>::encoded(&items)),
        <CowSlice<T> as BytesDecode>::decoded_to(
            <CowSlice<T> as BytesEncode>::encoded(&items),
            &v,
        ) ==> v@ == items@,
{
    lemma_encoded_slice_divisible::<T>(items@);
    lemma_slice_round_trip::<T>(items@);
}

/// Describes a slice of fixed-size values that is free of alignment
/// requirements altogether; decoding fails only when the byte length does
/// not divide into chunks.
pub struct UnalignedSlice<T>(core::marker::PhantomData<T>);

impl<T: FixedBytes> BytesEncode for UnalignedSlice<T> {
    type EItem = Vec<T>;

    open spec fn tag_spec() -> int {
        0x600 + T::tag_spec()
    }

    fn codec_tag() -> (t: u64) {
        0x600u64 + T::type_tag()
    }

    open spec fn encode_ok(item: &Vec<T>) -> bool {
        true
    }

    open spec fn encoded(item: &Vec<T>) -> Seq<u8> {
        encoded_slice(item@)
    }

    fn bytes_encode(item: &Vec<T>) -> (r: Result<Vec<u8>, Error>) {
        Ok(encode_fixed_slice(item))
    }
}

impl<T: FixedBytes> BytesDecode for UnalignedSlice<T> {
    type DItem = Vec<T>;

    open spec fn decode_ok(bytes: Seq<u8>) -> bool {
        bytes.len() % T::size_spec() == 0
    }

    open spec fn decoded_to(bytes: Seq<u8>, v: &Vec<T>) -> bool {
        v@ == decoded_slice::<T>(bytes)
    }

    fn bytes_decode(bytes: &[u8]) -> (r: Result<Vec<T>, Error>) {
        match decode_fixed_slice(bytes) {
            Some(v) => Ok(v),
            None => Err(Error::Decoding(CodecError::SizeMismatch)),
        }
    }
}

/// Decoding an encoded alignment-free slice gives the values back.
pub proof fn lemma_unaligned_slice_round_trip<T: FixedBytes>(items: Vec<T>, v: Vec<T>)
    ensures
        <UnalignedSlice<T> as BytesDecode>::decode_ok(
            <UnalignedSlice<T> as BytesEncode>::encoded(&items),
        ),
        <UnalignedSlice<T> as BytesDecode>::decoded_to(
            <UnalignedSlice<T> as BytesEncode>::encoded(&items),
            &v,
        ) ==> v@ == items@,
{
    lemma_encoded_slice_divisible::<T>(items@);
    lemma_slice_round_trip::<T>(items@);
}

/// A convenient struct made to ignore the stored bytes when decoding.
///
/// It is appropriate for counting entries or checking that an entry exists
/// without materializing its value.
pub struct DecodeIgnore;

impl BytesDecode for DecodeIgnore {
    type DItem = ();

    open spec fn decode_ok(bytes: Seq<u8>) -> bool {
        true
    }

    open spec fn decoded_to(bytes: Seq<u8>, v: &()) -> bool {
        true
    }

    fn bytes_decode(bytes: &[u8]) -> (r: Result<(), Error>) {
        Ok(())
    }
}

} // verus!
