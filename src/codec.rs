//! Borsh encodings of the values that travel through a witness.

use vstd::prelude::*;
use vstd::bytes::{spec_u32_from_le_bytes, spec_u32_to_le_bytes, spec_u64_from_le_bytes, spec_u64_to_le_bytes};

verus! {

/// Borsh bytes of a `u64`: its eight little-endian bytes.
pub open spec fn u64_encoding(v: u64) -> Seq<u8> {
    spec_u64_to_le_bytes(v)
}

/// The `u64` that borsh reads from exactly these bytes, if any.
pub open spec fn u64_decoding(b: Seq<u8>) -> Option<u64> {
    if b.len() == 8 {
        Some(spec_u64_from_le_bytes(b))
    } else {
        None
    }
}

/// Borsh bytes of an optional byte string: a tag byte, then for `Some` the
/// length as a little-endian `u32` followed by the bytes themselves.
pub open spec fn value_encoding(v: Option<Seq<u8>>) -> Seq<u8> {
    match v {
        None => seq![0u8],
        Some(b) => seq![1u8] + spec_u32_to_le_bytes(b.len() as u32) + b,
    }
}

/// The optional byte string that borsh reads from exactly these bytes, if any.
pub open spec fn value_decoding(b: Seq<u8>) -> Option<Option<Seq<u8>>> {
    if b.len() == 1 && b[0] == 0 {
        Some(None)
    } else if b.len() >= 5 && b[0] == 1 && spec_u32_from_le_bytes(b.subrange(1, 5)) as int
        == b.len() - 5 {
        Some(Some(b.subrange(5, b.len() as int)))
    } else {
        None
    }
}

/// The view of an optional byte vector.
pub open spec fn opt_bytes_view(v: Option<Vec<u8>>) -> Option<Seq<u8>> {
    match v {
        None => None,
        Some(b) => Some(b@),
    }
}

/// Relies on `BorshSerialize for u64` (borsh `try_to_vec`): the value's eight
/// little-endian bytes; writing into a `Vec` cannot fail.
#[verifier::external_body]
fn borsh_u64_to_vec(v: u64) -> (r: Vec<u8>)
    ensures
        r@ == u64_encoding(v),
{
    borsh::BorshSerialize::try_to_vec(&v).unwrap()
}

/// Relies on `BorshDeserialize::try_from_slice` for `u64`: it reads eight
/// little-endian bytes and fails on a shorter input or on bytes left over.
#[verifier::external_body]
fn borsh_u64_from_slice(b: &[u8]) -> (r: Option<u64>)
    ensures
        r == u64_decoding(b@),
{
    <u64 as borsh::BorshDeserialize>::try_from_slice(b).ok()
}

/// Relies on `BorshSerialize for Option<Vec<u8>>` (borsh `try_to_vec`): tag
/// byte, `u32` little-endian length, bytes. It fails only on a length that
/// does not fit in a `u32`, which `requires` leaves out.
#[verifier::external_body]
fn borsh_value_to_vec(v: &Option<Vec<u8>>) -> (r: Vec<u8>)
    requires
        v matches Some(b) ==> b@.len() <= u32::MAX,
    ensures
        r@ == value_encoding(opt_bytes_view(*v)),
{
    borsh::BorshSerialize::try_to_vec(v).unwrap()
}

/// Relies on `BorshDeserialize::try_from_slice` for `Option<Vec<u8>>`: tag 0
/// or 1, then a `u32` length and exactly that many bytes, nothing left over.
#[verifier::external_body]
fn borsh_value_from_slice(b: &[u8]) -> (r: Option<Option<Vec<u8>>>)
    ensures
        match r {
            None => value_decoding(b@) is None,
            Some(v) => value_decoding(b@) == Some(opt_bytes_view(v)),
        },
{
    <Option<Vec<u8>> as borsh::BorshDeserialize>::try_from_slice(b).ok()
}

/// Encodes a `u64` hint.
pub fn encode_u64(v: u64) -> (r: Vec<u8>)
    ensures
        r@ == u64_encoding(v),
{
    borsh_u64_to_vec(v)
}

/// Decodes a `u64` hint; `None` when the bytes are not one.
pub fn decode_u64(b: &[u8]) -> (r: Option<u64>)
    ensures
        r == u64_decoding(b@),
{
    borsh_u64_from_slice(b)
}

/// Encodes an optional storage value.
pub fn encode_value(v: &Option<Vec<u8>>) -> (r: Vec<u8>)
    requires
        v matches Some(b) ==> b@.len() <= u32::MAX,
    ensures
        r@ == value_encoding(opt_bytes_view(*v)),
{
    borsh_value_to_vec(v)
}

/// Decodes an optional storage value; `None` when the bytes are not one.
pub fn decode_value(b: &[u8]) -> (r: Option<Option<Vec<u8>>>)
    ensures
        r is None <==> value_decoding(b@) is None,
        r matches Some(v) ==> value_decoding(b@) == Some(opt_bytes_view(v)),
{
    borsh_value_from_slice(b)
}

/// Decoding a `u64` hint gives back the encoded value.
pub proof fn lemma_u64_round_trip(v: u64)
    ensures
        u64_decoding(u64_encoding(v)) == Some(v),
{
    vstd::bytes::lemma_auto_spec_u64_to_from_le_bytes();
}

/// Decoding a storage-value hint gives back the encoded value.
pub proof fn lemma_value_round_trip(v: Option<Seq<u8>>)
    requires
        v matches Some(b) ==> b.len() <= u32::MAX,
    ensures
        value_decoding(value_encoding(v)) == Some(v),
{
    vstd::bytes::lemma_auto_spec_u32_to_from_le_bytes();
    match v {
        None => {},
        Some(b) => {
            let e = value_encoding(v);
            let l = spec_u32_to_le_bytes(b.len() as u32);
            assert(e.subrange(1, 5) =~= l);
            assert(e.subrange(5, e.len() as int) =~= b);
        },
    }
}

} // verus!
