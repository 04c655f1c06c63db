//! Variable-length integers as bincode's standard configuration writes them,
//! and the little- and big-endian byte strings they are made of.

use vstd::prelude::*;

verus! {

/// The number that a little-endian byte string stands for.
pub open spec fn le_value(s: Seq<u8>) -> nat
    decreases s.len(),
{
    if s.len() == 0 {
        0
    } else {
        s[0] as nat + 256 * le_value(s.drop_first())
    }
}

/// The `n` low bytes of `v`, least significant first.
pub open spec fn le_bytes(v: nat, n: nat) -> Seq<u8>
    decreases n,
{
    if n == 0 {
        seq![]
    } else {
        seq![(v % 256) as u8] + le_bytes(v / 256, (n - 1) as nat)
    }
}

/// The bytes bincode's standard configuration writes for an unsigned integer:
/// one byte up to 250, else a marker byte (251, 252, 253) and the value in
/// 2, 4 or 8 little-endian bytes.
pub open spec fn varint_bytes(v: u64) -> Seq<u8> {
    if v <= 250 {
        seq![v as u8]
    } else if v <= 0xffff {
        seq![251u8] + le_bytes(v as nat, 2)
    } else if v <= 0xffff_ffff {
        seq![252u8] + le_bytes(v as nat, 4)
    } else {
        seq![253u8] + le_bytes(v as nat, 8)
    }
}

/// What bincode's standard configuration reads as a `u32` at the start of
/// `b`: the value and the number of bytes it takes, or `None`.
pub open spec fn varint_u32_read(b: Seq<u8>) -> Option<(u32, nat)> {
    if b.len() == 0 {
        None
    } else if b[0] <= 250 {
        Some((b[0] as u32, 1))
    } else if b[0] == 251 {
        if b.len() >= 3 { Some((le_value(b.subrange(1, 3)) as u32, 3)) } else { None }
    } else if b[0] == 252 {
        if b.len() >= 5 { Some((le_value(b.subrange(1, 5)) as u32, 5)) } else { None }
    } else {
        None
    }
}

/// What bincode's standard configuration reads as a `u64` at the start of
/// `b`: the value and the number of bytes it takes, or `None`.
pub open spec fn varint_u64_read(b: Seq<u8>) -> Option<(u64, nat)> {
    if b.len() == 0 {
        None
    } else if b[0] <= 250 {
        Some((b[0] as u64, 1))
    } else if b[0] == 251 {
        if b.len() >= 3 { Some((le_value(b.subrange(1, 3)) as u64, 3)) } else { None }
    } else if b[0] == 252 {
        if b.len() >= 5 { Some((le_value(b.subrange(1, 5)) as u64, 5)) } else { None }
    } else if b[0] == 253 {
        if b.len() >= 9 { Some((le_value(b.subrange(1, 9)) as u64, 9)) } else { None }
    } else {
        None
    }
}

/// `bincode::encode_to_vec` of a `u32` with `bincode::config::standard()`.
/// Claimed: the result is the variable-length encoding `varint_bytes`
/// (bincode's `varint_encode_u32`, little-endian); writing to a `Vec` does
/// not fail.
#[verifier::external_body]
pub(crate) fn encode_varint_u32(v: u32) -> (r: Vec<u8>)
    ensures
        r@ == varint_bytes(v as u64),
{
    bincode::encode_to_vec(v, bincode::config::standard()).expect("writing to a Vec does not fail")
}

/// `bincode::encode_to_vec` of a byte slice with `bincode::config::standard()`.
/// Claimed: the result is the slice's length as a variable-length `u64`
/// followed by the bytes themselves (bincode's `Encode for [T]` with `T = u8`).
#[verifier::external_body]
pub(crate) fn encode_byte_string(b: &[u8]) -> (r: Vec<u8>)
    ensures
        r@ == varint_bytes(b@.len() as u64) + b@,
{
    bincode::encode_to_vec(b, bincode::config::standard()).expect("writing to a Vec does not fail")
}

/// `bincode::decode_from_slice::<u32, _>` with `bincode::config::standard()`,
/// its error turned into `None`.
/// Claimed: it reads as `varint_u32_read` says (bincode's `varint_decode_u32`),
/// and reports the bytes it read.
#[verifier::external_body]
pub(crate) fn decode_varint_u32(b: &[u8]) -> (r: Option<(u32, usize)>)
    ensures
        match varint_u32_read(b@) {
            Some((v, n)) => r == Some((v, n as usize)),
            None => r is None,
        },
{
    bincode::decode_from_slice::<u32, _>(b, bincode::config::standard()).ok()
}

/// `bincode::decode_from_slice::<u64, _>` with `bincode::config::standard()`,
/// its error turned into `None`.
/// Claimed: it reads as `varint_u64_read` says (bincode's `varint_decode_u64`),
/// and reports the bytes it read.
#[verifier::external_body]
pub(crate) fn decode_varint_u64(b: &[u8]) -> (r: Option<(u64, usize)>)
    ensures
        match varint_u64_read(b@) {
            Some((v, n)) => r == Some((v, n as usize)),
            None => r is None,
        },
{
    bincode::decode_from_slice::<u64, _>(b, bincode::config::standard()).ok()
}

} // verus!
