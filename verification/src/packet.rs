//! The packets that clients and servers exchange, and their byte form.
//!
//! A packet is its variant's index as a variable-length `u32`; a variant that
//! carries an identifier follows it with the identifier's sixteen UUID bytes,
//! prefixed by their count (16) as a variable-length `u64`. This is the form
//! bincode's standard configuration gives these enums.

use vstd::prelude::*;
use vstd::slice::slice_subrange;
use crate::ids::{
    be_value, id_bytes, id_from_bytes, id_to_bytes, lemma_bytes_id_roundtrip, lemma_id_bytes_roundtrip,
};
use crate::wire::{
    decode_varint_u32, decode_varint_u64, encode_byte_string, encode_varint_u32, varint_bytes,
    varint_u32_read, varint_u64_read,
};

verus! {

/// What a client asks of a server.
#[derive(Debug, Clone, Copy, PartialEq, Eq, Structural, Hash, PartialOrd, Ord)]
pub enum RequestPacket {
    /// Take a new hold on the server's semaphore.
    Acquire,
    /// Give up the hold with this identifier.
    Release(u128),
    /// Ask whether the hold with this identifier is still there.
    IsAcquired(u128),
}

/// What a server answers.
#[derive(Debug, Clone, Copy, PartialEq, Eq, Structural, Hash, PartialOrd, Ord)]
pub enum ResponsePacket {
    Success(u128),
    Failure,
}

impl ResponsePacket {
    /// The identifier that a successful answer carries: what an acquisition
    /// hands back. `None` for `Failure`.
    pub fn granted_id(&self) -> (r: Option<u128>)
        ensures
            r == (match *self {
                ResponsePacket::Success(id) => Some(id),
                ResponsePacket::Failure => None,
            }),
    {
        match *self {
            ResponsePacket::Success(id) => Some(id),
            ResponsePacket::Failure => None,
        }
    }

    /// Whether the answer is `Success`: what a release or a check reports.
    pub fn is_success(&self) -> (r: bool)
        ensures
            r == (*self is Success),
    {
        match *self {
            ResponsePacket::Success(_) => true,
            ResponsePacket::Failure => false,
        }
    }
}

/// Why bytes are not a packet.
#[derive(Debug, Clone, Copy, PartialEq, Eq, Structural)]
pub enum PacketError {
    /// No integer could be read where one was due: the bytes end first, or
    /// its marker byte is not one that the integer's width allows.
    BadInteger,
    /// The variant index names no variant.
    UnknownVariant(u32),
    /// Fewer bytes are left than the identifier's length prefix announces.
    Truncated,
    /// The identifier's length prefix is not 16.
    BadIdLength(u64),
}

/// The bytes of an identifier field: its length, then its sixteen bytes.
pub open spec fn id_field_bytes(id: u128) -> Seq<u8> {
    varint_bytes(16) + id_bytes(id)
}

pub open spec fn request_bytes(r: RequestPacket) -> Seq<u8> {
    match r {
        RequestPacket::Acquire => varint_bytes(0),
        RequestPacket::Release(id) => varint_bytes(1) + id_field_bytes(id),
        RequestPacket::IsAcquired(id) => varint_bytes(2) + id_field_bytes(id),
    }
}

pub open spec fn response_bytes(r: ResponsePacket) -> Seq<u8> {
    match r {
        ResponsePacket::Success(id) => varint_bytes(0) + id_field_bytes(id),
        ResponsePacket::Failure => varint_bytes(1),
    }
}

/// An identifier field read from the start of `b`, with the bytes it takes.
pub open spec fn id_field_read(b: Seq<u8>) -> Result<(u128, nat), PacketError> {
    match varint_u64_read(b) {
        None => Err(PacketError::BadInteger),
        Some((len, n)) => if b.len() - n < len {
            Err(PacketError::Truncated)
        } else if len != 16 {
            Err(PacketError::BadIdLength(len))
        } else {
            Ok((be_value(b.subrange(n as int, n + 16int)) as u128, n + 16))
        },
    }
}

/// A request read from the start of `b`, with the bytes it takes.
pub open spec fn request_read(b: Seq<u8>) -> Result<(RequestPacket, nat), PacketError> {
    match varint_u32_read(b) {
        None => Err(PacketError::BadInteger),
        Some((tag, n)) => if tag == 0 {
            Ok((RequestPacket::Acquire, n))
        } else if tag == 1 || tag == 2 {
            match id_field_read(b.skip(n as int)) {
                Err(e) => Err(e),
                Ok((id, m)) => Ok(
                    (
                        if tag == 1 {
                            RequestPacket::Release(id)
                        } else {
                            RequestPacket::IsAcquired(id)
                        },
                        n + m,
                    ),
                ),
            }
        } else {
            Err(PacketError::UnknownVariant(tag))
        },
    }
}

/// A response read from the start of `b`, with the bytes it takes.
pub open spec fn response_read(b: Seq<u8>) -> Result<(ResponsePacket, nat), PacketError> {
    match varint_u32_read(b) {
        None => Err(PacketError::BadInteger),
        Some((tag, n)) => if tag == 0 {
            match id_field_read(b.skip(n as int)) {
                Err(e) => Err(e),
                Ok((id, m)) => Ok((ResponsePacket::Success(id), n + m)),
            }
        } else if tag == 1 {
            Ok((ResponsePacket::Failure, n))
        } else {
            Err(PacketError::UnknownVariant(tag))
        },
    }
}

pub open spec fn as_spec_result<T>(r: Result<(T, usize), PacketError>) -> Result<(T, nat), PacketError> {
    match r {
        Ok((v, n)) => Ok((v, n as nat)),
        Err(e) => Err(e),
    }
}

/// The layout of every packet: its variant index as one byte, then, for a
/// variant with an identifier, the count 16 and the identifier's own sixteen
/// bytes, most significant first (the bytes that read back big-endian as it).
pub proof fn lemma_packet_layout(id: u128)
    ensures
        request_bytes(RequestPacket::Acquire) == seq![0u8],
        request_bytes(RequestPacket::Release(id)) == seq![1u8, 16u8] + id_bytes(id),
        request_bytes(RequestPacket::IsAcquired(id)) == seq![2u8, 16u8] + id_bytes(id),
        response_bytes(ResponsePacket::Success(id)) == seq![0u8, 16u8] + id_bytes(id),
        response_bytes(ResponsePacket::Failure) == seq![1u8],
        id_bytes(id).len() == 16,
        be_value(id_bytes(id)) == id,
{
    lemma_id_bytes_roundtrip(id);
    assert(varint_bytes(16) + id_bytes(id) =~= seq![16u8] + id_bytes(id));
    assert(request_bytes(RequestPacket::Release(id)) =~= seq![1u8, 16u8] + id_bytes(id));
    assert(request_bytes(RequestPacket::IsAcquired(id)) =~= seq![2u8, 16u8] + id_bytes(id));
    assert(response_bytes(ResponsePacket::Success(id)) =~= seq![0u8, 16u8] + id_bytes(id));
}

/// Reading a packet whose identifier field is the count 16 and sixteen bytes
/// gives the identifier those bytes stand for, most significant byte first,
/// whatever follows; the packet takes 18 bytes.
pub proof fn lemma_packet_reads_identifier(tag: u8, bytes: Seq<u8>, rest: Seq<u8>)
    requires
        bytes.len() == 16,
    ensures
        ({
            let b = seq![tag, 16u8] + bytes + rest;
            let id = be_value(bytes) as u128;
            &&& be_value(bytes) < 0x1_0000_0000_0000_0000_0000_0000_0000_0000
            &&& tag == 1 ==> request_read(b) == Ok::<(RequestPacket, nat), PacketError>(
                (RequestPacket::Release(id), 18),
            )
            &&& tag == 2 ==> request_read(b) == Ok::<(RequestPacket, nat), PacketError>(
                (RequestPacket::IsAcquired(id), 18),
            )
            &&& tag == 0 ==> response_read(b) == Ok::<(ResponsePacket, nat), PacketError>(
                (ResponsePacket::Success(id), 18),
            )
        }),
{
    lemma_bytes_id_roundtrip(bytes);
    let b = seq![tag, 16u8] + bytes + rest;
    let id = be_value(bytes) as u128;
    assert(b.skip(1) =~= seq![16u8] + bytes + rest);
    assert(b.skip(1).subrange(1, 17) =~= bytes);
}

proof fn lemma_reads_identifier_at(b: Seq<u8>)
    requires
        b.len() >= 18,
        b[1] == 16,
    ensures
        b[0] == 1 ==> request_read(b) == Ok::<(RequestPacket, nat), PacketError>(
            (RequestPacket::Release(be_value(b.subrange(2, 18)) as u128), 18),
        ),
        b[0] == 2 ==> request_read(b) == Ok::<(RequestPacket, nat), PacketError>(
            (RequestPacket::IsAcquired(be_value(b.subrange(2, 18)) as u128), 18),
        ),
        b[0] == 0 ==> response_read(b) == Ok::<(ResponsePacket, nat), PacketError>(
            (ResponsePacket::Success(be_value(b.subrange(2, 18)) as u128), 18),
        ),
{
    lemma_packet_reads_identifier(b[0], b.subrange(2, 18), b.skip(18));
    assert(b =~= seq![b[0], 16u8] + b.subrange(2, 18) + b.skip(18));
}

proof fn lemma_id_field_roundtrip(id: u128, rest: Seq<u8>)
    ensures
        id_field_bytes(id).len() == 17,
        id_field_read(id_field_bytes(id) + rest) == Ok::<(u128, nat), PacketError>((id, 17)),
{
    lemma_id_bytes_roundtrip(id);
    let b = id_field_bytes(id) + rest;
    assert(varint_bytes(16) =~= seq![16u8]);
    assert(b[0] == 16u8);
    assert(b.subrange(1, 17) =~= id_bytes(id));
}

/// A request's bytes, whatever follows them, read back as that request, and
/// the reading takes exactly those bytes.
pub proof fn lemma_request_roundtrip(p: RequestPacket, rest: Seq<u8>)
    ensures
        request_read(request_bytes(p) + rest) == Ok::<(RequestPacket, nat), PacketError>(
            (p, request_bytes(p).len()),
        ),
{
    let b = request_bytes(p) + rest;
    match p {
        RequestPacket::Acquire => {
            assert(b[0] == 0u8);
        },
        RequestPacket::Release(id) => {
            lemma_id_field_roundtrip(id, rest);
            assert(b[0] == 1u8);
            assert(b.skip(1) =~= id_field_bytes(id) + rest);
        },
        RequestPacket::IsAcquired(id) => {
            lemma_id_field_roundtrip(id, rest);
            assert(b[0] == 2u8);
            assert(b.skip(1) =~= id_field_bytes(id) + rest);
        },
    }
}

/// A response's bytes, whatever follows them, read back as that response, and
/// the reading takes exactly those bytes.
pub proof fn lemma_response_roundtrip(p: ResponsePacket, rest: Seq<u8>)
    ensures
        response_read(response_bytes(p) + rest) == Ok::<(ResponsePacket, nat), PacketError>(
            (p, response_bytes(p).len()),
        ),
{
    let b = response_bytes(p) + rest;
    match p {
        ResponsePacket::Success(id) => {
            lemma_id_field_roundtrip(id, rest);
            assert(b[0] == 0u8);
            assert(b.skip(1) =~= id_field_bytes(id) + rest);
        },
        ResponsePacket::Failure => {
            assert(b[0] == 1u8);
        },
    }
}

/// The integers of a packet at the start of `b` are written in their shortest
/// form: the variant index is one byte, and so is the length of the identifier
/// that follows it unless the variant (`bare_tag`) carries none.
pub open spec fn short_integers(b: Seq<u8>, bare_tag: u8) -> bool {
    &&& b.len() > 0 ==> b[0] <= 250
    &&& b.len() > 1 && b[0] != bare_tag ==> b[1] <= 250
}

proof fn lemma_id_field_canonical(b: Seq<u8>)
    requires
        id_field_read(b) is Ok,
        b.len() > 0 ==> b[0] <= 250,
    ensures
        id_field_read(b) matches Ok((id, m)) && b.take(m as int) == id_field_bytes(id),
{
    let s = b.subrange(1, 17);
    lemma_bytes_id_roundtrip(s);
    assert(b.take(17) =~= varint_bytes(16) + s);
}

/// Bytes that read as a request, with their integers in shortest form, begin
/// with that request's bytes: the reading gives back what was written.
pub proof fn lemma_request_read_canonical(b: Seq<u8>)
    requires
        request_read(b) is Ok,
        short_integers(b, 0),
    ensures
        request_read(b) matches Ok((p, n)) && b.take(n as int) == request_bytes(p),
{
    if b[0] == 0 {
        assert(b.take(1) =~= varint_bytes(0));
    } else {
        let rest = b.skip(1);
        lemma_id_field_canonical(rest);
        let (id, m) = id_field_read(rest)->Ok_0;
        assert(b.take(1 + m as int) =~= seq![b[0]] + rest.take(m as int));
    }
}

/// Bytes that read as a response, with their integers in shortest form, begin
/// with that response's bytes: the reading gives back what was written.
pub proof fn lemma_response_read_canonical(b: Seq<u8>)
    requires
        response_read(b) is Ok,
        short_integers(b, 1),
    ensures
        response_read(b) matches Ok((p, n)) && b.take(n as int) == response_bytes(p),
{
    if b[0] == 1 {
        assert(b.take(1) =~= varint_bytes(1));
    } else {
        let rest = b.skip(1);
        lemma_id_field_canonical(rest);
        let (id, m) = id_field_read(rest)->Ok_0;
        assert(b.take(1 + m as int) =~= seq![b[0]] + rest.take(m as int));
    }
}

fn encode_id_field(id: u128, out: &mut Vec<u8>)
    ensures
        final(out)@ == old(out)@ + id_field_bytes(id),
{
    let bytes = id_to_bytes(id);
    let mut field = encode_byte_string(bytes.as_slice());
    proof {
        lemma_id_bytes_roundtrip(id);
    }
    out.append(&mut field);
}

fn decode_id_field(b: &[u8]) -> (r: Result<(u128, usize), PacketError>)
    ensures
        as_spec_result(r) == id_field_read(b@),
{
    match decode_varint_u64(b) {
        None => Err(PacketError::BadInteger),
        Some((len, n)) => {
            let rest = b.len() - n;
            if (rest as u64) < len {
                Err(PacketError::Truncated)
            } else if len != 16 {
                Err(PacketError::BadIdLength(len))
            } else {
                let bytes = slice_subrange(b, n, n + 16);
                Ok((id_from_bytes(bytes), n + 16))
            }
        },
    }
}

/// The bytes of a request.
pub fn encode_request(r: &RequestPacket) -> (out: Vec<u8>)
    ensures
        out@ == request_bytes(*r),
        match *r {
            RequestPacket::Acquire => out@ == seq![0u8],
            RequestPacket::Release(id) => out@ == seq![1u8, 16u8] + id_bytes(id),
            RequestPacket::IsAcquired(id) => out@ == seq![2u8, 16u8] + id_bytes(id),
        },
{
    match *r {
        RequestPacket::Acquire => encode_varint_u32(0),
        RequestPacket::Release(id) => {
            let mut out = encode_varint_u32(1);
            encode_id_field(id, &mut out);
            out
        },
        RequestPacket::IsAcquired(id) => {
            let mut out = encode_varint_u32(2);
            encode_id_field(id, &mut out);
            out
        },
    }
}

/// The bytes of a response.
pub fn encode_response(r: &ResponsePacket) -> (out: Vec<u8>)
    ensures
        out@ == response_bytes(*r),
        match *r {
            ResponsePacket::Success(id) => out@ == seq![0u8, 16u8] + id_bytes(id),
            ResponsePacket::Failure => out@ == seq![1u8],
        },
{
    match *r {
        ResponsePacket::Success(id) => {
            let mut out = encode_varint_u32(0);
            encode_id_field(id, &mut out);
            out
        },
        ResponsePacket::Failure => encode_varint_u32(1),
    }
}

/// Reads a request from the start of `b`; gives it with the number of bytes
/// it took, or why the bytes are not one. Bytes after it are not looked at.
pub fn decode_request(b: &[u8]) -> (r: Result<(RequestPacket, usize), PacketError>)
    ensures
        as_spec_result(r) == request_read(b@),
        b@.len() >= 18 && b@[0] == 1 && b@[1] == 16 ==> r == Ok::<(RequestPacket, usize), PacketError>(
            (RequestPacket::Release(be_value(b@.subrange(2, 18)) as u128), 18),
        ),
        b@.len() >= 18 && b@[0] == 2 && b@[1] == 16 ==> r == Ok::<(RequestPacket, usize), PacketError>(
            (RequestPacket::IsAcquired(be_value(b@.subrange(2, 18)) as u128), 18),
        ),
{
    proof {
        if b@.len() >= 18 && b@[1] == 16 {
            lemma_reads_identifier_at(b@);
        }
    }
    match decode_varint_u32(b) {
        None => Err(PacketError::BadInteger),
        Some((tag, n)) => {
            if tag == 0 {
                Ok((RequestPacket::Acquire, n))
            } else if tag == 1 || tag == 2 {
                let rest = slice_subrange(b, n, b.len());
                assert(rest@ == b@.skip(n as int));
                match decode_id_field(rest) {
                    Err(e) => Err(e),
                    Ok((id, m)) => {
                        let p = if tag == 1 {
                            RequestPacket::Release(id)
                        } else {
                            RequestPacket::IsAcquired(id)
                        };
                        Ok((p, n + m))
                    },
                }
            } else {
                Err(PacketError::UnknownVariant(tag))
            }
        },
    }
}

/// Reads a response from the start of `b`; gives it with the number of bytes
/// it took, or why the bytes are not one. Bytes after it are not looked at.
pub fn decode_response(b: &[u8]) -> (r: Result<(ResponsePacket, usize), PacketError>)
    ensures
        as_spec_result(r) == response_read(b@),
        b@.len() >= 18 && b@[0] == 0 && b@[1] == 16 ==> r == Ok::<(ResponsePacket, usize), PacketError>(
            (ResponsePacket::Success(be_value(b@.subrange(2, 18)) as u128), 18),
        ),
{
    proof {
        if b@.len() >= 18 && b@[1] == 16 {
            lemma_reads_identifier_at(b@);
        }
    }
    match decode_varint_u32(b) {
        None => Err(PacketError::BadInteger),
        Some((tag, n)) => {
            if tag == 0 {
                let rest = slice_subrange(b, n, b.len());
                assert(rest@ == b@.skip(n as int));
                match decode_id_field(rest) {
                    Err(e) => Err(e),
                    Ok((id, m)) => Ok((ResponsePacket::Success(id), n + m)),
                }
            } else if tag == 1 {
                Ok((ResponsePacket::Failure, n))
            } else {
                Err(PacketError::UnknownVariant(tag))
            }
        },
    }
}

} // verus!
