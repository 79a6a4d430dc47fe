//! The wire format.
//!
//! Every message travels as one frame: a header of [`HEADER_LEN`] bytes, then
//! the method name in UTF-8, then the payload. Numbers are big-endian.
//!
//! | bytes   | holds                                |
//! |---------|--------------------------------------|
//! | 0       | kind: 1 request, 2 response, 3 error |
//! | 1..9    | stream id                            |
//! | 9..17   | length of the method name            |
//! | 17..25  | length of the payload                |
//!
//! A reply names no method: its method length is zero.

use crate::error::Error;
use vstd::prelude::*;
use vstd::slice::slice_subrange;
use vstd::string::StringSliceAdditionalSpecFns;

verus! {

broadcast use vstd::slice::group_slice_axioms;

/// The number of bytes in a frame's header.
pub const HEADER_LEN: usize = 25;

/// The byte that marks a request.
pub const KIND_REQUEST: u8 = 1;

/// The byte that marks a successful response.
pub const KIND_RESPONSE: u8 = 2;

/// The byte that marks an error reported by the peer.
pub const KIND_REMOTE_ERROR: u8 = 3;

/// What a reply says about its call.
#[derive(Clone, Copy, Debug, PartialEq, Eq, Structural)]
pub enum Kind {
    /// The call succeeded; the payload is the serialized response.
    Response,
    /// The peer reported a failure; the payload is its detail.
    RemoteError,
}

/// A decoded reply.
#[derive(Clone, Debug, PartialEq, Eq)]
pub struct Frame {
    pub stream_id: u64,
    pub kind: Kind,
    pub payload: Vec<u8>,
}

/// The mathematical value of a [`Frame`].
pub struct FrameModel {
    pub stream_id: u64,
    pub kind: Kind,
    pub payload: Seq<u8>,
}

impl View for Frame {
    type V = FrameModel;

    open spec fn view(&self) -> FrameModel {
        FrameModel { stream_id: self.stream_id, kind: self.kind, payload: self.payload@ }
    }
}

/// The four bytes of `value`, most significant first.
pub open spec fn be_u32(value: u32) -> Seq<u8> {
    seq![
        (value / 0x100_0000) as u8,
        (value / 0x1_0000 % 0x100) as u8,
        (value / 0x100 % 0x100) as u8,
        (value % 0x100) as u8,
    ]
}

/// The number that the first four bytes of `bytes` spell, most significant
/// first.
pub open spec fn u32_of_be(bytes: Seq<u8>) -> int
    recommends
        bytes.len() >= 4,
{
    bytes[0] * 0x100_0000 + bytes[1] * 0x1_0000 + bytes[2] * 0x100 + bytes[3]
}

/// The eight bytes of `value`, most significant first.
pub open spec fn be_u64(value: u64) -> Seq<u8> {
    be_u32((value / 0x1_0000_0000) as u32) + be_u32((value % 0x1_0000_0000) as u32)
}

/// The number that the first eight bytes of `bytes` spell, most significant
/// first.
pub open spec fn u64_of_be(bytes: Seq<u8>) -> int
    recommends
        bytes.len() >= 8,
{
    u32_of_be(bytes.subrange(0, 4)) * 0x1_0000_0000 + u32_of_be(bytes.subrange(4, 8))
}

/// The byte that stands for `kind` in a header.
pub open spec fn kind_byte(kind: Kind) -> u8 {
    match kind {
        Kind::Response => KIND_RESPONSE,
        Kind::RemoteError => KIND_REMOTE_ERROR,
    }
}

/// The header of a frame.
pub open spec fn header(kind: u8, stream_id: u64, method_len: u64, payload_len: u64) -> Seq<u8> {
    seq![kind] + be_u64(stream_id) + be_u64(method_len) + be_u64(payload_len)
}

/// The frame of a request.
pub open spec fn request_frame(stream_id: u64, method: Seq<u8>, payload: Seq<u8>) -> Seq<u8> {
    header(KIND_REQUEST, stream_id, method.len() as u64, payload.len() as u64) + method + payload
}

/// The frame of a reply.
pub open spec fn reply_frame(stream_id: u64, kind: Kind, payload: Seq<u8>) -> Seq<u8> {
    header(kind_byte(kind), stream_id, 0, payload.len() as u64) + payload
}

/// The length that the header `bytes` announces for what follows it: method
/// name and payload together.
pub open spec fn announced_len(bytes: Seq<u8>) -> int
    recommends
        bytes.len() >= HEADER_LEN,
{
    u64_of_be(bytes.subrange(9, 17)) + u64_of_be(bytes.subrange(17, 25))
}

/// `bytes` is one whole reply: a header with the kind of a reply and without
/// a method, and a payload of the announced length.
pub open spec fn is_reply(bytes: Seq<u8>) -> bool {
    &&& bytes.len() >= HEADER_LEN
    &&& (bytes[0] == KIND_RESPONSE || bytes[0] == KIND_REMOTE_ERROR)
    &&& u64_of_be(bytes.subrange(9, 17)) == 0
    &&& u64_of_be(bytes.subrange(17, 25)) == bytes.len() - HEADER_LEN
}

/// The reply that `bytes` holds; `None` where they are no reply.
pub open spec fn parse_reply(bytes: Seq<u8>) -> Option<FrameModel> {
    if is_reply(bytes) {
        Some(
            FrameModel {
                stream_id: u64_of_be(bytes.subrange(1, 9)) as u64,
                kind: if bytes[0] == KIND_RESPONSE {
                    Kind::Response
                } else {
                    Kind::RemoteError
                },
                payload: bytes.subrange(HEADER_LEN as int, bytes.len() as int),
            },
        )
    } else {
        None
    }
}

/// Four bytes spell the number they were made from.
pub proof fn lemma_be_u32_round_trip(value: u32)
    ensures
        be_u32(value).len() == 4,
        u32_of_be(be_u32(value)) == value,
{
}

/// Eight bytes spell the number they were made from.
pub proof fn lemma_be_u64_round_trip(value: u64)
    ensures
        be_u64(value).len() == 8,
        u64_of_be(be_u64(value)) == value,
{
    let high = (value / 0x1_0000_0000) as u32;
    let low = (value % 0x1_0000_0000) as u32;
    lemma_be_u32_round_trip(high);
    lemma_be_u32_round_trip(low);
    assert(be_u64(value).subrange(0, 4) =~= be_u32(high));
    assert(be_u64(value).subrange(4, 8) =~= be_u32(low));
}

/// Appends the four bytes of `value`.
fn put_u32(out: &mut Vec<u8>, value: u32)
    ensures
        final(out)@ == old(out)@ + be_u32(value),
{
    out.push((value / 0x100_0000) as u8);
    out.push((value / 0x1_0000 % 0x100) as u8);
    out.push((value / 0x100 % 0x100) as u8);
    out.push((value % 0x100) as u8);
    proof {
        assert(out@ =~= old(out)@ + be_u32(value));
    }
}

/// Appends the eight bytes of `value`.
fn put_u64(out: &mut Vec<u8>, value: u64)
    ensures
        final(out)@ == old(out)@ + be_u64(value),
{
    put_u32(out, (value / 0x1_0000_0000) as u32);
    put_u32(out, (value % 0x1_0000_0000) as u32);
    proof {
        assert(out@ =~= old(out)@ + be_u64(value));
    }
}

/// Appends `bytes`.
fn put_bytes(out: &mut Vec<u8>, bytes: &[u8])
    ensures
        final(out)@ == old(out)@ + bytes@,
{
    let mut i: usize = 0;
    while i < bytes.len()
        invariant
            i <= bytes@.len(),
            out@ == old(out)@ + bytes@.subrange(0, i as int),
        decreases bytes@.len() - i,
    {
        out.push(bytes[i]);
        proof {
            assert(out@ =~= old(out)@ + bytes@.subrange(0, i + 1));
        }
        i += 1;
    }
    proof {
        assert(bytes@.subrange(0, i as int) =~= bytes@);
    }
}

/// Reads the four bytes at `at` as a number.
fn get_u32(bytes: &[u8], at: usize) -> (value: u32)
    requires
        at + 4 <= bytes@.len(),
    ensures
        value == u32_of_be(bytes@.subrange(at as int, at + 4)),
{
    let b0: u32 = bytes[at] as u32;
    let b1: u32 = bytes[at + 1] as u32;
    let b2: u32 = bytes[at + 2] as u32;
    let b3: u32 = bytes[at + 3] as u32;
    b0 * 0x100_0000 + b1 * 0x1_0000 + b2 * 0x100 + b3
}

/// Reads the eight bytes at `at` as a number.
fn get_u64(bytes: &[u8], at: usize) -> (value: u64)
    requires
        at + 8 <= bytes@.len(),
    ensures
        value == u64_of_be(bytes@.subrange(at as int, at + 8)),
{
    proof {
        assert(bytes@.len() == vstd::slice::spec_slice_len(bytes));
    }
    let high: u64 = get_u32(bytes, at) as u64;
    let low: u64 = get_u32(bytes, at + 4) as u64;
    proof {
        let eight = bytes@.subrange(at as int, at + 8);
        assert(eight.subrange(0, 4) =~= bytes@.subrange(at as int, at + 4));
        assert(eight.subrange(4, 8) =~= bytes@.subrange(at + 4, at + 8));
    }
    high * 0x1_0000_0000 + low
}

/// Frames a request: the call `stream_id` of `method` with `payload`.
pub fn encode(stream_id: u64, method: &str, payload: &[u8]) -> (bytes: Vec<u8>)
    ensures
        bytes@ == request_frame(stream_id, method.spec_bytes(), payload@),
{
    let name = method.as_bytes();
    let mut bytes: Vec<u8> = Vec::new();
    bytes.push(KIND_REQUEST);
    put_u64(&mut bytes, stream_id);
    put_u64(&mut bytes, name.len() as u64);
    put_u64(&mut bytes, payload.len() as u64);
    put_bytes(&mut bytes, name);
    put_bytes(&mut bytes, payload);
    proof {
        assert(bytes@ =~= request_frame(stream_id, method.spec_bytes(), payload@));
    }
    bytes
}

/// Frames a reply to the call `stream_id`.
pub fn encode_reply(stream_id: u64, kind: Kind, payload: &[u8]) -> (bytes: Vec<u8>)
    ensures
        bytes@ == reply_frame(stream_id, kind, payload@),
{
    let mut bytes: Vec<u8> = Vec::new();
    match kind {
        Kind::Response => bytes.push(KIND_RESPONSE),
        Kind::RemoteError => bytes.push(KIND_REMOTE_ERROR),
    }
    put_u64(&mut bytes, stream_id);
    put_u64(&mut bytes, 0);
    put_u64(&mut bytes, payload.len() as u64);
    put_bytes(&mut bytes, payload);
    proof {
        assert(bytes@ =~= reply_frame(stream_id, kind, payload@));
    }
    bytes
}

/// The length of the whole frame that begins with `header`, header
/// included. Anything but exactly [`HEADER_LEN`] bytes is no header, and a
/// frame longer than any buffer can be is a protocol error too.
pub fn frame_len(header: &[u8]) -> (len: Result<usize, Error>)
    ensures
        match len {
            Ok(n) => header@.len() == HEADER_LEN && n == HEADER_LEN + announced_len(header@),
            Err(e) => e == Error::ProtocolError && (header@.len() != HEADER_LEN || HEADER_LEN
                + announced_len(header@) > usize::MAX),
        },
{
    if header.len() != HEADER_LEN {
        return Err(Error::ProtocolError);
    }
    let room: u64 = (usize::MAX - HEADER_LEN) as u64;
    let method_len = get_u64(header, 9);
    let payload_len = get_u64(header, 17);
    if method_len > room || payload_len > room - method_len {
        return Err(Error::ProtocolError);
    }
    Ok(HEADER_LEN + (method_len + payload_len) as usize)
}

/// Unframes a reply. Bytes that are no whole reply are a protocol error.
pub fn decode(bytes: &[u8]) -> (frame: Result<Frame, Error>)
    ensures
        match frame {
            Ok(f) => parse_reply(bytes@) == Some(f@),
            Err(e) => parse_reply(bytes@).is_none() && e == Error::ProtocolError,
        },
{
    if bytes.len() < HEADER_LEN {
        return Err(Error::ProtocolError);
    }
    let kind = if bytes[0] == KIND_RESPONSE {
        Kind::Response
    } else if bytes[0] == KIND_REMOTE_ERROR {
        Kind::RemoteError
    } else {
        return Err(Error::ProtocolError);
    };
    let stream_id = get_u64(bytes, 1);
    let method_len = get_u64(bytes, 9);
    let payload_len = get_u64(bytes, 17);
    if method_len != 0 || payload_len != (bytes.len() - HEADER_LEN) as u64 {
        return Err(Error::ProtocolError);
    }
    let mut payload: Vec<u8> = Vec::new();
    put_bytes(&mut payload, slice_subrange(bytes, HEADER_LEN, bytes.len()));
    Ok(Frame { stream_id, kind, payload })
}

/// What was framed as a reply is decoded as that reply.
pub proof fn lemma_reply_round_trip(stream_id: u64, kind: Kind, payload: Seq<u8>)
    requires
        payload.len() <= u64::MAX,
    ensures
        parse_reply(reply_frame(stream_id, kind, payload)) == Some(
            FrameModel { stream_id, kind, payload },
        ),
{
    let bytes = reply_frame(stream_id, kind, payload);
    lemma_be_u64_round_trip(stream_id);
    lemma_be_u64_round_trip(0);
    lemma_be_u64_round_trip(payload.len() as u64);
    assert(bytes.subrange(1, 9) =~= be_u64(stream_id));
    assert(bytes.subrange(9, 17) =~= be_u64(0));
    assert(bytes.subrange(17, 25) =~= be_u64(payload.len() as u64));
    assert(bytes.subrange(HEADER_LEN as int, bytes.len() as int) =~= payload);
}

/// A request is never taken for a reply.
pub proof fn lemma_request_is_no_reply(stream_id: u64, method: Seq<u8>, payload: Seq<u8>)
    ensures
        parse_reply(request_frame(stream_id, method, payload)).is_none(),
{
    let bytes = request_frame(stream_id, method, payload);
    lemma_be_u64_round_trip(stream_id);
    assert(bytes[0] == KIND_REQUEST);
}

} // verus!
