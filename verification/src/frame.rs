//! Length-prefixed message framing: each message on a stream is an 8-byte
//! big-endian length followed by that many payload bytes.  The functions
//! here do the framing and deframing on byte buffers; the I/O layer around
//! the library reads and writes those bytes on a socket.

use vstd::prelude::*;
use vstd::slice::{slice_subrange, slice_to_vec};

verus! {

/// Transport-level failures of the framed protocol.
#[derive(Clone, Copy, Debug, PartialEq, Eq, Structural)]
pub enum Error {
    /// The stream ended before a whole length prefix or payload was read.
    StreamRead,
    /// The stream rejected part of a frame while writing.
    StreamWrite,
    /// The framed payload did not decode as the expected message.
    Rpc,
    /// A zero-length payload arrived where a body is required.
    EmptyPayload,
}

/// The big-endian byte encoding of a 64-bit length.
pub open spec fn spec_u64_to_be_bytes(x: u64) -> Seq<u8> {
    seq![
        (x >> 56) as u8,
        (x >> 48) as u8,
        (x >> 40) as u8,
        (x >> 32) as u8,
        (x >> 24) as u8,
        (x >> 16) as u8,
        (x >> 8) as u8,
        x as u8,
    ]
}

/// The 64-bit length read from eight big-endian bytes.
pub open spec fn spec_u64_from_be_bytes(s: Seq<u8>) -> u64
    recommends
        s.len() == 8,
{
    ((s[0] as u64) << 56) | ((s[1] as u64) << 48) | ((s[2] as u64) << 40) | ((s[3] as u64) << 32)
        | ((s[4] as u64) << 24) | ((s[5] as u64) << 16) | ((s[6] as u64) << 8) | (s[7] as u64)
}

pub proof fn lemma_u64_be_round_trip(x: u64)
    ensures
        spec_u64_from_be_bytes(spec_u64_to_be_bytes(x)) == x,
{
    let s = spec_u64_to_be_bytes(x);
    assert((((x >> 56) as u8 as u64) << 56) | (((x >> 48) as u8 as u64) << 48)
        | (((x >> 40) as u8 as u64) << 40) | (((x >> 32) as u8 as u64) << 32)
        | (((x >> 24) as u8 as u64) << 24) | (((x >> 16) as u8 as u64) << 16)
        | (((x >> 8) as u8 as u64) << 8) | (x as u8 as u64) == x) by (bit_vector);
}

pub fn u64_to_be_bytes(x: u64) -> (r: Vec<u8>)
    ensures
        r@ == spec_u64_to_be_bytes(x),
{
    let mut r: Vec<u8> = Vec::new();
    r.push(#[verifier::truncate] ((x >> 56) as u8));
    r.push(#[verifier::truncate] ((x >> 48) as u8));
    r.push(#[verifier::truncate] ((x >> 40) as u8));
    r.push(#[verifier::truncate] ((x >> 32) as u8));
    r.push(#[verifier::truncate] ((x >> 24) as u8));
    r.push(#[verifier::truncate] ((x >> 16) as u8));
    r.push(#[verifier::truncate] ((x >> 8) as u8));
    r.push(#[verifier::truncate] (x as u8));
    proof {
        assert(r@ =~= spec_u64_to_be_bytes(x));
    }
    r
}

pub fn u64_from_be_bytes(b: &[u8]) -> (r: u64)
    requires
        b@.len() == 8,
    ensures
        r == spec_u64_from_be_bytes(b@),
{
    ((b[0] as u64) << 56) | ((b[1] as u64) << 48) | ((b[2] as u64) << 40) | ((b[3] as u64) << 32)
        | ((b[4] as u64) << 24) | ((b[5] as u64) << 16) | ((b[6] as u64) << 8) | (b[7] as u64)
}

/// The full frame for a payload: length prefix, then the payload itself.
pub open spec fn spec_frame(msg: Seq<u8>) -> Seq<u8> {
    spec_u64_to_be_bytes(msg.len() as u64) + msg
}

/// Reading one frame from `buf` at `pos`.  A missing prefix or a payload
/// cut short fails with `StreamRead`; a zero length fails with
/// `EmptyPayload` unless the caller tolerates empty payloads.
pub open spec fn spec_read_frame(buf: Seq<u8>, pos: int, allow_empty: bool) -> Result<
    (Seq<u8>, int),
    Error,
> {
    if pos < 0 || pos + 8 > buf.len() {
        Err(Error::StreamRead)
    } else {
        let n = spec_u64_from_be_bytes(buf.subrange(pos, pos + 8)) as int;
        if !allow_empty && n == 0 {
            Err(Error::EmptyPayload)
        } else if pos + 8 + n > buf.len() {
            Err(Error::StreamRead)
        } else {
            Ok((buf.subrange(pos + 8, pos + 8 + n), pos + 8 + n))
        }
    }
}

/// Appends the frame for `msg` to `out`: the 8-byte big-endian length, then
/// the payload, as one unit.
pub fn write_u8(out: &mut Vec<u8>, msg: &[u8])
    ensures
        final(out)@ == old(out)@ + spec_frame(msg@),
{
    let mut prefix = u64_to_be_bytes(msg.len() as u64);
    out.append(&mut prefix);
    let mut payload = slice_to_vec(msg);
    out.append(&mut payload);
    proof {
        assert(out@ =~= old(out)@ + spec_frame(msg@));
    }
}

/// Reads one frame from `buf` at `pos`, never tolerating an empty payload:
/// the body-required read.
pub fn read_u8(buf: &[u8], pos: usize) -> (r: Result<(Vec<u8>, usize), Error>)
    ensures
        (r matches Ok(p) ==> spec_read_frame(buf@, pos as int, false) == Ok::<(Seq<u8>, int), Error>((p.0@, p.1 as int))),
        (r matches Err(e) ==> spec_read_frame(buf@, pos as int, false) == Err::<(Seq<u8>, int), Error>(e)),
{
    read_frame(buf, pos, false)
}

/// Reads one frame from `buf` at `pos`; `allow_empty` selects between the
/// body-required and the body-optional call sites.
pub fn read_frame(buf: &[u8], pos: usize, allow_empty: bool) -> (r: Result<
    (Vec<u8>, usize),
    Error,
>)
    ensures
        (r matches Ok(p) ==> spec_read_frame(buf@, pos as int, allow_empty) == Ok::<(Seq<u8>, int), Error>((p.0@, p.1 as int))),
        (r matches Err(e) ==> spec_read_frame(buf@, pos as int, allow_empty) == Err::<(Seq<u8>, int), Error>(e)),
{
    let len = buf.len();
    if pos > len || len - pos < 8 {
        return Err(Error::StreamRead);
    }
    let prefix = slice_subrange(buf, pos, pos + 8);
    let n = u64_from_be_bytes(prefix);
    if !allow_empty && n == 0 {
        return Err(Error::EmptyPayload);
    }
    let remaining = len - pos - 8;
    if n > remaining as u64 {
        return Err(Error::StreamRead);
    }
    let n_us = n as usize;
    let payload = slice_to_vec(slice_subrange(buf, pos + 8, pos + 8 + n_us));
    Ok((payload, pos + 8 + n_us))
}

/// Framing round-trips: a frame appended after any prefix reads back as
/// exactly the payload that was written, at the position after the frame.
pub proof fn lemma_frame_round_trip(buf: Seq<u8>, msg: Seq<u8>)
    requires
        msg.len() <= u64::MAX,
    ensures
        spec_read_frame(buf + spec_frame(msg), buf.len() as int, true) == Ok::<(Seq<u8>, int), Error>(
            (msg, buf.len() as int + 8 + msg.len() as int),
        ),
{
    let whole = buf + spec_frame(msg);
    let pos = buf.len() as int;
    lemma_u64_be_round_trip(msg.len() as u64);
    assert(whole.subrange(pos, pos + 8) =~= spec_u64_to_be_bytes(msg.len() as u64));
    assert(whole.subrange(pos + 8, pos + 8 + msg.len()) =~= msg);
}

/// A zero-length message written through the framing layer fails a
/// body-required read with `EmptyPayload`.
pub proof fn lemma_frame_empty_payload(buf: Seq<u8>)
    ensures
        spec_read_frame(buf + spec_frame(Seq::<u8>::empty()), buf.len() as int, false) == Err::<
            (Seq<u8>, int),
            Error,
        >(Error::EmptyPayload),
{
    let whole = buf + spec_frame(Seq::<u8>::empty());
    let pos = buf.len() as int;
    lemma_u64_be_round_trip(0);
    assert(whole.subrange(pos, pos + 8) =~= spec_u64_to_be_bytes(0));
}

} // verus!
