//! Length-prefixed framing: every message on a byte stream is a four-byte
//! big-endian length followed by exactly that many payload bytes.

use vstd::prelude::*;
use crate::api::{ApiError, ApiErrorType};

verus! {

/// The value of four bytes read big-endian.
pub open spec fn be_val(b0: u8, b1: u8, b2: u8, b3: u8) -> int {
    b0 * 0x100_0000 + b1 * 0x1_0000 + b2 * 0x100 + b3
}

/// The four big-endian bytes of a 32-bit value.
pub open spec fn be_bytes(n: u32) -> Seq<u8> {
    seq![
        (n / 0x100_0000) as u8,
        ((n / 0x1_0000) % 0x100) as u8,
        ((n / 0x100) % 0x100) as u8,
        (n % 0x100) as u8,
    ]
}

/// Reading back the four big-endian bytes of a value gives the value.
pub proof fn lemma_be_round_trip(n: u32)
    ensures
        be_val(be_bytes(n)[0], be_bytes(n)[1], be_bytes(n)[2], be_bytes(n)[3]) == n,
{
    assert(((n as u64) / 0x100_0000) * 0x100_0000 + (((n as u64) / 0x1_0000) % 0x100) * 0x1_0000 + (
    ((n as u64) / 0x100) % 0x100) * 0x100 + ((n as u64) % 0x100) == n as u64) by (bit_vector);
    assert((n / 0x100_0000) < 0x100) by (bit_vector);
}

/// Relies on byteorder's `BigEndian::read_u32` (`NetworkEndian` is big
/// endian): the big-endian value of the first four bytes of the slice.
#[verifier::external_body]
pub fn read_u32_be(buf: &[u8]) -> (r: u32)
    requires
        buf@.len() >= 4,
    ensures
        r == be_val(buf@[0], buf@[1], buf@[2], buf@[3]),
{
    <byteorder::NetworkEndian as byteorder::ByteOrder>::read_u32(buf)
}

/// Relies on byteorder's `BigEndian::write_u32` (`NetworkEndian` is big
/// endian): the four bytes written are the big-endian bytes of `n`.
#[verifier::external_body]
pub fn u32_to_be(n: u32) -> (r: Vec<u8>)
    ensures
        r@ == be_bytes(n),
{
    let mut buf = vec![0u8; 4];
    <byteorder::NetworkEndian as byteorder::ByteOrder>::write_u32(&mut buf, n);
    buf
}

/// A frame: the payload's length as four big-endian bytes, then the payload.
pub open spec fn frame_spec(data: Seq<u8>) -> Seq<u8>
    recommends
        data.len() <= 0xFFFF_FFFF,
{
    be_bytes(data.len() as u32) + data
}

/// Reading one frame off the front of a byte stream: `None` when the stream
/// is shorter than its own length prefix claims.
pub open spec fn unframe_spec(b: Seq<u8>) -> Option<Seq<u8>> {
    if b.len() < 4 {
        None
    } else {
        let n = be_val(b[0], b[1], b[2], b[3]);
        if b.len() < 4 + n {
            None
        } else {
            Some(b.subrange(4, 4 + n))
        }
    }
}

/// Framing round-trips: a frame read back yields the payload it was built
/// from, for any payload whose length fits the four-byte prefix.
pub proof fn lemma_frame_round_trip(x: Seq<u8>)
    requires
        x.len() <= 0xFFFF_FFFF,
    ensures
        unframe_spec(frame_spec(x)) == Some(x),
{
    let f = frame_spec(x);
    lemma_be_round_trip(x.len() as u32);
    assert(f[0] == be_bytes(x.len() as u32)[0]);
    assert(f[1] == be_bytes(x.len() as u32)[1]);
    assert(f[2] == be_bytes(x.len() as u32)[2]);
    assert(f[3] == be_bytes(x.len() as u32)[3]);
    assert(be_val(f[0], f[1], f[2], f[3]) == x.len());
    assert(f.subrange(4, 4 + x.len() as int) =~= x);
}

/// Copy the bytes of `v` from `start` (inclusive) to `end` (exclusive).
pub fn copy_byte_range(v: &Vec<u8>, start: usize, end: usize) -> (r: Vec<u8>)
    requires
        start <= end <= v@.len(),
    ensures
        r@ == v@.subrange(start as int, end as int),
{
    let mut r: Vec<u8> = Vec::new();
    let mut i: usize = start;
    while i < end
        invariant
            start <= i <= end <= v@.len(),
            r@ =~= v@.subrange(start as int, i as int),
        decreases end - i,
    {
        r.push(v[i]);
        assert(r@ =~= v@.subrange(start as int, i + 1));
        i += 1;
    }
    r
}

/// Wrap a payload in a length-prefixed frame. Rejects a payload too long for
/// the four-byte prefix.
pub fn encode_frame(data: &Vec<u8>) -> (r: Result<Vec<u8>, ApiError>)
    ensures
        data@.len() <= 0xFFFF_FFFF ==> (r matches Ok(f) && f@ == frame_spec(data@)),
        data@.len() > 0xFFFF_FFFF ==> (r matches Err(e) && e@.error_type == ApiErrorType::Parse),
{
    if data.len() > 0xFFFF_FFFF {
        return Err(ApiError::new(
            ApiErrorType::Parse,
            String::from_str("payload too long for the length prefix"),
        ));
    }
    let mut frame = u32_to_be(data.len() as u32);
    let mut i: usize = 0;
    while i < data.len()
        invariant
            0 <= i <= data@.len(),
            data@.len() <= 0xFFFF_FFFF,
            frame@ =~= be_bytes(data@.len() as u32) + data@.subrange(0, i as int),
        decreases data@.len() - i,
    {
        frame.push(data[i]);
        assert(frame@ =~= be_bytes(data@.len() as u32) + data@.subrange(0, i + 1));
        i += 1;
    }
    proof {
        assert(data@.subrange(0, data@.len() as int) =~= data@);
    }
    Ok(frame)
}

/// Read one frame off the front of `bytes`: the payload and how many bytes
/// the frame occupied. Rejects a stream shorter than its length prefix
/// claims.
pub fn decode_frame(bytes: &Vec<u8>) -> (r: Result<(Vec<u8>, usize), ApiError>)
    ensures
        unframe_spec(bytes@) matches Some(p) ==> (r matches Ok(pc) && pc.0@ == p && pc.1 == 4
            + p.len()),
        unframe_spec(bytes@) is None ==> (r matches Err(e) && e@.error_type
            == ApiErrorType::Parse),
{
    if bytes.len() < 4 {
        return Err(ApiError::new(
            ApiErrorType::Parse,
            String::from_str("stream too short for a length prefix"),
        ));
    }
    let n = read_u32_be(bytes.as_slice()) as usize;
    if bytes.len() - 4 < n {
        return Err(ApiError::new(
            ApiErrorType::Parse,
            String::from_str("length prefix exceeds the bytes that follow"),
        ));
    }
    let payload = copy_byte_range(bytes, 4, 4 + n);
    Ok((payload, 4 + n))
}

/// Read just a length prefix, as the transport does before the payload
/// arrives.
pub fn parse_length(prefix: &Vec<u8>) -> (r: Result<u32, ApiError>)
    ensures
        prefix@.len() == 4 ==> (r matches Ok(n) && n == be_val(
            prefix@[0],
            prefix@[1],
            prefix@[2],
            prefix@[3],
        )),
        prefix@.len() != 4 ==> (r matches Err(e) && e@.error_type == ApiErrorType::Parse),
{
    if prefix.len() != 4 {
        return Err(ApiError::new(
            ApiErrorType::Parse,
            String::from_str("a length prefix is exactly four bytes"),
        ));
    }
    Ok(read_u32_be(prefix.as_slice()))
}

} // verus!
