//! Little-endian header fields, the fragment frame and the acknowledgment.
use vstd::prelude::*;

verus! {

/// Width in bytes of every fixed-size field on the wire.
pub const FIELD_WIDTH: usize = 4;

/// Width in bytes of a frame header: fragment id, then payload length.
pub const HEADER_WIDTH: usize = 8;

/// The four little-endian bytes of `x`.
pub open spec fn le_bytes(x: u32) -> Seq<u8> {
    seq![
        (x % 256) as u8,
        ((x / 256) % 256) as u8,
        ((x / 65536) % 256) as u8,
        (x / 16777216) as u8,
    ]
}

/// The value of the four little-endian bytes that start at `at` in `b`.
pub open spec fn le_value_at(b: Seq<u8>, at: int) -> u32 {
    (b[at] as int + 256 * b[at + 1] as int + 65536 * b[at + 2] as int + 16777216 * b[at
        + 3] as int) as u32
}

/// The bytes of one frame: id, payload length, payload.
pub open spec fn frame_bytes(id: u32, payload: Seq<u8>) -> Seq<u8> {
    le_bytes(id) + le_bytes(payload.len() as u32) + payload
}

/// The payload length announced by the header at the start of `buf`.
pub open spec fn announced_len(buf: Seq<u8>) -> int {
    le_value_at(buf, 4) as int
}

/// Whether `buf` starts with a whole frame: a header and all the payload it announces.
pub open spec fn holds_frame(buf: Seq<u8>) -> bool {
    buf.len() >= 8 && buf.len() >= 8 + announced_len(buf)
}

/// Reading back the bytes of a little-endian field gives its value.
pub proof fn lemma_le_round_trip(x: u32)
    ensures
        le_value_at(le_bytes(x), 0) == x,
{
    let b = le_bytes(x);
    assert(b[0] as int == x % 256);
    assert(b[1] as int == (x / 256) % 256);
    assert(b[2] as int == (x / 65536) % 256);
    assert(b[3] as int == x / 16777216);
    assert((x % 256) + 256 * ((x / 256) % 256) + 65536 * ((x / 65536) % 256) + 16777216 * (x
        / 16777216) == x) by (nonlinear_arith);
}

/// The four little-endian bytes of `x`.
pub fn encode_u32(x: u32) -> (r: Vec<u8>)
    ensures
        r@ == le_bytes(x),
{
    let r = vec![(x % 256) as u8, ((x / 256) % 256) as u8, ((x / 65536) % 256) as u8, (x
        / 16777216) as u8];
    assert(r@ =~= le_bytes(x));
    r
}

/// The value of the four little-endian bytes that start at `at`.
pub fn decode_u32_at(b: &[u8], at: usize) -> (r: u32)
    requires
        at + 4 <= b@.len(),
    ensures
        r == le_value_at(b@, at as int),
{
    let v: u32 = b[at] as u32 + 256 * (b[at + 1] as u32) + 65536 * (b[at + 2] as u32)
        + 16777216 * (b[at + 3] as u32);
    v
}

/// A copy of `b[start..end]`.
pub fn copy_range(b: &[u8], start: usize, end: usize) -> (r: Vec<u8>)
    requires
        start <= end <= b@.len(),
    ensures
        r@ == b@.subrange(start as int, end as int),
{
    let mut r: Vec<u8> = Vec::with_capacity(end - start);
    let mut i: usize = start;
    while i < end
        invariant
            start <= i <= end <= b@.len(),
            r@ == b@.subrange(start as int, i as int),
        decreases end - i,
    {
        r.push(b[i]);
        i = i + 1;
        assert(r@ =~= b@.subrange(start as int, i as int));
    }
    r
}

/// The frame that carries `payload` as fragment `id`.
pub fn encode_frame(id: u32, payload: &[u8]) -> (r: Vec<u8>)
    requires
        payload@.len() <= u32::MAX,
    ensures
        r@ == frame_bytes(id, payload@),
{
    let mut r = encode_u32(id);
    let mut len_bytes = encode_u32(payload.len() as u32);
    r.append(&mut len_bytes);
    let mut i: usize = 0;
    while i < payload.len()
        invariant
            i <= payload@.len(),
            r@ == le_bytes(id) + le_bytes(payload@.len() as u32) + payload@.subrange(0, i as int),
        decreases payload@.len() - i,
    {
        r.push(payload[i]);
        i = i + 1;
        assert(r@ =~= le_bytes(id) + le_bytes(payload@.len() as u32) + payload@.subrange(
            0,
            i as int,
        ));
    }
    assert(payload@.subrange(0, payload@.len() as int) =~= payload@);
    r
}

/// The id and payload of the frame at the start of `buf`, once `buf` holds all of it.
/// Bytes after the frame are ignored.
pub fn parse_frame(buf: &[u8]) -> (r: Option<(u32, Vec<u8>)>)
    ensures
        r is Some <==> holds_frame(buf@),
        r matches Some((id, payload)) ==> id == le_value_at(buf@, 0) && payload@ == buf@.subrange(
            8,
            8 + announced_len(buf@),
        ),
{
    if buf.len() < HEADER_WIDTH {
        return None;
    }
    let id = decode_u32_at(buf, 0);
    let len = decode_u32_at(buf, 4) as usize;
    if buf.len() - HEADER_WIDTH < len {
        return None;
    }
    let payload = copy_range(buf, HEADER_WIDTH, HEADER_WIDTH + len);
    Some((id, payload))
}

/// A frame read back gives the id and payload it was made from.
pub proof fn lemma_frame_round_trip(id: u32, payload: Seq<u8>)
    requires
        payload.len() <= u32::MAX,
    ensures
        holds_frame(frame_bytes(id, payload)),
        le_value_at(frame_bytes(id, payload), 0) == id,
        announced_len(frame_bytes(id, payload)) == payload.len(),
        frame_bytes(id, payload).subrange(8, 8 + payload.len() as int) == payload,
{
    let f = frame_bytes(id, payload);
    let n = payload.len() as u32;
    lemma_le_round_trip(id);
    lemma_le_round_trip(n);
    assert(f.subrange(0, 4) =~= le_bytes(id));
    assert(f.subrange(4, 8) =~= le_bytes(n));
    assert(le_value_at(f, 0) == le_value_at(le_bytes(id), 0));
    assert(le_value_at(f, 4) == le_value_at(le_bytes(n), 0));
    assert(f.subrange(8, 8 + payload.len() as int) =~= payload);
}

/// The acknowledgment that carries `checksum`.
pub fn encode_ack(checksum: u32) -> (r: Vec<u8>)
    ensures
        r@ == le_bytes(checksum),
{
    encode_u32(checksum)
}

/// The checksum carried by an acknowledgment: present when exactly four bytes came.
pub fn decode_ack(bytes: &[u8]) -> (r: Option<u32>)
    ensures
        r is Some <==> bytes@.len() == FIELD_WIDTH,
        r matches Some(c) ==> c == le_value_at(bytes@, 0),
{
    if bytes.len() != FIELD_WIDTH {
        return None;
    }
    Some(decode_u32_at(bytes, 0))
}

/// The handshake message that announces the chunk count.
pub fn encode_chunk_count(count: u32) -> (r: Vec<u8>)
    ensures
        r@ == le_bytes(count),
{
    encode_u32(count)
}

/// The chunk count of a handshake message: present when exactly four bytes came.
pub fn decode_chunk_count(bytes: &[u8]) -> (r: Option<u32>)
    ensures
        r is Some <==> bytes@.len() == FIELD_WIDTH,
        r matches Some(c) ==> c == le_value_at(bytes@, 0),
{
    if bytes.len() != FIELD_WIDTH {
        return None;
    }
    Some(decode_u32_at(bytes, 0))
}

} // verus!
