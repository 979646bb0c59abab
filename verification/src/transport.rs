//! Length-framed messages between the host and a plugin process.
//!
//! A frame is the payload's length as 8 little-endian bytes, then the
//! payload. Reading a frame checks the announced length before any payload
//! is read, so a bad peer cannot make the reader allocate without bound.

use vstd::prelude::*;

verus! {

/// Maximum serialized message size accepted over the wire (64 MiB). Prevents
/// a malicious or buggy peer from exhausting host/runner memory.
pub const MAX_MESSAGE_SIZE: usize = 67108864;

/// Why a frame was refused.
#[derive(Clone, Copy, Debug, PartialEq, Eq, Structural)]
pub enum TransportError {
    /// The frame announces an empty message.
    Empty,
    /// The message is larger than [`MAX_MESSAGE_SIZE`]; carries its size.
    TooLarge(usize),
}

/// The 8 little-endian bytes of `n`.
pub open spec fn le_bytes(n: u64) -> Seq<u8> {
    seq![
        (n & 0xff) as u8,
        ((n >> 8) & 0xff) as u8,
        ((n >> 16) & 0xff) as u8,
        ((n >> 24) & 0xff) as u8,
        ((n >> 32) & 0xff) as u8,
        ((n >> 40) & 0xff) as u8,
        ((n >> 48) & 0xff) as u8,
        ((n >> 56) & 0xff) as u8,
    ]
}

/// The number whose little-endian bytes are `b[0..8]`.
pub open spec fn le_value(b: Seq<u8>) -> u64 {
    (b[0] as u64) | ((b[1] as u64) << 8) | ((b[2] as u64) << 16) | ((b[3] as u64) << 24) | ((
    b[4] as u64) << 32) | ((b[5] as u64) << 40) | ((b[6] as u64) << 48) | ((b[7] as u64) << 56)
}

/// Reading back the little-endian bytes of a number gives the number.
pub proof fn lemma_le_roundtrip(n: u64)
    ensures
        le_value(le_bytes(n)) == n,
{
    let b = le_bytes(n);
    let b0 = b[0];
    let b1 = b[1];
    let b2 = b[2];
    let b3 = b[3];
    let b4 = b[4];
    let b5 = b[5];
    let b6 = b[6];
    let b7 = b[7];
    assert(((n & 0xff) as u8) as u64 | (((((n >> 8) & 0xff) as u8) as u64) << 8) | (((((n >> 16)
        & 0xff) as u8) as u64) << 16) | (((((n >> 24) & 0xff) as u8) as u64) << 24) | (((((n >> 32)
        & 0xff) as u8) as u64) << 32) | (((((n >> 40) & 0xff) as u8) as u64) << 40) | (((((n >> 48)
        & 0xff) as u8) as u64) << 48) | (((((n >> 56) & 0xff) as u8) as u64) << 56) == n)
        by (bit_vector);
}

/// The frame that carries `payload`, or `TooLarge` with the payload's size
/// when it is over [`MAX_MESSAGE_SIZE`].
pub fn encode_frame(payload: &Vec<u8>) -> (r: Result<Vec<u8>, TransportError>)
    ensures
        payload@.len() > MAX_MESSAGE_SIZE ==> r == Err::<Vec<u8>, TransportError>(
            TransportError::TooLarge(payload@.len() as usize),
        ),
        payload@.len() <= MAX_MESSAGE_SIZE ==> (r matches Ok(f) && f@ == le_bytes(
            payload@.len() as u64,
        ) + payload@),
{
    let n = payload.len();
    if n > MAX_MESSAGE_SIZE {
        return Err(TransportError::TooLarge(n));
    }
    let len = n as u64;
    let mut out: Vec<u8> = Vec::new();
    out.push((len & 0xff) as u8);
    out.push(((len >> 8) & 0xff) as u8);
    out.push(((len >> 16) & 0xff) as u8);
    out.push(((len >> 24) & 0xff) as u8);
    out.push(((len >> 32) & 0xff) as u8);
    out.push(((len >> 40) & 0xff) as u8);
    out.push(((len >> 48) & 0xff) as u8);
    out.push(((len >> 56) & 0xff) as u8);
    assert(out@ =~= le_bytes(len));
    let mut i: usize = 0;
    while i < n
        invariant
            n == payload@.len(),
            i <= n,
            out@ == le_bytes(len) + payload@.take(i as int),
        decreases n - i,
    {
        out.push(payload[i]);
        assert(payload@.take(i + 1) =~= payload@.take(i as int).push(payload@[i as int]));
        i = i + 1;
    }
    assert(payload@.take(n as int) =~= payload@);
    Ok(out)
}

/// The payload length a frame header announces, checked: `Empty` for zero,
/// `TooLarge` (with the length) for more than [`MAX_MESSAGE_SIZE`].
pub fn frame_len(header: &[u8; 8]) -> (r: Result<usize, TransportError>)
    ensures
        ({
            let len = le_value(header@) as usize;
            &&& len == 0 ==> r == Err::<usize, TransportError>(TransportError::Empty)
            &&& len > MAX_MESSAGE_SIZE ==> r == Err::<usize, TransportError>(
                TransportError::TooLarge(len),
            )
            &&& 0 < len <= MAX_MESSAGE_SIZE ==> r == Ok::<usize, TransportError>(len)
        }),
{
    let v: u64 = (header[0] as u64) | ((header[1] as u64) << 8) | ((header[2] as u64) << 16) | ((
    header[3] as u64) << 24) | ((header[4] as u64) << 32) | ((header[5] as u64) << 40) | ((
    header[6] as u64) << 48) | ((header[7] as u64) << 56);
    assert(v == le_value(header@));
    let len = #[verifier::truncate] (v as usize);
    if len == 0 {
        return Err(TransportError::Empty);
    }
    if len > MAX_MESSAGE_SIZE {
        return Err(TransportError::TooLarge(len));
    }
    Ok(len)
}

/// What a reader gets back from a frame is what the writer sent: the
/// header of an encoded non-empty payload announces exactly its length, and
/// the rest of the frame is the payload.
pub proof fn lemma_frame_roundtrip(payload: Seq<u8>, frame: Seq<u8>)
    requires
        0 < payload.len() <= MAX_MESSAGE_SIZE,
        frame == le_bytes(payload.len() as u64) + payload,
    ensures
        frame.len() == 8 + payload.len(),
        le_value(frame.take(8)) as usize == payload.len(),
        0 < le_value(frame.take(8)) as usize <= MAX_MESSAGE_SIZE,
        frame.skip(8) == payload,
{
    assert(frame.take(8) =~= le_bytes(payload.len() as u64));
    assert(frame.skip(8) =~= payload);
    lemma_le_roundtrip(payload.len() as u64);
}

} // verus!
