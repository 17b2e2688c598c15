//! The messages that sync nodes exchange, and how each serialized message
//! is framed on the stream: a four-byte big-endian length, then the bytes.
use vstd::prelude::*;
use crate::storage::be_value;

verus! {

/// A document id, e.g. a note id.
pub type DocId = String;

/// A message between two sync nodes.
#[derive(Debug, Clone)]
pub enum Msg {
    /// A node introduces itself.
    Hello { node_id: String },
    /// Anti-entropy summary: the version of every document a node holds.
    StateDigest { counts: Vec<(DocId, u64)> },
    /// The stored state of a document.
    Delta { doc: DocId, bytes: Vec<u8> },
    /// A request for the stored state of a document.
    Pull { doc: DocId },
}

/// The four big-endian bytes of `n`.
pub open spec fn be4(n: u32) -> Seq<u8> {
    seq![(n >> 24) as u8, ((n >> 16) & 0xff) as u8, ((n >> 8) & 0xff) as u8, (n & 0xff) as u8]
}

/// A frame: the payload's length, cut to 32 bits, in four big-endian bytes,
/// followed by the payload.
pub open spec fn frame(payload: Seq<u8>) -> Seq<u8> {
    be4(payload.len() as u32) + payload
}

/// Frames `payload` for the stream.
pub fn encode_frame(payload: &[u8]) -> (r: Vec<u8>)
    ensures
        r@ == frame(payload@),
{
    let n = payload.len() as u32;
    let mut r = vec![(n >> 24) as u8, ((n >> 16) & 0xff) as u8, ((n >> 8) & 0xff) as u8, (n & 0xff) as u8];
    let mut i: usize = 0;
    while i < payload.len()
        invariant
            0 <= i <= payload@.len(),
            n == payload@.len() as u32,
            r@ == be4(n) + payload@.take(i as int),
        decreases payload@.len() - i,
    {
        r.push(payload[i]);
        proof {
            assert(payload@.take(i + 1) =~= payload@.take(i as int).push(payload@[i as int]));
        }
        i = i + 1;
    }
    proof {
        assert(payload@.take(payload@.len() as int) =~= payload@);
    }
    r
}

/// The payload length that a frame header announces: the big-endian number
/// of its four bytes, or nothing when the header is not four bytes long.
pub fn frame_length(header: &[u8]) -> (r: Option<u32>)
    ensures
        r is Some <==> header@.len() == 4,
        r matches Some(n) ==> n == be_value(header@),
{
    if header.len() != 4 {
        return None;
    }
    let n: u32 = ((header[0] as u32) << 24) | ((header[1] as u32) << 16) | ((header[2] as u32) << 8)
        | (header[3] as u32);
    proof {
        let (b0, b1, b2, b3) = (header@[0], header@[1], header@[2], header@[3]);
        assert(n == ((b0 as u32 * 256 + b1 as u32) * 256 + b2 as u32) * 256 + b3 as u32) by (bit_vector)
            requires
                n == ((b0 as u32) << 24) | ((b1 as u32) << 16) | ((b2 as u32) << 8) | (b3 as u32),
        ;
        reveal_with_fuel(be_value, 5);
        assert(header@.drop_last().drop_last().drop_last().drop_last().len() == 0);
    }
    Some(n)
}

/// The header of a frame announces the length of its payload, for every
/// payload shorter than 2^32 bytes.
pub proof fn law_frame_length_roundtrip(payload: Seq<u8>)
    requires
        payload.len() <= u32::MAX,
    ensures
        frame(payload).len() == payload.len() + 4,
        frame(payload).subrange(4, frame(payload).len() as int) == payload,
        be_value(frame(payload).subrange(0, 4)) == payload.len(),
{
    let n = payload.len() as u32;
    let h = frame(payload).subrange(0, 4);
    assert(h =~= be4(n));
    assert(frame(payload).subrange(4, frame(payload).len() as int) =~= payload);
    let (b0, b1, b2, b3) = ((n >> 24) as u8, ((n >> 16) & 0xff) as u8, ((n >> 8) & 0xff) as u8, (n & 0xff) as u8);
    assert(n == ((b0 as u32 * 256 + b1 as u32) * 256 + b2 as u32) * 256 + b3 as u32) by (bit_vector)
        requires
            b0 == (n >> 24) as u8,
            b1 == ((n >> 16) & 0xff) as u8,
            b2 == ((n >> 8) & 0xff) as u8,
            b3 == (n & 0xff) as u8,
    ;
    reveal_with_fuel(be_value, 5);
    assert(h.drop_last().drop_last().drop_last().drop_last().len() == 0);
}

} // verus!
