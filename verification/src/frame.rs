//! Length-prefixed Milter framing: a frame on the wire is a 4-byte
//! big-endian total length `N`, one command byte, and `N - 1` payload bytes.

use vstd::prelude::*;

verus! {

/// Largest value a frame's 4-byte length field can carry.
pub open spec fn max_frame_len() -> int {
    0xffff_ffff
}

/// Big-endian interpretation of four bytes.
pub open spec fn spec_be32(b0: u8, b1: u8, b2: u8, b3: u8) -> u32 {
    (b0 as u32 * 0x100_0000 + b1 as u32 * 0x1_0000 + b2 as u32 * 0x100 + b3 as u32) as u32
}

/// The four big-endian bytes of `n`, most significant first.
pub open spec fn spec_be32_bytes(n: u32) -> Seq<u8> {
    seq![(n >> 24) as u8, (n >> 16) as u8, (n >> 8) as u8, n as u8]
}

/// Reading four big-endian bytes back gives the encoded value.
pub proof fn lemma_be32_round_trip(n: u32)
    ensures
        spec_be32((n >> 24) as u8, (n >> 16) as u8, (n >> 8) as u8, n as u8) == n,
{
    assert(((n >> 24) as u8) as u32 * 0x100_0000 + ((n >> 16) as u8) as u32 * 0x1_0000 + ((n
        >> 8) as u8) as u32 * 0x100 + (n as u8) as u32 == n) by (bit_vector);
}

/// For a value below 256 the three leading big-endian bytes are zero.
pub proof fn lemma_be32_bytes_small(n: u32)
    requires
        n < 256,
    ensures
        spec_be32_bytes(n) == seq![0u8, 0u8, 0u8, n as u8],
{
    assert((n >> 24) as u8 == 0 && (n >> 16) as u8 == 0 && (n >> 8) as u8 == 0) by (bit_vector)
        requires
            n < 256,
    ;
    assert(spec_be32_bytes(n) =~= seq![0u8, 0u8, 0u8, n as u8]);
}

/// Reads a 32-bit big-endian value from four bytes.
pub fn be32_decode(b0: u8, b1: u8, b2: u8, b3: u8) -> (r: u32)
    ensures
        r == spec_be32(b0, b1, b2, b3),
{
    (b0 as u32) * 0x100_0000 + (b1 as u32) * 0x1_0000 + (b2 as u32) * 0x100 + (b3 as u32)
}

/// Appends the four big-endian bytes of `n` to `out`.
pub fn push_be32(out: &mut Vec<u8>, n: u32)
    ensures
        final(out)@ == old(out)@ + spec_be32_bytes(n),
{
    out.push((n >> 24) as u8);
    out.push((n >> 16) as u8);
    out.push((n >> 8) as u8);
    out.push(n as u8);
    proof {
        assert(out@ =~= old(out)@ + spec_be32_bytes(n));
    }
}

/// The wire encoding of a frame: `BE32(1 + len(payload)) || cmd || payload`.
pub open spec fn spec_encode_frame(cmd: u8, payload: Seq<u8>) -> Seq<u8> {
    spec_be32_bytes((1 + payload.len()) as u32) + seq![cmd] + payload
}

/// The frame a byte sequence encodes, if it is exactly one well-formed frame:
/// at least five bytes, a length field of at least one, and exactly
/// `4 + length` bytes in all.
pub open spec fn spec_decode_frame(s: Seq<u8>) -> Option<(u8, Seq<u8>)> {
    if s.len() >= 5 {
        let n = spec_be32(s[0], s[1], s[2], s[3]) as int;
        if n >= 1 && s.len() == 4 + n {
            Some((s[4], s.subrange(5, s.len() as int)))
        } else {
            None
        }
    } else {
        None
    }
}

/// Writes the wire encoding of one frame.
pub fn encode_frame(cmd: u8, payload: &[u8]) -> (r: Vec<u8>)
    requires
        payload@.len() + 1 <= max_frame_len(),
    ensures
        r@ == spec_encode_frame(cmd, payload@),
{
    let mut r: Vec<u8> = Vec::new();
    let n: u32 = (payload.len() as u32) + 1;
    push_be32(&mut r, n);
    r.push(cmd);
    proof {
        assert(r@ =~= spec_be32_bytes(n) + seq![cmd]);
    }
    crate::util::append_bytes(&mut r, payload);
    r
}

/// Parses one complete frame from `s`, the command byte and its payload.
pub fn decode_frame(s: &[u8]) -> (r: Option<(u8, Vec<u8>)>)
    ensures
        match r {
            Some((cmd, payload)) => spec_decode_frame(s@) == Some((cmd, payload@)),
            None => spec_decode_frame(s@) is None,
        },
{
    if s.len() < 5 {
        return None;
    }
    let n = be32_decode(s[0], s[1], s[2], s[3]);
    if n < 1 {
        return None;
    }
    if (s.len() as u64) != 4u64 + (n as u64) {
        return None;
    }
    let cmd = s[4];
    let mut payload: Vec<u8> = Vec::new();
    let mut i: usize = 5;
    while i < s.len()
        invariant
            5 <= i <= s.len(),
            payload@ == s@.subrange(5, i as int),
        decreases s.len() - i,
    {
        payload.push(s[i]);
        proof {
            assert(payload@ =~= s@.subrange(5, i + 1 as int));
        }
        i += 1;
    }
    Some((cmd, payload))
}

/// Framing round trip: reading back the encoding of any command byte and
/// any payload that fits the length field yields that command and payload.
pub proof fn lemma_frame_round_trip(cmd: u8, payload: Seq<u8>)
    requires
        payload.len() + 1 <= max_frame_len(),
    ensures
        spec_decode_frame(spec_encode_frame(cmd, payload)) == Some((cmd, payload)),
{
    let n: u32 = (1 + payload.len()) as u32;
    let s = spec_encode_frame(cmd, payload);
    lemma_be32_round_trip(n);
    assert(s[0] == (n >> 24) as u8 && s[1] == (n >> 16) as u8 && s[2] == (n >> 8) as u8 && s[3]
        == n as u8);
    assert(spec_be32(s[0], s[1], s[2], s[3]) == n);
    assert(s.len() == 4 + n);
    assert(s[4] == cmd);
    assert(s.subrange(5, s.len() as int) =~= payload);
}

} // verus!
