//! Framing on the debug wire: each message is the length of its payload as
//! eight bytes, low byte first, and then the payload.

use vstd::prelude::*;

verus! {

/// How many bytes hold the length of a payload.
pub const PREFIX_LEN: usize = 8;

/// The `count` low bytes of `n`, the lowest first.
pub open spec fn le_bytes(n: nat, count: nat) -> Seq<u8>
    decreases count,
{
    if count == 0 {
        Seq::empty()
    } else {
        seq![(n % 256) as u8] + le_bytes(n / 256, (count - 1) as nat)
    }
}

/// The number whose bytes, the lowest first, are `bytes`.
pub open spec fn le_value(bytes: Seq<u8>) -> nat
    decreases bytes.len(),
{
    if bytes.len() == 0 {
        0
    } else {
        bytes[0] as nat + 256 * le_value(bytes.skip(1))
    }
}

/// A payload as it goes on the wire.
pub open spec fn framed(payload: Seq<u8>) -> Seq<u8> {
    le_bytes(payload.len(), 8) + payload
}

/// What the bytes that were read in place of a length prefix mean.
#[derive(Debug, Clone, Copy, PartialEq, Eq, Structural)]
pub enum Preamble {
    /// No byte came: the peer has closed the connection.
    Closed,
    /// A payload of this many bytes follows.
    Length(u64),
    /// Some bytes came, but not eight: the stream is broken.
    Truncated,
}

/// What `numbytes` bytes read into an eight-byte buffer mean: none, that the
/// peer is gone; eight, the length they hold; any other number, a broken
/// stream.
pub open spec fn spec_preamble(buffer: Seq<u8>, numbytes: nat) -> Preamble {
    if numbytes == 0 {
        Preamble::Closed
    } else if numbytes == 8 {
        Preamble::Length(le_value(buffer) as u64)
    } else {
        Preamble::Truncated
    }
}

/// The number that eight bytes hold fits in 64 bits.
pub proof fn lemma_le_value_bound(bytes: Seq<u8>)
    ensures
        bytes.len() == 0 ==> le_value(bytes) == 0,
        bytes.len() == 1 ==> le_value(bytes) < 0x100,
        bytes.len() == 2 ==> le_value(bytes) < 0x1_0000,
        bytes.len() == 3 ==> le_value(bytes) < 0x100_0000,
        bytes.len() == 4 ==> le_value(bytes) < 0x1_0000_0000,
        bytes.len() == 5 ==> le_value(bytes) < 0x100_0000_0000,
        bytes.len() == 6 ==> le_value(bytes) < 0x1_0000_0000_0000,
        bytes.len() == 7 ==> le_value(bytes) < 0x100_0000_0000_0000,
        bytes.len() == 8 ==> le_value(bytes) < 0x1_0000_0000_0000_0000,
    decreases bytes.len(),
{
    if bytes.len() > 0 {
        lemma_le_value_bound(bytes.skip(1));
    }
}

/// The bytes of a number hold that number, where there are enough of them.
pub proof fn lemma_le_round_trip(n: nat, count: nat)
    ensures
        le_bytes(n, count).len() == count,
        count == 8 && n <= u64::MAX ==> le_value(le_bytes(n, count)) == n,
        le_value(le_bytes(n, count)) <= n,
    decreases count,
{
    if count > 0 {
        lemma_le_round_trip(n / 256, (count - 1) as nat);
        let bytes = le_bytes(n, count);
        assert(bytes.skip(1) =~= le_bytes(n / 256, (count - 1) as nat));
        lemma_le_exact(n, count);
    }
}

/// The `count` low bytes of a number hold the number modulo 256 to the
/// `count`.
proof fn lemma_le_exact(n: nat, count: nat)
    ensures
        count == 0 ==> le_value(le_bytes(n, count)) == 0,
        count == 1 ==> le_value(le_bytes(n, count)) == n % 0x100,
        count == 2 ==> le_value(le_bytes(n, count)) == n % 0x1_0000,
        count == 3 ==> le_value(le_bytes(n, count)) == n % 0x100_0000,
        count == 4 ==> le_value(le_bytes(n, count)) == n % 0x1_0000_0000,
        count == 5 ==> le_value(le_bytes(n, count)) == n % 0x100_0000_0000,
        count == 6 ==> le_value(le_bytes(n, count)) == n % 0x1_0000_0000_0000,
        count == 7 ==> le_value(le_bytes(n, count)) == n % 0x100_0000_0000_0000,
        count == 8 ==> le_value(le_bytes(n, count)) == n % 0x1_0000_0000_0000_0000,
    decreases count,
{
    if count > 0 {
        lemma_le_exact(n / 256, (count - 1) as nat);
        let bytes = le_bytes(n, count);
        assert(bytes.skip(1) =~= le_bytes(n / 256, (count - 1) as nat));
        assert(bytes[0] == (n % 256) as u8);
    }
}

/// The frame that carries `payload`: its length in eight bytes, low byte
/// first, and then the payload itself.
pub fn frame(payload: &[u8]) -> (bytes: Vec<u8>)
    ensures
        bytes@ == framed(payload@),
{
    let mut bytes: Vec<u8> = Vec::new();
    let mut rest: u64 = payload.len() as u64;
    let mut k: usize = 0;
    while k < PREFIX_LEN
        invariant
            k <= 8,
            le_bytes(payload@.len(), 8) == bytes@ + le_bytes(rest as nat, (8 - k) as nat),
        decreases 8 - k,
    {
        bytes.push((rest % 256) as u8);
        rest = rest / 256;
        k += 1;
        assert(le_bytes(payload@.len(), 8) =~= bytes@ + le_bytes(rest as nat, (8 - k) as nat));
    }
    assert(bytes@ =~= le_bytes(payload@.len(), 8));
    let mut i: usize = 0;
    while i < payload.len()
        invariant
            i <= payload@.len(),
            bytes@ == le_bytes(payload@.len(), 8) + payload@.take(i as int),
        decreases payload@.len() - i,
    {
        bytes.push(payload[i]);
        i += 1;
        assert(bytes@ =~= le_bytes(payload@.len(), 8) + payload@.take(i as int));
    }
    assert(payload@.take(i as int) =~= payload@);
    bytes
}

/// Reads what came in place of a length prefix: `numbytes` is how many bytes
/// were read into `buffer`.
pub fn preamble(buffer: &[u8; 8], numbytes: usize) -> (r: Preamble)
    ensures
        r == spec_preamble(buffer@, numbytes as nat),
{
    if numbytes == 0 {
        return Preamble::Closed;
    }
    if numbytes != 8 {
        return Preamble::Truncated;
    }
    let mut len: u64 = 0;
    let mut k: usize = 8;
    while k > 0
        invariant
            k <= 8,
            buffer@.len() == 8,
            len == le_value(buffer@.skip(k as int)),
        decreases k,
    {
        proof {
            lemma_le_value_bound(buffer@.skip(k as int));
            assert(buffer@.skip(k - 1).skip(1) =~= buffer@.skip(k as int));
        }
        k -= 1;
        len = len * 256 + buffer[k] as u64;
    }
    assert(buffer@.skip(0) =~= buffer@);
    Preamble::Length(len)
}

/// What is read from the prefix of a frame is the length of its payload.
pub proof fn lemma_frame_length(payload: Seq<u8>)
    requires
        payload.len() <= u64::MAX,
    ensures
        framed(payload).len() == 8 + payload.len(),
        le_value(framed(payload).take(8)) == payload.len(),
        framed(payload).skip(8) == payload,
{
    lemma_le_round_trip(payload.len(), 8);
    assert(framed(payload).take(8) =~= le_bytes(payload.len(), 8));
    assert(framed(payload).skip(8) =~= payload);
}

} // verus!
