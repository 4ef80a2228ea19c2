//! Chunk framer: splits a frame payload into an ordered sequence of
//! bounded-size chunks, each prefixed with a one-byte sequence index.  The
//! first chunk additionally carries, right after its sequence byte, a
//! two-byte little-endian chunk-size field and a one-byte chunk-count field,
//! so the receiver can allocate its buffer before any later chunk arrives.

use vstd::arithmetic::div_mod::{
    lemma_basic_div, lemma_fundamental_div_mod, lemma_fundamental_div_mod_converse_div,
    lemma_mod_division_less_than_divisor,
};
use vstd::arithmetic::mul::{lemma_mul_inequality, lemma_mul_is_distributive_add_other_way};
use vstd::prelude::*;

verus! {

/// Number of chunks needed to carry `len` payload bytes when each chunk holds
/// at most `cap` bytes, one of which is reserved for the sequence prefix.
pub open spec fn chunk_count(len: int, cap: int) -> int
    recommends
        cap > 1,
        len >= 0,
{
    if len <= 0 {
        0
    } else {
        (len - 1) / (cap - 1) + 1
    }
}

/// The prefix of chunk `i`: the sequence byte, and for the first chunk also
/// the little-endian chunk-size field and the chunk-count field.
pub open spec fn chunk_prefix(payload: Seq<u8>, cap: int, i: int) -> Seq<u8>
    recommends
        cap > 1,
        0 <= i < chunk_count(payload.len() as int, cap) <= 255,
{
    if i == 0 {
        seq![
            0u8,
            (cap % 256) as u8,
            ((cap / 256) % 256) as u8,
            chunk_count(payload.len() as int, cap) as u8,
        ]
    } else {
        seq![i as u8]
    }
}

/// The slice of the payload carried by chunk `i`: `cap - 1` bytes per chunk,
/// in payload order, with the last chunk taking whatever remains.
pub open spec fn chunk_data(payload: Seq<u8>, cap: int, i: int) -> Seq<u8>
    recommends
        cap > 1,
        0 <= i < chunk_count(payload.len() as int, cap),
{
    let lo = i * (cap - 1);
    let hi = if (i + 1) * (cap - 1) <= payload.len() {
        (i + 1) * (cap - 1)
    } else {
        payload.len() as int
    };
    payload.subrange(lo, hi)
}

/// The full wire bytes of chunk `i`: prefix followed by its payload slice.
pub open spec fn chunk_message(payload: Seq<u8>, cap: int, i: int) -> Seq<u8>
    recommends
        cap > 1,
        0 <= i < chunk_count(payload.len() as int, cap) <= 255,
{
    chunk_prefix(payload, cap, i) + chunk_data(payload, cap, i)
}

/// `chunk_count` is exactly the ceiling of `len / (cap - 1)`.
pub proof fn lemma_chunk_count_is_ceil(len: int, cap: int)
    requires
        cap > 1,
        len >= 0,
    ensures
        chunk_count(len, cap) >= 0,
        len <= chunk_count(len, cap) * (cap - 1),
        len > 0 ==> (chunk_count(len, cap) - 1) * (cap - 1) < len,
        len > 0 ==> chunk_count(len, cap) >= 1,
        chunk_count(len, cap) == (len + cap - 2) / (cap - 1),
{
    let d = cap - 1;
    if len == 0 {
        lemma_basic_div(d - 1, d);
    } else {
        let q = (len - 1) / d;
        let r = (len - 1) % d;
        lemma_fundamental_div_mod(len - 1, d);
        lemma_mod_division_less_than_divisor(len - 1, d);
        assert(len - 1 == d * q + r);
        assert(q >= 0) by {
            vstd::arithmetic::div_mod::lemma_div_pos_is_pos(len - 1, d);
        }
        assert((q + 1) * d == q * d + d) by {
            lemma_mul_is_distributive_add_other_way(d, q, 1);
        }
        assert(len + d - 1 == (q + 1) * d + r);
        lemma_fundamental_div_mod_converse_div(len + d - 1, d, q + 1, r);
    }
}

/// Concatenation of the payload slices of the first `k` chunks, in sequence
/// order and with all prefixes stripped.
pub open spec fn reassembled_prefix(payload: Seq<u8>, cap: int, k: int) -> Seq<u8>
    recommends
        cap > 1,
        0 <= k <= chunk_count(payload.len() as int, cap),
    decreases k,
{
    if k <= 0 {
        Seq::empty()
    } else {
        reassembled_prefix(payload, cap, k - 1) + chunk_data(payload, cap, k - 1)
    }
}

proof fn lemma_reassembled_prefix_is_subrange(payload: Seq<u8>, cap: int, k: int)
    requires
        cap > 1,
        0 <= k <= chunk_count(payload.len() as int, cap),
    ensures
        reassembled_prefix(payload, cap, k) == payload.subrange(
            0,
            if k * (cap - 1) <= payload.len() {
                k * (cap - 1)
            } else {
                payload.len() as int
            },
        ),
    decreases k,
{
    let len = payload.len() as int;
    let d = cap - 1;
    if k <= 0 {
        assert(payload.subrange(0, 0) =~= Seq::<u8>::empty());
    } else {
        lemma_reassembled_prefix_is_subrange(payload, cap, k - 1);
        lemma_chunk_count_is_ceil(len, cap);
        lemma_mul_inequality(k - 1, chunk_count(len, cap) - 1, d);
        assert((k - 1) * d <= (chunk_count(len, cap) - 1) * d < len);
        lemma_mul_is_distributive_add_other_way(d, k - 1, 1);
        assert(k * d == (k - 1) * d + d);
        let a = (k - 1) * d;
        let b = if k * d <= len {
            k * d
        } else {
            len
        };
        assert(chunk_data(payload, cap, k - 1) == payload.subrange(a, b));
        assert(payload.subrange(0, a) + payload.subrange(a, b) =~= payload.subrange(0, b));
    }
}

/// Splitting then reassembling is the identity: concatenating the payload
/// slices of all chunks of a payload, in sequence order, yields that payload
/// back byte for byte, for every payload length and every capacity above one.
pub proof fn lemma_chunks_reassemble(payload: Seq<u8>, cap: int)
    requires
        cap > 1,
    ensures
        reassembled_prefix(payload, cap, chunk_count(payload.len() as int, cap)) == payload,
{
    let len = payload.len() as int;
    let n = chunk_count(len, cap);
    lemma_chunk_count_is_ceil(len, cap);
    lemma_reassembled_prefix_is_subrange(payload, cap, n);
    assert(payload.subrange(0, len) =~= payload);
}

/// The chunk-count field declared in the first chunk equals the number of
/// chunks actually produced for the payload.
pub proof fn lemma_first_chunk_declares_count(payload: Seq<u8>, cap: int)
    requires
        cap > 1,
        1 <= chunk_count(payload.len() as int, cap) <= 255,
    ensures
        chunk_message(payload, cap, 0)[3] == chunk_count(payload.len() as int, cap),
{
    let n = chunk_count(payload.len() as int, cap);
    assert(chunk_message(payload, cap, 0)[3] == chunk_prefix(payload, cap, 0)[3]);
    assert(chunk_prefix(payload, cap, 0)[3] == n as u8);
}

/// Every chunk stays within the transport ceiling: each carries at most
/// `cap - 1` payload bytes, so the first chunk is at most `cap + 3` bytes
/// long (it alone carries the three extra header bytes) and every other
/// chunk at most `cap` bytes.
pub proof fn lemma_chunk_sizes(payload: Seq<u8>, cap: int, i: int)
    requires
        cap > 1,
        0 <= i < chunk_count(payload.len() as int, cap),
    ensures
        chunk_data(payload, cap, i).len() <= cap - 1,
        i == 0 ==> chunk_message(payload, cap, i).len() <= cap + 3,
        i > 0 ==> chunk_message(payload, cap, i).len() <= cap,
{
    let len = payload.len() as int;
    let d = cap - 1;
    let n = chunk_count(len, cap);
    lemma_chunk_count_is_ceil(len, cap);
    lemma_mul_inequality(i, n - 1, d);
    assert(i * d <= (n - 1) * d < len);
    vstd::arithmetic::mul::lemma_mul_nonnegative(i, d);
    lemma_mul_is_distributive_add_other_way(d, i, 1);
    assert((i + 1) * d == i * d + d);
}

/// Splits `payload` into `chunk_count` chunks of capacity `cap`, assigning
/// sequence indices in payload order and injecting the size and count header
/// fields into the first chunk.
///
/// The caller must keep the chunk count within one byte; `try_frame_payload`
/// is the checked entry point that rejects oversized payloads instead.
pub fn frame_payload(payload: &Vec<u8>, cap: usize) -> (chunks: Vec<Vec<u8>>)
    requires
        1 < cap <= 0xffff,
        chunk_count(payload@.len() as int, cap as int) <= 255,
    ensures
        chunks@.len() == chunk_count(payload@.len() as int, cap as int),
        forall|i: int|
            0 <= i < chunks@.len() ==> (#[trigger] chunks@[i])@ == chunk_message(
                payload@,
                cap as int,
                i,
            ),
{
    let len = payload.len();
    let n: usize = if len == 0 {
        0
    } else {
        (len - 1) / (cap - 1) + 1
    };
    let mut chunks: Vec<Vec<u8>> = Vec::new();
    let mut i: usize = 0;
    while i < n
        invariant
            1 < cap <= 0xffff,
            len == payload@.len(),
            n == chunk_count(len as int, cap as int),
            n <= 255,
            i <= n,
            chunks@.len() == i,
            forall|m: int|
                0 <= m < i ==> (#[trigger] chunks@[m])@ == chunk_message(
                    payload@,
                    cap as int,
                    m,
                ),
        decreases n - i,
    {
        proof {
            lemma_chunk_count_is_ceil(len as int, cap as int);
            lemma_mul_inequality(i as int, n as int - 1, cap as int - 1);
            assert(i * (cap - 1) <= (n - 1) * (cap - 1) < len);
            vstd::arithmetic::mul::lemma_mul_upper_bound(
                n as int - 1,
                254,
                cap as int - 1,
                0xfffe,
            );
            assert((n - 1) * (cap - 1) + (cap - 1) <= 255 * 0xfffe);
        }
        let lo = i * (cap - 1);
        let hi = if lo + (cap - 1) <= len {
            lo + (cap - 1)
        } else {
            len
        };
        proof {
            lemma_mul_is_distributive_add_other_way(cap as int - 1, i as int, 1);
            assert((i + 1) * (cap as int - 1) == i * (cap as int - 1) + (cap as int - 1));
        }
        let mut chunk: Vec<u8> = Vec::new();
        if i == 0 {
            chunk.push(0u8);
            chunk.push((cap % 256) as u8);
            chunk.push(((cap / 256) % 256) as u8);
            chunk.push(n as u8);
        } else {
            chunk.push(i as u8);
        }
        assert(chunk@ == chunk_prefix(payload@, cap as int, i as int));
        let mut k = lo;
        while k < hi
            invariant
                1 < cap <= 0xffff,
                lo <= k <= hi <= len,
                len == payload@.len(),
                n == chunk_count(len as int, cap as int),
                n <= 255,
                0 <= i < n,
                chunk@ == chunk_prefix(payload@, cap as int, i as int) + payload@.subrange(
                    lo as int,
                    k as int,
                ),
            decreases hi - k,
        {
            chunk.push(payload[k]);
            proof {
                assert(payload@.subrange(lo as int, k + 1) =~= payload@.subrange(
                    lo as int,
                    k as int,
                ).push(payload@[k as int]));
            }
            k = k + 1;
        }
        proof {
            assert(payload@.subrange(lo as int, hi as int) == chunk_data(
                payload@,
                cap as int,
                i as int,
            ));
            assert(chunk@ == chunk_message(payload@, cap as int, i as int));
        }
        chunks.push(chunk);
        i = i + 1;
    }
    chunks
}

/// Frames `payload` for a fixed pool of `channels` logical channels: one
/// chunk per channel in payload order, then an empty message for every
/// channel left without data this frame, so that exactly `channels` messages
/// go out per frame.
pub fn frame_messages(payload: &Vec<u8>, cap: usize, channels: usize) -> (msgs: Vec<Vec<u8>>)
    requires
        1 < cap <= 0xffff,
        channels <= 255,
        chunk_count(payload@.len() as int, cap as int) <= channels as int,
    ensures
        msgs@.len() == channels,
        forall|i: int|
            0 <= i < chunk_count(payload@.len() as int, cap as int) ==> (#[trigger] msgs@[i])@
                == chunk_message(payload@, cap as int, i),
        forall|i: int|
            chunk_count(payload@.len() as int, cap as int) <= i < channels ==> (
            #[trigger] msgs@[i])@ == Seq::<u8>::empty(),
{
    let ghost n0: int = chunk_count(payload@.len() as int, cap as int);
    let mut msgs = frame_payload(payload, cap);
    while msgs.len() < channels
        invariant
            1 < cap <= 0xffff,
            n0 == chunk_count(payload@.len() as int, cap as int),
            n0 <= msgs@.len() <= channels,
            forall|i: int|
                0 <= i < n0 ==> (#[trigger] msgs@[i])@ == chunk_message(payload@, cap as int, i),
            forall|i: int| n0 <= i < msgs@.len() ==> (#[trigger] msgs@[i])@ == Seq::<u8>::empty(),
        decreases channels - msgs@.len(),
    {
        let v: Vec<u8> = Vec::new();
        let ghost m0: Seq<Vec<u8>> = msgs@;
        msgs.push(v);
        proof {
            assert forall|i: int| n0 <= i < msgs@.len() implies (#[trigger] msgs@[i])@
                == Seq::<u8>::empty() by {
                if i < m0.len() {
                    assert(msgs@[i] == m0[i]);
                } else {
                    assert(msgs@[i] == v);
                }
            }
            assert forall|i: int| 0 <= i < n0 implies (#[trigger] msgs@[i])@ == chunk_message(
                payload@,
                cap as int,
                i,
            ) by {
                assert(msgs@[i] == m0[i]);
            }
        }
    }
    msgs
}

/// Checked framing: rejects a payload whose chunk count would not fit the
/// one-byte count field, instead of emitting a corrupt header.
pub fn try_frame_payload(payload: &Vec<u8>, cap: usize) -> (r: Option<Vec<Vec<u8>>>)
    requires
        1 < cap <= 0xffff,
    ensures
        match r {
            Some(chunks) => {
                &&& chunk_count(payload@.len() as int, cap as int) <= 255
                &&& chunks@.len() == chunk_count(payload@.len() as int, cap as int)
                &&& forall|i: int|
                    0 <= i < chunks@.len() ==> (#[trigger] chunks@[i])@ == chunk_message(
                        payload@,
                        cap as int,
                        i,
                    )
            },
            None => chunk_count(payload@.len() as int, cap as int) > 255,
        },
{
    let len = payload.len();
    let n: usize = if len == 0 {
        0
    } else {
        (len - 1) / (cap - 1) + 1
    };
    if n > 255 {
        None
    } else {
        Some(frame_payload(payload, cap))
    }
}

} // verus!
