//! Cutting a raw byte stream into frames.
//!
//! A receive buffer accumulates whatever chunks the socket delivers; the
//! functions here say which complete frames stand at its front. The split
//! depends only on the accumulated bytes, never on how they were chunked:
//! [`lemma_incremental_reassembly`] states that feeding a stream in two
//! pieces, cut at any byte boundary, yields the same frames as feeding it
//! whole.

use vstd::bytes::spec_u32_from_le_bytes;
use vstd::prelude::*;

verus! {

/// Length in bytes of the shortest well-formed frame: 4 length prefix +
/// 4 message id + two NUL terminators + 2 opcode + 2 content type.
pub const MIN_FRAME_LEN: u32 = 14;

/// The total length the frame at the front of `b` declares.
pub open spec fn spec_front_len(b: Seq<u8>) -> int {
    spec_u32_from_le_bytes(b.subrange(0, 4)) as int
}

/// More bytes are needed before the front of `b` can be judged: either the
/// length prefix itself is incomplete, or the declared total has not yet
/// arrived.
pub open spec fn front_incomplete(b: Seq<u8>) -> bool {
    b.len() < 4 || (spec_front_len(b) >= MIN_FRAME_LEN && spec_front_len(b) > b.len())
}

/// The front of `b` declares a total shorter than the fixed fields alone:
/// no suffix can complete it, the stream is corrupt.
pub open spec fn front_bad(b: Seq<u8>) -> bool {
    b.len() >= 4 && spec_front_len(b) < MIN_FRAME_LEN
}

/// One whole frame stands at the front of `b`.
pub open spec fn front_ready(b: Seq<u8>) -> bool {
    b.len() >= 4 && MIN_FRAME_LEN <= spec_front_len(b) <= b.len()
}

/// The complete frames at the front of `b`, in order, up to the first
/// front that is incomplete or bad.
pub open spec fn spec_frames(b: Seq<u8>) -> Seq<Seq<u8>>
    decreases b.len(),
{
    if front_ready(b) {
        seq![b.subrange(0, spec_front_len(b))] + spec_frames(
            b.subrange(spec_front_len(b), b.len() as int),
        )
    } else {
        seq![]
    }
}

/// What remains of `b` after its complete frames are removed.
pub open spec fn spec_rest(b: Seq<u8>) -> Seq<u8>
    decreases b.len(),
{
    if front_ready(b) {
        spec_rest(b.subrange(spec_front_len(b), b.len() as int))
    } else {
        b
    }
}

/// Appending bytes does not change how the front of a buffer is judged
/// while that front is ready or bad, since the judgement reads only bytes
/// the buffer already holds.
proof fn lemma_front_stable(b1: Seq<u8>, b2: Seq<u8>)
    requires
        b1.len() >= 4,
    ensures
        spec_front_len(b1 + b2) == spec_front_len(b1),
{
    assert((b1 + b2).subrange(0, 4) =~= b1.subrange(0, 4));
}

/// Incremental reassembly: a stream split at any byte boundary yields the
/// same frames as the unsplit stream — the frames of `b1` arrive first,
/// and the leftover of `b1` prepended to `b2` yields the remainder. Applied
/// chunk by chunk, feeding a stream in pieces of any size gives the same
/// frame sequence, and the same final leftover, as one single read.
pub proof fn lemma_incremental_reassembly(b1: Seq<u8>, b2: Seq<u8>)
    ensures
        spec_frames(b1 + b2) == spec_frames(b1) + spec_frames(spec_rest(b1) + b2),
        spec_rest(b1 + b2) == spec_rest(spec_rest(b1) + b2),
    decreases b1.len(),
{
    let b = b1 + b2;
    if front_ready(b1) {
        let fl = spec_front_len(b1);
        lemma_front_stable(b1, b2);
        assert(front_ready(b));
        assert(b.subrange(0, fl) =~= b1.subrange(0, fl));
        let tail1 = b1.subrange(fl, b1.len() as int);
        assert(b.subrange(fl, b.len() as int) =~= tail1 + b2);
        lemma_incremental_reassembly(tail1, b2);
        assert(spec_frames(b) =~= spec_frames(b1) + spec_frames(spec_rest(b1) + b2));
    } else if front_bad(b1) {
        lemma_front_stable(b1, b2);
        assert(front_bad(b));
        assert(spec_rest(b1) + b2 =~= b);
        assert(spec_frames(b) =~= spec_frames(b1) + spec_frames(spec_rest(b1) + b2));
    } else {
        assert(spec_rest(b1) + b2 =~= b);
        assert(spec_frames(b) =~= spec_frames(b1) + spec_frames(spec_rest(b1) + b2));
    }
}

/// The two-piece split restated over one buffer and a cut position: the
/// first `k` bytes, fed first, produce a prefix of the full split.
pub proof fn lemma_reassembly_at_boundary(b: Seq<u8>, k: int)
    requires
        0 <= k <= b.len(),
    ensures
        spec_frames(b) == spec_frames(b.subrange(0, k)) + spec_frames(
            spec_rest(b.subrange(0, k)) + b.subrange(k, b.len() as int),
        ),
{
    let head = b.subrange(0, k);
    let tail = b.subrange(k, b.len() as int);
    assert(head + tail =~= b);
    lemma_incremental_reassembly(head, tail);
}

} // verus!
