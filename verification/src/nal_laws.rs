//! What holds of the NAL splitter as a whole.
use vstd::prelude::*;

use crate::nal;
use crate::nal::{Assembly, Codec, FrameView, SplitterView};
use crate::pipeline;
use crate::pipeline::FrameKind;

verus! {

/// The start codes are found in strictly increasing order, and a position is
/// among them exactly if a start code begins there.
pub proof fn start_codes_are_exact(data: Seq<u8>)
    ensures
        forall|j: int, k: int|
            0 <= j < k < nal::start_codes(data).len() ==> #[trigger] nal::start_codes(data)[j]
                < #[trigger] nal::start_codes(data)[k],
        forall|p: int|
            #[trigger] nal::start_codes(data).contains(p) <==> exists|i: int| #[trigger]
                nal::code_at(data, i) && p == nal::code_start(data, i),
{
    nal::lemma_start_codes_bounds(data);
    assert forall|j: int, k: int| 0 <= j < k < nal::start_codes(data).len() implies #[trigger] nal::start_codes(
        data,
    )[j] < #[trigger] nal::start_codes(data)[k] by {
        assert(nal::body_offset(data, nal::start_codes(data)[j]) <= nal::start_codes(data)[k]);
    }
    assert forall|p: int| #[trigger] nal::start_codes(data).contains(p) implies exists|i: int| #[trigger]
        nal::code_at(data, i) && p == nal::code_start(data, i) by {
        let k = choose|k: int| 0 <= k < nal::start_codes(data).len() && nal::start_codes(data)[k] == p;
        nal::lemma_body_follows_one(data, k);
    }
    assert forall|i: int| #[trigger] nal::code_at(data, i) implies nal::start_codes(data).contains(
        nal::code_start(data, i),
    ) by {
        lemma_code_is_listed(data, i);
    }
}

proof fn lemma_code_is_listed(data: Seq<u8>, i: int)
    requires
        nal::code_at(data, i),
    ensures
        nal::start_codes(data).contains(nal::code_start(data, i)),
    decreases data.len(),
{
    let front = data.drop_last();
    if i == data.len() - 3 {
        assert(nal::start_codes(data).last() == nal::code_start(data, i));
    } else {
        lemma_code_is_listed(front, i);
        let k = choose|k: int|
            0 <= k < nal::start_codes(front).len() && nal::start_codes(front)[k] == nal::code_start(front, i);
        assert(nal::start_codes(data)[k] == nal::code_start(data, i));
    }
}

/// More data behind `front` leaves its start codes as they are.
proof fn lemma_start_codes_prefix(front: Seq<u8>, back: Seq<u8>)
    ensures
        nal::start_codes(front).len() <= nal::start_codes(front + back).len(),
        forall|k: int|
            0 <= k < nal::start_codes(front).len() ==> #[trigger] nal::start_codes(front + back)[k]
                == nal::start_codes(front)[k],
    decreases back.len(),
{
    let all = front + back;
    if back.len() == 0 {
        assert(all =~= front);
    } else {
        lemma_start_codes_prefix(front, back.drop_last());
        assert(all.drop_last() =~= front + back.drop_last());
    }
}

/// NALs that end inside `front` do not change when data follows.
proof fn lemma_take_nals_prefix(a: Assembly, codec: Codec, front: Seq<u8>, back: Seq<u8>, n: int)
    requires
        n < nal::start_codes(front).len(),
    ensures
        a.take_nals(codec, front + back, n) == a.take_nals(codec, front, n),
    decreases n,
{
    if n > 0 {
        lemma_take_nals_prefix(a, codec, front, back, n - 1);
        lemma_start_codes_prefix(front, back);
        nal::lemma_start_codes_bounds(front);
        let all = front + back;
        let k = n - 1;
        assert(nal::start_codes(all)[k] == nal::start_codes(front)[k]);
        assert(nal::start_codes(all)[k + 1] == nal::start_codes(front)[k + 1]);
        assert(nal::body_offset(front, nal::start_codes(front)[k]) <= nal::start_codes(front)[k + 1]);
        assert(nal::type_of_nal(all, codec, k) == nal::type_of_nal(front, codec, k));
        assert(nal::bytes_of_nal(all, k) =~= nal::bytes_of_nal(front, k));
    }
}

/// The NALs behind the `j`-th start code are those of the data cut there.
proof fn lemma_take_nals_suffix(a: Assembly, codec: Codec, data: Seq<u8>, j: int, m: int)
    requires
        0 <= j,
        0 <= m,
        j + m < nal::start_codes(data).len(),
    ensures
        a.take_nals(codec, data, j).take_nals(codec, data.skip(nal::start_codes(data)[j]), m)
            == a.take_nals(codec, data, j + m),
    decreases m,
{
    if m > 0 {
        lemma_take_nals_suffix(a, codec, data, j, m - 1);
        nal::lemma_start_codes_skip(data, j);
        nal::lemma_start_codes_bounds(data);
        let p = nal::start_codes(data)[j];
        let tail = data.skip(p);
        let k = m - 1;
        assert(nal::start_codes(tail)[k] == nal::start_codes(data)[j + k] - p);
        assert(nal::start_codes(tail)[k + 1] == nal::start_codes(data)[j + k + 1] - p);
        assert(nal::body_offset(data, nal::start_codes(data)[j + k]) <= nal::start_codes(data)[j + k + 1]);
        assert(nal::start_codes(data)[j + k] >= p) by {
            if k > 0 {
                assert(nal::body_offset(data, nal::start_codes(data)[j]) <= nal::start_codes(data)[j + k]);
            }
        }
        assert(nal::type_of_nal(tail, codec, k) == nal::type_of_nal(data, codec, j + k));
        assert(nal::bytes_of_nal(tail, k) =~= nal::bytes_of_nal(data, j + k));
    }
}

/// Frames finished earlier do not influence later ones.
proof fn lemma_done_is_carried(a: Assembly, codec: Codec, data: Seq<u8>, n: int)
    ensures
        a.take_nals(codec, data, n) == (Assembly {
            done: a.done + (Assembly { done: Seq::empty(), ..a }).take_nals(codec, data, n).done,
            ..(Assembly { done: Seq::empty(), ..a }).take_nals(codec, data, n)
        }),
    decreases n,
{
    let b = Assembly { done: Seq::empty(), ..a };
    if n > 0 {
        lemma_done_is_carried(a, codec, data, n - 1);
    }
    assert(a.take_nals(codec, data, n).done =~= a.done + b.take_nals(codec, data, n).done);
}

/// How the stream is cut into chunks does not matter: two chunks in turn give
/// the frames, and leave the state, that their concatenation gives.
pub proof fn chunking_is_irrelevant(s: SplitterView, first: Seq<u8>, second: Seq<u8>)
    ensures
        s.after(first).after(second) == s.after(first + second),
        s.frames(first) + s.after(first).frames(second) == s.frames(first + second),
{
    let front = s.pending + first;
    let all = s.pending + (first + second);
    assert(all =~= front + second);
    let n = nal::start_codes(front).len() as int;
    let mid = s.after(first);
    lemma_start_codes_prefix(front, second);
    if n < 2 {
        assert(s.assembled(first) == s.assembly());
        assert(mid.pending + second =~= all);
        assert(s.frames(first) + mid.frames(second) =~= s.frames(first + second));
        assert(mid.after(second) =~= s.after(first + second));
    } else {
        let p = nal::start_codes(front).last();
        nal::lemma_start_codes_bounds(front);
        assert(p == nal::start_codes(all)[n - 1]);
        let back = mid.pending + second;
        assert(back =~= all.skip(p));
        nal::lemma_start_codes_skip(all, n - 1);
        let m = nal::start_codes(back).len() as int;
        assert(m == nal::start_codes(all).len() - (n - 1));
        lemma_take_nals_prefix(s.assembly(), s.codec, front, second, n - 1);
        lemma_take_nals_suffix(s.assembly(), s.codec, all, n - 1, m - 1);
        let a = s.assembled(first);
        lemma_done_is_carried(a, s.codec, back, m - 1);
        assert(mid.assembly() == (Assembly { done: Seq::empty(), ..a }));
        assert(s.assembled(first + second) == a.take_nals(s.codec, back, m - 1));
        assert(s.frames(first) + mid.frames(second) =~= s.frames(first + second));
        if m >= 2 {
            assert(nal::start_codes(back).last() == nal::start_codes(all).last() - p);
            nal::lemma_start_codes_bounds(all);
            assert(back.skip(nal::start_codes(back).last()) =~= all.skip(nal::start_codes(all).last()));
        }
        assert(mid.after(second).pending =~= s.after(first + second).pending);
        assert(mid.after(second) =~= s.after(first + second));
    }
}

/// Chunks one after the other.
pub open spec fn joined(chunks: Seq<Seq<u8>>) -> Seq<u8>
    decreases chunks.len(),
{
    if chunks.len() == 0 {
        Seq::empty()
    } else {
        joined(chunks.drop_last()) + chunks.last()
    }
}

/// The state after all chunks, added in turn.
pub open spec fn after_all(s: SplitterView, chunks: Seq<Seq<u8>>) -> SplitterView
    decreases chunks.len(),
{
    if chunks.len() == 0 {
        s
    } else {
        after_all(s, chunks.drop_last()).after(chunks.last())
    }
}

/// The frames that all chunks finish, added in turn.
pub open spec fn frames_of_all(s: SplitterView, chunks: Seq<Seq<u8>>) -> Seq<FrameView>
    decreases chunks.len(),
{
    if chunks.len() == 0 {
        Seq::empty()
    } else {
        frames_of_all(s, chunks.drop_last()) + after_all(s, chunks.drop_last()).frames(
            chunks.last(),
        )
    }
}

/// Any number of chunks gives the frames, and leaves the state, that the whole
/// stream gives in one piece.
pub proof fn any_chunking_is_irrelevant(s: SplitterView, chunks: Seq<Seq<u8>>)
    requires
        s.wf(),
    ensures
        after_all(s, chunks) == s.after(joined(chunks)),
        frames_of_all(s, chunks) == s.frames(joined(chunks)),
    decreases chunks.len(),
{
    if chunks.len() == 0 {
        assert(s.pending + Seq::<u8>::empty() =~= s.pending);
        assert(s.after(Seq::empty()) =~= s);
        assert(s.frames(Seq::empty()) =~= Seq::empty());
    } else {
        any_chunking_is_irrelevant(s, chunks.drop_last());
        chunking_is_irrelevant(s, joined(chunks.drop_last()), chunks.last());
    }
}

// ---------------------------------------------------------------------------
// Nothing is lost
// ---------------------------------------------------------------------------

/// The bytes of all frames, one after the other.
pub open spec fn frame_bytes(frames: Seq<FrameView>) -> Seq<u8>
    decreases frames.len(),
{
    if frames.len() == 0 {
        Seq::empty()
    } else {
        frame_bytes(frames.drop_last()) + frames.last().payload
    }
}

proof fn lemma_take_nals_bytes(a: Assembly, codec: Codec, data: Seq<u8>, n: int)
    requires
        0 <= n < nal::start_codes(data).len(),
    ensures
        frame_bytes(a.take_nals(codec, data, n).done) + a.take_nals(codec, data, n).frame
            == frame_bytes(a.done) + a.frame + data.subrange(
            nal::start_codes(data)[0],
            nal::start_codes(data)[n],
        ),
    decreases n,
{
    nal::lemma_start_codes_bounds(data);
    let base = frame_bytes(a.done) + a.frame;
    let first = nal::start_codes(data)[0];
    if n == 0 {
        assert(base + data.subrange(first, first) =~= base);
    } else {
        lemma_take_nals_bytes(a, codec, data, n - 1);
        let b = a.take_nals(codec, data, n - 1);
        let nal = nal::bytes_of_nal(data, n - 1);
        let vcl = nal::nal_is_vcl(data, codec, n - 1);
        let c = b.take_nal(codec, nal, vcl);
        assert(nal::body_offset(data, nal::start_codes(data)[n - 1]) <= nal::start_codes(data)[n]);
        if n - 1 > 0 {
            assert(nal::body_offset(data, first) <= nal::start_codes(data)[n - 1]);
        }
        if !vcl && b.has_vcl {
            assert(b.finish(codec).done.drop_last() =~= b.done);
            assert(frame_bytes(c.done) == frame_bytes(b.done) + b.frame);
        }
        assert(frame_bytes(c.done) + c.frame =~= frame_bytes(b.done) + b.frame + nal);
        assert(data.subrange(first, nal::start_codes(data)[n]) =~= data.subrange(
            first,
            nal::start_codes(data)[n - 1],
        ) + nal);
        assert(frame_bytes(c.done) + c.frame =~= base + data.subrange(
            first,
            nal::start_codes(data)[n],
        ));
    }
}

/// No byte is lost, doubled or moved: the frames returned, the unfinished
/// frame and the pending bytes together are what was held before and the new
/// bytes, from the first start code on. Until two start codes are there,
/// everything stays pending.
pub proof fn no_byte_is_lost(s: SplitterView, chunk: Seq<u8>)
    ensures
        ({
            let data = s.pending + chunk;
            let next = s.after(chunk);
            &&& nal::start_codes(data).len() >= 2 ==> frame_bytes(s.frames(chunk)) + next.frame
                + next.pending == s.frame + data.skip(nal::start_codes(data)[0])
            &&& nal::start_codes(data).len() < 2 ==> {
                &&& s.frames(chunk).len() == 0
                &&& next.frame == s.frame
                &&& next.pending == data
            }
        }),
{
    let data = s.pending + chunk;
    let n = nal::start_codes(data).len() as int;
    let next = s.after(chunk);
    if n >= 2 {
        nal::lemma_start_codes_bounds(data);
        lemma_take_nals_bytes(s.assembly(), s.codec, data, n - 1);
        assert(nal::body_offset(data, nal::start_codes(data)[0]) <= nal::start_codes(data)[n - 1]);
        let cut = data.subrange(nal::start_codes(data)[0], nal::start_codes(data)[n - 1]);
        assert(frame_bytes(s.frames(chunk)) + next.frame == s.frame + cut) by {
            assert(frame_bytes(s.assembly().done) + s.frame =~= s.frame);
        }
        assert(cut + next.pending =~= data.skip(nal::start_codes(data)[0]));
        assert(s.frame + cut + next.pending =~= s.frame + data.skip(nal::start_codes(data)[0]));
    }
}

// ---------------------------------------------------------------------------
// Frames are access units
// ---------------------------------------------------------------------------

/// A frame ends in front of the `i`-th NAL: it is no slice and comes right
/// after one.
pub open spec fn boundary(data: Seq<u8>, codec: Codec, i: int) -> bool {
    0 < i && !nal::nal_is_vcl(data, codec, i) && nal::nal_is_vcl(data, codec, i - 1)
}

/// NAL numbers at which frames begin among the first `n` NALs.
pub open spec fn frame_starts(data: Seq<u8>, codec: Codec, n: int) -> Seq<int>
    decreases n,
{
    if n <= 0 {
        seq![0int]
    } else if boundary(data, codec, n - 1) {
        frame_starts(data, codec, n - 1).push(n - 1)
    } else {
        frame_starts(data, codec, n - 1)
    }
}

/// The bytes from NAL `lo` up to NAL `hi`.
pub open spec fn nal_range(data: Seq<u8>, lo: int, hi: int) -> Seq<u8> {
    data.subrange(nal::start_codes(data)[lo], nal::start_codes(data)[hi])
}

/// A splitter that has seen nothing.
pub open spec fn fresh(codec: Codec) -> SplitterView {
    SplitterView {
        codec,
        pending: Seq::empty(),
        frame: Seq::empty(),
        has_vcl: false,
        key_seen: false,
        seen: None,
    }
}

proof fn lemma_frame_starts(data: Seq<u8>, codec: Codec, n: int)
    requires
        0 <= n,
    ensures
        ({
            let c = frame_starts(data, codec, n);
            &&& c.len() > 0
            &&& c[0] == 0
            &&& forall|k: int| 0 < k < c.len() ==> 0 < #[trigger] c[k] < n && boundary(data, codec, c[k])
            &&& forall|j: int, k: int| 0 <= j < k < c.len() ==> #[trigger] c[j] < #[trigger] c[k]
            &&& forall|i: int| 0 < i < n && #[trigger] boundary(data, codec, i) ==> c.contains(i)
        }),
    decreases n,
{
    let c = frame_starts(data, codec, n);
    if n > 0 {
        lemma_frame_starts(data, codec, n - 1);
        let d = frame_starts(data, codec, n - 1);
        assert forall|i: int| 0 < i < n && #[trigger] boundary(data, codec, i) implies c.contains(
            i,
        ) by {
            if i < n - 1 {
                assert(d.contains(i));
                let k = choose|k: int| 0 <= k < d.len() && d[k] == i;
                assert(c[k] == i);
            } else {
                assert(c.last() == i);
            }
        }
    }
}

proof fn lemma_assembled_units(codec: Codec, data: Seq<u8>, n: int)
    requires
        0 <= n < nal::start_codes(data).len(),
    ensures
        ({
            let a = fresh(codec).assembly().take_nals(codec, data, n);
            let c = frame_starts(data, codec, n);
            &&& a.done.len() == c.len() - 1
            &&& a.has_vcl == (n > 0 && nal::nal_is_vcl(data, codec, n - 1))
            &&& a.frame == nal_range(data, c.last(), n)
            &&& forall|k: int|
                0 <= k < a.done.len() ==> (#[trigger] a.done[k]).payload == nal_range(
                    data,
                    c[k],
                    c[k + 1],
                ) && a.done[k].is_key == nal::has_keyframe(a.done[k].payload, codec)
        }),
    decreases n,
{
    nal::lemma_start_codes_bounds(data);
    let a = fresh(codec).assembly().take_nals(codec, data, n);
    let c = frame_starts(data, codec, n);
    if n == 0 {
        assert(a.frame =~= nal_range(data, 0, 0));
    } else {
        lemma_assembled_units(codec, data, n - 1);
        lemma_frame_starts(data, codec, n - 1);
        let b = fresh(codec).assembly().take_nals(codec, data, n - 1);
        let d = frame_starts(data, codec, n - 1);
        assert(nal::body_offset(data, nal::start_codes(data)[n - 1]) <= nal::start_codes(data)[n]);
        assert(0 <= d.last() <= n - 1);
        if d.last() < n - 1 {
            assert(nal::body_offset(data, nal::start_codes(data)[d.last()]) <= nal::start_codes(data)[n - 1]);
        }
        if boundary(data, codec, n - 1) {
            assert(a.frame =~= nal_range(data, n - 1, n));
            assert forall|k: int| 0 <= k < a.done.len() implies (#[trigger] a.done[k]).payload
                == nal_range(data, c[k], c[k + 1]) && a.done[k].is_key == nal::has_keyframe(
                a.done[k].payload,
                codec,
            ) by {
                if k < b.done.len() {
                    assert(a.done[k] == b.done[k]);
                }
            }
        } else {
            assert(a.done == b.done);
            assert(a.frame =~= nal_range(data, d.last(), n));
        }
    }
}

/// A fresh splitter cuts a stream exactly where a NAL that is no slice comes
/// right after a slice. So each frame is a run of other NALs followed by one
/// or more slices, the slices of one picture stay together, and the frames
/// follow each other without a gap. The NALs behind the last cut, up to the
/// last start code, form the unfinished frame.
pub proof fn frames_are_access_units(codec: Codec, stream: Seq<u8>)
    ensures
        ({
            let s = fresh(codec);
            let n = nal::start_codes(stream).len() - 1;
            let c = frame_starts(stream, codec, n);
            let frames = s.frames(stream);
            &&& frames.len() == c.len() - 1
            &&& forall|k: int|
                0 <= k < frames.len() ==> {
                    &&& c[k] < c[k + 1] < nal::start_codes(stream).len()
                    &&& (#[trigger] frames[k]).payload == nal_range(stream, c[k], c[k + 1])
                    &&& nal::nal_is_vcl(stream, codec, c[k + 1] - 1)
                    &&& !nal::nal_is_vcl(stream, codec, c[k + 1])
                    &&& forall|i: int|
                        c[k] < i < c[k + 1] && nal::nal_is_vcl(stream, codec, i - 1)
                            ==> #[trigger] nal::nal_is_vcl(stream, codec, i)
                }
            &&& n >= 1 ==> s.after(stream).frame == nal_range(stream, c.last(), n)
        }),
{
    let s = fresh(codec);
    let n = nal::start_codes(stream).len() - 1;
    assert(s.pending + stream =~= stream);
    let c = frame_starts(stream, codec, n);
    let frames = s.frames(stream);
    if n >= 0 {
        lemma_assembled_units(codec, stream, n);
        lemma_frame_starts(stream, codec, n);
        assert forall|k: int| 0 <= k < frames.len() implies {
            &&& c[k] < c[k + 1] < nal::start_codes(stream).len()
            &&& (#[trigger] frames[k]).payload == nal_range(stream, c[k], c[k + 1])
            &&& nal::nal_is_vcl(stream, codec, c[k + 1] - 1)
            &&& !nal::nal_is_vcl(stream, codec, c[k + 1])
            &&& forall|i: int|
                c[k] < i < c[k + 1] && nal::nal_is_vcl(stream, codec, i - 1) ==> #[trigger] nal::nal_is_vcl(
                    stream,
                    codec,
                    i,
                )
        } by {
            assert(boundary(stream, codec, c[k + 1]));
            assert forall|i: int|
                c[k] < i < c[k + 1] && nal::nal_is_vcl(stream, codec, i - 1) implies #[trigger] nal::nal_is_vcl(
                stream,
                codec,
                i,
            ) by {
                if !nal::nal_is_vcl(stream, codec, i) {
                    assert(boundary(stream, codec, i));
                    let j = choose|j: int| 0 <= j < c.len() && c[j] == i;
                    if j <= k {
                        assert(c[j] <= c[k]);
                    } else if j > k + 1 {
                        assert(c[k + 1] < c[j]);
                    }
                    assert(false);
                }
            }
        }
    }
}

// ---------------------------------------------------------------------------
// Key frames and parameter sets
// ---------------------------------------------------------------------------

/// Cutting the data in front of a start code keeps the codes before it.
proof fn lemma_start_codes_take(data: Seq<u8>, h: int)
    requires
        0 <= h < nal::start_codes(data).len(),
    ensures
        nal::start_codes(data.take(nal::start_codes(data)[h])) == nal::start_codes(data).take(h),
{
    let p = nal::start_codes(data)[h];
    nal::lemma_start_codes_bounds(data);
    let front = data.take(p);
    assert(data =~= front + data.skip(p));
    lemma_start_codes_prefix(front, data.skip(p));
    nal::lemma_start_codes_bounds(front);
    let m = nal::start_codes(front).len() as int;
    if m > h {
        assert(nal::start_codes(front)[h] == p);
        assert(nal::start_codes(front)[h] + 3 <= front.len());
    }
    if m < h {
        nal::lemma_body_follows_one(data, m);
        let o = nal::body_offset(data, nal::start_codes(data)[m]);
        assert(o <= p);
        assert(nal::code_at(front, o - 3));
        lemma_code_is_listed(front, o - 3);
        assert(nal::code_start(front, o - 3) == nal::start_codes(data)[m]);
        let j = choose|j: int| 0 <= j < m && nal::start_codes(front)[j] == nal::start_codes(data)[m];
        assert(nal::start_codes(data)[j] == nal::start_codes(front)[j]);
        assert(nal::body_offset(data, nal::start_codes(data)[j]) <= nal::start_codes(data)[m]);
        assert(false);
    }
    assert(nal::start_codes(front) =~= nal::start_codes(data).take(h));
}

/// The NALs of a piece of the stream are those of the stream.
proof fn lemma_nals_of_range(data: Seq<u8>, codec: Codec, lo: int, hi: int)
    requires
        0 <= lo <= hi < nal::start_codes(data).len(),
    ensures
        nal::start_codes(nal_range(data, lo, hi)).len() == hi - lo,
        forall|k: int|
            0 <= k < hi - lo ==> (#[trigger] nal::nal_is_key(nal_range(data, lo, hi), codec, k)
                == nal::nal_is_key(data, codec, lo + k)),
{
    nal::lemma_start_codes_bounds(data);
    let p = nal::start_codes(data)[lo];
    let q = nal::start_codes(data)[hi];
    let tail = data.skip(p);
    let piece = nal_range(data, lo, hi);
    nal::lemma_start_codes_skip(data, lo);
    assert(nal::start_codes(tail)[hi - lo] == q - p);
    lemma_start_codes_take(tail, hi - lo);
    if lo < hi {
        assert(nal::body_offset(data, p) <= q);
    }
    assert(piece =~= tail.take(q - p));
    assert forall|k: int| 0 <= k < hi - lo implies (#[trigger] nal::nal_is_key(piece, codec, k)
        == nal::nal_is_key(data, codec, lo + k)) by {
        assert(nal::start_codes(piece)[k] == nal::start_codes(tail)[k]);
        assert(nal::start_codes(tail)[k] == nal::start_codes(data)[lo + k] - p);
        nal::lemma_start_codes_bounds(piece);
        let o = nal::body_offset(data, nal::start_codes(data)[lo + k]);
        assert(o == nal::body_offset(piece, nal::start_codes(piece)[k]) + p);
        assert(o <= nal::start_codes(data)[lo + k + 1]);
        if lo + k + 1 < hi {
            assert(nal::body_offset(data, nal::start_codes(data)[lo + k + 1]) <= q);
        }
        if o == q {
            // The NAL has no body: what follows is the zero of the next code.
            nal::lemma_body_follows_one(data, hi);
            assert(data[q] == 0);
            assert(0u8 & 0x1f == 0u8) by (bit_vector);
            assert((0u8 >> 1) & 0x3f == 0u8) by (bit_vector);
        }
    }
}

/// A frame is a key frame exactly if one of its NALs in the stream is a slice
/// of a key frame.
pub proof fn key_frames_hold_a_key_slice(codec: Codec, stream: Seq<u8>, k: int)
    requires
        0 <= k < fresh(codec).frames(stream).len(),
    ensures
        ({
            let c = frame_starts(stream, codec, nal::start_codes(stream).len() - 1);
            fresh(codec).frames(stream)[k].is_key <==> exists|i: int|
                c[k] <= i < c[k + 1] && #[trigger] nal::nal_is_key(stream, codec, i)
        }),
{
    let n = nal::start_codes(stream).len() - 1;
    assert(fresh(codec).pending + stream =~= stream);
    frames_are_access_units(codec, stream);
    lemma_assembled_units(codec, stream, n);
    lemma_frame_starts(stream, codec, n);
    let c = frame_starts(stream, codec, n);
    let frame = fresh(codec).frames(stream)[k];
    assert(c[0] <= c[k]);
    lemma_nals_of_range(stream, codec, c[k], c[k + 1]);
    if frame.is_key {
        let i = choose|i: int|
            0 <= i < nal::start_codes(frame.payload).len() && #[trigger] nal::nal_is_key(
                frame.payload,
                codec,
                i,
            );
        assert(nal::nal_is_key(stream, codec, c[k] + i));
    }
    if exists|i: int| c[k] <= i < c[k + 1] && #[trigger] nal::nal_is_key(stream, codec, i) {
        let i = choose|i: int| c[k] <= i < c[k + 1] && #[trigger] nal::nal_is_key(stream, codec, i);
        assert(nal::nal_is_key(frame.payload, codec, i - c[k]));
    }
}

/// One of the frames is a key frame.
pub open spec fn any_key(frames: Seq<FrameView>) -> bool {
    exists|k: int| 0 <= k < frames.len() && (#[trigger] frames[k]).is_key
}

/// The parameter sets of the last of these frames that carries any; `known`
/// where none does.
pub open spec fn sets_after(
    codec: Codec,
    known: Option<Seq<u8>>,
    frames: Seq<FrameView>,
) -> Option<Seq<u8>>
    decreases frames.len(),
{
    if frames.len() == 0 {
        known
    } else if nal::parameter_sets_in(frames.last().payload, codec).len() > 0 {
        Some(nal::parameter_sets_in(frames.last().payload, codec))
    } else {
        sets_after(codec, known, frames.drop_last())
    }
}

proof fn lemma_sets_after(a: Assembly, codec: Codec, data: Seq<u8>, n: int)
    requires
        a.done.len() == 0,
    ensures
        ({
            let b = a.take_nals(codec, data, n);
            &&& b.key_seen == (a.key_seen || any_key(b.done))
            &&& b.seen == sets_after(codec, a.seen, b.done)
        }),
    decreases n,
{
    if n > 0 {
        lemma_sets_after(a, codec, data, n - 1);
        let b = a.take_nals(codec, data, n - 1);
        let c = a.take_nals(codec, data, n);
        if c.done != b.done {
            assert(c.done == b.finish(codec).done);
            assert(c.done.drop_last() =~= b.done);
            let is_key = nal::has_keyframe(b.frame, codec);
            if any_key(b.done) {
                let k = choose|k: int| 0 <= k < b.done.len() && (#[trigger] b.done[k]).is_key;
                assert(c.done[k].is_key);
            }
            if is_key {
                assert(c.done.last().is_key);
            }
            if any_key(c.done) {
                let k = choose|k: int| 0 <= k < c.done.len() && (#[trigger] c.done[k]).is_key;
                if k < b.done.len() {
                    assert(b.done[k].is_key);
                }
            }
        }
    }
}

/// The parameter sets depend on the frames alone: there are none until a key
/// frame has been returned, and then they are those of the last frame that
/// carried any, whether it came before the key frame or after it.
pub proof fn parameter_sets_follow_the_frames(s: SplitterView, chunk: Seq<u8>)
    ensures
        s.after(chunk).key_seen == (s.key_seen || any_key(s.frames(chunk))),
        s.after(chunk).seen == sets_after(s.codec, s.seen, s.frames(chunk)),
        s.after(chunk).params() == (if s.key_seen || any_key(s.frames(chunk)) {
            sets_after(s.codec, s.seen, s.frames(chunk))
        } else {
            None
        }),
{
    let data = s.pending + chunk;
    lemma_sets_after(s.assembly(), s.codec, data, nal::start_codes(data).len() - 1);
}

/// From the beginning of a stream on: there are parameter sets exactly if one of
/// the frames is a key frame and one of them carries any.
pub proof fn parameter_sets_come_with_the_key_frame(codec: Codec, stream: Seq<u8>)
    ensures
        fresh(codec).after(stream).params() is Some <==> {
            let frames = fresh(codec).frames(stream);
            &&& any_key(frames)
            &&& exists|k: int|
                0 <= k < frames.len() && nal::parameter_sets_in(
                    (#[trigger] frames[k]).payload,
                    codec,
                ).len() > 0
        },
{
    parameter_sets_follow_the_frames(fresh(codec), stream);
    lemma_sets_known(codec, fresh(codec).frames(stream));
}

proof fn lemma_sets_known(codec: Codec, frames: Seq<FrameView>)
    ensures
        sets_after(codec, None, frames) is Some <==> exists|k: int|
            0 <= k < frames.len() && nal::parameter_sets_in(
                (#[trigger] frames[k]).payload,
                codec,
            ).len() > 0,
    decreases frames.len(),
{
    if frames.len() > 0 {
        let front = frames.drop_last();
        lemma_sets_known(codec, front);
        if exists|k: int|
            0 <= k < front.len() && nal::parameter_sets_in(
                (#[trigger] front[k]).payload,
                codec,
            ).len() > 0 {
            let k = choose|k: int|
                0 <= k < front.len() && nal::parameter_sets_in(
                    (#[trigger] front[k]).payload,
                    codec,
                ).len() > 0;
            assert(frames[k] == front[k]);
        }
        if exists|k: int|
            0 <= k < frames.len() && nal::parameter_sets_in(
                (#[trigger] frames[k]).payload,
                codec,
            ).len() > 0 {
            let k = choose|k: int|
                0 <= k < frames.len() && nal::parameter_sets_in(
                    (#[trigger] frames[k]).payload,
                    codec,
                ).len() > 0;
            if k < front.len() {
                assert(front[k] == frames[k]);
            }
        }
    }
}

// ---------------------------------------------------------------------------
// NAL types and parameter sets
// ---------------------------------------------------------------------------

/// A slice of a key frame is a slice, and no slice is a parameter set.
pub proof fn key_slices_are_slices(nal_type: u8, codec: Codec)
    ensures
        nal::keyframe_type(nal_type, codec) ==> nal::vcl_type(nal_type, codec),
        nal::vcl_type(nal_type, codec) ==> !nal::parameter_set_type(nal_type, codec),
{
}

/// The header of a parameter set follows the `00 00 01` at `i`.
pub open spec fn set_at(data: Seq<u8>, codec: Codec, i: int) -> bool {
    &&& nal::code_at(data, i)
    &&& i + 3 < data.len()
    &&& nal::parameter_set_type(nal::nal_type_of(data[i + 3], codec), codec)
}

/// A parameter set follows every `00 00 01`, and the data begins with a start
/// code, if there is any.
spec fn only_sets(data: Seq<u8>, codec: Codec) -> bool {
    &&& forall|i: int| #[trigger] nal::code_at(data, i) ==> set_at(data, codec, i)
    &&& data.len() > 0 ==> {
        &&& data.len() >= 4
        &&& data[0] == 0
        &&& data[1] == 0
        &&& nal::code_at(data, 0) || nal::code_at(data, 1)
    }
}

proof fn lemma_zero_is_no_set(codec: Codec)
    ensures
        !nal::parameter_set_type(nal::nal_type_of(0, codec), codec),
{
    assert(0u8 & 0x1f == 0u8) by (bit_vector);
    assert((0u8 >> 1) & 0x3f == 0u8) by (bit_vector);
}

/// A parameter set taken out of a frame holds no other NAL.
proof fn lemma_one_set(frame: Seq<u8>, codec: Codec, k: int)
    requires
        0 <= k < nal::start_codes(frame).len(),
        nal::nal_is_parameter_set(frame, codec, k),
    ensures
        only_sets(nal::bytes_of_nal(frame, k), codec),
        nal::bytes_of_nal(frame, k).len() > 0,
{
    let codes = nal::start_codes(frame);
    let s = codes[k];
    let e = nal::end_of_nal(frame, k);
    let b = nal::body_offset(frame, s);
    let part = nal::bytes_of_nal(frame, k);
    nal::lemma_start_codes_bounds(frame);
    nal::lemma_body_follows_one(frame, k);
    if k + 1 < codes.len() {
        nal::lemma_body_follows_one(frame, k + 1);
        assert(b <= codes[k + 1]);
        assert(frame[codes[k + 1]] == 0);
        lemma_zero_is_no_set(codec);
    }
    assert(b < e);
    assert(nal::code_at(part, b - 3 - s));
    assert forall|i: int| #[trigger] nal::code_at(part, i) implies set_at(part, codec, i) by {
        assert(nal::code_at(frame, s + i));
        lemma_code_is_listed(frame, s + i);
        let m = choose|m: int|
            0 <= m < codes.len() && codes[m] == nal::code_start(frame, s + i);
        assert(nal::body_offset(frame, codes[m]) == s + i + 3);
        if m < k {
            assert(nal::body_offset(frame, codes[m]) <= codes[k]);
        } else if m > k {
            if m > k + 1 {
                assert(nal::body_offset(frame, codes[k + 1]) <= codes[m]);
            }
            assert(e <= codes[m]);
        }
        assert(m == k);
        assert(part[i + 3] == frame[b]);
    }
}

proof fn lemma_sets_joined(frame: Seq<u8>, codec: Codec, n: int)
    requires
        0 <= n <= nal::start_codes(frame).len(),
    ensures
        only_sets(nal::parameter_sets_upto(frame, codec, n), codec),
        nal::parameter_sets_upto(frame, codec, n).len() == 0 <==> forall|k: int|
            0 <= k < n ==> !#[trigger] nal::nal_is_parameter_set(frame, codec, k),
    decreases n,
{
    if n > 0 {
        lemma_sets_joined(frame, codec, n - 1);
        if nal::nal_is_parameter_set(frame, codec, n - 1) {
            lemma_one_set(frame, codec, n - 1);
            let before = nal::parameter_sets_upto(frame, codec, n - 1);
            let part = nal::bytes_of_nal(frame, n - 1);
            let all = before + part;
            let l = before.len() as int;
            assert forall|i: int| #[trigger] nal::code_at(all, i) implies set_at(all, codec, i) by {
                if i + 3 <= l {
                    assert(nal::code_at(before, i));
                } else if i >= l {
                    assert(nal::code_at(part, i - l));
                    assert(set_at(part, codec, i - l));
                } else {
                    assert(all[i + 2] == part[i + 2 - l]);
                }
            }
            if l > 0 {
                assert(nal::code_at(before, 0) ==> nal::code_at(all, 0));
                assert(nal::code_at(before, 1) ==> nal::code_at(all, 1));
            } else {
                assert(all =~= part);
            }
        }
    }
}

proof fn lemma_all_taken(data: Seq<u8>, codec: Codec, n: int)
    requires
        1 <= n <= nal::start_codes(data).len(),
        nal::start_codes(data)[0] == 0,
        forall|k: int|
            0 <= k < nal::start_codes(data).len() ==> #[trigger] nal::nal_is_parameter_set(
                data,
                codec,
                k,
            ),
    ensures
        nal::parameter_sets_upto(data, codec, n) == data.take(nal::end_of_nal(data, n - 1)),
    decreases n,
{
    nal::lemma_start_codes_bounds(data);
    assert(nal::nal_is_parameter_set(data, codec, n - 1));
    let end = nal::end_of_nal(data, n - 1);
    if n < nal::start_codes(data).len() {
        assert(nal::body_offset(data, nal::start_codes(data)[n - 1])
            <= nal::start_codes(data)[n]);
    }
    if n > 1 {
        lemma_all_taken(data, codec, n - 1);
        let start = nal::start_codes(data)[n - 1];
        assert(data.take(start) + data.subrange(start, end) =~= data.take(end));
    } else {
        assert(nal::parameter_sets_upto(data, codec, 0) =~= Seq::empty());
        assert(Seq::<u8>::empty() + data.subrange(0, end) =~= data.take(end));
    }
}

/// Taking the parameter sets out of what has been taken out of a frame gives
/// just that again. It is empty exactly if no header of a parameter set follows
/// a `00 00 01` in the frame.
pub proof fn parameter_sets_are_taken_once(frame: Seq<u8>, codec: Codec)
    ensures
        nal::parameter_sets_in(nal::parameter_sets_in(frame, codec), codec)
            == nal::parameter_sets_in(frame, codec),
        nal::parameter_sets_in(frame, codec).len() == 0 <==> forall|i: int|
            !#[trigger] set_at(frame, codec, i),
{
    let x = nal::parameter_sets_in(frame, codec);
    let n = nal::start_codes(frame).len() as int;
    lemma_sets_joined(frame, codec, n);
    if x.len() == 0 {
        assert forall|i: int| !#[trigger] set_at(frame, codec, i) by {
            if set_at(frame, codec, i) {
                lemma_code_is_listed(frame, i);
                let k = choose|k: int|
                    0 <= k < n && nal::start_codes(frame)[k] == nal::code_start(frame, i);
                assert(nal::body_offset(frame, nal::start_codes(frame)[k]) == i + 3);
                assert(nal::nal_is_parameter_set(frame, codec, k));
            }
        }
        assert(nal::parameter_sets_in(x, codec) =~= x);
    } else {
        let k = choose|k: int| 0 <= k < n && #[trigger] nal::nal_is_parameter_set(frame, codec, k);
        nal::lemma_body_follows_one(frame, k);
        assert(set_at(frame, codec, nal::body_offset(frame, nal::start_codes(frame)[k]) - 3));
        let codes = nal::start_codes(x);
        nal::lemma_start_codes_bounds(x);
        let i = if nal::code_at(x, 0) {
            0int
        } else {
            1int
        };
        lemma_code_is_listed(x, i);
        assert(nal::code_start(x, i) == 0);
        let first = choose|m: int| 0 <= m < codes.len() && codes[m] == 0;
        if first > 0 {
            assert(nal::body_offset(x, codes[0]) <= codes[first]);
        }
        assert(codes[0] == 0);
        assert forall|m: int| 0 <= m < codes.len() implies #[trigger] nal::nal_is_parameter_set(
            x,
            codec,
            m,
        ) by {
            nal::lemma_body_follows_one(x, m);
            assert(set_at(x, codec, nal::body_offset(x, codes[m]) - 3));
        }
        lemma_all_taken(x, codec, codes.len() as int);
        assert(x.take(x.len() as int) =~= x);
    }
}

// ---------------------------------------------------------------------------
// The stream in bytes
// ---------------------------------------------------------------------------

/// The type of a NAL stands in the low five bits of its first byte in H.264,
/// and in the six bits above the lowest one in HEVC. Slices are the types 1 to 5
/// of H.264, and those up to 23 of HEVC. Those of key frames are type 5, and
/// types 16 to 23. Parameter sets are types 7 and 8, and types 32 to 34.
pub proof fn types_in_numbers(first_byte: u8)
    ensures
        ({
            let t = nal::nal_type_of(first_byte, Codec::H264);
            &&& t == first_byte % 32
            &&& nal::vcl_type(t, Codec::H264) <==> 1 <= first_byte % 32 <= 5
            &&& nal::keyframe_type(t, Codec::H264) <==> first_byte % 32 == 5
            &&& nal::parameter_set_type(t, Codec::H264) <==> first_byte % 32 == 7 || first_byte % 32
                == 8
        }),
        ({
            let t = nal::nal_type_of(first_byte, Codec::Hevc);
            &&& t == first_byte / 2 % 64
            &&& nal::vcl_type(t, Codec::Hevc) <==> first_byte / 2 % 64 <= 23
            &&& nal::keyframe_type(t, Codec::Hevc) <==> 16 <= first_byte / 2 % 64 <= 23
            &&& nal::parameter_set_type(t, Codec::Hevc) <==> 32 <= first_byte / 2 % 64 <= 34
        }),
{
    assert(first_byte & 0x1f == first_byte % 32) by (bit_vector);
    assert((first_byte >> 1) & 0x3f == (first_byte / 2) % 64) by (bit_vector);
}

/// NALs begin exactly where the bytes 0, 0, 1 stand, or one byte before where
/// that is a zero too, and in order. The first byte of a NAL follows the one.
pub proof fn nals_follow_zero_zero_one(data: Seq<u8>)
    ensures
        forall|j: int, k: int|
            0 <= j < k < nal::start_codes(data).len() ==> #[trigger] nal::start_codes(data)[j]
                < #[trigger] nal::start_codes(data)[k],
        forall|i: int|
            0 <= i && i + 2 < data.len() && #[trigger] data[i] == 0 && data[i + 1] == 0 && data[i
                + 2] == 1 ==> exists|k: int|
                {
                    &&& 0 <= k < nal::start_codes(data).len()
                    &&& nal::body_offset(data, #[trigger] nal::start_codes(data)[k]) == i + 3
                },
        forall|k: int|
            0 <= k < nal::start_codes(data).len() ==> {
                let start = #[trigger] nal::start_codes(data)[k];
                let body = nal::body_offset(data, start);
                &&& 3 <= body <= data.len()
                &&& data[body - 3] == 0 && data[body - 2] == 0 && data[body - 1] == 1
                &&& if body >= 4 && data[body - 4] == 0 {
                    start == body - 4
                } else {
                    start == body - 3
                }
            },
{
    start_codes_are_exact(data);
    nal::lemma_start_codes_bounds(data);
    assert forall|i: int|
        0 <= i && i + 2 < data.len() && #[trigger] data[i] == 0 && data[i + 1] == 0 && data[i + 2]
            == 1 implies exists|k: int|
        {
            &&& 0 <= k < nal::start_codes(data).len()
            &&& nal::body_offset(data, #[trigger] nal::start_codes(data)[k]) == i + 3
        } by {
        assert(nal::code_at(data, i));
        lemma_code_is_listed(data, i);
        let k = choose|k: int|
            0 <= k < nal::start_codes(data).len() && nal::start_codes(data)[k] == nal::code_start(
                data,
                i,
            );
        assert(nal::body_offset(data, nal::start_codes(data)[k]) == i + 3);
    }
    assert forall|k: int| 0 <= k < nal::start_codes(data).len() implies {
        let start = #[trigger] nal::start_codes(data)[k];
        let body = nal::body_offset(data, start);
        &&& 3 <= body <= data.len()
        &&& data[body - 3] == 0 && data[body - 2] == 0 && data[body - 1] == 1
        &&& if body >= 4 && data[body - 4] == 0 {
            start == body - 4
        } else {
            start == body - 3
        }
    } by {
        nal::lemma_body_follows_one(data, k);
    }
}

/// The first byte of the `k`-th NAL.
pub open spec fn first_byte(data: Seq<u8>, k: int) -> u8 {
    data[nal::body_offset(data, nal::start_codes(data)[k])]
}

proof fn lemma_type_known(data: Seq<u8>, codec: Codec, k: int)
    requires
        0 <= k < nal::start_codes(data).len(),
    ensures
        nal::body_offset(data, nal::start_codes(data)[k]) < data.len() ==> nal::type_of_nal(
            data,
            codec,
            k,
        ) == Some(nal::nal_type_of(first_byte(data, k), codec)),
        nal::body_offset(data, nal::start_codes(data)[k]) >= data.len() ==> nal::type_of_nal(
            data,
            codec,
            k,
        ) is None,
        k + 1 < nal::start_codes(data).len() ==> nal::body_offset(data, nal::start_codes(data)[k])
            < data.len(),
{
    nal::lemma_start_codes_bounds(data);
    if k + 1 < nal::start_codes(data).len() {
        assert(nal::body_offset(data, nal::start_codes(data)[k]) <= nal::start_codes(data)[k + 1]);
    }
}

/// A new splitter cuts a stream in front of every NAL that is no slice and
/// follows a slice, by the numbers of their types, and nowhere else: `cuts` are
/// the numbers of the NALs at which frames begin. NALs that another one follows
/// are counted, as the end of the last one is not known.
pub proof fn frames_end_behind_slices(codec_is_hevc: bool, stream: Seq<u8>) -> (cuts: Seq<int>)
    requires
        nal::start_codes(stream).len() >= 1,
    ensures
        ({
            let n = nal::start_codes(stream).len() - 1;
            let frames = nal::fresh_splitter(codec_is_hevc).frames(stream);
            &&& cuts.len() == frames.len() + 1
            &&& cuts[0] == 0
            &&& forall|j: int, k: int| 0 <= j < k < cuts.len() ==> #[trigger] cuts[j]
                < #[trigger] cuts[k]
            &&& forall|i: int|
                0 < i < n ==> (#[trigger] cuts.contains(i) <==> if codec_is_hevc {
                    first_byte(stream, i - 1) / 2 % 64 <= 23 && first_byte(stream, i) / 2 % 64 > 23
                } else {
                    1 <= first_byte(stream, i - 1) % 32 <= 5 && !(1 <= first_byte(stream, i) % 32
                        <= 5)
                })
            &&& forall|k: int|
                0 <= k < frames.len() ==> 0 < cuts[k + 1] < n && (#[trigger] frames[k]).payload
                    == stream.subrange(
                    nal::start_codes(stream)[cuts[k]],
                    nal::start_codes(stream)[cuts[k + 1]],
                )
        }),
{
    let codec = if codec_is_hevc {
        Codec::Hevc
    } else {
        Codec::H264
    };
    assert(nal::fresh_splitter(codec_is_hevc) =~= fresh(codec));
    let n = nal::start_codes(stream).len() - 1;
    let cuts = frame_starts(stream, codec, n);
    frames_are_access_units(codec, stream);
    lemma_frame_starts(stream, codec, n);
    assert forall|i: int| 0 < i < n implies (#[trigger] cuts.contains(i) <==> if codec_is_hevc {
        first_byte(stream, i - 1) / 2 % 64 <= 23 && first_byte(stream, i) / 2 % 64 > 23
    } else {
        1 <= first_byte(stream, i - 1) % 32 <= 5 && !(1 <= first_byte(stream, i) % 32 <= 5)
    }) by {
        lemma_type_known(stream, codec, i - 1);
        lemma_type_known(stream, codec, i);
        types_in_numbers(first_byte(stream, i - 1));
        types_in_numbers(first_byte(stream, i));
        if boundary(stream, codec, i) {
            assert(cuts.contains(i));
        }
        if cuts.contains(i) {
            let k = choose|k: int| 0 <= k < cuts.len() && cuts[k] == i;
            assert(boundary(stream, codec, cuts[k]));
        }
    }
    let frames = nal::fresh_splitter(codec_is_hevc).frames(stream);
    assert forall|k: int| 0 <= k < frames.len() implies 0 < cuts[k + 1] < n && (
    #[trigger] frames[k]).payload == stream.subrange(
        nal::start_codes(stream)[cuts[k]],
        nal::start_codes(stream)[cuts[k + 1]],
    ) by {
        assert(boundary(stream, codec, cuts[k + 1]));
    }
    cuts
}

/// A frame of a new splitter is a key frame exactly if one of its NALs has type
/// 5 in H.264, or one of the types 16 to 23 in HEVC. It is handed out as such,
/// with its bytes as they are.
pub proof fn key_frames_in_numbers(codec_is_hevc: bool, stream: Seq<u8>, k: int)
    requires
        0 <= k < nal::fresh_splitter(codec_is_hevc).frames(stream).len(),
    ensures
        ({
            let frame = nal::fresh_splitter(codec_is_hevc).frames(stream)[k];
            let n = nal::start_codes(frame.payload).len();
            let key = exists|i: int|
                0 <= i < n && nal::body_offset(frame.payload, nal::start_codes(frame.payload)[i])
                    < frame.payload.len() && if codec_is_hevc {
                    16 <= #[trigger] first_byte(frame.payload, i) / 2 % 64 <= 23
                } else {
                    first_byte(frame.payload, i) % 32 == 5
                };
            &&& frame.is_key <==> key
            &&& pipeline::handed_out(frame).kind == FrameKind::Key <==> key
            &&& pipeline::handed_out(frame).payload == frame.payload
        }),
{
    let codec = if codec_is_hevc {
        Codec::Hevc
    } else {
        Codec::H264
    };
    assert(nal::fresh_splitter(codec_is_hevc) =~= fresh(codec));
    let n = nal::start_codes(stream).len() - 1;
    assert(fresh(codec).pending + stream =~= stream);
    frames_are_access_units(codec, stream);
    lemma_assembled_units(codec, stream, n);
    let frame = fresh(codec).frames(stream)[k];
    assert(frame.is_key == nal::has_keyframe(frame.payload, codec));
    assert forall|i: int| 0 <= i < nal::start_codes(frame.payload).len() implies (
    #[trigger] nal::nal_is_key(frame.payload, codec, i) <==> nal::body_offset(
        frame.payload,
        nal::start_codes(frame.payload)[i],
    ) < frame.payload.len() && if codec_is_hevc {
        16 <= first_byte(frame.payload, i) / 2 % 64 <= 23
    } else {
        first_byte(frame.payload, i) % 32 == 5
    }) by {
        lemma_type_known(frame.payload, codec, i);
        types_in_numbers(first_byte(frame.payload, i));
    }
    if exists|i: int|
        0 <= i < nal::start_codes(frame.payload).len() && nal::body_offset(
            frame.payload,
            nal::start_codes(frame.payload)[i],
        ) < frame.payload.len() && if codec_is_hevc {
            16 <= #[trigger] first_byte(frame.payload, i) / 2 % 64 <= 23
        } else {
            first_byte(frame.payload, i) % 32 == 5
        } {
        let i = choose|i: int|
            0 <= i < nal::start_codes(frame.payload).len() && nal::body_offset(
                frame.payload,
                nal::start_codes(frame.payload)[i],
            ) < frame.payload.len() && if codec_is_hevc {
                16 <= #[trigger] first_byte(frame.payload, i) / 2 % 64 <= 23
            } else {
                first_byte(frame.payload, i) % 32 == 5
            };
        assert(nal::nal_is_key(frame.payload, codec, i));
    }
    if nal::has_keyframe(frame.payload, codec) {
        let i = choose|i: int|
            0 <= i < nal::start_codes(frame.payload).len() && #[trigger] nal::nal_is_key(
                frame.payload,
                codec,
                i,
            );
        let b = first_byte(frame.payload, i);
        assert(codec_is_hevc ==> 16 <= b / 2 % 64 <= 23);
    }
}

/// The parameter sets of a frame are its NALs of types 7 and 8 in H.264, and of
/// types 32, 33 and 34 in HEVC: all of them, no others, in order, each from its
/// start code up to the next one. `which` are their numbers.
pub proof fn parameter_sets_in_numbers(frame: Seq<u8>, codec: Codec) -> (which: Seq<int>)
    ensures
        forall|j: int, k: int|
            0 <= j < k < which.len() ==> #[trigger] which[j] < #[trigger] which[k],
        forall|k: int|
            #[trigger] which.contains(k) <==> {
                &&& 0 <= k < nal::start_codes(frame).len()
                &&& nal::body_offset(frame, nal::start_codes(frame)[k]) < frame.len()
                &&& match codec {
                    Codec::H264 => first_byte(frame, k) % 32 == 7 || first_byte(frame, k) % 32 == 8,
                    Codec::Hevc => 32 <= first_byte(frame, k) / 2 % 64 <= 34,
                }
            },
        nal::parameter_sets_in(frame, codec) == joined(
            which.map_values(
                |k: int|
                    frame.subrange(
                        nal::start_codes(frame)[k],
                        if k + 1 < nal::start_codes(frame).len() {
                            nal::start_codes(frame)[k + 1]
                        } else {
                            frame.len() as int
                        },
                    ),
            ),
        ),
{
    lemma_sets_numbered(frame, codec, nal::start_codes(frame).len() as int)
}

proof fn lemma_sets_numbered(frame: Seq<u8>, codec: Codec, n: int) -> (which: Seq<int>)
    requires
        0 <= n <= nal::start_codes(frame).len(),
    ensures
        forall|j: int, k: int|
            0 <= j < k < which.len() ==> #[trigger] which[j] < #[trigger] which[k],
        forall|k: int|
            #[trigger] which.contains(k) <==> {
                &&& 0 <= k < n
                &&& nal::body_offset(frame, nal::start_codes(frame)[k]) < frame.len()
                &&& match codec {
                    Codec::H264 => first_byte(frame, k) % 32 == 7 || first_byte(frame, k) % 32 == 8,
                    Codec::Hevc => 32 <= first_byte(frame, k) / 2 % 64 <= 34,
                }
            },
        nal::parameter_sets_upto(frame, codec, n) == joined(
            which.map_values(
                |k: int|
                    frame.subrange(
                        nal::start_codes(frame)[k],
                        if k + 1 < nal::start_codes(frame).len() {
                            nal::start_codes(frame)[k + 1]
                        } else {
                            frame.len() as int
                        },
                    ),
            ),
        ),
    decreases n,
{
    let bytes = |k: int|
        frame.subrange(
            nal::start_codes(frame)[k],
            if k + 1 < nal::start_codes(frame).len() {
                nal::start_codes(frame)[k + 1]
            } else {
                frame.len() as int
            },
        );
    if n == 0 {
        let none = Seq::<int>::empty();
        assert(none.map_values(bytes) =~= Seq::empty());
        none
    } else {
        let before = lemma_sets_numbered(frame, codec, n - 1);
        lemma_type_known(frame, codec, n - 1);
        types_in_numbers(first_byte(frame, n - 1));
        if nal::nal_is_parameter_set(frame, codec, n - 1) {
            let which = before.push(n - 1);
            assert(which.map_values(bytes).drop_last() =~= before.map_values(bytes));
            assert(which.map_values(bytes).last() == nal::bytes_of_nal(frame, n - 1));
            assert forall|k: int|
                #[trigger] which.contains(k) <==> {
                    &&& 0 <= k < n
                    &&& nal::body_offset(frame, nal::start_codes(frame)[k]) < frame.len()
                    &&& match codec {
                        Codec::H264 => first_byte(frame, k) % 32 == 7 || first_byte(frame, k) % 32
                            == 8,
                        Codec::Hevc => 32 <= first_byte(frame, k) / 2 % 64 <= 34,
                    }
                } by {
                assert(which.contains(k) <==> before.contains(k) || k == n - 1) by {
                    if before.contains(k) {
                        let j = choose|j: int| 0 <= j < before.len() && before[j] == k;
                        assert(which[j] == k);
                    }
                    assert(which[before.len() as int] == n - 1);
                    if which.contains(k) {
                        let j = choose|j: int| 0 <= j < which.len() && which[j] == k;
                        if j < before.len() {
                            assert(before[j] == k);
                        }
                    }
                }
            }
            assert forall|j: int, k: int| 0 <= j < k < which.len() implies #[trigger] which[j]
                < #[trigger] which[k] by {
                if k == before.len() {
                    assert(before.contains(before[j]));
                }
            }
            which
        } else {
            before
        }
    }
}

/// A new splitter holds no bytes, has finished no frame and knows no parameter
/// sets, and it reads the codec that it is made for.
pub proof fn a_new_splitter_has_seen_nothing(codec_is_hevc: bool)
    ensures
        ({
            let s = nal::fresh_splitter(codec_is_hevc);
            &&& s.codec == Codec::Hevc <==> codec_is_hevc
            &&& s.pending.len() == 0 && s.frame.len() == 0
            &&& !s.has_vcl && !s.key_seen
            &&& s.params() is None && s.seen is None
        }),
{
}

/// Of all numbers, whether the field of a NAL has room for them or not: slices
/// are 1 to 5 in H.264 and 0 to 23 in HEVC. Those of key frames are the last one
/// of these, and the last eight. Parameter sets are 7 and 8, and 32 to 34.
pub proof fn each_number_has_its_place(nal_type: u8)
    ensures
        nal::vcl_type(nal_type, Codec::H264) <==> nal_type != 0 && nal_type < 6,
        nal::vcl_type(nal_type, Codec::Hevc) <==> nal_type < 24,
        nal::keyframe_type(nal_type, Codec::H264) <==> nal_type + 1 == 6,
        nal::keyframe_type(nal_type, Codec::Hevc) <==> nal_type < 24 && nal_type + 8 >= 24,
        nal::parameter_set_type(nal_type, Codec::H264) <==> set![7u8, 8].contains(nal_type),
        nal::parameter_set_type(nal_type, Codec::Hevc) <==> set![32u8, 33, 34].contains(nal_type),
{
}

} // verus!
