//! Splitting an Annex-B byte stream into access units.
//!
//! An access unit is complete once a non-VCL NAL (AUD, SEI, SPS, PPS, ...)
//! arrives after at least one VCL slice. Parameter sets stay inside the frame
//! bytes they arrived with.
use vstd::prelude::*;

verus! {

/// The codecs that have an Annex-B byte stream.
#[derive(Debug, Clone, Copy, PartialEq, Eq, Structural)]
pub enum Codec {
    H264,
    Hevc,
}

/// The parameter sets (SPS and PPS, for HEVC also VPS) of one access unit,
/// joined in stream order, start codes included.
#[derive(Debug, PartialEq, Eq)]
pub struct ParameterSets {
    pub payload: Vec<u8>,
}

impl Clone for ParameterSets {
    fn clone(&self) -> (r: Self)
        ensures
            r.payload@ == self.payload@,
    {
        let payload = vstd::slice::slice_to_vec(self.payload.as_slice());
        ParameterSets { payload }
    }
}

// ---------------------------------------------------------------------------
// Start codes
// ---------------------------------------------------------------------------

/// The three bytes `00 00 01` stand at `i`.
pub open spec fn code_at(data: Seq<u8>, i: int) -> bool {
    &&& 0 <= i
    &&& i + 3 <= data.len()
    &&& data[i] == 0
    &&& data[i + 1] == 0
    &&& data[i + 2] == 1
}

/// Where the start code begins whose `00 00 01` stands at `i`: one byte
/// earlier when a further zero precedes it.
pub open spec fn code_start(data: Seq<u8>, i: int) -> int {
    if i > 0 && data[i - 1] == 0 {
        i - 1
    } else {
        i
    }
}

/// The beginnings of all start codes (`00 00 01` or `00 00 00 01`), in order.
pub open spec fn start_codes(data: Seq<u8>) -> Seq<int>
    decreases data.len(),
{
    if data.len() < 3 {
        Seq::empty()
    } else {
        let before = start_codes(data.drop_last());
        if code_at(data, data.len() - 3) {
            before.push(code_start(data, data.len() - 3))
        } else {
            before
        }
    }
}

/// Where the body of the NAL begins whose start code begins at `start`.
pub open spec fn body_offset(data: Seq<u8>, start: int) -> int {
    if data[start + 2] == 1 {
        start + 3
    } else {
        start + 4
    }
}

pub(crate) proof fn lemma_start_codes_bounds(data: Seq<u8>)
    ensures
        forall|k: int|
            0 <= k < start_codes(data).len() ==> {
                &&& 0 <= #[trigger] start_codes(data)[k]
                &&& start_codes(data)[k] + 3 <= body_offset(data, start_codes(data)[k]) <= data.len()
            },
        forall|j: int, k: int|
            0 <= j < k < start_codes(data).len() ==> body_offset(
                data,
                #[trigger] start_codes(data)[j],
            ) <= #[trigger] start_codes(data)[k],
    decreases data.len(),
{
    if data.len() >= 3 {
        let front = data.drop_last();
        lemma_start_codes_bounds(front);
        let s = start_codes(data);
        let t = start_codes(front);
        assert forall|k: int| 0 <= k < t.len() implies body_offset(data, #[trigger] t[k])
            == body_offset(front, t[k]) by {
            assert(t[k] + 3 <= body_offset(front, t[k]) <= front.len());
        }
        let i = data.len() - 3;
        if code_at(data, i) {
            assert forall|j: int| 0 <= j < t.len() implies body_offset(data, #[trigger] t[j])
                <= code_start(data, i) by {
                lemma_body_follows_one(front, j);
                let o = body_offset(front, t[j]);
                assert(o <= front.len());
                assert(front[o - 1] == 1);
                assert(data[o - 1] == 1);
            }
        }
    }
}

pub(crate) proof fn lemma_body_follows_one(data: Seq<u8>, k: int)
    requires
        0 <= k < start_codes(data).len(),
    ensures
        0 <= start_codes(data)[k],
        code_at(data, body_offset(data, start_codes(data)[k]) - 3),
        start_codes(data)[k] == code_start(data, body_offset(data, start_codes(data)[k]) - 3),
    decreases data.len(),
{
    let front = data.drop_last();
    let t = start_codes(front);
    if k < t.len() {
        lemma_body_follows_one(front, k);
    } else {
        let i = data.len() - 3;
        assert(start_codes(data)[k] == code_start(data, i));
        if code_start(data, i) == i - 1 {
            assert(data[i - 1 + 2] == 0);
        }
    }
}

/// Positions held as machine integers, as mathematical ones.
pub open spec fn as_ints(v: Seq<usize>) -> Seq<int> {
    v.map_values(|x: usize| x as int)
}

/// Codes that end before the last byte are the codes of the shorter prefix.
proof fn lemma_start_codes_step(data: Seq<u8>, n: int)
    requires
        2 <= n < data.len(),
    ensures
        code_at(data, n - 2) ==> start_codes(data.take(n + 1)) == start_codes(data.take(n)).push(
            code_start(data, n - 2),
        ),
        !code_at(data, n - 2) ==> start_codes(data.take(n + 1)) == start_codes(data.take(n)),
{
    assert(data.take(n + 1).drop_last() =~= data.take(n));
}

/// Positions counted from `p` on.
pub open spec fn counted_from(positions: Seq<int>, p: int) -> Seq<int> {
    positions.map_values(|x: int| x - p)
}

/// Cutting the data at a start code keeps that code and all later ones.
pub(crate) proof fn lemma_start_codes_skip(data: Seq<u8>, k: int)
    requires
        0 <= k < start_codes(data).len(),
    ensures
        start_codes(data.skip(start_codes(data)[k])) == counted_from(
            start_codes(data).skip(k),
            start_codes(data)[k],
        ),
    decreases data.len(),
{
    lemma_start_codes_bounds(data);
    let front = data.drop_last();
    let p = start_codes(data)[k];
    let i = data.len() - 3;
    let tail = data.skip(p);
    if k < start_codes(front).len() {
        lemma_start_codes_skip(front, k);
        lemma_start_codes_bounds(front);
        assert(tail.drop_last() =~= front.skip(p));
        if code_at(data, i) {
            let last = start_codes(data).len() - 1;
            assert(start_codes(data)[last] == code_start(data, i));
            assert(body_offset(data, start_codes(data)[k]) <= start_codes(data)[last]);
            assert(code_at(tail, i - p));
            assert(code_start(tail, i - p) == code_start(data, i) - p);
            assert(start_codes(data).skip(k) =~= start_codes(front).skip(k).push(
                code_start(data, i),
            ));
        } else {
            assert(start_codes(data) == start_codes(front));
            assert(!code_at(tail, i - p));
        }
        assert(start_codes(tail) =~= counted_from(start_codes(data).skip(k), p));
    } else {
        assert(p == code_start(data, i));
        assert(code_at(tail, tail.len() - 3));
        let t1 = tail.drop_last();
        assert(!code_at(t1, t1.len() - 3));
        assert(start_codes(t1.drop_last()) == Seq::<int>::empty());
        assert(start_codes(t1) == Seq::<int>::empty());
        assert(start_codes(tail) =~= seq![0int]);
        assert(counted_from(start_codes(data).skip(k), p) =~= seq![0int]);
    }
}

/// The beginnings of the start codes of an Annex-B stream.
pub fn find_start_codes(data: &[u8]) -> (positions: Vec<usize>)
    ensures
        as_ints(positions@) == start_codes(data@),
{
    let mut positions: Vec<usize> = Vec::new();
    if data.len() < 3 {
        assert(as_ints(positions@) =~= start_codes(data@));
        return positions;
    }
    let mut i: usize = 0;
    assert(as_ints(positions@) =~= start_codes(data@.take(2)));
    while i <= data.len() - 3
        invariant
            3 <= data@.len(),
            i + 2 <= data@.len(),
            as_ints(positions@) == start_codes(data@.take(i + 2)),
        decreases data@.len() - i,
    {
        proof {
            lemma_start_codes_step(data@, i + 2);
        }
        let ghost before = positions@;
        if data[i] == 0 && data[i + 1] == 0 && data[i + 2] == 1 {
            if i > 0 && data[i - 1] == 0 {
                positions.push(i - 1);
            } else {
                positions.push(i);
            }
            assert(as_ints(positions@) =~= as_ints(before).push(code_start(data@, i as int)));
            proof {
                if i + 3 < data@.len() {
                    lemma_start_codes_step(data@, i + 3);
                }
                if i + 4 < data@.len() {
                    lemma_start_codes_step(data@, i + 4);
                }
            }
            if data.len() - i < 5 {
                assert(data@.take(data@.len() as int) =~= data@);
                return positions;
            }
            i += 3;
        } else {
            i += 1;
        }
    }
    assert(data@.take(i + 2) =~= data@);
    positions
}

// ---------------------------------------------------------------------------
// NAL types
// ---------------------------------------------------------------------------

/// The type field of a NAL header: the low five bits of the first byte in
/// H.264, the six bits above the lowest one in HEVC.
pub open spec fn nal_type_of(first_byte: u8, codec: Codec) -> u8 {
    match codec {
        Codec::H264 => first_byte & 0x1f,
        Codec::Hevc => (first_byte >> 1) & 0x3f,
    }
}

/// A slice: actual picture data.
pub open spec fn vcl_type(nal_type: u8, codec: Codec) -> bool {
    match codec {
        Codec::H264 => 1 <= nal_type <= 5,
        Codec::Hevc => nal_type <= 23,
    }
}

/// An IDR or IRAP slice.
pub open spec fn keyframe_type(nal_type: u8, codec: Codec) -> bool {
    match codec {
        Codec::H264 => nal_type == 5,
        Codec::Hevc => 16 <= nal_type <= 23,
    }
}

/// SPS or PPS, for HEVC also VPS. AUD and SEI are not parameter sets.
pub open spec fn parameter_set_type(nal_type: u8, codec: Codec) -> bool {
    match codec {
        Codec::H264 => nal_type == 7 || nal_type == 8,
        Codec::Hevc => 32 <= nal_type <= 34,
    }
}

/// The NAL type found in the first byte of a NAL body.
pub fn nal_unit_type(nal_first_byte: u8, codec: Codec) -> (nal_type: u8)
    ensures
        nal_type == nal_type_of(nal_first_byte, codec),
{
    match codec {
        Codec::H264 => nal_first_byte & 0x1f,
        Codec::Hevc => (nal_first_byte >> 1) & 0x3f,
    }
}

/// Whether this NAL type is a slice (VCL).
pub fn is_vcl_nal(nal_type: u8, codec: Codec) -> (r: bool)
    ensures
        r == vcl_type(nal_type, codec),
{
    match codec {
        Codec::H264 => 1 <= nal_type && nal_type <= 5,
        Codec::Hevc => nal_type <= 23,
    }
}

/// Whether this NAL type is a slice of a key frame (IDR or IRAP).
pub fn is_keyframe_vcl_nal(nal_type: u8, codec: Codec) -> (r: bool)
    ensures
        r == keyframe_type(nal_type, codec),
{
    match codec {
        Codec::H264 => nal_type == 5,
        Codec::Hevc => 16 <= nal_type && nal_type <= 23,
    }
}

/// Whether this NAL type is a parameter set.
pub fn is_parameter_set_nal(nal_type: u8, codec: Codec) -> (r: bool)
    ensures
        r == parameter_set_type(nal_type, codec),
{
    match codec {
        Codec::H264 => nal_type == 7 || nal_type == 8,
        Codec::Hevc => 32 <= nal_type && nal_type <= 34,
    }
}

// ---------------------------------------------------------------------------
// NALs of a byte sequence
// ---------------------------------------------------------------------------

/// The type of the `k`-th NAL, unless the data ends with its start code.
pub open spec fn type_of_nal(data: Seq<u8>, codec: Codec, k: int) -> Option<u8> {
    let offset = body_offset(data, start_codes(data)[k]);
    if offset < data.len() {
        Some(nal_type_of(data[offset], codec))
    } else {
        None
    }
}

/// Where the `k`-th NAL ends: at the next start code, or with the data.
pub open spec fn end_of_nal(data: Seq<u8>, k: int) -> int {
    if k + 1 < start_codes(data).len() {
        start_codes(data)[k + 1]
    } else {
        data.len() as int
    }
}

/// The bytes of the `k`-th NAL, its start code included.
pub open spec fn bytes_of_nal(data: Seq<u8>, k: int) -> Seq<u8> {
    data.subrange(start_codes(data)[k], end_of_nal(data, k))
}

/// The `k`-th NAL is a slice of a key frame.
pub open spec fn nal_is_key(data: Seq<u8>, codec: Codec, k: int) -> bool {
    type_of_nal(data, codec, k) matches Some(t) && keyframe_type(t, codec)
}

/// The `k`-th NAL is a parameter set.
pub open spec fn nal_is_parameter_set(data: Seq<u8>, codec: Codec, k: int) -> bool {
    type_of_nal(data, codec, k) matches Some(t) && parameter_set_type(t, codec)
}

/// Some NAL of the frame is a slice of a key frame.
pub open spec fn has_keyframe(frame: Seq<u8>, codec: Codec) -> bool {
    exists|k: int| 0 <= k < start_codes(frame).len() && #[trigger] nal_is_key(frame, codec, k)
}

/// The parameter sets among the first `n` NALs, joined.
pub open spec fn parameter_sets_upto(frame: Seq<u8>, codec: Codec, n: int) -> Seq<u8>
    decreases n,
{
    if n <= 0 {
        Seq::empty()
    } else if nal_is_parameter_set(frame, codec, n - 1) {
        parameter_sets_upto(frame, codec, n - 1) + bytes_of_nal(frame, n - 1)
    } else {
        parameter_sets_upto(frame, codec, n - 1)
    }
}

/// All parameter sets of the frame, joined in order.
pub open spec fn parameter_sets_in(frame: Seq<u8>, codec: Codec) -> Seq<u8> {
    parameter_sets_upto(frame, codec, start_codes(frame).len() as int)
}

/// The type of the NAL whose start code begins at `start`.
fn nal_type_at(data: &[u8], start: usize, codec: Codec) -> (r: Option<u8>)
    requires
        start + 3 <= data@.len(),
        body_offset(data@, start as int) <= data@.len(),
    ensures
        r == (if body_offset(data@, start as int) < data@.len() {
            Some(nal_type_of(data@[body_offset(data@, start as int)], codec))
        } else {
            None
        }),
{
    let len: usize = data.len();
    let nal_body_offset: usize = if data[start + 2] == 1 {
        start + 3
    } else {
        start + 4
    };
    if nal_body_offset < len {
        Some(nal_unit_type(data[nal_body_offset], codec))
    } else {
        None
    }
}

/// Whether one access unit holds a slice of a key frame.
pub fn frame_contains_keyframe(frame: &[u8], codec: Codec) -> (r: bool)
    ensures
        r == has_keyframe(frame@, codec),
{
    let starts = find_start_codes(frame);
    proof {
        lemma_start_codes_bounds(frame@);
    }
    let mut k: usize = 0;
    while k < starts.len()
        invariant
            0 <= k <= starts@.len(),
            as_ints(starts@) == start_codes(frame@),
            forall|j: int|
                0 <= j < start_codes(frame@).len() ==> {
                    &&& 0 <= #[trigger] start_codes(frame@)[j]
                    &&& start_codes(frame@)[j] + 3 <= body_offset(frame@, start_codes(frame@)[j])
                        <= frame@.len()
                },
            forall|j: int| 0 <= j < k ==> !#[trigger] nal_is_key(frame@, codec, j),
        decreases starts@.len() - k,
    {
        assert(start_codes(frame@)[k as int] == as_ints(starts@)[k as int]);
        if let Some(nal_type) = nal_type_at(frame, starts[k], codec) {
            if is_keyframe_vcl_nal(nal_type, codec) {
                assert(nal_is_key(frame@, codec, k as int));
                return true;
            }
        }
        k += 1;
    }
    false
}

/// The parameter sets of one access unit, joined in order.
pub fn extract_parameter_sets(frame: &[u8], codec: Codec) -> (out: Vec<u8>)
    ensures
        out@ == parameter_sets_in(frame@, codec),
{
    let starts = find_start_codes(frame);
    proof {
        lemma_start_codes_bounds(frame@);
    }
    let mut out: Vec<u8> = Vec::new();
    let mut k: usize = 0;
    while k < starts.len()
        invariant
            0 <= k <= starts@.len(),
            as_ints(starts@) == start_codes(frame@),
            forall|j: int|
                0 <= j < start_codes(frame@).len() ==> {
                    &&& 0 <= #[trigger] start_codes(frame@)[j]
                    &&& start_codes(frame@)[j] + 3 <= body_offset(frame@, start_codes(frame@)[j])
                        <= frame@.len()
                },
            forall|i: int, j: int|
                0 <= i < j < start_codes(frame@).len() ==> body_offset(
                    frame@,
                    #[trigger] start_codes(frame@)[i],
                ) <= #[trigger] start_codes(frame@)[j],
            out@ == parameter_sets_upto(frame@, codec, k as int),
        decreases starts@.len() - k,
    {
        let start: usize = starts[k];
        assert(start_codes(frame@)[k as int] == as_ints(starts@)[k as int]);
        let end: usize = if k + 1 < starts.len() {
            assert(start_codes(frame@)[k + 1] == as_ints(starts@)[k + 1]);
            starts[k + 1]
        } else {
            frame.len()
        };
        if let Some(nal_type) = nal_type_at(frame, start, codec) {
            if is_parameter_set_nal(nal_type, codec) {
                let ghost before = out@;
                let nal = vstd::slice::slice_subrange(frame, start, end);
                out.extend_from_slice(nal);
                assert(out@ =~= before + bytes_of_nal(frame@, k as int));
            }
        }
        k += 1;
    }
    out
}

// ---------------------------------------------------------------------------
// Access units
// ---------------------------------------------------------------------------

/// One finished frame: its bytes and whether it is a key frame.
pub struct FrameView {
    pub payload: Seq<u8>,
    pub is_key: bool,
}

/// The frame being collected and what has been finished so far.
#[verifier::ext_equal]
pub struct Assembly {
    /// Bytes of the unfinished frame.
    pub frame: Seq<u8>,
    /// The unfinished frame holds a slice already.
    pub has_vcl: bool,
    /// A key frame has been finished.
    pub key_seen: bool,
    /// The parameter sets of the last finished frame that carries any.
    pub seen: Option<Seq<u8>>,
    /// Frames finished, in order.
    pub done: Seq<FrameView>,
}

impl Assembly {
    /// The unfinished frame is complete.
    pub open spec fn finish(self, codec: Codec) -> Assembly {
        let is_key = has_keyframe(self.frame, codec);
        let sets = parameter_sets_in(self.frame, codec);
        Assembly {
            frame: Seq::empty(),
            has_vcl: false,
            key_seen: self.key_seen || is_key,
            seen: if sets.len() > 0 {
                Some(sets)
            } else {
                self.seen
            },
            done: self.done.push(FrameView { payload: self.frame, is_key }),
        }
    }

    /// One more NAL arrives. A non-VCL NAL after a slice finishes the frame
    /// before it.
    pub open spec fn take_nal(self, codec: Codec, nal: Seq<u8>, vcl: bool) -> Assembly {
        let a = if !vcl && self.has_vcl {
            self.finish(codec)
        } else {
            self
        };
        Assembly { frame: a.frame + nal, has_vcl: a.has_vcl || vcl, ..a }
    }

    /// The first `n` NALs of `data` arrive. Each of them is followed by a
    /// further start code, so its first body byte is known.
    pub open spec fn take_nals(self, codec: Codec, data: Seq<u8>, n: int) -> Assembly
        decreases n,
    {
        if n <= 0 {
            self
        } else {
            self.take_nals(codec, data, n - 1).take_nal(
                codec,
                bytes_of_nal(data, n - 1),
                nal_is_vcl(data, codec, n - 1),
            )
        }
    }
}

/// The `k`-th NAL is a slice.
pub open spec fn nal_is_vcl(data: Seq<u8>, codec: Codec, k: int) -> bool {
    type_of_nal(data, codec, k) matches Some(t) && vcl_type(t, codec)
}

/// What a splitter holds between two calls.
#[verifier::ext_equal]
pub struct SplitterView {
    pub codec: Codec,
    /// Bytes not yet split: from the last start code on.
    pub pending: Seq<u8>,
    pub frame: Seq<u8>,
    pub has_vcl: bool,
    /// A key frame has been finished.
    pub key_seen: bool,
    /// The parameter sets of the last finished frame that carries any.
    pub seen: Option<Seq<u8>>,
}

impl SplitterView {
    /// The assembly that goes on from here, with no frame finished yet.
    pub open spec fn assembly(self) -> Assembly {
        Assembly {
            frame: self.frame,
            has_vcl: self.has_vcl,
            key_seen: self.key_seen,
            seen: self.seen,
            done: Seq::empty(),
        }
    }

    /// The assembly after all NALs of `pending + chunk` that are known to be
    /// complete.
    pub open spec fn assembled(self, chunk: Seq<u8>) -> Assembly {
        let data = self.pending + chunk;
        self.assembly().take_nals(self.codec, data, start_codes(data).len() - 1)
    }

    /// The state after `chunk` has been added.
    pub open spec fn after(self, chunk: Seq<u8>) -> SplitterView {
        let data = self.pending + chunk;
        let starts = start_codes(data);
        let a = self.assembled(chunk);
        SplitterView {
            codec: self.codec,
            pending: if starts.len() < 2 {
                data
            } else {
                data.skip(starts.last())
            },
            frame: a.frame,
            has_vcl: a.has_vcl,
            key_seen: a.key_seen,
            seen: a.seen,
        }
    }

    /// The frames that adding `chunk` finishes.
    pub open spec fn frames(self, chunk: Seq<u8>) -> Seq<FrameView> {
        self.assembled(chunk).done
    }

    /// The parameter sets that are given out: those seen last, but none until
    /// the first key frame has passed.
    pub open spec fn params(self) -> Option<Seq<u8>> {
        if self.key_seen {
            self.seen
        } else {
            None
        }
    }

    /// What holds of every splitter: at most the last NAL is pending.
    pub open spec fn wf(self) -> bool {
        start_codes(self.pending).len() <= 1
    }
}

/// After a chunk has been added, at most the last NAL is pending.
pub proof fn after_keeps_wf(s: SplitterView, chunk: Seq<u8>)
    ensures
        s.after(chunk).wf(),
{
    let data = s.pending + chunk;
    let n = start_codes(data).len() as int;
    if n >= 2 {
        lemma_start_codes_skip(data, n - 1);
    }
}

/// A splitter that has got no bytes yet.
pub open spec fn fresh_splitter(codec_is_hevc: bool) -> SplitterView {
    SplitterView {
        codec: if codec_is_hevc {
            Codec::Hevc
        } else {
            Codec::H264
        },
        pending: Seq::empty(),
        frame: Seq::empty(),
        has_vcl: false,
        key_seen: false,
        seen: None,
    }
}

/// One access unit: parameter sets and one or more slices.
pub struct FrameChunk {
    pub payload: Vec<u8>,
    pub is_key: bool,
}

impl View for FrameChunk {
    type V = FrameView;

    open spec fn view(&self) -> FrameView {
        FrameView { payload: self.payload@, is_key: self.is_key }
    }
}

/// The frames of a list, as their views.
pub open spec fn frame_views(frames: Seq<FrameChunk>) -> Seq<FrameView> {
    frames.map_values(|f: FrameChunk| f@)
}

/// Collects the bytes read from ffmpeg and cuts them into access units.
pub struct NalSplitter {
    codec: Codec,
    stream_buf: Vec<u8>,
    frame_buf: Vec<u8>,
    frame_has_vcl: bool,
    key_frame_seen: bool,
    latest_parameter_sets: Option<ParameterSets>,
}

impl View for NalSplitter {
    type V = SplitterView;

    closed spec fn view(&self) -> SplitterView {
        SplitterView {
            codec: self.codec,
            pending: self.stream_buf@,
            frame: self.frame_buf@,
            has_vcl: self.frame_has_vcl,
            key_seen: self.key_frame_seen,
            seen: match self.latest_parameter_sets {
                Some(p) => Some(p.payload@),
                None => None,
            },
        }
    }
}

impl NalSplitter {
    pub fn new(codec_is_hevc: bool) -> (r: Self)
        ensures
            r@ == fresh_splitter(codec_is_hevc),
            r@.wf(),
    {
        NalSplitter {
            codec: if codec_is_hevc {
                Codec::Hevc
            } else {
                Codec::H264
            },
            stream_buf: Vec::new(),
            frame_buf: Vec::new(),
            frame_has_vcl: false,
            key_frame_seen: false,
            latest_parameter_sets: None,
        }
    }

    /// The parameter sets of the last frame that carries any, be it a key frame
    /// or not. `None` until the first key frame has passed.
    pub fn latest_parameter_sets(&self) -> (r: Option<&ParameterSets>)
        ensures
            r is Some <==> self@.params() is Some,
            r matches Some(p) ==> Some(p.payload@) == self@.params(),
    {
        if self.key_frame_seen {
            self.latest_parameter_sets.as_ref()
        } else {
            None
        }
    }

    /// Takes the unfinished frame out as complete.
    fn finish_frame(&mut self) -> (r: FrameChunk)
        ensures
            ({
                let a = old(self)@.assembly().finish(old(self)@.codec);
                &&& r@ == (FrameView {
                    payload: old(self)@.frame,
                    is_key: has_keyframe(old(self)@.frame, old(self)@.codec),
                })
                &&& final(self)@ == (SplitterView {
                    frame: a.frame,
                    has_vcl: a.has_vcl,
                    key_seen: a.key_seen,
                    seen: a.seen,
                    ..old(self)@
                })
            }),
    {
        let is_key = frame_contains_keyframe(self.frame_buf.as_slice(), self.codec);
        let param_sets = extract_parameter_sets(self.frame_buf.as_slice(), self.codec);
        if is_key {
            self.key_frame_seen = true;
        }
        if param_sets.len() > 0 {
            self.latest_parameter_sets = Some(ParameterSets { payload: param_sets });
        }
        let mut payload: Vec<u8> = Vec::new();
        core::mem::swap(&mut payload, &mut self.frame_buf);
        self.frame_has_vcl = false;
        FrameChunk { payload, is_key }
    }

    /// Adds newly received bytes and returns the access units that are
    /// complete by now.
    pub fn push(&mut self, chunk: &[u8]) -> (frames: Vec<FrameChunk>)
        ensures
            frame_views(frames@) == old(self)@.frames(chunk@),
            final(self)@ == old(self)@.after(chunk@),
            final(self)@.wf(),
    {
        self.stream_buf.extend_from_slice(chunk);
        let ghost data = old(self)@.pending + chunk@;
        let ghost start = old(self)@;
        assert(self.stream_buf@ =~= data);
        let starts = find_start_codes(self.stream_buf.as_slice());
        proof {
            lemma_start_codes_bounds(data);
        }
        let mut frames: Vec<FrameChunk> = Vec::new();
        if starts.len() < 2 {
            assert(frame_views(frames@) =~= old(self)@.frames(chunk@));
            return frames;
        }
        let mut k: usize = 0;
        while k < starts.len() - 1
            invariant
                2 <= starts@.len(),
                0 <= k <= starts@.len() - 1,
                data == self.stream_buf@,
                as_ints(starts@) == start_codes(data),
                self@.codec == start.codec,
                ({
                    let a = start.assembly().take_nals(start.codec, data, k as int);
                    &&& a.done == frame_views(frames@)
                    &&& a.frame == self@.frame
                    &&& a.has_vcl == self@.has_vcl
                    &&& a.key_seen == self@.key_seen
                    &&& a.seen == self@.seen
                }),
                forall|j: int|
                    0 <= j < start_codes(data).len() ==> {
                        &&& 0 <= #[trigger] start_codes(data)[j]
                        &&& start_codes(data)[j] + 3 <= body_offset(data, start_codes(data)[j])
                            <= data.len()
                    },
                forall|i: int, j: int|
                    0 <= i < j < start_codes(data).len() ==> body_offset(
                        data,
                        #[trigger] start_codes(data)[i],
                    ) <= #[trigger] start_codes(data)[j],
            decreases starts@.len() - k,
        {
            let start_pos: usize = starts[k];
            let next_start: usize = starts[k + 1];
            assert(start_codes(data)[k as int] == as_ints(starts@)[k as int]);
            assert(start_codes(data)[k + 1] == as_ints(starts@)[k + 1]);
            let ghost a = start.assembly().take_nals(start.codec, data, k as int);
            let is_vcl = match nal_type_at(self.stream_buf.as_slice(), start_pos, self.codec) {
                Some(nal_type) => is_vcl_nal(nal_type, self.codec),
                None => false,
            };
            assert(is_vcl == nal_is_vcl(data, start.codec, k as int));
            if !is_vcl && self.frame_has_vcl {
                let ghost before = frames@;
                let frame = self.finish_frame();
                frames.push(frame);
                assert(frame_views(frames@) =~= frame_views(before).push(frame@));
                assert(a.finish(start.codec).done =~= frame_views(before).push(frame@));
            }
            if is_vcl {
                self.frame_has_vcl = true;
            }
            let nal = vstd::slice::slice_subrange(
                self.stream_buf.as_slice(),
                start_pos,
                next_start,
            );
            let ghost frame_before = self.frame_buf@;
            self.frame_buf.extend_from_slice(nal);
            assert(self.frame_buf@ =~= frame_before + bytes_of_nal(data, k as int));
            k += 1;
        }
        let last_start: usize = starts[starts.len() - 1];
        let rest = self.stream_buf.split_off(last_start);
        self.stream_buf = rest;
        assert(start_codes(data).last() == as_ints(starts@).last());
        assert(self.stream_buf@ =~= data.skip(last_start as int));
        proof {
            after_keeps_wf(start, chunk@);
        }
        frames
    }
}

} // verus!
