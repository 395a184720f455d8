//! Video frames: packing native strided rows, the bounded acquisition-time
//! frame history, full-frame camera rendering and circular camera blending.
use fast_image_resize::images::{Image, ImageRef};
use fast_image_resize::{FilterType, PixelType, ResizeAlg, ResizeOptions};
use std::collections::VecDeque;
use std::sync::Arc;
use vstd::prelude::*;

verus! {

/// A packed BGRA frame stamped with its acquisition time (host nanoseconds).
#[derive(Debug, Clone)]
pub struct VideoFrame {
    pub width: u32,
    pub height: u32,
    pub bgra: Vec<u8>,
    pub captured_at: u64,
}

/// Rows `0..rows` of a strided image, each `row` bytes long and starting
/// `stride` bytes after the previous one, concatenated without padding.
pub open spec fn packed_rows(bytes: Seq<u8>, row: nat, stride: nat, rows: nat) -> Seq<u8>
    decreases rows,
{
    if rows == 0 {
        seq![]
    } else {
        let start = (rows - 1) * stride;
        packed_rows(bytes, row, stride, (rows - 1) as nat) + bytes.subrange(
            start as int,
            start + row,
        )
    }
}

/// The strided layout is usable: nonempty, each row fits its stride, and the
/// buffer holds every row.
pub open spec fn strided_layout_ok(width: u32, height: u32, stride: usize, len: nat) -> bool {
    &&& width > 0
    &&& height > 0
    &&& width * 4 * height <= usize::MAX
    &&& stride >= width * 4
    &&& stride * height <= usize::MAX
    &&& len >= stride * height
}

impl VideoFrame {
    /// Copies `height` rows of `width` BGRA pixels out of a buffer whose rows
    /// are `stride` bytes apart, dropping the native padding.
    pub fn from_strided_at(
        width: u32,
        height: u32,
        stride: usize,
        bytes: &[u8],
        captured_at: u64,
    ) -> (r: Option<Self>)
        ensures
            r is Some <==> strided_layout_ok(width, height, stride, bytes@.len()),
            r matches Some(f) ==> {
                &&& f.width == width
                &&& f.height == height
                &&& f.captured_at == captured_at
                &&& f.bgra@ == packed_rows(bytes@, (width * 4) as nat, stride as nat, height as nat)
            },
    {
        let row = match (width as usize).checked_mul(4) {
            Some(v) => v,
            None => return None,
        };
        let len = match row.checked_mul(height as usize) {
            Some(v) => v,
            None => return None,
        };
        if width == 0 || height == 0 || stride < row {
            return None;
        }
        let total = match stride.checked_mul(height as usize) {
            Some(v) => v,
            None => return None,
        };
        if bytes.len() < total {
            return None;
        }
        let mut bgra: Vec<u8> = Vec::with_capacity(len);
        let mut y: usize = 0;
        while y < height as usize
            invariant
                row == width * 4,
                stride >= row,
                stride * height <= bytes@.len(),
                stride * height <= usize::MAX,
                y <= height,
                bgra@ == packed_rows(bytes@, row as nat, stride as nat, y as nat),
            decreases height - y,
        {
            proof {
                let (yy, st, h) = (y as int, stride as int, height as int);
                assert((yy + 1) * st <= st * h) by (nonlinear_arith)
                    requires
                        yy < h,
                        st >= 0,
                ;
                assert(yy * st + st == (yy + 1) * st) by (nonlinear_arith);
                assert(st + yy * st == (yy + 1) * st) by (nonlinear_arith);
                assert(st * h == stride * height);
                assert(yy * st + st <= bytes@.len());
                assert(yy * st + (row as int) <= bytes@.len());
            }
            let start = y * stride;
            let mut piece = vstd::slice::slice_to_vec(
                vstd::slice::slice_subrange(bytes, start, start + row),
            );
            bgra.append(&mut piece);
            y = y + 1;
        }
        Some(VideoFrame { width, height, bgra, captured_at })
    }
}

} // verus!

verus! {

impl VideoFrame {
    /// Like [`VideoFrame::from_strided_at`], stamped with the current time on
    /// `timeline`.
    pub fn from_strided(
        width: u32,
        height: u32,
        stride: usize,
        bytes: &[u8],
        timeline: &crate::timeline::Timeline,
    ) -> (r: Option<Self>)
        ensures
            r is Some <==> strided_layout_ok(width, height, stride, bytes@.len()),
            r matches Some(f) ==> {
                &&& f.width == width
                &&& f.height == height
                &&& f.bgra@ == packed_rows(bytes@, (width * 4) as nat, stride as nat, height as nat)
            },
    {
        let now = timeline.now();
        Self::from_strided_at(width, height, stride, bytes, now)
    }
}

/// At most this many frames are kept (beyond the two most recent).
pub const HISTORY_FRAMES: usize = 32;

/// At most this many pixel bytes are kept (beyond the two most recent frames).
pub const HISTORY_BYTES: u128 = 134_217_728;

/// At most this much acquisition time is spanned (beyond the two most recent
/// frames), in nanoseconds.
pub const HISTORY_SPAN: u64 = 300_000_000;

/// Total pixel bytes of a sequence of frames.
pub open spec fn frame_bytes(s: Seq<VideoFrame>) -> nat
    decreases s.len(),
{
    if s.len() == 0 {
        0
    } else {
        frame_bytes(s.drop_last()) + s.last().bgra@.len()
    }
}

/// The history holds more than its bounds allow (with more than two frames).
pub open spec fn history_over_bounds(s: Seq<VideoFrame>) -> bool {
    &&& s.len() > 2
    &&& (s.len() > HISTORY_FRAMES || frame_bytes(s) > HISTORY_BYTES || s.last().captured_at
        - s[0].captured_at > HISTORY_SPAN)
}

/// Drops the oldest frames until the history is within its bounds.
pub open spec fn evict(s: Seq<VideoFrame>) -> Seq<VideoFrame>
    decreases s.len(),
{
    if history_over_bounds(s) {
        evict(s.drop_first())
    } else {
        s
    }
}

/// Acquisition times strictly increase.
pub open spec fn strictly_increasing(s: Seq<VideoFrame>) -> bool {
    forall|i: int, j: int| 0 <= i < j < s.len() ==> s[i].captured_at < s[j].captured_at
}

/// A new frame is taken when it is not from the future and is newer than the
/// latest held frame.
pub open spec fn history_accepts(s: Seq<VideoFrame>, frame: VideoFrame, now: u64) -> bool {
    frame.captured_at <= now && (s.len() == 0 || s.last().captured_at < frame.captured_at)
}

/// The latest held frame acquired at or before `target`.
pub open spec fn latest_at_or_before(s: Seq<VideoFrame>, target: u64) -> Option<VideoFrame>
    decreases s.len(),
{
    if s.len() == 0 {
        None
    } else if s.last().captured_at <= target {
        Some(s.last())
    } else {
        latest_at_or_before(s.drop_last(), target)
    }
}

/// The frame behind a shared handle.
pub open spec fn shared_frame(a: &Arc<VideoFrame>) -> VideoFrame {
    **a
}

/// Latest frame for immediate preview, plus a short bounded acquisition
/// history for recording. A future frame is never substituted into a past
/// output slot.
pub struct FrameHistory {
    frames: VecDeque<Arc<VideoFrame>>,
    bytes: u128,
}

impl View for FrameHistory {
    type V = Seq<VideoFrame>;

    closed spec fn view(&self) -> Seq<VideoFrame> {
        self.frames@.map_values(|f: Arc<VideoFrame>| *f)
    }
}

proof fn lemma_frame_bytes_push(s: Seq<VideoFrame>, f: VideoFrame)
    ensures
        frame_bytes(s.push(f)) == frame_bytes(s) + f.bgra@.len(),
{
    assert(s.push(f).drop_last() =~= s);
}

proof fn lemma_frame_bytes_drop_first(s: Seq<VideoFrame>)
    requires
        s.len() > 0,
    ensures
        frame_bytes(s) == s[0].bgra@.len() + frame_bytes(s.drop_first()),
    decreases s.len(),
{
    if s.len() > 1 {
        lemma_frame_bytes_drop_first(s.drop_last());
        assert(s.drop_last().drop_first() =~= s.drop_first().drop_last());
    } else {
        assert(s.drop_last() =~= Seq::<VideoFrame>::empty());
        assert(s.drop_first() =~= Seq::<VideoFrame>::empty());
    }
}

/// Every frame's pixel buffer length fits a machine word.
pub open spec fn sizes_fit(s: Seq<VideoFrame>) -> bool {
    forall|i: int| 0 <= i < s.len() ==> #[trigger] s[i].bgra@.len() <= usize::MAX
}

proof fn lemma_frame_bytes_bound(s: Seq<VideoFrame>)
    requires
        sizes_fit(s),
    ensures
        frame_bytes(s) <= s.len() * (usize::MAX as nat),
    decreases s.len(),
{
    if s.len() > 0 {
        assert(sizes_fit(s.drop_last()));
        lemma_frame_bytes_bound(s.drop_last());
        assert(s[s.len() - 1].bgra@.len() <= usize::MAX);
        assert((s.len() - 1) * (usize::MAX as nat) + usize::MAX == s.len() * (usize::MAX as nat))
            by (nonlinear_arith);
    }
}

proof fn lemma_evict_bounds(s: Seq<VideoFrame>)
    ensures
        !history_over_bounds(evict(s)),
        evict(s).len() <= s.len(),
        strictly_increasing(s) ==> strictly_increasing(evict(s)),
        sizes_fit(s) ==> sizes_fit(evict(s)),
        s.len() > 0 ==> evict(s).len() > 0 && evict(s).last() == s.last(),
    decreases s.len(),
{
    if history_over_bounds(s) {
        lemma_evict_bounds(s.drop_first());
    }
}

impl FrameHistory {
    /// Well-formed: times strictly increase, the byte count is exact and the
    /// bounds hold.
    pub closed spec fn wf(&self) -> bool {
        &&& strictly_increasing(self@)
        &&& sizes_fit(self@)
        &&& self.bytes == frame_bytes(self@)
        &&& !history_over_bounds(self@)
    }

    /// An empty history.
    pub fn new() -> (r: Self)
        ensures
            r.wf(),
            r@ == Seq::<VideoFrame>::empty(),
    {
        let r = FrameHistory { frames: VecDeque::new(), bytes: 0 };
        proof {
            assert(r@ =~= Seq::<VideoFrame>::empty());
        }
        r
    }

    /// Number of frames held.
    pub fn len(&self) -> (r: usize)
        ensures
            r == self@.len(),
    {
        self.frames.len()
    }

    /// Adds `frame` unless it comes from the future (after `now`) or is not
    /// newer than the latest held frame (native outputs are serial), then
    /// drops the oldest frames while more than two are held and there are
    /// too many, too many bytes, or too long a span. Returns whether the frame
    /// was taken.
    pub fn push(&mut self, frame: Arc<VideoFrame>, now: u64) -> (accepted: bool)
        requires
            old(self).wf(),
        ensures
            final(self).wf(),
            accepted == history_accepts(old(self)@, *frame, now),
            accepted ==> final(self)@ == evict(old(self)@.push(*frame)),
            accepted ==> final(self)@.len() > 0,
            accepted ==> final(self)@.last() == *frame,
            !accepted ==> final(self)@ == old(self)@,
            accepted ==> !beyond_history_bounds(final(self)@),
            accepted && !beyond_history_bounds(old(self)@.push(*frame)) ==> final(self)@ == old(
                self,
            )@.push(*frame),
            accepted ==> exists|k: int|
                0 <= k <= old(self)@.len() + 1 && final(self)@ == #[trigger] old(self)@.push(
                    *frame,
                ).subrange(k, old(self)@.len() + 1int) && (k > 0 ==> beyond_history_bounds(
                    old(self)@.push(*frame).subrange(k - 1, old(self)@.len() + 1int),
                )),
    {
        let ghost fv: VideoFrame = shared_frame(&frame);
        let n = self.frames.len();
        if frame.captured_at > now {
            return false;
        }
        if n > 0 && self.frames[n - 1].captured_at >= frame.captured_at {
            return false;
        }
        proof {
            lemma_frame_bytes_bound(self@);
            lemma_frame_bytes_push(self@, fv);
            assert(self@.len() <= HISTORY_FRAMES as nat || self@.len() <= 2);
            assert(self@.len() * (usize::MAX as nat) <= 32 * (usize::MAX as nat)) by (nonlinear_arith)
                requires
                    self@.len() <= 32,
            ;
        }
        let size = frame.bgra.len() as u128;
        proof {
            assert(sizes_fit(self@.push(fv)));
        }
        self.bytes = self.bytes + size;
        self.frames.push_back(frame);
        proof {
            assert(self@ =~= old(self)@.push(fv));
            assert(strictly_increasing(self@));
        }
        let ghost target = evict(self@);
        while self.frames.len() > 2 && (self.frames.len() > HISTORY_FRAMES || self.bytes
            > HISTORY_BYTES || self.frames[self.frames.len() - 1].captured_at
            - self.frames[0].captured_at > HISTORY_SPAN)
            invariant
                evict(self@) == target,
                self.bytes == frame_bytes(self@),
                strictly_increasing(self@),
                sizes_fit(self@),
            decreases self@.len(),
        {
            let ghost before = self@;
            let oldest = self.frames.pop_front();
            proof {
                assert(self@ =~= before.drop_first());
                lemma_frame_bytes_drop_first(before);
            }
            match oldest {
                Some(f) => {
                    self.bytes = self.bytes - f.bgra.len() as u128;
                },
                None => {},
            }
        }
        proof {
            lemma_evict_bounds(old(self)@.push(fv));
            lemma_eviction_is_minimal(old(self)@.push(fv));
        }
        true
    }

    /// The most recent frame, for preview.
    pub fn latest(&self) -> (r: Option<Arc<VideoFrame>>)
        ensures
            match r {
                Some(f) => self@.len() > 0 && *f == self@.last(),
                None => self@.len() == 0,
            },
    {
        let n = self.frames.len();
        if n == 0 {
            None
        } else {
            Some(self.frames[n - 1].clone())
        }
    }

    /// The latest frame acquired at or before `target`; never a later one.
    pub fn at_or_before(&self, target: u64) -> (r: Option<Arc<VideoFrame>>)
        ensures
            match r {
                Some(f) => latest_at_or_before(self@, target) == Some(*f),
                None => latest_at_or_before(self@, target) is None,
            },
    {
        let mut k = self.frames.len();
        proof {
            assert(self@.subrange(0, k as int) =~= self@);
        }
        while k > 0
            invariant
                k <= self@.len(),
                latest_at_or_before(self@, target) == latest_at_or_before(
                    self@.subrange(0, k as int),
                    target,
                ),
            decreases k,
        {
            proof {
                assert(self@.subrange(0, k as int).drop_last() =~= self@.subrange(0, k - 1));
            }
            if self.frames[k - 1].captured_at <= target {
                return Some(self.frames[k - 1].clone());
            }
            k = k - 1;
        }
        None
    }

    /// Drops every held frame.
    pub fn clear(&mut self)
        ensures
            final(self).wf(),
            final(self)@ == Seq::<VideoFrame>::empty(),
    {
        self.frames.clear();
        self.bytes = 0;
        proof {
            assert(self@ =~= Seq::<VideoFrame>::empty());
        }
    }
}

} // verus!

verus! {

/// Eviction keeps the newest frames: the result is a suffix of the input.
pub proof fn lemma_eviction_keeps_the_newest_frames(s: Seq<VideoFrame>)
    ensures
        exists|k: int| 0 <= k <= s.len() && evict(s) == s.subrange(k, s.len() as int),
    decreases s.len(),
{
    if history_over_bounds(s) {
        lemma_eviction_keeps_the_newest_frames(s.drop_first());
        let k = choose|k: int|
            0 <= k <= s.drop_first().len() && evict(s.drop_first()) == s.drop_first().subrange(
                k,
                s.drop_first().len() as int,
            );
        assert(s.drop_first().subrange(k, s.drop_first().len() as int) =~= s.subrange(
            k + 1,
            s.len() as int,
        ));
    } else {
        assert(s.subrange(0, s.len() as int) =~= s);
    }
}

/// Frames beyond the history's bounds: more than two frames, and more than
/// 32 of them, more than 128 MiB of pixels, or more than 300 ms between the
/// oldest and the newest acquisition.
pub open spec fn beyond_history_bounds(s: Seq<VideoFrame>) -> bool {
    &&& s.len() > 2
    &&& (s.len() > 32 || frame_bytes(s) > 134_217_728 || s.last().captured_at - s[0].captured_at
        > 300_000_000)
}

/// Eviction drops only as many of the oldest frames as the bounds demand:
/// what is kept is the newest frames, within the bounds, and keeping one
/// more would exceed them; a history within its bounds loses nothing.
pub proof fn lemma_eviction_is_minimal(s: Seq<VideoFrame>)
    ensures
        exists|k: int|
            0 <= k <= s.len() && evict(s) == #[trigger] s.subrange(k, s.len() as int) && (k > 0
                ==> beyond_history_bounds(s.subrange(k - 1, s.len() as int))),
        !beyond_history_bounds(evict(s)),
        !beyond_history_bounds(s) ==> evict(s) == s,
    decreases s.len(),
{
    if history_over_bounds(s) {
        let t = s.drop_first();
        lemma_eviction_is_minimal(t);
        let k = choose|k: int|
            0 <= k <= t.len() && evict(t) == #[trigger] t.subrange(k, t.len() as int) && (k > 0
                ==> beyond_history_bounds(t.subrange(k - 1, t.len() as int)));
        assert(t.subrange(k, t.len() as int) =~= s.subrange(k + 1, s.len() as int));
        if k > 0 {
            assert(t.subrange(k - 1, t.len() as int) =~= s.subrange(k, s.len() as int));
        } else {
            assert(s.subrange(0, s.len() as int) =~= s);
        }
        assert(evict(s) == s.subrange(k + 1, s.len() as int));
    } else {
        assert(s.subrange(0, s.len() as int) =~= s);
        assert(evict(s) == s.subrange(0, s.len() as int));
    }
}

/// A well-formed history holds frames in strictly increasing acquisition
/// order and within its frame bound, and beyond two frames within its byte
/// and span bounds.
pub proof fn lemma_history_is_bounded(h: &FrameHistory)
    requires
        h.wf(),
    ensures
        strictly_increasing(h@),
        h@.len() <= HISTORY_FRAMES,
        h@.len() > 2 ==> frame_bytes(h@) <= HISTORY_BYTES && h@.last().captured_at
            - h@[0].captured_at <= HISTORY_SPAN,
{
}

/// The frame chosen for an output slot is never acquired after the slot's
/// time, and no held frame between it and the slot's time is skipped.
pub proof fn lemma_never_a_future_frame(s: Seq<VideoFrame>, target: u64)
    ensures
        match latest_at_or_before(s, target) {
            Some(f) => exists|i: int|
                0 <= i < s.len() && s[i] == f && f.captured_at <= target && forall|j: int|
                    i < j < s.len() ==> s[j].captured_at > target,
            None => forall|i: int| 0 <= i < s.len() ==> s[i].captured_at > target,
        },
    decreases s.len(),
{
    if s.len() > 0 {
        lemma_never_a_future_frame(s.drop_last(), target);
        if s.last().captured_at > target {
            match latest_at_or_before(s.drop_last(), target) {
                Some(f) => {
                    let i = choose|i: int|
                        0 <= i < s.drop_last().len() && s.drop_last()[i] == f && f.captured_at
                            <= target && forall|j: int|
                            i < j < s.drop_last().len() ==> s.drop_last()[j].captured_at > target;
                    assert(s[i] == f);
                    assert forall|j: int| i < j < s.len() implies s[j].captured_at > target by {
                        if j < s.len() - 1 {
                            assert(s[j] == s.drop_last()[j]);
                        }
                    }
                },
                None => {
                    assert forall|i: int| 0 <= i < s.len() implies s[i].captured_at > target by {
                        if i < s.len() - 1 {
                            assert(s[i] == s.drop_last()[i]);
                        }
                    }
                },
            }
        } else {
            assert(s[s.len() - 1] == s.last());
        }
    }
}

} // verus!

verus! {

/// Pixels of a packed 4-channel `width` x `height` image resampled to
/// `new_width` x `new_height` by the `image` crate's triangle filter.
pub uninterp spec fn resized_rgba(
    pixels: Seq<u8>,
    width: u32,
    height: u32,
    new_width: u32,
    new_height: u32,
) -> Seq<u8>;

/// `image::imageops::resize` with `FilterType::Triangle` on the packed
/// 4-channel image held in `pixels`. Claims: the result is a packed
/// `new_width` x `new_height` 4-channel image (its length), determined by the
/// arguments alone (the name `resized_rgba`). The resampling arithmetic
/// itself is not stated. The `requires` keep out the sizes for which the
/// crate's buffers (the intermediate `width` x `new_height` one included)
/// would overflow and panic.
#[verifier::external_body]
fn resize_pixels(pixels: &[u8], width: u32, height: u32, new_width: u32, new_height: u32) -> (r:
    Vec<u8>)
    requires
        width * height * 4 <= pixels@.len(),
        width * new_height * 4 <= usize::MAX,
        new_width * new_height * 4 <= usize::MAX,
    ensures
        r@ == resized_rgba(pixels@, width, height, new_width, new_height),
        r@.len() == new_width * new_height * 4,
{
    let source = image::ImageBuffer::<image::Rgba<u8>, &[u8]>::from_raw(width, height, pixels)
        .unwrap();
    image::imageops::resize(&source, new_width, new_height, image::imageops::FilterType::Triangle)
        .into_raw()
}

/// Row `y` of a packed 4-channel image of `width` pixels, with its first `k`
/// pixels taken right to left.
pub open spec fn reversed_row(s: Seq<u8>, width: nat, y: nat, k: nat) -> Seq<u8>
    decreases k,
{
    if k == 0 {
        seq![]
    } else {
        let at = (y * width + (width - k)) * 4;
        reversed_row(s, width, y, (k - 1) as nat) + s.subrange(at, at + 4)
    }
}

/// Rows `0..rows` of a packed 4-channel image, each mirrored left to right.
pub open spec fn mirrored_rows(s: Seq<u8>, width: nat, rows: nat) -> Seq<u8>
    decreases rows,
{
    if rows == 0 {
        seq![]
    } else {
        mirrored_rows(s, width, (rows - 1) as nat) + reversed_row(s, width, (rows - 1) as nat, width)
    }
}

/// A packed `width` x `height` image mirrored left to right; bytes past the
/// image are kept.
pub open spec fn mirrored(s: Seq<u8>, width: nat, height: nat) -> Seq<u8> {
    mirrored_rows(s, width, height) + s.subrange((width * height * 4) as int, s.len() as int)
}

/// Mirrors a packed 4-channel image left to right (what
/// `image::imageops::flip_horizontal_in_place` does).
fn mirror_pixels(s: &Vec<u8>, width: u32, height: u32) -> (r: Vec<u8>)
    requires
        width * height * 4 <= s@.len(),
    ensures
        r@ == mirrored(s@, width as nat, height as nat),
{
    let mut out: Vec<u8> = Vec::new();
    let n = s.len();
    let w: usize = width as usize;
    let mut y: usize = 0;
    while y < height as usize
        invariant
            n == s@.len(),
            w == width,
            width * height * 4 <= s@.len(),
            y <= height,
            out@ == mirrored_rows(s@, width as nat, y as nat),
        decreases height - y,
    {
        proof {
            let (yy, ww, hh) = (y as int, w as int, height as int);
            assert((yy * ww + ww) * 4 <= ww * hh * 4) by (nonlinear_arith)
                requires
                    yy < hh,
                    ww >= 0,
            ;
        }
        let mut k: usize = 0;
        while k < w
            invariant
                n == s@.len(),
                w == width,
                width * height * 4 <= s@.len(),
                y < height,
                (y * w + w) * 4 <= s@.len(),
                k <= w,
                out@ == mirrored_rows(s@, width as nat, y as nat) + reversed_row(
                    s@,
                    width as nat,
                    y as nat,
                    k as nat,
                ),
            decreases w - k,
        {
            proof {
                let (yy, ww, kk) = (y as int, w as int, k as int);
                assert(0 <= yy * ww) by (nonlinear_arith)
                    requires
                        yy >= 0,
                        ww >= 0,
                ;
                assert((yy * ww + (ww - kk - 1)) * 4 + 4 <= (yy * ww + ww) * 4);
            }
            let at = (y * w + (w - k - 1)) * 4;
            out.push(s[at]);
            out.push(s[at + 1]);
            out.push(s[at + 2]);
            out.push(s[at + 3]);
            proof {
                assert(out@ =~= mirrored_rows(s@, width as nat, y as nat) + reversed_row(
                    s@,
                    width as nat,
                    y as nat,
                    (k + 1) as nat,
                ));
            }
            k = k + 1;
        }
        y = y + 1;
    }
    let tail_start = w * height as usize * 4;
    let mut i = tail_start;
    while i < n
        invariant
            n == s@.len(),
            tail_start == width * height * 4,
            tail_start <= i <= n,
            out@ == mirrored_rows(s@, width as nat, height as nat) + s@.subrange(
                tail_start as int,
                i as int,
            ),
        decreases n - i,
    {
        out.push(s[i]);
        proof {
            assert(out@ =~= mirrored_rows(s@, width as nat, height as nat) + s@.subrange(
                tail_start as int,
                i + 1,
            ));
        }
        i = i + 1;
    }
    out
}

} // verus!

verus! {

/// A camera frame rendered full-frame at `width` x `height`: resampled when
/// the size differs, then mirrored if asked.
pub open spec fn rendered_camera(camera: VideoFrame, width: u32, height: u32, mirror: bool) -> Seq<u8> {
    let scaled = if camera.width == width && camera.height == height {
        camera.bgra@
    } else {
        resized_rgba(camera.bgra@, camera.width, camera.height, width, height)
    };
    if mirror {
        mirrored(scaled, width as nat, height as nat)
    } else {
        scaled
    }
}

/// A mirrored render is the horizontal flip of the unmirrored one, and a
/// frame rendered unmirrored at its own size keeps its pixels.
pub proof fn lemma_render_mirrors_and_keeps_own_size(camera: VideoFrame, width: u32, height: u32)
    ensures
        rendered_camera(camera, width, height, true) == mirrored(
            rendered_camera(camera, width, height, false),
            width as nat,
            height as nat,
        ),
        camera.width == width && camera.height == height ==> rendered_camera(
            camera,
            width,
            height,
            false,
        ) == camera.bgra@,
{
}

/// Full camera frame, preserving its rectangular field of view. Repeated
/// frames are cached so exporting at a higher frame rate does not repeat
/// resizing work.
pub struct CameraFrameRenderer {
    cached: Option<VideoFrame>,
    mirror: bool,
    /// The camera frame the cached frame was rendered from.
    source: Ghost<VideoFrame>,
}

/// Two camera frames show the same picture: same acquisition time, size and pixels.
pub open spec fn same_picture(a: VideoFrame, b: VideoFrame) -> bool {
    a.captured_at == b.captured_at && a.width == b.width && a.height == b.height && a.bgra@
        == b.bgra@
}

impl Default for CameraFrameRenderer {
    fn default() -> (r: Self)
        ensures
            r.spec_cached() is None,
    {
        CameraFrameRenderer { cached: None, mirror: false, source: Ghost(arbitrary()) }
    }
}

impl CameraFrameRenderer {
    /// The cached frame is the render of its source frame.
    #[verifier::type_invariant]
    closed spec fn renders_source(self) -> bool {
        match self.cached {
            Some(f) => f.captured_at == self.source@.captured_at && f.bgra@ == rendered_camera(
                self.source@,
                f.width,
                f.height,
                self.mirror,
            ),
            None => true,
        }
    }

    /// The last rendered frame, if any.
    pub closed spec fn spec_cached(&self) -> Option<VideoFrame> {
        self.cached
    }

    /// Whether the last rendered frame was mirrored.
    pub closed spec fn spec_mirror(&self) -> bool {
        self.mirror
    }

    /// The camera frame the last rendered frame was rendered from.
    pub closed spec fn spec_source(&self) -> VideoFrame {
        self.source@
    }

    /// The cached frame, if any, carries its source frame's acquisition time
    /// and is that frame rendered at its size and mirroring.
    pub open spec fn renders_its_source(&self) -> bool {
        match self.spec_cached() {
            Some(f) => f.captured_at == self.spec_source().captured_at && f.bgra@
                == rendered_camera(self.spec_source(), f.width, f.height, self.spec_mirror()),
            None => true,
        }
    }

    /// The cached frame was rendered from a frame with this acquisition time
    /// at this size and mirroring.
    pub open spec fn reuses(&self, camera: VideoFrame, width: u32, height: u32, mirror: bool) -> bool {
        self.spec_cached() matches Some(c) && c.captured_at == camera.captured_at && c.width == width
            && c.height == height && self.spec_mirror() == mirror
    }

    /// Renders `camera` at `width` x `height` (resampling treats all four
    /// BGRA channels alike), mirrored if asked; a frame with the same
    /// acquisition time, size and mirroring as the previous call is served
    /// from the cache. The cache is transparent: whenever the frame it was
    /// rendered from shows the same picture as `camera`, as frames with the
    /// same acquisition time do, the result is a fresh render of `camera`.
    pub fn render(&mut self, camera: &VideoFrame, width: u32, height: u32, mirror: bool) -> (r:
        &VideoFrame)
        requires
            camera.width * camera.height * 4 <= camera.bgra@.len(),
            camera.width * height * 4 <= usize::MAX,
            width * height * 4 <= usize::MAX,
        ensures
            old(self).reuses(*camera, width, height, mirror) ==> {
                &&& final(self).spec_cached() == old(self).spec_cached()
                &&& final(self).spec_mirror() == old(self).spec_mirror()
                &&& final(self).spec_source() == old(self).spec_source()
                &&& Some(*r) == old(self).spec_cached()
            },
            !old(self).reuses(*camera, width, height, mirror) ==> {
                &&& r.width == width
                &&& r.height == height
                &&& r.captured_at == camera.captured_at
                &&& r.bgra@ == rendered_camera(*camera, width, height, mirror)
                &&& final(self).spec_cached() == Some(*r)
                &&& final(self).spec_mirror() == mirror
                &&& final(self).spec_source() == *camera
            },
            final(self).spec_source().captured_at == camera.captured_at,
            final(self).renders_its_source(),
            same_picture(final(self).spec_source(), *camera) ==> {
                &&& r.width == width
                &&& r.height == height
                &&& r.captured_at == camera.captured_at
                &&& r.bgra@ == rendered_camera(*camera, width, height, mirror)
            },
    {
        proof {
            use_type_invariant(&*self);
        }
        let reuse = match &self.cached {
            Some(frame) => frame.captured_at == camera.captured_at && frame.width == width
                && frame.height == height && self.mirror == mirror,
            None => false,
        };
        if !reuse {
            let scaled = if camera.width == width && camera.height == height {
                vstd::slice::slice_to_vec(camera.bgra.as_slice())
            } else {
                resize_pixels(camera.bgra.as_slice(), camera.width, camera.height, width, height)
            };
            let bgra = if mirror {
                mirror_pixels(&scaled, width, height)
            } else {
                scaled
            };
            *self = CameraFrameRenderer {
                cached: Some(VideoFrame { width, height, bgra, captured_at: camera.captured_at }),
                mirror,
                source: Ghost(*camera),
            };
        }
        proof {
            use_type_invariant(&*self);
        }
        self.cached.as_ref().unwrap()
    }
}

} // verus!

verus! {

/// One camera pixel covering a screen pixel: byte offsets into the screen
/// and camera buffers and coverage out of 256.
pub type Coverage = (usize, usize, u16);

/// `camera` over `screen` with `alpha`/256 coverage, rounded.
pub open spec fn blend_channel(camera: u8, screen: u8, alpha: u16) -> u8 {
    ((camera * alpha + screen * (256 - alpha) + 128) / 256) as u8
}

/// The screen after blending one covered pixel; its alpha becomes opaque.
pub open spec fn blend_entry(s: Seq<u8>, camera: Seq<u8>, e: Coverage) -> Seq<u8> {
    let (d, c, a) = e;
    s.update(d as int, blend_channel(camera[c as int], s[d as int], a)).update(
        d + 1,
        blend_channel(camera[c + 1], s[d + 1], a),
    ).update(d + 2, blend_channel(camera[c + 2], s[d + 2], a)).update(d + 3, 255)
}

/// The screen after blending the first `k` covered pixels in order.
pub open spec fn blend_all(s: Seq<u8>, camera: Seq<u8>, entries: Seq<Coverage>, k: nat) -> Seq<u8>
    decreases k,
{
    if k == 0 {
        s
    } else {
        blend_entry(blend_all(s, camera, entries, (k - 1) as nat), camera, entries[k - 1])
    }
}

/// A covered pixel lies inside both buffers and its coverage is at most 256.
pub open spec fn coverage_fits(e: Coverage, screen_len: nat, camera_len: nat) -> bool {
    e.0 + 4 <= screen_len && e.1 + 4 <= camera_len && e.2 <= 256
}

proof fn lemma_blend_all_len(s: Seq<u8>, camera: Seq<u8>, entries: Seq<Coverage>, k: nat)
    requires
        k <= entries.len(),
        forall|j: int| 0 <= j < k ==> #[trigger] entries[j].0 + 4 <= s.len(),
    ensures
        blend_all(s, camera, entries, k).len() == s.len(),
    decreases k,
{
    if k > 0 {
        lemma_blend_all_len(s, camera, entries, (k - 1) as nat);
    }
}

fn blend_byte(camera: u8, screen: u8, alpha: u16) -> (r: u8)
    requires
        alpha <= 256,
    ensures
        r == blend_channel(camera, screen, alpha),
{
    assert(camera * alpha + screen * (256 - alpha) + 128 <= 65408) by (nonlinear_arith)
        requires
            camera <= 255,
            screen <= 255,
            alpha <= 256,
    ;
    assert((camera * alpha + screen * (256 - alpha) + 128) / 256 <= 255);
    let x: u16 = camera as u16 * alpha + screen as u16 * (256 - alpha) + 128;
    assert(x >> 8 == x / 256) by (bit_vector);
    (x >> 8) as u8
}

/// Two placement keys hold the same twelve words.
pub open spec fn same_key(a: [u64; 12], b: [u64; 12]) -> bool {
    forall|j: int| 0 <= j < 12 ==> a[j] == b[j]
}

/// Cached circular crop/mirror/edge geometry of the camera overlay, rebuilt
/// only when dimensions or placement change; the geometry is applied to each
/// frame by [`CameraCompositor::blend`].
pub struct CameraCompositor {
    key: Option<[u64; 12]>,
    pixels: Vec<Coverage>,
}

impl Default for CameraCompositor {
    fn default() -> (r: Self)
        ensures
            r.spec_key() is None,
            r.spec_pixels() == Seq::<Coverage>::empty(),
    {
        CameraCompositor { key: None, pixels: Vec::new() }
    }
}

impl CameraCompositor {
    /// The placement key the geometry was built for.
    pub closed spec fn spec_key(&self) -> Option<[u64; 12]> {
        self.key
    }

    /// The covered pixels, in blending order.
    pub closed spec fn spec_pixels(&self) -> Seq<Coverage> {
        self.pixels@
    }

    /// The cached geometry belongs to `key`.
    pub fn is_current(&self, key: &[u64; 12]) -> (r: bool)
        ensures
            r == (self.spec_key() matches Some(k) && same_key(k, *key)),
    {
        match self.key {
            None => false,
            Some(k) => {
                let mut i: usize = 0;
                while i < 12
                    invariant
                        i <= 12,
                        forall|j: int| 0 <= j < i ==> k[j] == key[j],
                        self.key == Some(k),
                    decreases 12 - i,
                {
                    if k[i] != key[i] {
                        return false;
                    }
                    i = i + 1;
                }
                true
            },
        }
    }

    /// Replaces the cached geometry with `pixels`, built for `key`.
    pub fn set_geometry(&mut self, key: [u64; 12], pixels: Vec<Coverage>)
        ensures
            final(self).spec_key() == Some(key),
            final(self).spec_pixels() == pixels@,
    {
        self.key = Some(key);
        self.pixels = pixels;
    }

    /// Blends the camera over the screen at every covered pixel, in order:
    /// full coverage copies the camera pixel, partial coverage mixes it with
    /// the screen; either way the pixel becomes opaque. Geometry that does
    /// not fit these buffers is refused (`false`) and nothing changes.
    pub fn blend(&self, screen: &mut VideoFrame, camera: &VideoFrame) -> (r: bool)
        ensures
            final(screen).width == old(screen).width,
            final(screen).height == old(screen).height,
            final(screen).captured_at == old(screen).captured_at,
            r == forall|k: int|
                0 <= k < self.spec_pixels().len() ==> coverage_fits(
                    #[trigger] self.spec_pixels()[k],
                    old(screen).bgra@.len(),
                    camera.bgra@.len(),
                ),
            r ==> final(screen).bgra@ == blend_all(
                old(screen).bgra@,
                camera.bgra@,
                self.spec_pixels(),
                self.spec_pixels().len(),
            ),
            !r ==> final(screen).bgra@ == old(screen).bgra@,
            r && pixels_apart(self.spec_pixels()) ==> forall|k: int|
                0 <= k < self.spec_pixels().len() ==> mixed_by_coverage(
                    old(screen).bgra@,
                    final(screen).bgra@,
                    camera.bgra@,
                    #[trigger] self.spec_pixels()[k],
                ),
    {
        let n = self.pixels.len();
        let screen_len = screen.bgra.len();
        let camera_len = camera.bgra.len();
        let mut i: usize = 0;
        while i < n
            invariant
                n == self.spec_pixels().len(),
                screen_len == screen.bgra@.len(),
                camera_len == camera.bgra@.len(),
                i <= n,
                forall|k: int|
                    0 <= k < i ==> coverage_fits(
                        #[trigger] self.spec_pixels()[k],
                        screen_len as nat,
                        camera_len as nat,
                    ),
            decreases n - i,
        {
            let (d, c, a) = self.pixels[i];
            if !(d <= screen_len && screen_len - d >= 4 && c <= camera_len && camera_len - c >= 4
                && a <= 256) {
                return false;
            }
            i = i + 1;
        }
        let ghost before_blend = screen.bgra@;
        let mut i: usize = 0;
        while i < n
            invariant
                n == self.spec_pixels().len(),
                screen_len == before_blend.len(),
                camera_len == camera.bgra@.len(),
                i <= n,
                forall|k: int|
                    0 <= k < n ==> coverage_fits(
                        #[trigger] self.spec_pixels()[k],
                        screen_len as nat,
                        camera_len as nat,
                    ),
                screen.bgra@ == blend_all(before_blend, camera.bgra@, self.spec_pixels(), i as nat),
                screen.width == old(screen).width,
                screen.height == old(screen).height,
                screen.captured_at == old(screen).captured_at,
            decreases n - i,
        {
            proof {
                lemma_blend_all_len(before_blend, camera.bgra@, self.spec_pixels(), i as nat);
            }
            let (d, c, a) = self.pixels[i];
            assert(coverage_fits(self.spec_pixels()[i as int], screen_len as nat, camera_len as nat));
            let ghost before = screen.bgra@;
            if a == 256 {
                let b0 = camera.bgra[c];
                let b1 = camera.bgra[c + 1];
                let b2 = camera.bgra[c + 2];
                screen.bgra.set(d, b0);
                screen.bgra.set(d + 1, b1);
                screen.bgra.set(d + 2, b2);
                proof {
                    assert(blend_channel(b0, before[d as int], 256) == b0);
                    assert(blend_channel(b1, before[d + 1], 256) == b1);
                    assert(blend_channel(b2, before[d + 2], 256) == b2);
                }
            } else {
                let v0 = blend_byte(camera.bgra[c], screen.bgra[d], a);
                screen.bgra.set(d, v0);
                let v1 = blend_byte(camera.bgra[c + 1], screen.bgra[d + 1], a);
                screen.bgra.set(d + 1, v1);
                let v2 = blend_byte(camera.bgra[c + 2], screen.bgra[d + 2], a);
                screen.bgra.set(d + 2, v2);
            }
            screen.bgra.set(d + 3, 255);
            proof {
                assert(screen.bgra@ =~= blend_entry(before, camera.bgra@, self.spec_pixels()[i as int]));
            }
            i = i + 1;
        }
        proof {
            if pixels_apart(self.spec_pixels()) {
                assert forall|k: int| 0 <= k < self.spec_pixels().len() implies mixed_by_coverage(
                    before_blend,
                    screen.bgra@,
                    camera.bgra@,
                    #[trigger] self.spec_pixels()[k],
                ) by {
                    lemma_blend_mixes_by_coverage(before_blend, camera.bgra@, self.spec_pixels(), k);
                }
            }
        }
        true
    }
}

/// No two covered pixels share a screen byte.
pub open spec fn pixels_apart(entries: Seq<Coverage>) -> bool {
    forall|j: int, k: int|
        0 <= j < entries.len() && 0 <= k < entries.len() && j != k ==> #[trigger] entries[j].0 + 4
            <= #[trigger] entries[k].0 || entries[k].0 + 4 <= entries[j].0
}

proof fn lemma_blend_all_at(
    s: Seq<u8>,
    camera: Seq<u8>,
    entries: Seq<Coverage>,
    n: nat,
    k: int,
    i: int,
)
    requires
        n <= entries.len(),
        0 <= k < n,
        0 <= i < 4,
        forall|j: int| 0 <= j < entries.len() ==> #[trigger] entries[j].0 + 4 <= s.len(),
        pixels_apart(entries),
    ensures
        blend_all(s, camera, entries, n)[entries[k].0 + i] == if i == 3 {
            255u8
        } else {
            blend_channel(camera[entries[k].1 + i], s[entries[k].0 + i], entries[k].2)
        },
    decreases n,
{
    let d = entries[k].0;
    lemma_blend_all_len(s, camera, entries, (n - 1) as nat);
    if n - 1 == k {
        assert forall|j: int| 0 <= j < k implies !(#[trigger] entries[j].0 <= d + i < entries[j].0
            + 4) by {
            assert(entries[j].0 + 4 <= entries[k].0 || entries[k].0 + 4 <= entries[j].0);
        }
        lemma_blend_touches_only_covered_pixels(s, camera, entries, k as nat, d + i);
    } else {
        lemma_blend_all_at(s, camera, entries, (n - 1) as nat, k, i);
        let e = entries[n - 1];
        assert(e.0 + 4 <= entries[k].0 || entries[k].0 + 4 <= e.0);
    }
}

/// The screen pixel at byte `e.0` of `after` mixes the camera pixel at byte
/// `e.1` into the one of `before` by the coverage `a = e.2` out of 256:
/// each colour byte is `(camera * a + screen * (256 - a) + 128) / 256`, and
/// the pixel is opaque.
pub open spec fn mixed_by_coverage(before: Seq<u8>, after: Seq<u8>, camera: Seq<u8>, e: Coverage) -> bool {
    let (d, c, a) = e;
    &&& after[d as int] == (camera[c as int] * a + before[d as int] * (256 - a) + 128) / 256
    &&& after[d + 1] == (camera[c + 1] * a + before[d + 1] * (256 - a) + 128) / 256
    &&& after[d + 2] == (camera[c + 2] * a + before[d + 2] * (256 - a) + 128) / 256
    &&& after[d + 3] == 255
}

proof fn lemma_mix_fits(cam: u8, scr: u8, a: u16)
    requires
        a <= 256,
    ensures
        blend_channel(cam, scr, a) == (cam * a + scr * (256 - a) + 128) / 256,
{
    assert(0 <= cam * a + scr * (256 - a) + 128 <= 65408) by (nonlinear_arith)
        requires
            cam <= 255,
            scr <= 255,
            a <= 256,
    ;
}

/// Each covered pixel mixes the camera into the screen by its coverage:
/// the camera's weight grows with the coverage (a fully covered pixel shows
/// the camera, an uncovered one the screen), and the pixel becomes opaque.
/// This holds for geometry whose pixels are apart.
pub proof fn lemma_blend_mixes_by_coverage(
    s: Seq<u8>,
    camera: Seq<u8>,
    entries: Seq<Coverage>,
    k: int,
)
    requires
        forall|j: int|
            0 <= j < entries.len() ==> coverage_fits(#[trigger] entries[j], s.len(), camera.len()),
        pixels_apart(entries),
        0 <= k < entries.len(),
    ensures
        mixed_by_coverage(s, blend_all(s, camera, entries, entries.len()), camera, entries[k]),
{
    assert forall|j: int| 0 <= j < entries.len() implies #[trigger] entries[j].0 + 4 <= s.len() by {
        assert(coverage_fits(entries[j], s.len(), camera.len()));
    }
    assert(coverage_fits(entries[k], s.len(), camera.len()));
    let (d, c, a) = entries[k];
    lemma_blend_all_at(s, camera, entries, entries.len(), k, 0);
    lemma_blend_all_at(s, camera, entries, entries.len(), k, 1);
    lemma_blend_all_at(s, camera, entries, entries.len(), k, 2);
    lemma_blend_all_at(s, camera, entries, entries.len(), k, 3);
    lemma_mix_fits(camera[c as int], s[d as int], a);
    lemma_mix_fits(camera[c + 1], s[d + 1], a);
    lemma_mix_fits(camera[c + 2], s[d + 2], a);
}

/// Blending leaves every byte outside the covered pixels unchanged: only
/// the camera circle is drawn, with no square background.
pub proof fn lemma_blend_touches_only_covered_pixels(
    s: Seq<u8>,
    camera: Seq<u8>,
    entries: Seq<Coverage>,
    k: nat,
    i: int,
)
    requires
        k <= entries.len(),
        0 <= i < s.len(),
        forall|j: int| 0 <= j < k ==> #[trigger] entries[j].0 + 4 <= s.len(),
        forall|j: int| 0 <= j < k ==> !(#[trigger] entries[j].0 <= i < entries[j].0 + 4),
    ensures
        blend_all(s, camera, entries, k)[i] == s[i],
    decreases k,
{
    if k > 0 {
        lemma_blend_all_len(s, camera, entries, (k - 1) as nat);
        lemma_blend_touches_only_covered_pixels(s, camera, entries, (k - 1) as nat, i);
        assert(!(entries[k - 1].0 <= i < entries[k - 1].0 + 4));
    }
}

} // verus!

verus! {

/// Every complete 4-byte pixel made opaque; a trailing partial pixel is kept.
pub open spec fn opaque_bytes(s: Seq<u8>) -> Seq<u8> {
    Seq::new(
        s.len(),
        |i: int|
            if i < s.len() / 4 * 4 && i % 4 == 3 {
                255
            } else {
                s[i]
            },
    )
}

/// Every complete RGBA pixel reordered to BGRA and made opaque; a trailing
/// partial pixel is kept.
pub open spec fn rgba_as_opaque_bgra(s: Seq<u8>) -> Seq<u8> {
    Seq::new(
        s.len(),
        |i: int|
            if i < s.len() / 4 * 4 {
                if i % 4 == 0 {
                    s[i + 2]
                } else if i % 4 == 2 {
                    s[i - 2]
                } else if i % 4 == 3 {
                    255
                } else {
                    s[i]
                }
            } else {
                s[i]
            },
    )
}

/// Sets the alpha byte of every pixel to 255 (sources that deliver BGRx).
pub fn make_opaque(bgra: &mut Vec<u8>)
    ensures
        final(bgra)@ == opaque_bytes(old(bgra)@),
{
    let n = bgra.len();
    let pixels = n / 4;
    let mut k: usize = 0;
    while k < pixels
        invariant
            n == old(bgra)@.len(),
            bgra@.len() == n,
            pixels == n / 4,
            k <= pixels,
            forall|j: int|
                0 <= j < k * 4 ==> #[trigger] bgra@[j] == opaque_bytes(old(bgra)@)[j],
            forall|j: int| k * 4 <= j < n ==> #[trigger] bgra@[j] == old(bgra)@[j],
        decreases pixels - k,
    {
        bgra.set(k * 4 + 3, 255);
        k = k + 1;
    }
    proof {
        assert(bgra@ =~= opaque_bytes(old(bgra)@));
    }
}

/// Reorders RGBA pixels to BGRA and makes them opaque (decoded images).
pub fn rgba_to_opaque_bgra(pixels: &mut Vec<u8>)
    ensures
        final(pixels)@ == rgba_as_opaque_bgra(old(pixels)@),
{
    let n = pixels.len();
    let count = n / 4;
    let mut k: usize = 0;
    while k < count
        invariant
            n == old(pixels)@.len(),
            pixels@.len() == n,
            count == n / 4,
            k <= count,
            forall|j: int|
                0 <= j < k * 4 ==> #[trigger] pixels@[j] == rgba_as_opaque_bgra(old(pixels)@)[j],
            forall|j: int| k * 4 <= j < n ==> #[trigger] pixels@[j] == old(pixels)@[j],
        decreases count - k,
    {
        let at = k * 4;
        let red = pixels[at];
        let blue = pixels[at + 2];
        pixels.set(at, blue);
        pixels.set(at + 2, red);
        pixels.set(at + 3, 255);
        k = k + 1;
    }
    proof {
        assert(pixels@ =~= rgba_as_opaque_bgra(old(pixels)@));
    }
}

} // verus!

verus! {

#[verifier::external_type_specification]
#[verifier::external_body]
pub struct ExResizer(fast_image_resize::Resizer);

/// Pixels of a packed 4-channel `width` x `height` image resampled to
/// `new_width` x `new_height` by fast_image_resize's bilinear convolution,
/// without alpha weighting.
pub uninterp spec fn bilinear_rgba(
    pixels: Seq<u8>,
    width: u32,
    height: u32,
    new_width: u32,
    new_height: u32,
) -> Seq<u8>;

/// `fast_image_resize::Resizer::new`: a resizer using the best CPU
/// extensions available. Nothing is claimed of it.
#[verifier::external_body]
fn new_resizer() -> fast_image_resize::Resizer {
    fast_image_resize::Resizer::new()
}

/// `fast_image_resize::Resizer::resize` from a `width` x `height` U8x4 image
/// in `pixels` to a new `new_width` x `new_height` one, bilinear convolution
/// without alpha weighting. Claims: it succeeds (the source buffer is large
/// enough and U8x4 needs no alignment, the only refusals of `ImageRef::new`;
/// the pixel types match and the full-image crop fits, the only refusals of
/// `resize`), and the result is a packed image of the new size determined
/// by the arguments alone (the scalar and SIMD convolutions compute the same
/// integer arithmetic, and the crate's tests require identical output for
/// every CPU extension). The resampling arithmetic itself is not stated.
#[verifier::external_body]
fn bilinear_resize(
    resizer: &mut fast_image_resize::Resizer,
    pixels: &[u8],
    width: u32,
    height: u32,
    new_width: u32,
    new_height: u32,
) -> (r: Vec<u8>)
    requires
        width * height * 4 <= pixels@.len(),
        new_width * new_height * 4 <= usize::MAX,
    ensures
        r@ == bilinear_rgba(pixels@, width, height, new_width, new_height),
        r@.len() == new_width * new_height * 4,
{
    let input = ImageRef::new(width, height, pixels, PixelType::U8x4).unwrap();
    let mut output = Image::new(new_width, new_height, PixelType::U8x4);
    let options = ResizeOptions::new().resize_alg(ResizeAlg::Convolution(FilterType::Bilinear))
        .use_alpha(false);
    resizer.resize(&input, &mut output, &options).unwrap();
    output.into_vec()
}

/// Why a frame could not be scaled.
#[derive(Debug, Clone, Copy, PartialEq, Eq, Structural)]
pub enum ScaleError {
    /// The frame holds fewer bytes than its size needs.
    TruncatedFrame,
}

/// Scales captured frames to the output size, reusing its buffers.
pub struct Scaler {
    resizer: fast_image_resize::Resizer,
}

impl Scaler {
    /// A scaler for this machine's CPU.
    pub fn new() -> Scaler {
        Scaler { resizer: new_resizer() }
    }

    /// `frame` at `width` x `height`: unchanged when it already has that
    /// size, otherwise resampled (all four channels alike) and stamped with
    /// the same acquisition time. A frame shorter than its size is refused.
    pub fn resize(&mut self, frame: VideoFrame, width: u32, height: u32) -> (r: Result<
        VideoFrame,
        ScaleError,
    >)
        requires
            width * height * 4 <= usize::MAX,
        ensures
            frame.width == width && frame.height == height ==> r == Ok::<VideoFrame, ScaleError>(
                frame,
            ),
            !(frame.width == width && frame.height == height) && frame.width * frame.height * 4
                > frame.bgra@.len() ==> r == Err::<VideoFrame, ScaleError>(
                ScaleError::TruncatedFrame,
            ),
            !(frame.width == width && frame.height == height) && frame.width * frame.height * 4
                <= frame.bgra@.len() ==> (r matches Ok(f) && f.width == width && f.height == height
                && f.captured_at == frame.captured_at && f.bgra@ == bilinear_rgba(
                frame.bgra@,
                frame.width,
                frame.height,
                width,
                height,
            )),
    {
        if frame.width == width && frame.height == height {
            return Ok(frame);
        }
        let (w, h) = (frame.width as u128, frame.height as u128);
        assert(w * h * 4 <= 4 * 0xffff_ffff * 0xffff_ffff) by (nonlinear_arith)
            requires
                w <= 0xffff_ffff,
                h <= 0xffff_ffff,
        ;
        if w * h * 4 > frame.bgra.len() as u128 {
            return Err(ScaleError::TruncatedFrame);
        }
        let bgra = bilinear_resize(
            &mut self.resizer,
            frame.bgra.as_slice(),
            frame.width,
            frame.height,
            width,
            height,
        );
        Ok(VideoFrame { width, height, bgra, captured_at: frame.captured_at })
    }
}

} // verus!
