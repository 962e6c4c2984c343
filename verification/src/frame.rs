//! Per-frame bookkeeping of the renderer: the window of samples uploaded to
//! the GPU, the size of the drawing surface, which pipeline draws a pattern,
//! and the alternation of the two feedback textures.
use vstd::prelude::*;

verus! {

/// How many samples the GPU sample buffer holds.
pub const SAMPLE_COUNT: usize = 1024;

/// How many of the latest samples fit in the sample window.
pub open spec fn window_fill(len: nat) -> nat {
    if len < SAMPLE_COUNT {
        len
    } else {
        SAMPLE_COUNT as nat
    }
}

/// The sample window for `samples`: `SAMPLE_COUNT` values, ending with the
/// latest samples that fit and padded with `fill` before them.
pub open spec fn sample_window_spec<T>(samples: Seq<T>, fill: T) -> Seq<T> {
    Seq::new((SAMPLE_COUNT - window_fill(samples.len())) as nat, |i: int| fill) + samples.skip(
        samples.len() - window_fill(samples.len()),
    )
}

/// The window holds `SAMPLE_COUNT` values; counting from its end, the j-th
/// value is the j-th newest sample while there are samples, and `fill`
/// before them.
pub proof fn law_sample_window_contents<T>(samples: Seq<T>, fill: T)
    ensures
        sample_window_spec(samples, fill).len() == SAMPLE_COUNT,
        forall|j: int|
            0 <= j < SAMPLE_COUNT && j < samples.len() ==> #[trigger] sample_window_spec(
                samples,
                fill,
            )[SAMPLE_COUNT - 1 - j] == samples[samples.len() - 1 - j],
        forall|j: int|
            samples.len() <= j < SAMPLE_COUNT ==> #[trigger] sample_window_spec(samples, fill)[
                SAMPLE_COUNT - 1 - j] == fill,
{
    let w = sample_window_spec(samples, fill);
    let k = window_fill(samples.len());
    let pad = Seq::new((SAMPLE_COUNT - k) as nat, |i: int| fill);
    let tail = samples.skip(samples.len() - k);
    assert(w == pad + tail);
    assert forall|j: int| 0 <= j < SAMPLE_COUNT && j < samples.len() implies #[trigger] w[SAMPLE_COUNT - 1 - j]
        == samples[samples.len() - 1 - j] by {
        assert(w[SAMPLE_COUNT - 1 - j] == tail[k - 1 - j]);
    }
    assert forall|j: int| samples.len() <= j < SAMPLE_COUNT implies #[trigger] w[SAMPLE_COUNT - 1 - j]
        == fill by {
        assert(w[SAMPLE_COUNT - 1 - j] == pad[SAMPLE_COUNT - 1 - j]);
    }
}

/// The sample window uploaded to the GPU: the latest `SAMPLE_COUNT` samples
/// (or all of them, when there are fewer), right-aligned, after `fill`.
pub fn sample_window<T: Copy>(samples: &[T], fill: T) -> (r: Vec<T>)
    ensures
        r@ == sample_window_spec(samples@, fill),
        r@.len() == SAMPLE_COUNT,
{
    let len = samples.len();
    let count = if len < SAMPLE_COUNT {
        len
    } else {
        SAMPLE_COUNT
    };
    let start = len - count;
    let pad = SAMPLE_COUNT - count;
    let mut out: Vec<T> = Vec::new();
    let mut i: usize = 0;
    while i < pad
        invariant
            i <= pad,
            out@ == Seq::new(i as nat, |k: int| fill),
        decreases pad - i,
    {
        out.push(fill);
        assert(out@ =~= Seq::new((i + 1) as nat, |k: int| fill));
        i = i + 1;
    }
    let ghost padding = out@;
    let mut j: usize = start;
    assert(samples@.subrange(start as int, start as int) =~= Seq::<T>::empty());
    assert(padding + Seq::<T>::empty() =~= padding);
    while j < len
        invariant
            start <= j <= len,
            len == samples@.len(),
            out@ == padding + samples@.subrange(start as int, j as int),
        decreases len - j,
    {
        out.push(samples[j]);
        assert(samples@.subrange(start as int, j + 1) =~= samples@.subrange(
            start as int,
            j as int,
        ).push(samples@[j as int]));
        assert(out@ =~= padding + samples@.subrange(start as int, j + 1));
        j = j + 1;
    }
    assert(samples@.subrange(start as int, len as int) =~= samples@.skip(start as int));
    out
}

/// The size of the drawing surface for a window size: each side at least 1.
pub fn surface_extent(width: u32, height: u32) -> (r: (u32, u32))
    ensures
        r.0 == (if width < 1 { 1 } else { width }),
        r.1 == (if height < 1 { 1 } else { height }),
{
    let w = if width < 1 {
        1
    } else {
        width
    };
    let h = if height < 1 {
        1
    } else {
        height
    };
    (w, h)
}

/// The pipeline that draws pattern `mode` among `count` pipelines.
pub fn pipeline_slot(mode: u32, count: usize) -> (r: usize)
    requires
        count > 0,
    ensures
        r == mode as nat % count as nat,
        r < count,
{
    (mode as usize) % count
}

/// The feedback textures of one frame: the previous frame is read from one,
/// and this frame is drawn into the other.
#[derive(Clone, Copy, Debug, PartialEq, Eq, Structural)]
pub struct FeedbackTargets {
    pub read: usize,
    pub write: usize,
}

/// The frame counter and the feedback texture the last frame was drawn into.
#[derive(Clone, Copy, Debug, PartialEq, Eq, Structural)]
pub struct FrameCycle {
    pub frame: usize,
    pub current_feedback: usize,
}

/// The state after one more frame.
pub open spec fn advanced(c: FrameCycle) -> FrameCycle {
    FrameCycle { frame: (c.frame + 1) as usize, current_feedback: (1 - c.current_feedback) as usize }
}

impl FrameCycle {
    /// The feedback index is one of the two textures.
    pub open spec fn wf(&self) -> bool {
        self.current_feedback < 2
    }

    /// No frame drawn yet; texture 0 holds the (empty) previous frame.
    pub fn new() -> (r: Self)
        ensures
            r.wf(),
            r.frame == 0,
            r.current_feedback == 0,
    {
        FrameCycle { frame: 0, current_feedback: 0 }
    }

    /// Starts a frame: counts it, reads the texture the last frame was drawn
    /// into, and draws into the other one, which then holds the latest frame.
    pub fn advance(&mut self) -> (t: FeedbackTargets)
        requires
            old(self).wf(),
            old(self).frame < usize::MAX,
        ensures
            final(self).wf(),
            *final(self) == advanced(*old(self)),
            t.read == old(self).current_feedback,
            t.write == final(self).current_feedback,
    {
        self.frame = self.frame + 1;
        let read = self.current_feedback;
        let write = 1 - self.current_feedback;
        self.current_feedback = write;
        FeedbackTargets { read, write }
    }
}

/// Each frame reads from one texture and draws into the other, and the next
/// frame reads the texture this one drew into; after two frames the roles are
/// back where they started.
pub proof fn law_feedback_alternates(c: FrameCycle)
    requires
        c.wf(),
    ensures
        advanced(c).wf(),
        advanced(c).current_feedback != c.current_feedback,
        advanced(advanced(c)).current_feedback == c.current_feedback,
{
}

} // verus!
