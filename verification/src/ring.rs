//! The buffer between the audio callback and the analyser: the callback
//! appends blocks of samples, keeping only the most recent ones; the analyser
//! takes frames from the front.
use std::collections::VecDeque;
use vstd::prelude::*;

verus! {

/// How many of the most recent samples the buffer keeps.
pub const RING_CAPACITY: usize = 4096;

/// The fewest buffered samples worth analysing.
pub const MIN_ANALYSIS_SAMPLES: usize = 256;

/// How many samples one analysis takes at most.
pub const ANALYSIS_FRAME: usize = 512;

/// The last `n` elements of `s`, or all of them when there are fewer.
pub open spec fn keep_latest<T>(s: Seq<T>, n: nat) -> Seq<T> {
    if s.len() > n {
        s.skip(s.len() - n)
    } else {
        s
    }
}

/// What a frame request takes from buffered samples `s`: nothing when fewer
/// than `MIN_ANALYSIS_SAMPLES` are buffered, otherwise the oldest
/// `min(len, frame_len)` of them.
pub open spec fn frame_len_spec(len: nat, frame_len: nat) -> nat {
    if len < MIN_ANALYSIS_SAMPLES {
        0
    } else if len < frame_len {
        len
    } else {
        frame_len
    }
}

/// Buffered audio samples, oldest first.
pub struct SampleRing<T> {
    samples: VecDeque<T>,
}

impl<T> View for SampleRing<T> {
    type V = Seq<T>;

    closed spec fn view(&self) -> Seq<T> {
        self.samples@
    }
}

/// Appending one element to the latest `n` of a sequence and keeping the
/// latest `n` again is keeping the latest `n` of the extended sequence.
proof fn lemma_keep_latest_push<T>(s: Seq<T>, x: T, n: nat)
    requires
        n > 0,
    ensures
        keep_latest(keep_latest(s, n).push(x), n) == keep_latest(s.push(x), n),
{
    if s.len() > n {
        assert(keep_latest(s, n).push(x).skip(1) =~= s.push(x).skip(s.push(x).len() - n));
    } else if s.len() == n {
        assert(keep_latest(s, n).push(x) == s.push(x));
    } else {
        assert(keep_latest(s, n).push(x) == s.push(x));
    }
}

impl<T: Copy> SampleRing<T> {
    /// At most `RING_CAPACITY` samples are buffered.
    pub open spec fn wf(&self) -> bool {
        self@.len() <= RING_CAPACITY
    }

    /// An empty buffer.
    pub fn new() -> (r: Self)
        ensures
            r@ == Seq::<T>::empty(),
            r.wf(),
    {
        SampleRing { samples: VecDeque::new() }
    }

    /// The number of buffered samples.
    pub fn len(&self) -> (r: usize)
        ensures
            r == self@.len(),
    {
        self.samples.len()
    }

    /// Appends a block of samples, then drops the oldest ones beyond
    /// `RING_CAPACITY`.
    pub fn push_block(&mut self, data: &[T])
        requires
            old(self).wf(),
        ensures
            final(self).wf(),
            final(self)@ == keep_latest(old(self)@ + data@, RING_CAPACITY as nat),
    {
        let ghost start = self@;
        assert(keep_latest(start + data@.take(0), RING_CAPACITY as nat) =~= start);
        let mut i: usize = 0;
        while i < data.len()
            invariant
                i <= data.len(),
                self@.len() <= RING_CAPACITY,
                self@ == keep_latest(start + data@.take(i as int), RING_CAPACITY as nat),
            decreases data.len() - i,
        {
            let ghost before = self@;
            self.samples.push_back(data[i]);
            if self.samples.len() > RING_CAPACITY {
                let dropped = self.samples.pop_front();
                assert(self@ =~= before.push(data@[i as int]).skip(1));
            } else {
                assert(self@ == keep_latest(before.push(data@[i as int]), RING_CAPACITY as nat));
            }
            proof {
                lemma_keep_latest_push(start + data@.take(i as int), data@[i as int], RING_CAPACITY as nat);
                assert(start + data@.take(i + 1) =~= (start + data@.take(i as int)).push(data@[i as int]));
            }
            i = i + 1;
        }
        assert(data@.take(data.len() as int) =~= data@);
    }

    /// Takes the frame to analyse from the front of the buffer: `None`, with
    /// the buffer unchanged, when fewer than `MIN_ANALYSIS_SAMPLES` are
    /// buffered; otherwise the oldest `min(len, frame_len)` samples.
    pub fn take_frame(&mut self, frame_len: usize) -> (r: Option<Vec<T>>)
        requires
            old(self).wf(),
        ensures
            final(self).wf(),
            r is None <==> old(self)@.len() < MIN_ANALYSIS_SAMPLES,
            r matches Some(v) ==> v@ == old(self)@.take(
                frame_len_spec(old(self)@.len(), frame_len as nat) as int,
            ),
            final(self)@ == old(self)@.skip(frame_len_spec(old(self)@.len(), frame_len as nat) as int),
            r matches Some(v) ==> {
                &&& v@.len() == (if old(self)@.len() < frame_len { old(self)@.len() } else { frame_len as nat })
                &&& v@ == old(self)@.take(v@.len() as int)
                &&& final(self)@ == old(self)@.skip(v@.len() as int)
            },
            r is None ==> final(self)@ == old(self)@,
    {
        let len = self.samples.len();
        if len < MIN_ANALYSIS_SAMPLES {
            assert(self@.skip(0) =~= self@);
            return None;
        }
        let take = if len < frame_len {
            len
        } else {
            frame_len
        };
        let ghost start = self@;
        let mut out: Vec<T> = Vec::new();
        let mut i: usize = 0;
        assert(start.skip(0) =~= start);
        while i < take
            invariant
                take <= start.len(),
                i <= take,
                out@ == start.take(i as int),
                self@ == start.skip(i as int),
            decreases take - i,
        {
            let front = self.samples.pop_front();
            match front {
                Some(x) => {
                    out.push(x);
                },
                None => {},
            }
            assert(out@ =~= start.take(i + 1));
            assert(self@ =~= start.skip(i + 1));
            i = i + 1;
        }
        Some(out)
    }
}

/// While the buffer has room, appending drops nothing: the buffer holds what
/// it held, then the new block.
pub proof fn law_no_loss_below_capacity<T>(s: Seq<T>, data: Seq<T>)
    requires
        s.len() + data.len() <= RING_CAPACITY,
    ensures
        keep_latest(s + data, RING_CAPACITY as nat) == s + data,
{
}

/// Past its capacity, the buffer holds exactly the `RING_CAPACITY` newest
/// samples, ending with the block just appended.
pub proof fn law_overflow_keeps_newest<T>(s: Seq<T>, data: Seq<T>)
    requires
        s.len() + data.len() > RING_CAPACITY,
        data.len() <= RING_CAPACITY,
    ensures
        keep_latest(s + data, RING_CAPACITY as nat).len() == RING_CAPACITY,
        keep_latest(s + data, RING_CAPACITY as nat).skip(RING_CAPACITY - data.len()) == data,
{
    assert(keep_latest(s + data, RING_CAPACITY as nat).skip(RING_CAPACITY - data.len()) =~= data);
}

/// Taking a frame loses nothing: the frame, followed by what stays buffered,
/// is what was buffered.
pub proof fn law_frame_then_rest<T>(s: Seq<T>, frame_len: nat)
    requires
        s.len() <= RING_CAPACITY,
    ensures
        s.take(frame_len_spec(s.len(), frame_len) as int) + s.skip(
            frame_len_spec(s.len(), frame_len) as int,
        ) == s,
        frame_len_spec(s.len(), frame_len) <= s.len(),
{
    assert(s.take(frame_len_spec(s.len(), frame_len) as int) + s.skip(
        frame_len_spec(s.len(), frame_len) as int,
    ) =~= s);
}

/// A frame is never longer than asked, takes all that is asked when that
/// many samples are buffered, takes everything buffered when fewer are, and
/// takes nothing below the analysis threshold.
pub proof fn law_frame_length(len: nat, frame_len: nat)
    ensures
        len < MIN_ANALYSIS_SAMPLES ==> frame_len_spec(len, frame_len) == 0,
        len >= MIN_ANALYSIS_SAMPLES ==> frame_len_spec(len, frame_len) <= frame_len,
        len >= MIN_ANALYSIS_SAMPLES ==> frame_len_spec(len, frame_len) <= len,
        len >= MIN_ANALYSIS_SAMPLES && len >= frame_len ==> frame_len_spec(len, frame_len)
            == frame_len,
        len >= MIN_ANALYSIS_SAMPLES && len < frame_len ==> frame_len_spec(len, frame_len) == len,
{
}

/// Keeping the latest `n` keeps `min(len, n)` elements, and, counting from
/// the end, the j-th kept element is the j-th newest one.
pub proof fn law_keep_latest_is_newest<T>(s: Seq<T>, n: nat)
    ensures
        keep_latest(s, n).len() == (if s.len() < n { s.len() } else { n }),
        forall|j: int|
            0 <= j < keep_latest(s, n).len() ==> #[trigger] keep_latest(s, n)[keep_latest(s, n).len()
                - 1 - j] == s[s.len() - 1 - j],
{
}

} // verus!
