use vstd::prelude::*;
use std::collections::VecDeque;

verus! {

/// Preprocessing of the compressor's envelope detector.
#[derive(Clone, Copy, Debug, PartialEq, Eq, Structural)]
pub enum PeakDetector {
    /// Sliding maximum detector
    Peak,
    /// Sliding RMS detector
    Rms,
}

/// A copy of `frame`, sample for sample.
pub fn copy_frame<T: Copy>(frame: &Vec<T>) -> (r: Vec<T>)
    ensures
        r@ == frame@,
{
    let mut r: Vec<T> = Vec::with_capacity(frame.len());
    let mut i: usize = 0;
    while i < frame.len()
        invariant
            i <= frame.len(),
            r@ == frame@.take(i as int),
        decreases frame.len() - i,
    {
        r.push(frame[i]);
        i += 1;
        proof {
            assert(r@ =~= frame@.take(i as int));
        }
    }
    r
}

/// The stream a delay line emits: `silence` for the first `latency`
/// steps, then the frames that arrived, in order.
pub open spec fn delayed<T>(arrived: Seq<Seq<T>>, silence: Seq<T>, latency: nat, k: int) -> Seq<T> {
    if k < latency { silence } else { arrived[k - latency] }
}

/// When the silence and every arrived frame hold `c` samples, so does
/// every frame the delay line emits.
pub proof fn lemma_delayed_frame_length<T>(
    arrived: Seq<Seq<T>>,
    silence: Seq<T>,
    latency: nat,
    k: int,
    c: nat,
)
    requires
        silence.len() == c,
        forall|i: int| 0 <= i < arrived.len() ==> (#[trigger] arrived[i]).len() == c,
        0 <= k < arrived.len() + latency,
    ensures
        delayed(arrived, silence, latency, k).len() == c,
{
    if k >= latency {
        assert(arrived[k - latency].len() == c);
    }
}

/// FIFO of frames that delays the signal by a fixed number of frames, so
/// that the compressor's gain acts on the samples its detector looked
/// ahead of.
pub struct DelayLine<T> {
    buffer: VecDeque<Vec<T>>,
    latency: usize,
    silence: Ghost<Seq<T>>,
    arrived: Ghost<Seq<Seq<T>>>,
}

impl<T: Copy> DelayLine<T> {
    /// Frames pushed so far, oldest first.
    pub closed spec fn inputs(&self) -> Seq<Seq<T>> {
        self.arrived@
    }

    /// Frame emitted before any pushed frame comes out.
    pub closed spec fn spec_silence(&self) -> Seq<T> {
        self.silence@
    }

    pub closed spec fn spec_latency(&self) -> nat {
        self.latency as nat
    }

    pub closed spec fn wf(&self) -> bool {
        let n = self.arrived@.len() as int;
        &&& self.buffer@.len() == self.latency
        &&& forall|j: int| 0 <= j < self.latency ==> (#[trigger] self.buffer@[j])@
            == delayed(self.arrived@, self.silence@, self.latency as nat, n + j)
    }

    /// A delay line of `latency` frames, filled with `silence`.
    pub fn new(latency: usize, silence: &Vec<T>) -> (r: Self)
        ensures
            r.wf(),
            r.inputs() == Seq::<Seq<T>>::empty(),
            r.spec_silence() == silence@,
            r.spec_latency() == latency,
    {
        let mut buffer: VecDeque<Vec<T>> = VecDeque::with_capacity(latency);
        let mut i: usize = 0;
        while i < latency
            invariant
                i <= latency,
                buffer@.len() == i,
                forall|j: int| 0 <= j < i ==> (#[trigger] buffer@[j])@ == silence@,
            decreases latency - i,
        {
            buffer.push_back(copy_frame(silence));
            i += 1;
        }
        DelayLine { buffer, latency, silence: Ghost(silence@), arrived: Ghost(Seq::empty()) }
    }

    /// Number of frames by which the output lags the input.
    pub fn latency(&self) -> (r: usize)
        ensures
            r == self.spec_latency(),
    {
        self.latency
    }

    /// Pushes `frame` and returns the frame that arrived `latency` steps
    /// earlier (`silence` while there is none).
    pub fn push(&mut self, frame: Vec<T>) -> (r: Vec<T>)
        requires
            old(self).wf(),
        ensures
            final(self).wf(),
            final(self).inputs() == old(self).inputs().push(frame@),
            final(self).spec_silence() == old(self).spec_silence(),
            final(self).spec_latency() == old(self).spec_latency(),
            r@ == delayed(
                final(self).inputs(),
                old(self).spec_silence(),
                old(self).spec_latency(),
                old(self).inputs().len() as int,
            ),
    {
        let ghost n = self.arrived@.len() as int;
        let ghost b0 = self.buffer@;
        proof {
            self.arrived@ = self.arrived@.push(frame@);
        }
        if self.latency == 0 {
            return frame;
        }
        let front = self.buffer.pop_front();
        self.buffer.push_back(frame);
        proof {
            let l = self.latency as int;
            assert(self.buffer@ =~= b0.drop_first().push(frame));
            assert forall|j: int| 0 <= j < self.latency implies (#[trigger] self.buffer@[j])@
                == delayed(self.arrived@, self.silence@, self.latency as nat, n + 1 + j) by {
                if j < l - 1 {
                    assert(self.buffer@[j] == b0[j + 1]);
                }
            }
            assert(b0[0]@ == delayed(self.arrived@, self.silence@, self.latency as nat, n));
        }
        match front {
            Some(f) => f,
            None => Vec::new(),
        }
    }
}

/// Number of output frames written among the first `steps` offered.
pub open spec fn frames_passed(steps: nat, latency: nat) -> nat {
    if steps >= latency { (steps - latency) as nat } else { 0 }
}

/// Number of silent frames that drain a delay of `latency` frames.
pub open spec fn drain_frames(latency: nat) -> nat {
    latency
}

/// Stream length through the compressor: `n` input frames followed by the
/// drain frames give exactly `n` output frames once the first `latency`
/// outputs are dropped.
pub proof fn lemma_output_frames(n: nat, latency: nat)
    ensures
        frames_passed(n + drain_frames(latency), latency) == n,
{
}

/// The `j`-th written frame, emitted at step `j + latency`, is the `j`-th
/// frame that arrived: every input frame comes out, in order.
pub proof fn lemma_written_frame<T>(arrived: Seq<Seq<T>>, silence: Seq<T>, latency: nat, j: int)
    requires
        0 <= j < arrived.len(),
    ensures
        delayed(arrived, silence, latency, j + latency) == arrived[j],
{
}

/// Drops the compressor's first `latency` output frames, which the
/// detector's look-ahead has delayed, and tells how many silent frames
/// drain the delay line at the end of the stream.
pub struct OutputGate {
    latency: usize,
    skipped: usize,
    steps: Ghost<nat>,
}

impl OutputGate {
    /// Output frames offered so far.
    pub closed spec fn spec_steps(&self) -> nat {
        self.steps@
    }

    pub closed spec fn spec_latency(&self) -> nat {
        self.latency as nat
    }

    pub closed spec fn wf(&self) -> bool {
        self.skipped == if self.steps@ < self.latency { self.steps@ } else { self.latency as nat }
    }

    pub fn new(latency: usize) -> (r: Self)
        ensures
            r.wf(),
            r.spec_steps() == 0,
            r.spec_latency() == latency,
    {
        OutputGate { latency, skipped: 0, steps: Ghost(0) }
    }

    /// Offers one output frame; true when it is to be written.
    pub fn pass(&mut self) -> (r: bool)
        requires
            old(self).wf(),
        ensures
            final(self).wf(),
            final(self).spec_steps() == old(self).spec_steps() + 1,
            final(self).spec_latency() == old(self).spec_latency(),
            r == (old(self).spec_steps() >= old(self).spec_latency()),
            frames_passed(final(self).spec_steps(), final(self).spec_latency())
                == frames_passed(old(self).spec_steps(), old(self).spec_latency()) + if r { 1nat } else { 0 },
    {
        proof {
            self.steps@ = self.steps@ + 1;
        }
        if self.skipped < self.latency {
            self.skipped = self.skipped + 1;
            false
        } else {
            true
        }
    }

    /// Number of silent frames to process after the last input frame: one
    /// per frame of latency, so that the last input frame comes out.
    pub fn drain_len(&self) -> (r: usize)
        ensures
            r == drain_frames(self.spec_latency()),
    {
        self.latency
    }
}

/// Decides which frames pre-condition the compressor's detector before the
/// main pass: the first `settling_len + 1` frames of the stream.
pub struct WarmUp {
    settling_len: usize,
    fed: usize,
    done: bool,
    taken: Ghost<nat>,
}

impl WarmUp {
    /// Frames fed to the detector so far.
    pub closed spec fn spec_taken(&self) -> nat {
        self.taken@
    }

    pub closed spec fn spec_settling_len(&self) -> nat {
        self.settling_len as nat
    }

    pub closed spec fn wf(&self) -> bool {
        if self.done {
            self.taken@ == self.settling_len + 1 && self.fed == self.settling_len
        } else {
            self.taken@ == self.fed && self.fed <= self.settling_len
        }
    }

    pub fn new(settling_len: usize) -> (r: Self)
        ensures
            r.wf(),
            r.spec_taken() == 0,
            r.spec_settling_len() == settling_len,
    {
        WarmUp { settling_len, fed: 0, done: false, taken: Ghost(0) }
    }

    /// True when the next frame is to be fed to the detector, which is
    /// then counted; false once `settling_len + 1` frames were fed.
    pub fn feed(&mut self) -> (r: bool)
        requires
            old(self).wf(),
        ensures
            final(self).wf(),
            final(self).spec_settling_len() == old(self).spec_settling_len(),
            r == (old(self).spec_taken() <= old(self).spec_settling_len()),
            final(self).spec_taken() == old(self).spec_taken() + if r { 1nat } else { 0 },
    {
        if self.done {
            return false;
        }
        if self.fed == self.settling_len {
            self.done = true;
        } else {
            self.fed = self.fed + 1;
        }
        proof {
            self.taken@ = self.taken@ + 1;
        }
        true
    }
}

} // verus!
