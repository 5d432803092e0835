use vstd::prelude::*;
use vstd::std_specs::iter::IteratorSpec;

verus! {

/// Position of a channel within an interleaved frame.
#[derive(Clone, Copy, Debug, PartialEq, Eq, Structural)]
pub enum ChannelMap {
    Left,
    Right,
    Center,
    Lfe,
    RearLeft,
    RearRight,
    SideLeft,
    SideRight,
}

impl ChannelMap {
    /// The channel at position `i` of a frame, for the eight positions that
    /// have a name.
    pub fn from_index(i: usize) -> (r: Option<ChannelMap>)
        ensures
            r is Some <==> i < 8,
            i == 0 ==> r == Some(ChannelMap::Left),
            i == 1 ==> r == Some(ChannelMap::Right),
            i == 2 ==> r == Some(ChannelMap::Center),
            i == 3 ==> r == Some(ChannelMap::Lfe),
            i == 4 ==> r == Some(ChannelMap::RearLeft),
            i == 5 ==> r == Some(ChannelMap::RearRight),
            i == 6 ==> r == Some(ChannelMap::SideLeft),
            i == 7 ==> r == Some(ChannelMap::SideRight),
    {
        match i {
            0 => Some(ChannelMap::Left),
            1 => Some(ChannelMap::Right),
            2 => Some(ChannelMap::Center),
            3 => Some(ChannelMap::Lfe),
            4 => Some(ChannelMap::RearLeft),
            5 => Some(ChannelMap::RearRight),
            6 => Some(ChannelMap::SideLeft),
            7 => Some(ChannelMap::SideRight),
            _ => None,
        }
    }

    /// Loudness weight of the channel in hundredths: 1.0 for the front
    /// channels, 0 for the LFE channel, which loudness skips, and 1.41 for
    /// the rear and side channels.
    pub fn weight_hundredths(&self) -> (r: u32)
        ensures
            r == match *self {
                ChannelMap::Left | ChannelMap::Right | ChannelMap::Center => 100u32,
                ChannelMap::Lfe => 0u32,
                _ => 141u32,
            },
    {
        match self {
            ChannelMap::Left | ChannelMap::Right | ChannelMap::Center => 100,
            ChannelMap::Lfe => 0,
            _ => 141,
        }
    }
}

/// True when the first `n` items of a sample stream decoded without error.
pub open spec fn decoded_run<S, E>(items: Seq<Result<S, E>>, n: int) -> bool {
    forall|i: int| 0 <= i < n ==> (#[trigger] items[i]) is Ok
}

/// The sample values carried by a run of successfully decoded items.
pub open spec fn sample_values<S, E>(items: Seq<Result<S, E>>) -> Seq<S> {
    items.map_values(|x: Result<S, E>| x->Ok_0)
}

/// Groups an interleaved stream of decoded samples into frames of one
/// sample per channel. The frame buffer is reused from call to call.
pub struct FrameIterator<S, T> {
    samples: T,
    channels: u16,
    buffer: Vec<S>,
}

impl<S, E, T> FrameIterator<S, T> where T: Iterator<Item = Result<S, E>> {
    /// The underlying sample stream.
    pub closed spec fn source(&self) -> T {
        self.samples
    }

    /// Number of samples in each frame.
    pub closed spec fn spec_channels(&self) -> u16 {
        self.channels
    }

    pub fn new(samples: T, channels: u16) -> (r: Self)
        ensures
            r.source() == samples,
            r.spec_channels() == channels,
    {
        Self { samples, channels, buffer: Vec::with_capacity(channels as usize) }
    }

    /// Reads the next frame. Returns `None` when the stream ends before a
    /// frame is complete, and the stream's error as soon as a sample fails
    /// to decode; the frame is valid until the next call.
    pub fn next(&mut self) -> (r: Option<Result<&Vec<S>, E>>)
        ensures
            final(self).spec_channels() == old(self).spec_channels(),
            old(self).source().obeys_prophetic_iter_laws() ==> {
                let rem = old(self).source().remaining();
                let c = old(self).spec_channels() as int;
                &&& final(self).source().obeys_prophetic_iter_laws()
                &&& (r is Some && r->Some_0 is Ok) <==> (c <= rem.len() && decoded_run(rem, c))
                &&& r is None <==> (rem.len() < c && decoded_run(rem, rem.len() as int))
                &&& match r {
                    Some(Ok(frame)) => {
                        &&& frame@ == sample_values(rem.take(c))
                        &&& final(self).source().remaining() == rem.skip(c)
                    },
                    Some(Err(e)) => exists|k: int|
                        {
                            &&& 0 <= k < c
                            &&& k < rem.len()
                            &&& decoded_run(rem, k)
                            &&& #[trigger] rem[k] == Err::<S, E>(e)
                            &&& final(self).source().remaining() == rem.skip(k + 1)
                        },
                    None => final(self).source().remaining().len() == 0,
                }
            },
    {
        let ghost rem = self.samples.remaining();
        let ghost obeys = self.samples.obeys_prophetic_iter_laws();
        self.buffer.clear();
        let mut i: u16 = 0;
        let mut ended = false;
        let mut failure: Option<E> = None;
        while i < self.channels && !ended && failure.is_none()
            invariant
                i <= self.channels,
                self.channels == old(self).channels,
                self.samples.obeys_prophetic_iter_laws() == obeys,
                obeys ==> {
                    &&& i <= rem.len()
                    &&& decoded_run(rem, i as int)
                    &&& self.buffer@ == sample_values(rem.take(i as int))
                    &&& !ended && failure is None ==> self.samples.remaining() == rem.skip(i as int)
                    &&& ended ==> failure is None && rem.len() == i && i < self.channels
                        && self.samples.remaining().len() == 0
                    &&& failure is Some ==> !ended && i < self.channels && i < rem.len()
                        && rem[i as int] == Err::<S, E>(failure->Some_0)
                        && self.samples.remaining() == rem.skip(i + 1)
                },
            decreases 2 * (self.channels - i) + (if !ended && failure is None { 1int } else { 0 }),
        {
            match self.samples.next() {
                None => {
                    proof {
                        if obeys {
                            assert(rem.skip(i as int).len() == 0);
                        }
                    }
                    ended = true;
                },
                Some(x) => match x {
                    Ok(x) => {
                        self.buffer.push(x);
                        proof {
                            if obeys {
                                assert(rem.take(i + 1) == rem.take(i as int).push(rem[i as int]));
                                assert(rem.skip(i + 1) == rem.skip(i as int).drop_first());
                            }
                        }
                        i += 1;
                    },
                    Err(e) => {
                        proof {
                            if obeys {
                                assert(rem[i as int] == rem.skip(i as int)[0]);
                                assert(rem.skip(i + 1) == rem.skip(i as int).drop_first());
                            }
                        }
                        failure = Some(e);
                    },
                },
            }
        }
        if ended {
            None
        } else {
            match failure {
                Some(e) => Some(Err(e)),
                None => Some(Ok(&self.buffer)),
            }
        }
    }
}

} // verus!
