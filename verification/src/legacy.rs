//! Sample by sample access, kept for callers of the older API.

use vstd::prelude::*;

use crate::error::RawedioError;
use crate::sound::{NextState, Sound, MAX_ROUNDS};

verus! {

/// A single sample or a change of state, as returned by the older sample by
/// sample API.
#[derive(Debug, Copy, Clone, PartialEq, Eq, PartialOrd, Ord, Structural)]
pub enum NextSample {
    /// A sample for one channel. Channels are interleaved. The first sample is
    /// for the first channel and so forth and repeats (e.g. L-R-L-R-L-R).
    Sample(i16),
    /// The number of channels or the sample rate has changed. The next sample
    /// is for the first channel.
    MetadataChanged,
    /// No more samples for now. More might come later.
    Paused,
    /// All samples have been retrieved and no more will come.
    Finished,
}

/// The state a [`NextSample`] reports.
pub open spec fn next_state_of(value: NextSample) -> NextState {
    match value {
        NextSample::Sample(_) => NextState::Playing,
        NextSample::MetadataChanged => NextState::MetadataChanged,
        NextSample::Paused => NextState::Paused,
        NextSample::Finished => NextState::Finished,
    }
}

impl From<NextSample> for NextState {
    fn from(value: NextSample) -> (r: Self)
        ensures
            r == next_state_of(value),
    {
        match value {
            NextSample::Sample(_) => NextState::Playing,
            NextSample::MetadataChanged => NextState::MetadataChanged,
            NextSample::Paused => NextState::Paused,
            NextSample::Finished => NextState::Finished,
        }
    }
}

impl vstd::std_specs::convert::FromSpecImpl<NextSample> for NextState {
    open spec fn obeys_from_spec() -> bool {
        true
    }

    open spec fn from_spec(v: NextSample) -> Self {
        next_state_of(v)
    }
}

/// The [`NextSample`] that reports a state other than `Playing`.
pub open spec fn next_sample_of(state: NextState) -> NextSample {
    match state {
        NextState::Playing => NextSample::Paused,
        NextState::MetadataChanged => NextSample::MetadataChanged,
        NextState::Paused => NextSample::Paused,
        NextState::Finished => NextSample::Finished,
    }
}

/// Converting the sample reported for a state other than `Playing` back to
/// a state gives that state again.
pub proof fn lemma_next_sample_of_round_trip(state: NextState)
    requires
        state != NextState::Playing,
    ensures
        next_state_of(next_sample_of(state)) == state,
{
}

/// Reads a [`Sound`] one sample at a time: a frame is filled into an
/// internal buffer and handed out sample by sample, first channel first. The
/// state reported with the frame is handed out after its samples.
pub struct SampleBySample {
    buffer: Vec<i16>,
    read: usize,
    response: NextState,
}

impl SampleBySample {
    /// The samples of the last frame that have not been handed out yet.
    pub closed spec fn pending(&self) -> Seq<i16> {
        self.buffer@.subrange(self.read as int, self.buffer@.len() as int)
    }

    /// The state to report once the pending samples are handed out.
    pub closed spec fn response(&self) -> NextState {
        self.response
    }

    /// The internal invariant.
    pub closed spec fn wf(&self) -> bool {
        self.read <= self.buffer@.len()
    }

    /// An adapter with no pending samples.
    pub fn new() -> (r: Self)
        ensures
            r.wf(),
            r.pending() == Seq::<i16>::empty(),
            r.response() == NextState::Playing,
    {
        Self { buffer: Vec::new(), read: 0, response: NextState::Playing }
    }

    // Fill one frame of `other` into the buffer.
    fn refill<S: Sound + ?Sized>(&mut self, other: &mut S) -> (r: Result<NextState, RawedioError>)
        requires
            old(self).wf(),
            old(other).wf(),
        ensures
            final(self).wf(),
            final(other).wf(),
            r matches Ok(prev) ==> prev == old(self).response(),
            r is Err ==> final(self).response() == old(self).response(),
            r is Ok ==> final(self).pending().len() <= old(other).spec_channel_count(),
            old(other).next_fill(old(other).spec_channel_count() as usize) matches Some(x)
                ==> final(other).last_fill() == Some(x),
            old(other).infallible() ==> r is Ok && final(other).infallible(),
            (final(other).last_fill() matches Some(rec) && match rec.0 {
                Ok((_, state)) => {
                    &&& r is Ok
                    &&& final(self).pending() == rec.1
                    &&& final(self).response() == state
                },
                Err(e) => r == Err::<NextState, RawedioError>(e),
            }),
    {
        let frame_len = other.channel_count() as usize;
        self.buffer.clear();
        self.buffer.resize(frame_len, 0);
        self.read = 0;
        let filled = other.fill_next_frames(self.buffer.as_mut_slice());
        let (count, next) = match filled {
            Ok(v) => v,
            Err(e) => return Err(e),
        };
        self.buffer.truncate(count);
        proof {
            assert(self.buffer@.subrange(0, self.buffer@.len() as int) =~= self.buffer@);
        }
        let prev = self.response;
        self.response = next;
        Ok(prev)
    }

    /// The next sample of `other`, first channel first, or the state it
    /// reported once the samples before it have been handed out.
    ///
    /// Pending samples and a pending state are handed out without touching
    /// `other`; otherwise frames are filled until one yields a sample or a
    /// state. This gives up with `Paused` after `MAX_ROUNDS` empty frames.
    pub fn next_sample<S: Sound + ?Sized>(&mut self, other: &mut S) -> (r: Result<NextSample, RawedioError>)
        requires
            old(self).wf(),
            old(other).wf(),
        ensures
            final(self).wf(),
            final(other).wf(),
            old(self).pending().len() > 0 ==> {
                &&& r == Ok::<NextSample, RawedioError>(NextSample::Sample(old(self).pending()[0]))
                &&& final(self).pending() == old(self).pending().drop_first()
                &&& final(self).response() == old(self).response()
            },
            old(self).pending().len() == 0 && old(self).response() != NextState::Playing ==> {
                &&& r == Ok::<NextSample, RawedioError>(next_sample_of(old(self).response()))
                &&& final(self).pending().len() == 0
                &&& final(self).response() == NextState::Playing
            },
            old(self).pending().len() == 0 && old(self).response() == NextState::Playing
                ==> (final(other).last_fill() matches Some(rec) && match rec.0 {
                Err(e) => r == Err::<NextSample, RawedioError>(e),
                Ok((_, state)) => match r {
                    Ok(NextSample::Sample(x)) => {
                        &&& rec.1.len() > 0
                        &&& x == rec.1[0]
                        &&& final(self).pending() == rec.1.drop_first()
                        &&& final(self).response() == state
                    },
                    Ok(y) => {
                        ||| (y == NextSample::Paused && final(self).pending() == rec.1 && final(self).response()
                            == state)
                        ||| (state != NextState::Playing && rec.1.len() == 0 && y == next_sample_of(state)
                            && final(self).pending().len() == 0 && final(self).response() == NextState::Playing)
                    },
                    Err(_) => false,
                },
            }),
            old(self).pending().len() == 0 && old(self).response() == NextState::Playing && (old(other).next_fill(
                old(other).spec_channel_count() as usize,
            ) matches Some(x) && x.0 matches Ok((_, state)) && (x.1.len() > 0 || state != NextState::Playing)) ==> {
                let x = old(other).next_fill(old(other).spec_channel_count() as usize).unwrap();
                let state = x.0->Ok_0.1;
                &&& x.1.len() > 0 ==> r == Ok::<NextSample, RawedioError>(NextSample::Sample(x.1[0]))
                    && final(self).pending() == x.1.drop_first() && final(self).response() == state
                &&& x.1.len() == 0 ==> r == Ok::<NextSample, RawedioError>(next_sample_of(state))
            },
    {
        let mut rounds: u64 = 0;
        while rounds < MAX_ROUNDS
            invariant
                self.wf(),
                other.wf(),
                rounds > 0 ==> old(self).pending().len() == 0 && old(self).response() == NextState::Playing,
                rounds == 0 ==> *self == *old(self),
                rounds == 0 ==> other.spec_channel_count() == old(other).spec_channel_count()
                    && other.next_fill(other.spec_channel_count() as usize) == old(other).next_fill(
                    old(other).spec_channel_count() as usize,
                ),
                rounds > 0 ==> (other.last_fill() matches Some(rec) && rec.0 matches Ok((_, st))
                    && self.pending() == rec.1 && self.response() == st),
                rounds == 1 && old(self).pending().len() == 0 && old(self).response() == NextState::Playing
                    && old(other).next_fill(old(other).spec_channel_count() as usize) is Some ==> other.last_fill()
                    == old(other).next_fill(old(other).spec_channel_count() as usize),
                old(self).pending().len() == 0 && old(self).response() == NextState::Playing && (old(other).next_fill(
                    old(other).spec_channel_count() as usize,
                ) matches Some(x) && x.0 matches Ok((_, state)) && (x.1.len() > 0 || state != NextState::Playing))
                    ==> rounds <= 1,
            decreases MAX_ROUNDS - rounds,
        {
            if self.read < self.buffer.len() {
                let s = self.buffer[self.read];
                proof {
                    assert(self.pending()[0] == s);
                }
                self.read = self.read + 1;
                assert(rounds == 0 ==> self.pending() =~= old(self).pending().drop_first());
                return Ok(NextSample::Sample(s));
            }
            let state = self.response;
            self.response = NextState::Playing;
            match state {
                NextState::Playing => {
                    match self.refill(other) {
                        Ok(_) => {},
                        Err(e) => return Err(e),
                    }
                },
                NextState::MetadataChanged => return Ok(NextSample::MetadataChanged),
                NextState::Paused => return Ok(NextSample::Paused),
                NextState::Finished => return Ok(NextSample::Finished),
            }
            rounds = rounds + 1;
        }
        Ok(NextSample::Paused)
    }

    /// Same as `next_frame` but the samples are appended to `samples`. If
    /// anything but a sample is met, what was met is returned and the samples
    /// appended before it stay in `samples`.
    pub fn append_next_frame_to<S: Sound + ?Sized>(&mut self, other: &mut S, samples: &mut Vec<i16>) -> (r: Result<
        (),
        Result<NextSample, RawedioError>,
    >)
        requires
            old(self).wf(),
            old(other).wf(),
        ensures
            final(self).wf(),
            final(other).wf(),
            r is Ok ==> final(samples)@.len() == old(samples)@.len() + old(other).spec_channel_count()
                && final(samples)@.subrange(0, old(samples)@.len() as int) == old(samples)@,
            final(samples)@.len() <= old(samples)@.len() + old(other).spec_channel_count(),
            final(samples)@.subrange(0, old(samples)@.len() as int) == old(samples)@,
            r matches Err(Ok(s)) ==> !(s is Sample),
    {
        let from = samples.len();
        let channel_count = other.channel_count();
        let mut i: u16 = 0;
        while i < channel_count
            invariant
                self.wf(),
                other.wf(),
                i <= channel_count,
                from == old(samples)@.len(),
                channel_count == old(other).spec_channel_count(),
                samples@.len() == from + i,
                samples@.subrange(0, from as int) == old(samples)@,
            decreases channel_count - i,
        {
            let next = self.next_sample(other);
            match next {
                Ok(NextSample::Sample(s)) => {
                    samples.push(s);
                    assert(samples@.subrange(0, from as int) =~= old(samples)@);
                },
                _ => {
                    return Err(next);
                },
            }
            i = i + 1;
        }
        Ok(())
    }

    /// The samples of the next frame of `other`, one per channel. If anything
    /// but a sample is met, what was met is returned and the samples
    /// collected so far are dropped.
    pub fn next_frame<S: Sound + ?Sized>(&mut self, other: &mut S) -> (r: Result<Vec<i16>, Result<NextSample, RawedioError>>)
        requires
            old(self).wf(),
            old(other).wf(),
        ensures
            final(self).wf(),
            final(other).wf(),
            r matches Ok(v) ==> v@.len() == old(other).spec_channel_count(),
            r matches Err(Ok(s)) ==> !(s is Sample),
    {
        let mut samples = Vec::with_capacity(other.channel_count() as usize);
        self.append_next_frame_to(other, &mut samples)?;
        Ok(samples)
    }
}

/// The result of filling a buffer in the older buffer API: each variant but
/// `Continue` carries the number of samples written before it occurred.
#[derive(Debug, Copy, Clone, PartialEq, Eq, PartialOrd, Ord, Structural)]
pub enum NextSampleBuffer {
    /// The buffer was written to, and the sound is continuing to play.
    Continue,
    /// The number of channels or the sample rate has changed.
    MetadataChanged(usize),
    /// No more samples for now. More might come later.
    Paused(usize),
    /// All samples have been retrieved and no more will come.
    Finished(usize),
}

} // verus!
