//! The [`Sound`] trait and the state it reports.

use vstd::prelude::*;

use crate::error::RawedioError;
use crate::legacy::NextSampleBuffer;
use crate::sources::{complete_read, frame_lens, read_outcome, read_result, MemorySound};
use crate::wrappers::{num_frames_ok, FinishAfter, Pausable, SetPaused, Stoppable};
use crate::utils::{convert_num_frames, duration_micros, duration_to_num_frames, frames_at_same_time, MICROS_PER_SEC};
use std::time::Duration;

verus! {

/// The result of [`Sound::fill_next_frames`]
#[derive(Debug, Copy, Clone, PartialEq, Eq, PartialOrd, Ord, Structural)]
pub enum NextState {
    /// The sound is continuing to play.
    Playing,
    /// The number of channels or the sample rate has changed. The samples
    /// written to the buffer are the remaining samples for the previous
    /// metadata. Future calls should adjust their destination buffer for the
    /// new format.
    MetadataChanged,
    /// The sound is pausing playback, no new samples will be returned until
    /// the sound starts playback again. The samples written to the buffer are
    /// the remaining samples before the sound paused.
    Paused,
    /// The sound has finished playback and will never resume playback.
    Finished,
}

/// The result type of [`Sound::fill_next_frames`].
pub type FillResult = Result<(usize, NextState), RawedioError>;

/// `Ok((count, state))` as a spec value.
pub open spec fn filled(count: int, state: NextState) -> FillResult {
    Ok((count as usize, state))
}

/// What one call of [`Sound::fill_next_frames`] gave: its result and the
/// samples it wrote (none for an error).
pub type FillRecord = (FillResult, Seq<i16>);

/// One entry of a sound's log of fills: what the fill gave, and the channel
/// count and sample rate the sound had after it.
pub type FillEntry = (FillRecord, u16, u32);

/// The samples of `buffer` that the result `r` reports as written.
pub open spec fn written_by(r: FillResult, buffer: Seq<i16>) -> Seq<i16> {
    match r {
        Ok((n, _)) => buffer.take(n as int),
        Err(_) => Seq::empty(),
    }
}

/// The record of a call that returned `r` and left `buffer` behind.
pub open spec fn fill_record(r: FillResult, buffer: Seq<i16>) -> FillRecord {
    (r, written_by(r, buffer))
}

/// The result of the buffer interface for a fill that returned `r`:
/// `Playing` becomes `Continue`, any other state carries the count of
/// samples written, and an error stays the error.
pub open spec fn next_buffer_of(r: FillResult) -> Result<NextSampleBuffer, RawedioError> {
    match r {
        Ok((_, NextState::Playing)) => Ok(NextSampleBuffer::Continue),
        Ok((n, NextState::MetadataChanged)) => Ok(NextSampleBuffer::MetadataChanged(n)),
        Ok((n, NextState::Paused)) => Ok(NextSampleBuffer::Paused(n)),
        Ok((n, NextState::Finished)) => Ok(NextSampleBuffer::Finished(n)),
        Err(e) => Err(e),
    }
}

/// Turn the result of a fill into the result of the buffer interface, as
/// [`next_buffer_of`] says.
pub fn next_buffer_from(r: FillResult) -> (b: Result<NextSampleBuffer, RawedioError>)
    ensures
        b == next_buffer_of(r),
{
    match r {
        Ok((_, NextState::Playing)) => Ok(NextSampleBuffer::Continue),
        Ok((count, NextState::MetadataChanged)) => Ok(NextSampleBuffer::MetadataChanged(count)),
        Ok((count, NextState::Paused)) => Ok(NextSampleBuffer::Paused(count)),
        Ok((count, NextState::Finished)) => Ok(NextSampleBuffer::Finished(count)),
        Err(e) => Err(e),
    }
}

/// What [`SoundExt::skip`] does after the sound filled one frame and
/// reported a state other than an error.
#[derive(Debug, Copy, Clone, PartialEq, Eq, Structural)]
pub enum SkipStep {
    /// Go on with this many frames still to skip, at this channel count and
    /// sample rate.
    Continue(usize, u16, u32),
    /// The sound paused or finished: stop and report that not all was
    /// skipped.
    Stop,
    /// The format changed and the frames left cannot be converted: the old
    /// sample rate is zero, or the result does not fit.
    FormatError,
}

/// The step of [`SoundExt::skip`] with `remaining` frames left at
/// `channel_count` channels and `sample_rate`, after the sound reported
/// `state` and now has `new_channel_count` channels at `new_sample_rate`:
/// a played frame counts down, a change of format rescales the frames left
/// to the new sample rate, and a pause or the end stops.
pub open spec fn skip_step_spec(
    remaining: usize,
    channel_count: u16,
    sample_rate: u32,
    state: NextState,
    new_channel_count: u16,
    new_sample_rate: u32,
) -> SkipStep {
    match state {
        NextState::Playing => SkipStep::Continue((remaining - 1) as usize, channel_count, sample_rate),
        NextState::MetadataChanged => if new_channel_count == channel_count && new_sample_rate == sample_rate {
            SkipStep::Continue(remaining, channel_count, sample_rate)
        } else if sample_rate == 0 || remaining * new_sample_rate > usize::MAX {
            SkipStep::FormatError
        } else {
            SkipStep::Continue(
                frames_at_same_time(remaining as int, sample_rate as int, new_sample_rate as int) as usize,
                new_channel_count,
                new_sample_rate,
            )
        },
        NextState::Paused => SkipStep::Stop,
        NextState::Finished => SkipStep::Stop,
    }
}

/// The step of [`SoundExt::skip`], as [`skip_step_spec`] says.
pub fn skip_step(
    remaining: usize,
    channel_count: u16,
    sample_rate: u32,
    state: NextState,
    new_channel_count: u16,
    new_sample_rate: u32,
) -> (r: SkipStep)
    requires
        remaining > 0,
    ensures
        r == skip_step_spec(remaining, channel_count, sample_rate, state, new_channel_count, new_sample_rate),
{
    match state {
        NextState::Playing => SkipStep::Continue(remaining - 1, channel_count, sample_rate),
        NextState::MetadataChanged => {
            if new_channel_count == channel_count && new_sample_rate == sample_rate {
                SkipStep::Continue(remaining, channel_count, sample_rate)
            } else if sample_rate == 0 {
                SkipStep::FormatError
            } else {
                match remaining.checked_mul(new_sample_rate as usize) {
                    None => SkipStep::FormatError,
                    Some(_) => SkipStep::Continue(
                        convert_num_frames(remaining, sample_rate as usize, new_sample_rate as usize),
                        new_channel_count,
                        new_sample_rate,
                    ),
                }
            }
        },
        NextState::Paused => SkipStep::Stop,
        NextState::Finished => SkipStep::Stop,
    }
}

/// Whether `r` is what [`SoundExt::skip`] returns when its last step was
/// `step`.
pub open spec fn skip_ends(step: SkipStep, r: Result<bool, RawedioError>) -> bool {
    match step {
        SkipStep::Continue(left, _, _) => r == Ok::<bool, RawedioError>(left == 0),
        SkipStep::Stop => r == Ok::<bool, RawedioError>(false),
        SkipStep::FormatError => r matches Err(RawedioError::FormatError(_)),
    }
}

/// Where [`SoundExt::skip`] stands after the fills `fills`, starting with
/// `initial` frames to skip at `channel_count` channels and `sample_rate`:
/// each fill made while frames are left takes one step of
/// [`skip_step_spec`]; `None` once a fill failed.
pub open spec fn skip_walk(fills: Seq<FillEntry>, initial: usize, channel_count: u16, sample_rate: u32) -> Option<SkipStep>
    decreases fills.len(),
{
    if fills.len() == 0 {
        Some(SkipStep::Continue(initial, channel_count, sample_rate))
    } else {
        match skip_walk(fills.drop_last(), initial, channel_count, sample_rate) {
            Some(SkipStep::Continue(left, cc, sr)) => if left == 0 {
                Some(SkipStep::Continue(left, cc, sr))
            } else {
                match fills.last().0.0 {
                    Ok((_, state)) => Some(skip_step_spec(left, cc, sr, state, fills.last().1, fills.last().2)),
                    Err(_) => None,
                }
            },
            other => other,
        }
    }
}

/// Whether every fill of `fills` was made while [`SoundExt::skip`] still
/// had frames to skip.
pub open spec fn skip_went_on(fills: Seq<FillEntry>, initial: usize, channel_count: u16, sample_rate: u32) -> bool {
    forall|k: int|
        0 <= k < fills.len() ==> (#[trigger] skip_walk(fills.take(k), initial, channel_count, sample_rate) matches Some(
            SkipStep::Continue(left, _, _),
        ) && left > 0)
}

/// A buffer of `i16` samples can hold at most `isize::MAX / 2` samples, since
/// no Rust object is larger than `isize::MAX` bytes.
pub open spec fn buffer_len_ok(len: nat) -> bool {
    len <= isize::MAX / 2
}

/// The most rounds a loop that waits for a sound to reach some state runs;
/// at one round per nanosecond it would take centuries to reach.
pub const MAX_ROUNDS: u64 = 0xffff_ffff_ffff_ffff;

/// The samples of `buf` at and after `from` are those of `orig`.
pub open spec fn unchanged_from(buf: Seq<i16>, orig: Seq<i16>, from: int) -> bool {
    &&& buf.len() == orig.len()
    &&& forall|i: int| from <= i < buf.len() ==> #[trigger] buf[i] == orig[i]
}

/// A provider of audio samples.
///
/// This is the foundational trait of this crate. Sounds can be wrapped to
/// modify the inner sound, often by using helper functions of this trait
/// (e.g. [pausable][Sound::pausable]).
pub trait Sound: Send {
    /// The internal invariant of the sound.
    spec fn wf(&self) -> bool;

    /// The value `channel_count` returns.
    spec fn spec_channel_count(&self) -> u16;

    /// The value `sample_rate` returns.
    spec fn spec_sample_rate(&self) -> u32;

    /// Whether, from this state on, `fill_next_frames` never returns an
    /// error. Where it is false nothing is promised either way.
    open spec fn infallible(&self) -> bool {
        false
    }

    /// Whether, from this state on, the channel count and sample rate never
    /// change. Where it is false nothing is promised either way.
    open spec fn fixed_format(&self) -> bool {
        false
    }

    /// What the latest call of `fill_next_frames` gave; `None` before the
    /// first call.
    open spec fn last_fill(&self) -> Option<FillRecord> {
        None
    }

    /// What a call of `fill_next_frames` with a buffer of `len` samples
    /// gives from this state, where the state alone decides it; `None` where
    /// nothing is promised.
    open spec fn next_fill(&self, len: usize) -> Option<FillRecord> {
        None
    }

    /// Every call of `fill_next_frames` made so far, oldest first.
    open spec fn fill_log(&self) -> Seq<FillEntry> {
        Seq::empty()
    }

    /// What successive calls of `fill_next_frames` with buffers of the
    /// lengths `lens` give from this state, each with the channel count and
    /// sample rate the sound has after it, where the state alone decides
    /// them; `None` where nothing is promised.
    open spec fn fills_ahead(&self, lens: Seq<usize>) -> Option<Seq<FillEntry>> {
        None
    }

    /// Returns the number of channels.
    fn channel_count(&self) -> (r: u16)
        ensures
            r == self.spec_channel_count(),
    ;

    /// Returns the number of samples per second for each channel for this
    /// sound (e.g. 48,000).
    fn sample_rate(&self) -> (r: u32)
        ensures
            r == self.spec_sample_rate(),
    ;

    /// Called whenever a new batch of audio samples is requested by the
    /// backend. It fills nothing, and changes neither the format of the
    /// sound nor what the sound promises its next fills give.
    ///
    /// This is a good place to put code that needs to run fairly frequently,
    /// but not for every single audio sample.
    fn on_start_of_batch(&mut self)
        requires
            old(self).wf(),
        ensures
            final(self).wf(),
            old(self).infallible() ==> final(self).infallible(),
            old(self).fixed_format() ==> {
                &&& final(self).fixed_format()
                &&& final(self).spec_channel_count() == old(self).spec_channel_count()
                &&& final(self).spec_sample_rate() == old(self).spec_sample_rate()
            },
            final(self).fixed_format() == old(self).fixed_format(),
            final(self).spec_channel_count() == old(self).spec_channel_count(),
            final(self).spec_sample_rate() == old(self).spec_sample_rate(),
            final(self).last_fill() == old(self).last_fill(),
            final(self).fill_log() == old(self).fill_log(),
            forall|len: usize| #[trigger] final(self).next_fill(len) == old(self).next_fill(len),
            forall|lens: Seq<usize>| #[trigger] final(self).fills_ahead(lens) == old(self).fills_ahead(lens),
    {
    }

    /// Fill the given buffer with the next samples, until the next
    /// notification. Return the number of samples written and the state.
    ///
    /// Samples for each channel are interleaved, and the first sample is
    /// always for the first channel. The buffer keeps its length and at most
    /// its length is reported as written.
    fn fill_next_frames(&mut self, buffer: &mut [i16]) -> (r: FillResult)
        requires
            old(self).wf(),
            buffer_len_ok(old(buffer)@.len()),
        ensures
            final(self).wf(),
            final(buffer)@.len() == old(buffer)@.len(),
            r matches Ok((n, _)) ==> n <= old(buffer)@.len(),
            old(self).infallible() ==> r is Ok && final(self).infallible(),
            old(self).fixed_format() ==> {
                &&& final(self).fixed_format()
                &&& final(self).spec_channel_count() == old(self).spec_channel_count()
                &&& final(self).spec_sample_rate() == old(self).spec_sample_rate()
            },
            final(self).last_fill() == Some(fill_record(r, final(buffer)@)),
            old(self).next_fill(old(buffer)@.len() as usize) matches Some(rec) ==> fill_record(r, final(buffer)@) == rec,
            forall|rest: Seq<usize>|
                #[trigger] old(self).fills_ahead(seq![old(buffer)@.len() as usize] + rest) matches Some(recs) ==> {
                    &&& recs.len() > 0
                    &&& recs[0] == (
                        fill_record(r, final(buffer)@),
                        final(self).spec_channel_count(),
                        final(self).spec_sample_rate(),
                    )
                    &&& final(self).fills_ahead(rest) == Some(recs.drop_first())
                },
            final(self).fill_log() == old(self).fill_log().push(
                (fill_record(r, final(buffer)@), final(self).spec_channel_count(), final(self).spec_sample_rate()),
            ),
    ;
}

/// Builders that wrap a sound, available on every [`Sound`].
pub trait SoundExt: Sound + Sized {
    /// Read the entire sound into memory. `MemorySound` can be cloned for
    /// efficient reuse. See [`MemorySound::from_sound`].
    fn into_memory_sound(self) -> (r: Result<MemorySound, RawedioError>)
        requires
            self.wf(),
            buffer_len_ok(self.spec_channel_count() as nat),
        ensures
            r matches Ok(m) ==> {
                &&& m.wf()
                &&& m.spec_channel_count() == self.spec_channel_count()
                &&& m.spec_sample_rate() == self.spec_sample_rate()
                &&& m.position() == 0
                &&& !m.is_looping()
            },
            self.infallible() && self.fixed_format() ==> r is Ok,
            read_result(self, r),
    {
        MemorySound::from_sound(self)
    }

    /// Read the entire sound into memory and loop indefinitely.
    fn loop_from_memory(self) -> (r: Result<MemorySound, RawedioError>)
        requires
            self.wf(),
            buffer_len_ok(self.spec_channel_count() as nat),
        ensures
            r matches Ok(m) ==> {
                &&& m.wf()
                &&& m.spec_channel_count() == self.spec_channel_count()
                &&& m.spec_sample_rate() == self.spec_sample_rate()
                &&& m.position() == 0
                &&& m.is_looping()
            },
            self.infallible() && self.fixed_format() ==> r is Ok,
            read_result(self, r),
    {
        let ghost me = self;
        let read = MemorySound::from_sound(self);
        match read {
            Ok(mut to_return) => {
                to_return.set_looping(true);
                proof {
                    let fills = choose|fills: Seq<FillEntry>|
                        {
                            &&& #[trigger] complete_read(fills, me.spec_channel_count(), me.spec_sample_rate())
                            &&& (me.next_fill(me.spec_channel_count() as usize) matches Some(rec) ==> fills[0].0 == rec)
                            &&& forall|k: nat|
                                #[trigger] me.fills_ahead(frame_lens(me.spec_channel_count(), k)) matches Some(recs)
                                    ==> forall|i: int| 0 <= i < k && i < fills.len() ==> fills[i] == recs[i]
                            &&& read_outcome(fills, me.spec_channel_count(), me.spec_sample_rate(), read)
                        };
                    assert(read_outcome(fills, me.spec_channel_count(), me.spec_sample_rate(), Ok::<MemorySound, RawedioError>(to_return)));
                    assert(complete_read(fills, me.spec_channel_count(), me.spec_sample_rate()));
                }
                Ok(to_return)
            },
            Err(e) => Err(e),
        }
    }

    /// Allow for the sound to be pausable with `set_paused`. Starts unpaused.
    fn pausable(self) -> (r: Pausable<Self>)
        ensures
            r.wrapped() == self,
            !r.is_paused(),
    {
        Pausable::new(self)
    }

    /// Allow for the sound to be pausable with `set_paused`. Starts paused.
    fn paused(self) -> (r: Pausable<Self>)
        ensures
            r.wrapped() == self,
            r.is_paused(),
    {
        let mut to_return = Pausable::new(self);
        to_return.set_paused(true);
        to_return
    }

    /// Play the first `duration` of the sound, then finish even if samples
    /// remain. See [`FinishAfter`].
    fn finish_after(self, duration: Duration) -> (r: FinishAfter<Self>)
        requires
            self.wf(),
            num_frames_ok(duration, self.spec_sample_rate() as int),
        ensures
            r.wf(),
            r.wrapped() == self,
            r.total_duration() == duration,
            r.frames_remaining() == crate::wrappers::frames_in(
                duration_micros(duration) as int,
                self.spec_sample_rate() as int,
            ),
    {
        FinishAfter::new(self, duration)
    }

    /// Allow for the sound to be stoppable with `set_stopped`.
    /// A stopped sound returns `Finished`.
    fn stoppable(self) -> (r: Stoppable<Self>)
        ensures
            r.wrapped() == self,
            !r.is_stopped(),
    {
        Stoppable::new(self)
    }

    /// Fill `buffer` and report the result as a [`NextSampleBuffer`]: while
    /// the sound keeps playing `Continue`, otherwise the state with the
    /// number of samples written before it.
    fn next_samples_for(&mut self, buffer: &mut [i16]) -> (r: Result<NextSampleBuffer, RawedioError>)
        requires
            old(self).wf(),
            buffer_len_ok(old(buffer)@.len()),
        ensures
            final(self).wf(),
            final(buffer)@.len() == old(buffer)@.len(),
            r matches Ok(NextSampleBuffer::MetadataChanged(n)) ==> n <= old(buffer)@.len(),
            r matches Ok(NextSampleBuffer::Paused(n)) ==> n <= old(buffer)@.len(),
            r matches Ok(NextSampleBuffer::Finished(n)) ==> n <= old(buffer)@.len(),
            old(self).infallible() ==> r is Ok && final(self).infallible(),
            final(self).last_fill() matches Some(rec) && r == next_buffer_of(rec.0),
            final(self).last_fill() matches Some(rec) && rec.1 == written_by(rec.0, final(buffer)@),
            final(self).last_fill() matches Some(rec) && (rec.0 matches Ok((n, _)) ==> n <= old(buffer)@.len()),
            old(self).next_fill(old(buffer)@.len() as usize) matches Some(x) ==> r == next_buffer_of(x.0),
    {
        let filled = self.fill_next_frames(buffer);
        next_buffer_from(filled)
    }

    /// Returns the next sample for all channels. Must only be called at the
    /// start of a frame.
    ///
    /// If an error, `Paused`, `Finished`, or `MetadataChanged` is met while
    /// collecting the samples, it is returned in `Err` and the samples
    /// collected so far are lost.
    fn next_frame(&mut self) -> (r: Result<Vec<i16>, Result<NextSampleBuffer, RawedioError>>)
        requires
            old(self).wf(),
        ensures
            final(self).wf(),
            r matches Ok(v) ==> v@.len() == old(self).spec_channel_count(),
            r matches Err(Ok(b)) ==> b != NextSampleBuffer::Continue,
            r matches Ok(v) ==> (final(self).last_fill() matches Some(rec) && rec.0 matches Ok((n, NextState::Playing))
                && v@.take(n as int) == rec.1),
            r matches Err(e) ==> (final(self).last_fill() matches Some(rec) && e == next_buffer_of(rec.0)),
            old(self).next_fill(old(self).spec_channel_count() as usize) matches Some(x) ==> (r is Ok <==> x.0 matches Ok(
                (_, NextState::Playing),
            )),
    {
        let mut samples = Vec::with_capacity(self.channel_count() as usize);
        match self.append_next_frame_to(&mut samples) {
            Ok(()) => {
                assert(samples@.take(0) =~= Seq::<i16>::empty());
                Ok(samples)
            },
            Err(e) => Err(e),
        }
    }

    /// Same as `next_frame` but the samples are appended to an existing
    /// `Vec`; the samples already there are left unmodified. If anything but
    /// a whole frame comes, `samples` is left as it was.
    fn append_next_frame_to(&mut self, samples: &mut Vec<i16>) -> (r: Result<(), Result<NextSampleBuffer, RawedioError>>)
        requires
            old(self).wf(),
            old(samples)@.len() + old(self).spec_channel_count() <= isize::MAX / 2,
        ensures
            final(self).wf(),
            r is Ok ==> final(samples)@.len() == old(samples)@.len() + old(self).spec_channel_count(),
            final(samples)@.subrange(0, old(samples)@.len() as int) == old(samples)@,
            r is Err ==> final(samples)@ == old(samples)@,
            r matches Err(Ok(b)) ==> b != NextSampleBuffer::Continue,
            r is Ok ==> (final(self).last_fill() matches Some(rec) && rec.0 matches Ok((n, NextState::Playing))
                && final(samples)@.take(old(samples)@.len() + n) == old(samples)@ + rec.1),
            r matches Err(e) ==> (final(self).last_fill() matches Some(rec) && e == next_buffer_of(rec.0)),
            old(self).next_fill(old(self).spec_channel_count() as usize) matches Some(x) ==> (r is Ok <==> x.0 matches Ok(
                (_, NextState::Playing),
            )),
    {
        let from = samples.len();
        let channel_count = self.channel_count() as usize;
        samples.resize(from + channel_count, 0);
        let (_head, tail) = samples.as_mut_slice().split_at_mut(from);
        let next = self.next_samples_for(tail);
        proof {
            assert(samples@.subrange(from as int, from + channel_count) =~= tail@);
        }
        match next {
            Ok(NextSampleBuffer::Continue) => {
                assert(samples@.subrange(0, from as int) =~= old(samples)@);
                proof {
                    let rec = self.last_fill().unwrap();
                    if let Ok((n, _)) = rec.0 {
                        assert(samples@.take(from + n) =~= old(samples)@ + samples@.subrange(from as int, from + channel_count).take(n as int));
                    }
                }
                Ok(())
            },
            _ => {
                samples.truncate(from);
                assert(samples@ =~= old(samples)@);
                Err(next)
            },
        }
    }

    /// Skip the next `duration` of samples by filling one frame after the
    /// other.
    ///
    /// Returns true if all samples were skipped, false if a `Paused` or
    /// `Finished` was met first. `MetadataChanged` is handled by converting
    /// the frames still to skip to the new sample rate; where that cannot be
    /// computed (the old sample rate is zero, or the result does not fit) an
    /// error is returned. After `MAX_ROUNDS` frames this gives up and returns
    /// false. A sound that never fails and keeps its format is skipped
    /// without error.
    fn skip(&mut self, duration: Duration) -> (r: Result<bool, RawedioError>)
        requires
            old(self).wf(),
            duration_micros(duration) <= usize::MAX,
            duration_micros(duration) * old(self).spec_sample_rate() <= usize::MAX,
        ensures
            final(self).wf(),
            frames_at_same_time(
                duration_micros(duration) as int,
                MICROS_PER_SEC as int,
                old(self).spec_sample_rate() as int,
            ) == 0 ==> r == Ok::<bool, RawedioError>(true) && *final(self) == *old(self),
            old(self).infallible() && old(self).fixed_format() ==> r is Ok,
            final(self).fill_log().take(old(self).fill_log().len() as int) == old(self).fill_log(),
            ({
                let fills = final(self).fill_log().skip(old(self).fill_log().len() as int);
                let initial = frames_at_same_time(
                    duration_micros(duration) as int,
                    MICROS_PER_SEC as int,
                    old(self).spec_sample_rate() as int,
                ) as usize;
                &&& fills.len() <= MAX_ROUNDS
                &&& skip_went_on(fills, initial, old(self).spec_channel_count(), old(self).spec_sample_rate())
                &&& match skip_walk(fills, initial, old(self).spec_channel_count(), old(self).spec_sample_rate()) {
                    None => fills.len() > 0 && (fills.last().0.0 matches Err(e) && r == Err::<bool, RawedioError>(e)),
                    Some(step) => skip_ends(step, r) && (step matches SkipStep::Continue(left, _, _) && left > 0
                        ==> fills.len() == MAX_ROUNDS),
                }
            }),
    {
        let mut current_channel_count = self.channel_count();
        let mut current_sample_rate = self.sample_rate();
        let mut num_frames_remaining = duration_to_num_frames(duration, current_sample_rate as usize);
        let mut scratch: Vec<i16> = vec![0; current_channel_count as usize];
        let ghost initial = num_frames_remaining;
        let ghost log0 = self.fill_log();
        let ghost cc0 = current_channel_count;
        let ghost sr0 = current_sample_rate;
        let mut rounds: u64 = 0;
        proof {
            assert(self.fill_log().skip(log0.len() as int) =~= Seq::<FillEntry>::empty());
            assert(self.fill_log().take(log0.len() as int) =~= log0);
        }
        while num_frames_remaining > 0 && rounds < MAX_ROUNDS
            invariant
                self.wf(),
                scratch@.len() == current_channel_count,
                rounds == 0 ==> *self == *old(self) && num_frames_remaining == initial,
                initial == 0 ==> rounds == 0,
                old(self).infallible() ==> self.infallible(),
                old(self).fixed_format() ==> {
                    &&& self.fixed_format()
                    &&& self.spec_channel_count() == current_channel_count
                    &&& self.spec_sample_rate() == current_sample_rate
                },
                initial == frames_at_same_time(
                    duration_micros(duration) as int,
                    MICROS_PER_SEC as int,
                    old(self).spec_sample_rate() as int,
                ),
                log0 == old(self).fill_log(),
                cc0 == old(self).spec_channel_count(),
                sr0 == old(self).spec_sample_rate(),
                self.fill_log().len() == log0.len() + rounds,
                self.fill_log().take(log0.len() as int) == log0,
                skip_walk(self.fill_log().skip(log0.len() as int), initial, cc0, sr0) == Some(
                    SkipStep::Continue(num_frames_remaining, current_channel_count, current_sample_rate),
                ),
                skip_went_on(self.fill_log().skip(log0.len() as int), initial, cc0, sr0),
            decreases MAX_ROUNDS - rounds,
        {
            let ghost fills0 = self.fill_log().skip(log0.len() as int);
            let ghost log_before = self.fill_log();
            let next = self.fill_next_frames(scratch.as_mut_slice());
            let ghost entry: FillEntry = (fill_record(next, scratch@), self.spec_channel_count(), self.spec_sample_rate());
            let ghost fills1 = self.fill_log().skip(log0.len() as int);
            proof {
                assert(fills1 =~= fills0.push(entry));
                assert(self.fill_log().take(log0.len() as int) =~= log0);
                assert(fills1.drop_last() =~= fills0);
                assert forall|k: int| 0 <= k < fills1.len() implies (#[trigger] skip_walk(fills1.take(k), initial, cc0, sr0) matches Some(
                    SkipStep::Continue(left, _, _),
                ) && left > 0) by {
                    if k < fills0.len() {
                        assert(fills1.take(k) =~= fills0.take(k));
                    } else {
                        assert(fills1.take(k) =~= fills0);
                    }
                }
            }
            let state = match next {
                Err(e) => return Err(e),
                Ok((_, state)) => state,
            };
            let new_channel_count = self.channel_count();
            let new_sample_rate = self.sample_rate();
            let step = skip_step(
                num_frames_remaining,
                current_channel_count,
                current_sample_rate,
                state,
                new_channel_count,
                new_sample_rate,
            );
            match step {
                SkipStep::Continue(left, channel_count, sample_rate) => {
                    if channel_count != current_channel_count {
                        scratch.clear();
                        scratch.resize(channel_count as usize, 0);
                    }
                    num_frames_remaining = left;
                    current_channel_count = channel_count;
                    current_sample_rate = sample_rate;
                },
                SkipStep::Stop => return Ok(false),
                SkipStep::FormatError => {
                    return Err(RawedioError::FormatError("frames to skip cannot be converted to the new sample rate".to_string()));
                },
            }
            rounds = rounds + 1;
        }
        Ok(num_frames_remaining == 0)
    }
}

impl<S: Sound> SoundExt for S {}


/// Let `sound` fill only the first `n` samples of `buffer`; the rest of the
/// buffer is left as it is.
pub(crate) fn fill_prefix<S: Sound>(sound: &mut S, buffer: &mut [i16], n: usize) -> (r: FillResult)
    requires
        n <= old(buffer)@.len(),
        old(sound).wf(),
        buffer_len_ok(old(buffer)@.len()),
    ensures
        final(sound).wf(),
        final(buffer)@.len() == old(buffer)@.len(),
        r matches Ok((c, _)) ==> c <= n,
        unchanged_from(final(buffer)@, old(buffer)@, n as int),
        old(sound).infallible() ==> r is Ok && final(sound).infallible(),
        old(sound).fixed_format() ==> {
            &&& final(sound).fixed_format()
            &&& final(sound).spec_channel_count() == old(sound).spec_channel_count()
            &&& final(sound).spec_sample_rate() == old(sound).spec_sample_rate()
        },
        final(sound).last_fill() == Some(fill_record(r, final(buffer)@.take(n as int))),
        old(sound).next_fill(n) matches Some(rec) ==> final(sound).last_fill() == Some(rec),
        forall|rest: Seq<usize>|
            #[trigger] old(sound).fills_ahead(seq![n] + rest) matches Some(recs) ==> recs.len() > 0
                && final(sound).last_fill() == Some(recs[0].0) && final(sound).fills_ahead(rest) == Some(recs.drop_first()),
{
    let (head, tail) = buffer.split_at_mut(n);
    let r = sound.fill_next_frames(head);
    r
}

impl Sound for Box<dyn Sound> {
    open spec fn wf(&self) -> bool {
        (**self).wf()
    }

    open spec fn spec_channel_count(&self) -> u16 {
        (**self).spec_channel_count()
    }

    open spec fn spec_sample_rate(&self) -> u32 {
        (**self).spec_sample_rate()
    }

    open spec fn infallible(&self) -> bool {
        (**self).infallible()
    }

    open spec fn fixed_format(&self) -> bool {
        (**self).fixed_format()
    }

    open spec fn last_fill(&self) -> Option<FillRecord> {
        (**self).last_fill()
    }

    open spec fn next_fill(&self, len: usize) -> Option<FillRecord> {
        (**self).next_fill(len)
    }

    open spec fn fill_log(&self) -> Seq<FillEntry> {
        (**self).fill_log()
    }

    open spec fn fills_ahead(&self, lens: Seq<usize>) -> Option<Seq<FillEntry>> {
        (**self).fills_ahead(lens)
    }

    fn channel_count(&self) -> (r: u16) {
        (**self).channel_count()
    }

    fn sample_rate(&self) -> (r: u32) {
        (**self).sample_rate()
    }

    fn on_start_of_batch(&mut self) {
        (**self).on_start_of_batch()
    }

    fn fill_next_frames(&mut self, buffer: &mut [i16]) -> (r: FillResult) {
        (**self).fill_next_frames(buffer)
    }
}

} // verus!
