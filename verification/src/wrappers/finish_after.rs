//! A wrapper that ends its inner sound after a duration.

use std::time::Duration;
use vstd::prelude::*;

use crate::sound::{written_by, FillEntry, buffer_len_ok, fill_prefix, filled, unchanged_from, FillResult, NextState, Sound, FillRecord, fill_record};
use crate::wrappers::{SetPaused, SetStopped};
use crate::utils::{duration_as_micros, duration_as_nanos, duration_micros, duration_nanos, duration_nanos_bound};

verus! {

/// The number of whole frames at `sample_rate` in `micros` microseconds.
pub open spec fn frames_in(micros: int, sample_rate: int) -> int {
    micros * sample_rate / 1_000_000
}

/// The number of samples a [`FinishAfter`] with `frames_remaining` frames of
/// `channel_count` samples left lets its inner sound write into a buffer of
/// `len` samples.
pub open spec fn finish_after_max(frames_remaining: int, channel_count: int, len: int) -> int {
    let frames = if frames_remaining > usize::MAX { usize::MAX as int } else { frames_remaining };
    if frames * channel_count < len {
        frames * channel_count
    } else {
        len
    }
}

/// A `FinishAfter` never lets its inner sound write more samples than fit
/// into the buffer, nor more than the frames left of its duration.
pub proof fn lemma_finish_after_never_exceeds(frames_remaining: int, channel_count: int, len: int)
    requires
        frames_remaining >= 0,
        channel_count >= 0,
        len >= 0,
    ensures
        0 <= finish_after_max(frames_remaining, channel_count, len) <= len,
        finish_after_max(frames_remaining, channel_count, len) <= frames_remaining * channel_count,
{
    let frames = if frames_remaining > usize::MAX { usize::MAX as int } else { frames_remaining };
    assert(frames * channel_count <= frames_remaining * channel_count) by (nonlinear_arith)
        requires
            0 <= frames <= frames_remaining,
            channel_count >= 0,
    ;
    assert(frames * channel_count >= 0) by (nonlinear_arith)
        requires
            frames >= 0,
            channel_count >= 0,
    ;
}

/// The inputs on which [`num_frames`] does not overflow.
pub open spec fn num_frames_ok(duration: Duration, num_samples: int) -> bool {
    &&& duration_micros(duration) <= u64::MAX
    &&& duration_micros(duration) * num_samples <= u64::MAX
}

/// The number of frames that remain of a duration of `total_nanos`
/// nanoseconds after `played` frames at `old_rate`, counted at `new_rate`
/// and capped at `u64::MAX`.
pub open spec fn frames_left(total_nanos: int, played: int, old_rate: int, new_rate: int) -> int {
    let played_nanos = played * 1_000_000_000 / old_rate;
    let left = (total_nanos - played_nanos) / 1000 * new_rate / 1_000_000;
    if left > u64::MAX {
        u64::MAX as int
    } else {
        left
    }
}

/// The number of whole frames at `num_samples` frames per second in
/// `duration`.
///
/// The whole microseconds of `duration` times `num_samples` must fit into a
/// `u64`.
pub fn num_frames(duration: Duration, num_samples: u32) -> (r: u64)
    requires
        num_frames_ok(duration, num_samples as int),
    ensures
        r == frames_in(duration_micros(duration) as int, num_samples as int),
{
    let micros = duration_as_micros(&duration) as u64;
    micros * num_samples as u64 / 1_000_000
}

/// Play the first part of an inner Sound measured in time then finish even
/// if the inner sound still has samples remaining. Finishes early if the
/// inner sound finishes before the duration. Any time the inner sound is
/// paused does not count against the duration (i.e. the duration only
/// includes time of samples).
pub struct FinishAfter<S: Sound> {
    inner: S,
    frames_remaining: u64,
    total_duration: Duration,
    current_channel_count: u16,
    current_sample_rate: u32,
    last: Ghost<Option<FillRecord>>,
    log: Ghost<Seq<FillEntry>>,
}

proof fn lemma_mul_fits(a: int, b: int, a_max: int, b_max: int)
    requires
        0 <= a <= a_max,
        0 <= b <= b_max,
    ensures
        0 <= a * b <= a_max * b_max,
{
    assert(0 <= a * b <= a_max * b_max) by (nonlinear_arith)
        requires
            0 <= a <= a_max,
            0 <= b <= b_max,
    ;
}

impl<S: Sound> FinishAfter<S> {
    /// The wrapped sound.
    pub closed spec fn wrapped(&self) -> S {
        self.inner
    }

    /// The number of frames that may still be played.
    pub closed spec fn frames_remaining(&self) -> int {
        self.frames_remaining as int
    }

    /// The duration after which the sound finishes.
    pub closed spec fn total_duration(&self) -> Duration {
        self.total_duration
    }

    /// The channel count the remaining frames are counted in.
    pub closed spec fn counted_channel_count(&self) -> int {
        self.current_channel_count as int
    }

    /// The sample rate the remaining frames are counted at.
    pub closed spec fn counted_sample_rate(&self) -> int {
        self.current_sample_rate as int
    }

    /// Only play the first `duration` of inner before finishing.
    ///
    /// The whole microseconds of `duration` times the sample rate of `inner`
    /// must fit into a `u64`.
    pub fn new(inner: S, duration: Duration) -> (r: Self)
        requires
            inner.wf(),
            num_frames_ok(duration, inner.spec_sample_rate() as int),
        ensures
            r.wf(),
            r.wrapped() == inner,
            r.total_duration() == duration,
            r.frames_remaining() == frames_in(duration_micros(duration) as int, inner.spec_sample_rate() as int),
            r.counted_channel_count() == inner.spec_channel_count(),
            r.counted_sample_rate() == inner.spec_sample_rate(),
    {
        let current_channel_count = inner.channel_count();
        let current_sample_rate = inner.sample_rate();
        let frames_remaining = num_frames(duration, current_sample_rate);
        let _ = duration_as_nanos(&duration);
        FinishAfter {
            inner,
            frames_remaining,
            total_duration: duration,
            current_channel_count,
            current_sample_rate,
            last: Ghost(None),
            log: Ghost(Seq::empty()),
        }
    }

    /// Get a reference to the wrapped inner Sound.
    pub fn inner(&self) -> (r: &S)
        ensures
            *r == self.wrapped(),
    {
        &self.inner
    }

    /// Get a mutable reference to the wrapped inner Sound. The inner sound
    /// must keep its invariant.
    pub fn inner_mut(&mut self) -> (r: &mut S)
        ensures
            *r == old(self).wrapped(),
            final(self).wrapped() == *final(r),
            final(self).frames_remaining() == old(self).frames_remaining(),
            final(self).total_duration() == old(self).total_duration(),
            final(self).counted_channel_count() == old(self).counted_channel_count(),
            final(self).counted_sample_rate() == old(self).counted_sample_rate(),
    {
        &mut self.inner
    }

    /// Unwrap and return the previously wrapped Sound.
    pub fn into_inner(self) -> (r: S)
        ensures
            r == self.wrapped(),
    {
        self.inner
    }

    /// Recount the remaining frames after the inner sound changed its
    /// channel count or sample rate: the time already played is kept, the
    /// time left is counted in frames at the new sample rate.
    fn recount_remaining(&mut self)
        requires
            old(self).wf(),
            old(self).frames_remaining > 0,
        ensures
            final(self).wf(),
            final(self).inner == old(self).inner,
            final(self).total_duration == old(self).total_duration,
            final(self).current_channel_count == old(self).inner.spec_channel_count(),
            final(self).current_sample_rate == old(self).inner.spec_sample_rate(),
            final(self).frames_remaining == frames_left(
                duration_nanos(old(self).total_duration) as int,
                frames_in(duration_micros(old(self).total_duration) as int, old(self).current_sample_rate as int)
                    - old(self).frames_remaining,
                old(self).current_sample_rate as int,
                old(self).inner.spec_sample_rate() as int,
            ),
    {
        let nanos = duration_as_nanos(&self.total_duration);
        let micros = duration_as_micros(&self.total_duration);
        let old_rate = self.current_sample_rate as u128;
        let ghost nb = duration_nanos_bound() as int;
        proof {
            lemma_mul_fits(micros as int, old_rate as int, nb / 1000, u32::MAX as int);
        }
        let total_old_frames = micros * old_rate / 1_000_000;
        assert(old_rate > 0) by {
            if old_rate == 0 {
                assert(micros * old_rate == 0) by (nonlinear_arith)
                    requires
                        old_rate == 0,
                ;
            }
        }
        let played = total_old_frames - self.frames_remaining as u128;
        proof {
            assert(played * 1_000_000_000 <= micros * old_rate * 1000) by (nonlinear_arith)
                requires
                    0 <= played <= total_old_frames,
                    total_old_frames == micros * old_rate / 1_000_000,
                    micros * old_rate >= 0,
            ;
            lemma_mul_fits(micros as int * old_rate as int, 1000, (nb / 1000) * (u32::MAX as int), 1000);
        }
        let played_nanos = played * 1_000_000_000 / old_rate;
        proof {
            assert(played_nanos <= nanos) by (nonlinear_arith)
                requires
                    played * 1_000_000_000 <= micros * old_rate * 1000,
                    old_rate > 0,
                    played_nanos == (played * 1_000_000_000) as int / (old_rate as int),
                    micros == nanos / 1000,
                    nanos >= 0,
            ;
        }
        let left_micros = (nanos - played_nanos) / 1000;
        self.current_channel_count = self.inner.channel_count();
        self.current_sample_rate = self.inner.sample_rate();
        let new_rate = self.current_sample_rate as u128;
        proof {
            lemma_mul_fits(left_micros as int, new_rate as int, nb / 1000, u32::MAX as int);
        }
        let left_frames = left_micros * new_rate / 1_000_000;
        proof {
            assert(left_micros <= micros);
            assert(left_frames <= frames_in(micros as int, new_rate as int)) by (nonlinear_arith)
                requires
                    0 <= left_micros <= micros,
                    new_rate >= 0,
                    left_frames == left_micros * new_rate / 1_000_000,
            ;
        }
        if left_frames > u64::MAX as u128 {
            self.frames_remaining = u64::MAX;
        } else {
            self.frames_remaining = left_frames as u64;
        }
    }
}

impl<S: Sound> FinishAfter<S> {
    // The fill itself; `fill_next_frames` records its result.
    fn fill_frames(&mut self, buffer: &mut [i16]) -> (r: FillResult)
        requires
            old(self).wf(),
            buffer_len_ok(old(buffer)@.len()),
        ensures
            final(self).wf(),
            final(buffer)@.len() == old(buffer)@.len(),
            r matches Ok((n, _)) ==> n <= old(buffer)@.len(),
            old(self).infallible() ==> r is Ok && final(self).infallible(),
            old(self).fixed_format() ==> {
                &&& final(self).fixed_format()
                &&& final(self).spec_channel_count() == old(self).spec_channel_count()
                &&& final(self).spec_sample_rate() == old(self).spec_sample_rate()
            },
            old(self).frames_remaining() == 0 ==> {
                &&& r == filled(0, NextState::Finished)
                &&& final(buffer)@ == old(buffer)@
                &&& *final(self) == *old(self)
            },
            old(self).frames_remaining() > 0 ==> (old(self).wrapped().next_fill(
                finish_after_max(
                    old(self).frames_remaining(),
                    old(self).counted_channel_count(),
                    old(buffer)@.len() as int,
                ) as usize,
            ) matches Some(rec) ==> final(self).wrapped().last_fill() == Some(rec)),
            old(self).frames_remaining() > 0 ==> forall|rest: Seq<usize>|
                #[trigger] old(self).wrapped().fills_ahead(
                    seq![
                        finish_after_max(
                            old(self).frames_remaining(),
                            old(self).counted_channel_count(),
                            old(buffer)@.len() as int,
                        ) as usize,
                    ] + rest,
                ) matches Some(recs) ==> recs.len() > 0 && final(self).wrapped().last_fill() == Some(recs[0].0)
                    && final(self).wrapped().fills_ahead(rest) == Some(recs.drop_first()),
            old(self).frames_remaining() > 0 ==> (final(self).wrapped().last_fill() matches Some(rec) && r
                == rec.0 && rec.1 == written_by(r, final(buffer)@)),
            old(self).frames_remaining() > 0 ==> {
                let max = finish_after_max(
                    old(self).frames_remaining(),
                    old(self).counted_channel_count(),
                    old(buffer)@.len() as int,
                );
                &&& r matches Ok((n, _)) ==> n <= max
                &&& unchanged_from(final(buffer)@, old(buffer)@, max)
                &&& final(self).total_duration() == old(self).total_duration()
                &&& (r is Err || r matches Ok((_, NextState::Paused)) || r matches Ok((_, NextState::Finished)))
                    ==> {
                    &&& final(self).frames_remaining() == old(self).frames_remaining()
                    &&& final(self).counted_channel_count() == old(self).counted_channel_count()
                    &&& final(self).counted_sample_rate() == old(self).counted_sample_rate()
                }
                &&& r matches Ok((_, NextState::Playing)) ==> {
                    &&& old(self).counted_channel_count() > 0 ==> final(self).frames_remaining()
                        == old(self).frames_remaining() - max / old(self).counted_channel_count()
                    &&& final(self).counted_channel_count() == old(self).counted_channel_count()
                    &&& final(self).counted_sample_rate() == old(self).counted_sample_rate()
                }
                &&& r matches Ok((_, NextState::MetadataChanged)) ==> {
                    &&& final(self).counted_channel_count() == final(self).spec_channel_count()
                    &&& final(self).counted_sample_rate() == final(self).spec_sample_rate()
                    &&& final(self).frames_remaining() == frames_left(
                        duration_nanos(old(self).total_duration()) as int,
                        frames_in(
                            duration_micros(old(self).total_duration()) as int,
                            old(self).counted_sample_rate(),
                        ) - old(self).frames_remaining(),
                        old(self).counted_sample_rate(),
                        final(self).spec_sample_rate() as int,
                    )
                }
            },
    {
        if self.frames_remaining == 0 {
            return Ok((0, NextState::Finished));
        }
        let channel_count = self.current_channel_count as usize;
        let remaining: usize = if self.frames_remaining > usize::MAX as u64 {
            usize::MAX
        } else {
            self.frames_remaining as usize
        };
        let cap = match remaining.checked_mul(channel_count) {
            Some(c) => c,
            None => usize::MAX,
        };
        let samples_max = if cap < buffer.len() { cap } else { buffer.len() };
        let next = fill_prefix(&mut self.inner, buffer, samples_max);
        let next = match next {
            Ok(v) => v,
            Err(e) => return Err(e),
        };
        match next {
            (_, NextState::Playing) => {
                if channel_count > 0 {
                    proof {
                        assert((samples_max as int) / (channel_count as int) <= remaining) by (nonlinear_arith)
                            requires
                                channel_count > 0,
                                samples_max <= cap,
                                cap == remaining * channel_count || (cap == usize::MAX && remaining
                                    * channel_count > usize::MAX),
                                samples_max <= usize::MAX,
                        ;
                    }
                    let played = (samples_max / channel_count) as u64;
                    self.frames_remaining = self.frames_remaining - played;
                }
            },
            (_, NextState::MetadataChanged) => {
                self.recount_remaining();
            },
            (_, NextState::Paused) => {},
            (_, NextState::Finished) => {},
        }
        Ok(next)
    }
}


impl<S: Sound> Sound for FinishAfter<S> {
    closed spec fn wf(&self) -> bool {
        &&& self.inner.wf()
        &&& self.frames_remaining <= frames_in(
            duration_micros(self.total_duration) as int,
            self.current_sample_rate as int,
        )
        &&& duration_nanos(self.total_duration) < duration_nanos_bound()
    }

    closed spec fn spec_channel_count(&self) -> u16 {
        self.inner.spec_channel_count()
    }

    closed spec fn spec_sample_rate(&self) -> u32 {
        self.inner.spec_sample_rate()
    }

    closed spec fn infallible(&self) -> bool {
        self.inner.infallible()
    }

    closed spec fn fixed_format(&self) -> bool {
        self.inner.fixed_format()
    }

    closed spec fn last_fill(&self) -> Option<FillRecord> {
        self.last@
    }


    closed spec fn fill_log(&self) -> Seq<FillEntry> {

        self.log@

    }

    open spec fn next_fill(&self, len: usize) -> Option<FillRecord> {
        if self.frames_remaining() == 0 {
            Some((Ok((0usize, NextState::Finished)), Seq::empty()))
        } else {
            self.wrapped().next_fill(
                finish_after_max(self.frames_remaining(), self.counted_channel_count(), len as int) as usize,
            )
        }
    }

    fn channel_count(&self) -> (r: u16) {
        self.inner.channel_count()
    }

    fn sample_rate(&self) -> (r: u32) {
        self.inner.sample_rate()
    }

    fn on_start_of_batch(&mut self)
        ensures
            final(self).frames_remaining() == old(self).frames_remaining(),
            final(self).total_duration() == old(self).total_duration(),
    {
        self.inner.on_start_of_batch();
        proof {
            assert(forall|lens: Seq<usize>| #[trigger] old(self).fills_ahead(lens) is None);
            assert(forall|lens: Seq<usize>| #[trigger] self.fills_ahead(lens) is None);
        }
    }

    /// Finished once no frames remain. Otherwise the inner sound fills at
    /// most the remaining frames of the buffer; played frames are counted
    /// down, and a `MetadataChanged` recounts the time left at the new
    /// sample rate.
    fn fill_next_frames(&mut self, buffer: &mut [i16]) -> (r: FillResult)
        ensures
            old(self).frames_remaining() == 0 ==> {
                &&& r == filled(0, NextState::Finished)
                &&& final(buffer)@ == old(buffer)@
                &&& final(self).wrapped() == old(self).wrapped()
                &&& final(self).frames_remaining() == old(self).frames_remaining()
                &&& final(self).total_duration() == old(self).total_duration()
                &&& final(self).counted_channel_count() == old(self).counted_channel_count()
                &&& final(self).counted_sample_rate() == old(self).counted_sample_rate()
            },
            old(self).frames_remaining() > 0 ==> forall|rest: Seq<usize>|
                #[trigger] old(self).wrapped().fills_ahead(
                    seq![
                        finish_after_max(
                            old(self).frames_remaining(),
                            old(self).counted_channel_count(),
                            old(buffer)@.len() as int,
                        ) as usize,
                    ] + rest,
                ) matches Some(recs) ==> recs.len() > 0 && final(self).wrapped().last_fill() == Some(recs[0].0)
                    && final(self).wrapped().fills_ahead(rest) == Some(recs.drop_first()),
            old(self).frames_remaining() > 0 ==> (final(self).wrapped().last_fill() matches Some(rec) && r
                == rec.0 && rec.1 == written_by(r, final(buffer)@)),
            old(self).frames_remaining() > 0 ==> {
                let max = finish_after_max(
                    old(self).frames_remaining(),
                    old(self).counted_channel_count(),
                    old(buffer)@.len() as int,
                );
                &&& r matches Ok((n, _)) ==> n <= max
                &&& unchanged_from(final(buffer)@, old(buffer)@, max)
                &&& final(self).total_duration() == old(self).total_duration()
                &&& (r is Err || r matches Ok((_, NextState::Paused)) || r matches Ok((_, NextState::Finished)))
                    ==> {
                    &&& final(self).frames_remaining() == old(self).frames_remaining()
                    &&& final(self).counted_channel_count() == old(self).counted_channel_count()
                    &&& final(self).counted_sample_rate() == old(self).counted_sample_rate()
                }
                &&& r matches Ok((_, NextState::Playing)) ==> {
                    &&& old(self).counted_channel_count() > 0 ==> final(self).frames_remaining()
                        == old(self).frames_remaining() - max / old(self).counted_channel_count()
                    &&& final(self).counted_channel_count() == old(self).counted_channel_count()
                    &&& final(self).counted_sample_rate() == old(self).counted_sample_rate()
                }
                &&& r matches Ok((_, NextState::MetadataChanged)) ==> {
                    &&& final(self).counted_channel_count() == final(self).spec_channel_count()
                    &&& final(self).counted_sample_rate() == final(self).spec_sample_rate()
                    &&& final(self).frames_remaining() == frames_left(
                        duration_nanos(old(self).total_duration()) as int,
                        frames_in(
                            duration_micros(old(self).total_duration()) as int,
                            old(self).counted_sample_rate(),
                        ) - old(self).frames_remaining(),
                        old(self).counted_sample_rate(),
                        final(self).spec_sample_rate() as int,
                    )
                }
            },
    {
        let ghost log0 = self.log@;
        let r = self.fill_frames(buffer);
        proof {
            assert(buffer@.take(0) =~= Seq::<i16>::empty());
            assert(forall|lens: Seq<usize>| #[trigger] old(self).fills_ahead(lens) is None);
        }
        self.last = Ghost(Some(fill_record(r, buffer@)));
        self.log = Ghost(log0.push((fill_record(r, buffer@), self.spec_channel_count(), self.spec_sample_rate())));
        r
    }
}

impl<S: SetPaused> SetPaused for FinishAfter<S> {
    closed spec fn spec_paused(&self) -> bool {
        self.inner.spec_paused()
    }

    /// Pauses or unpauses the inner sound; the time left is not touched.
    fn set_paused(&mut self, pause: bool)
        ensures
            final(self).frames_remaining() == old(self).frames_remaining(),
            final(self).total_duration() == old(self).total_duration(),
    {
        self.inner.set_paused(pause);
    }
}

impl<S: SetStopped> SetStopped for FinishAfter<S> {
    closed spec fn spec_stopped(&self) -> bool {
        self.inner.spec_stopped()
    }

    /// Stops the inner sound.
    fn set_stopped(&mut self)
        ensures
            final(self).frames_remaining() == old(self).frames_remaining(),
            final(self).total_duration() == old(self).total_duration(),
    {
        self.inner.set_stopped();
    }
}

} // verus!
