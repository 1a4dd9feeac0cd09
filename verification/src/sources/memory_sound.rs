//! A sound whose samples are all held in memory.

use std::sync::Arc;
use vstd::prelude::*;

use crate::error::{RawedioError, UnsupportedMetadataChangeError};
use crate::sound::{written_by, FillEntry, buffer_len_ok, filled, unchanged_from, FillResult, NextState, Sound, MAX_ROUNDS, FillRecord, fill_record};
use crate::utils::lemma_div_mod_step;

verus! {

/// The number of samples a [`MemorySound`] at position `pos` of `len`
/// samples writes into a buffer of `n` samples.
pub open spec fn memory_fill_count(pos: int, len: int, n: int, looping: bool) -> int {
    if n == 0 {
        0
    } else if looping && len > 0 {
        n
    } else if n < len - pos {
        n
    } else {
        len - pos
    }
}

/// The state a [`MemorySound`] at position `pos` of `len` samples reports
/// after a call with a buffer of `n` samples.
pub open spec fn memory_fill_state(pos: int, len: int, n: int, looping: bool) -> NextState {
    if n > 0 && !(looping && len > 0) && pos + memory_fill_count(pos, len, n, looping) == len {
        NextState::Finished
    } else {
        NextState::Playing
    }
}

/// The position of a [`MemorySound`] at position `pos` of `len` samples after
/// a call with a buffer of `n` samples.
pub open spec fn memory_next_position(pos: int, len: int, n: int, looping: bool) -> int {
    if n == 0 {
        pos
    } else if looping && len > 0 {
        (pos + n) % len
    } else {
        pos + memory_fill_count(pos, len, n, looping)
    }
}

/// A looping sound with samples never finishes: every call fills the whole
/// buffer, reports `Playing`, and leaves the position inside the samples.
pub proof fn lemma_looping_plays_forever(pos: int, len: int, n: int)
    requires
        len > 0,
        n >= 0,
        0 <= pos <= len,
    ensures
        memory_fill_count(pos, len, n, true) == n,
        memory_fill_state(pos, len, n, true) == NextState::Playing,
        n > 0 ==> 0 <= memory_next_position(pos, len, n, true) < len,
{
}

/// A sound that does not loop and has played all its samples stays
/// finished: it writes nothing, reports `Finished` for any non-empty buffer,
/// and keeps its position.
pub proof fn lemma_finished_stays_finished(len: int, n: int)
    requires
        len >= 0,
        n > 0,
    ensures
        memory_fill_count(len, len, n, false) == 0,
        memory_fill_state(len, len, n, false) == NextState::Finished,
        memory_next_position(len, len, n, false) == len,
{
}

/// The record of a fill of `len` samples by a [`MemorySound`] of `samples`
/// at position `pos`.
pub open spec fn memory_record(samples: Seq<i16>, pos: int, looping: bool, len: usize) -> FillRecord {
    let count = memory_fill_count(pos, samples.len() as int, len as int, looping);
    (
        Ok((count as usize, memory_fill_state(pos, samples.len() as int, len as int, looping))),
        Seq::new(count as nat, |k: int| samples[(pos + k) % (samples.len() as int)]),
    )
}

/// The records of successive fills of the lengths `lens` by a
/// [`MemorySound`] of `samples` with `channel_count` channels at
/// `sample_rate` starting at position `pos`, each with that format.
pub open spec fn memory_fills(
    samples: Seq<i16>,
    pos: int,
    looping: bool,
    channel_count: u16,
    sample_rate: u32,
    lens: Seq<usize>,
) -> Seq<FillEntry>
    decreases lens.len(),
{
    if lens.len() == 0 {
        Seq::empty()
    } else {
        seq![(memory_record(samples, pos, looping, lens[0]), channel_count, sample_rate)] + memory_fills(
            samples,
            memory_next_position(pos, samples.len() as int, lens[0] as int, looping),
            looping,
            channel_count,
            sample_rate,
            lens.drop_first(),
        )
    }
}

/// A sound that does not loop plays each sample once, in order: a call
/// writes the samples from the position on, as many as fit and are left, and
/// moves the position past them; it reports `Finished` exactly when it
/// reaches the end.
pub proof fn lemma_plays_in_order(pos: int, len: int, n: int)
    requires
        0 <= pos <= len,
        n > 0,
    ensures
        memory_fill_count(pos, len, n, false) == if n < len - pos {
            n
        } else {
            len - pos
        },
        memory_next_position(pos, len, n, false) == pos + memory_fill_count(pos, len, n, false),
        memory_next_position(pos, len, n, false) <= len,
        (memory_fill_state(pos, len, n, false) == NextState::Finished) == (memory_next_position(pos, len, n, false)
            == len),
{
}

/// A Sound that stores all samples on the heap.
///
/// The heap samples can be shared between multiple `MemorySound`s that can be
/// played simultaneously. Optionally the sound can repeat forever.
#[derive(Clone)]
pub struct MemorySound {
    samples: Arc<Vec<i16>>,
    channel_count: u16,
    sample_rate: u32,
    next_sample: usize,
    should_loop: bool,
    last: Ghost<Option<FillRecord>>,
    log: Ghost<Seq<FillEntry>>,
}

impl MemorySound {
    /// All samples of the sound, interleaved by channel.
    pub closed spec fn samples(&self) -> Seq<i16> {
        (*self.samples)@
    }

    /// The index of the next sample to play.
    pub closed spec fn position(&self) -> int {
        self.next_sample as int
    }

    /// Whether the sound starts over after its last sample.
    pub closed spec fn is_looping(&self) -> bool {
        self.should_loop
    }

    /// Create memory sound from the raw data of samples.
    ///
    /// Samples should be in the same order as they will be returned from
    /// `fill_next_frames` (i.e. interleaved by channel).
    #[must_use]
    pub fn from_samples(samples: Arc<Vec<i16>>, channel_count: u16, sample_rate: u32) -> (r: MemorySound)
        ensures
            r.samples() == (*samples)@,
            r.position() == 0,
            !r.is_looping(),
            r.spec_channel_count() == channel_count,
            r.spec_sample_rate() == sample_rate,
            r.wf(),
    {
        MemorySound { samples, channel_count, sample_rate, next_sample: 0, should_loop: false, last: Ghost(None), log: Ghost(Seq::empty()) }
    }

    /// Create a `MemorySound` by consuming another Sound and storing the
    /// samples until it returns `Finished` or `Paused`.
    ///
    /// Samples are read frame by frame. Of a played frame, and of one cut
    /// short by a `MetadataChanged` that keeps the channel count and sample
    /// rate, the samples written are kept with zeros after them up to a whole
    /// frame, so the channels stay aligned; a frame with no samples before
    /// such a `MetadataChanged` is dropped. Of the frame during which the
    /// sound finished or paused only the samples written are kept.
    ///
    /// If an Error is encountered it is returned and any already obtained
    /// samples are lost. A change of the channel count or sample rate of the
    /// originating sound is not supported: an `IoError` of kind `Other`
    /// carrying the message of [`UnsupportedMetadataChangeError`] is returned.
    /// Reading stops after `MAX_ROUNDS` frames. A sound that never fails
    /// and keeps its format is always read without error.
    ///
    /// The result is the one [`read_result`] describes.
    pub fn from_sound<S: Sound>(orig: S) -> (r: Result<Self, RawedioError>)
        requires
            orig.wf(),
            buffer_len_ok(orig.spec_channel_count() as nat),
        ensures
            r matches Ok(m) ==> {
                &&& m.wf()
                &&& m.spec_channel_count() == orig.spec_channel_count()
                &&& m.spec_sample_rate() == orig.spec_sample_rate()
                &&& m.position() == 0
                &&& !m.is_looping()
            },
            orig.infallible() && orig.fixed_format() ==> r is Ok,
            read_result(orig, r),
    {
        let ghost steady = orig.infallible() && orig.fixed_format();
        let ghost first = orig.next_fill(orig.spec_channel_count() as usize);
        let ghost log0 = orig.fill_log();
        let mut sound = orig;
        let channel_count = sound.channel_count();
        let sample_rate = sound.sample_rate();
        let frame_len = channel_count as usize;
        let mut samples: Vec<i16> = Vec::new();
        let mut rounds: u64 = 0;
        let ghost mut fills: Seq<FillEntry> = Seq::empty();
        proof {
            assert forall|k: nat|
                #[trigger] orig.fills_ahead(frame_lens(channel_count, k)) is Some implies k >= fills.len()
                    ==> sound.fills_ahead(frame_lens(channel_count, (k - fills.len()) as nat)) == Some(
                    orig.fills_ahead(frame_lens(channel_count, k)).unwrap().skip(fills.len() as int),
                ) && fills.len() <= orig.fills_ahead(frame_lens(channel_count, k)).unwrap().len() by {
                let recs = orig.fills_ahead(frame_lens(channel_count, k)).unwrap();
                assert(recs.skip(0) =~= recs);
            }
        }
        while rounds < MAX_ROUNDS
            invariant
                sound.wf(),
                frame_len == channel_count as usize,
                buffer_len_ok(frame_len as nat),
                steady == (orig.infallible() && orig.fixed_format()),
                steady ==> {
                    &&& sound.infallible()
                    &&& sound.fixed_format()
                    &&& sound.spec_channel_count() == channel_count
                    &&& sound.spec_sample_rate() == sample_rate
                },
                rounds == 0 ==> sound == orig,
                channel_count == orig.spec_channel_count(),
                sample_rate == orig.spec_sample_rate(),
                first == orig.next_fill(channel_count as usize),
                log0 == orig.fill_log(),
                fills.len() == rounds,
                sound.fill_log() == log0 + fills,
                samples@ == frames_kept(fills, channel_count, sample_rate),
                forall|i: int| 0 <= i < fills.len() ==> !#[trigger] entry_stops(fills[i], channel_count, sample_rate),
                fills.len() > 0 ==> (first matches Some(rec) ==> fills[0].0 == rec),
                forall|k: nat|
                    #[trigger] orig.fills_ahead(frame_lens(channel_count, k)) matches Some(recs) ==> {
                        &&& forall|i: int| 0 <= i < k && i < fills.len() ==> fills[i] == recs[i]
                        &&& k >= fills.len() ==> sound.fills_ahead(frame_lens(channel_count, (k - fills.len()) as nat))
                            == Some(recs.skip(fills.len() as int))
                        &&& k >= fills.len() ==> fills.len() <= recs.len()
                    },
            decreases MAX_ROUNDS - rounds,
        {
            let ghost log_before = sound.fill_log();
            let ghost before = sound;
            let mut frame: Vec<i16> = vec![0; frame_len];
            let next = sound.fill_next_frames(frame.as_mut_slice());
            let ghost entry: FillEntry = (fill_record(next, frame@), sound.spec_channel_count(), sound.spec_sample_rate());
            proof {
                assert(log0 + fills.push(entry) =~= (log0 + fills).push(entry));
                assert(fills.push(entry).drop_last() =~= fills);
                assert(fills.push(entry)[fills.len() as int] == entry);
                assert(fills.len() == 0 ==> fills.push(entry)[0] == entry);
                assert(fills.len() > 0 ==> fills.push(entry)[0] == fills[0]);
                assert forall|i: int| 0 <= i < fills.len() implies !#[trigger] entry_stops(fills.push(entry)[i], channel_count, sample_rate) by {
                    assert(fills.push(entry)[i] == fills[i]);
                }
                assert forall|k: nat|
                    #[trigger] orig.fills_ahead(frame_lens(channel_count, k)) is Some implies {
                        let recs = orig.fills_ahead(frame_lens(channel_count, k)).unwrap();
                        &&& forall|i: int| 0 <= i < k && i < fills.push(entry).len() ==> fills.push(entry)[i] == recs[i]
                        &&& k >= fills.push(entry).len() ==> sound.fills_ahead(
                            frame_lens(channel_count, (k - fills.push(entry).len()) as nat),
                        ) == Some(recs.skip(fills.push(entry).len() as int))
                        &&& k >= fills.push(entry).len() ==> fills.push(entry).len() <= recs.len()
                    } by {
                    let recs = orig.fills_ahead(frame_lens(channel_count, k)).unwrap();
                    let n = fills.len();
                    if k > n {
                        let rest = frame_lens(channel_count, (k - n - 1) as nat);
                        assert(frame_lens(channel_count, (k - n) as nat) =~= seq![frame_len] + rest);
                        assert(before.fills_ahead(seq![frame_len] + rest) == Some(recs.skip(n as int)));
                        assert(recs.skip(n as int).len() > 0);
                        assert(recs.skip(n as int)[0] == entry);
                        assert(sound.fills_ahead(rest) == Some(recs.skip(n as int).drop_first()));
                        assert(recs.skip(n as int)[0] == recs[n as int]);
                        assert(recs.skip(n as int).drop_first() =~= recs.skip(n as int + 1));
                        assert forall|i: int| 0 <= i < k && i < fills.push(entry).len() implies fills.push(entry)[i] == recs[i] by {
                            if i < n {
                                assert(fills.push(entry)[i] == fills[i]);
                            }
                        }
                    } else {
                        assert forall|i: int| 0 <= i < k && i < fills.push(entry).len() implies fills.push(entry)[i] == recs[i] by {
                            assert(fills.push(entry)[i] == fills[i]);
                        }
                    }
                }
            }
            let (count, state) = match next {
                Ok(v) => v,
                Err(e) => {
                    proof {
                        assert(complete_read(fills.push(entry), channel_count, sample_rate));
                        assert(read_outcome(fills.push(entry), channel_count, sample_rate, Err::<MemorySound, RawedioError>(e)));
                    }
                    return Err(e);
                },
            };
            let same_format = sound.channel_count() == channel_count && sound.sample_rate() == sample_rate;
            let step = frame_step(count, state, same_format);
            if step == FrameStep::FormatError {
                let err = UnsupportedMetadataChangeError.into_rawedio_error();
                proof {
                    assert(complete_read(fills.push(entry), channel_count, sample_rate));
                    assert(read_outcome(fills.push(entry), channel_count, sample_rate, Err::<MemorySound, RawedioError>(err)));
                }
                return Err(err);
            }
            proof {
                assert(frame@.take(count as int) =~= written_by(next, frame@));
            }
            keep_frame(&mut samples, &mut frame, count, step);
            proof {
                fills = fills.push(entry);
                assert(samples@ == frames_kept(fills, channel_count, sample_rate));
            }
            if step == FrameStep::KeepAndStop {
                let m = MemorySound {
                    samples: Arc::new(samples),
                    channel_count,
                    sample_rate,
                    next_sample: 0,
                    should_loop: false,
                    last: Ghost(None),
                    log: Ghost(Seq::empty()),
                };
                proof {
                    assert(complete_read(fills, channel_count, sample_rate));
                    assert(read_outcome(fills, channel_count, sample_rate, Ok::<MemorySound, RawedioError>(m)));
                }
                return Ok(m);
            }
            rounds = rounds + 1;
        }
        let m = MemorySound {
            samples: Arc::new(samples),
            channel_count,
            sample_rate,
            next_sample: 0,
            should_loop: false,
            last: Ghost(None),
            log: Ghost(Seq::empty()),
        };
        proof {
            assert(!entry_stops(fills[fills.len() - 1], channel_count, sample_rate));
            assert(complete_read(fills, channel_count, sample_rate));
            assert(read_outcome(fills, channel_count, sample_rate, Ok::<MemorySound, RawedioError>(m)));
        }
        Ok(m)
    }

    /// Instead of finishing after playing all samples, start back at the
    /// beginning and continue forever.
    pub fn set_looping(&mut self, should_loop: bool)
        ensures
            final(self).is_looping() == should_loop,
            final(self).samples() == old(self).samples(),
            final(self).position() == old(self).position(),
            final(self).spec_channel_count() == old(self).spec_channel_count(),
            final(self).spec_sample_rate() == old(self).spec_sample_rate(),
            final(self).wf() == old(self).wf(),
    {
        self.should_loop = should_loop;
    }

    /// All samples of the sound.
    pub fn as_ref(&self) -> (r: &[i16])
        ensures
            r@ == self.samples(),
    {
        self.samples.as_slice()
    }
}

/// What [`MemorySound::from_sound`] does with a frame after the sound wrote
/// `count` samples into it and reported `state`, where `same_format` says
/// whether the sound still has the format it started with.
#[derive(Debug, Copy, Clone, PartialEq, Eq, Structural)]
pub enum FrameStep {
    /// A played frame: keep the samples written, with zeros after them up to
    /// a whole frame, and read on.
    Keep,
    /// A frame cut short by a change of metadata that kept the format: keep
    /// the samples written, with zeros after them up to a whole frame, and
    /// read on.
    KeepPadded,
    /// Drop the frame and read on.
    Drop,
    /// Keep the samples written and stop reading.
    KeepAndStop,
    /// The format changed: stop with an error.
    FormatError,
}

/// The step for a frame: a played frame is kept; a `MetadataChanged` with
/// another format is an error, one that keeps the format only realigns the
/// frames, so a frame with samples is padded with zeros and an empty one is
/// dropped; of the frame in which the sound paused or finished only the
/// samples written are kept, and reading stops.
pub open spec fn frame_step_spec(count: usize, state: NextState, same_format: bool) -> FrameStep {
    match state {
        NextState::Playing => FrameStep::Keep,
        NextState::MetadataChanged => if !same_format {
            FrameStep::FormatError
        } else if count != 0 {
            FrameStep::KeepPadded
        } else {
            FrameStep::Drop
        },
        NextState::Paused => FrameStep::KeepAndStop,
        NextState::Finished => FrameStep::KeepAndStop,
    }
}

/// The step for a frame, as [`frame_step_spec`] says.
pub fn frame_step(count: usize, state: NextState, same_format: bool) -> (r: FrameStep)
    ensures
        r == frame_step_spec(count, state, same_format),
{
    match state {
        NextState::Playing => FrameStep::Keep,
        NextState::MetadataChanged => {
            if !same_format {
                FrameStep::FormatError
            } else if count != 0 {
                FrameStep::KeepPadded
            } else {
                FrameStep::Drop
            }
        },
        NextState::Paused => FrameStep::KeepAndStop,
        NextState::Finished => FrameStep::KeepAndStop,
    }
}

/// The lengths of `k` fills of one frame of `channel_count` samples each.
pub open spec fn frame_lens(channel_count: u16, k: nat) -> Seq<usize> {
    Seq::new(k, |i: int| channel_count as usize)
}

/// `written` followed by zeros up to `len` samples.
pub open spec fn padded(written: Seq<i16>, len: nat) -> Seq<i16> {
    Seq::new(len, |i: int| if i < written.len() { written[i] } else { 0i16 })
}

/// The samples that step `step` keeps of `frame`, in which `count` samples
/// were written: those written, followed by zeros up to a whole frame where
/// reading goes on; only those written where it stops; none where the frame
/// is dropped.
pub open spec fn kept_samples(frame: Seq<i16>, count: int, step: FrameStep) -> Seq<i16> {
    match step {
        FrameStep::Keep => padded(frame.take(count), frame.len()),
        FrameStep::KeepPadded => padded(frame.take(count), frame.len()),
        FrameStep::KeepAndStop => frame.take(count),
        _ => Seq::empty(),
    }
}

/// The step [`MemorySound::from_sound`] takes for the fill recorded in
/// `e`, of a sound that started with `channel_count` channels at
/// `sample_rate`; `None` for a fill that failed.
pub open spec fn entry_step(e: FillEntry, channel_count: u16, sample_rate: u32) -> Option<FrameStep> {
    match e.0.0 {
        Ok((count, state)) => Some(frame_step_spec(count, state, e.1 == channel_count && e.2 == sample_rate)),
        Err(_) => None,
    }
}

/// Whether reading stops at the fill recorded in `e`: on an error, a change
/// of format, or the end of the sound.
pub open spec fn entry_stops(e: FillEntry, channel_count: u16, sample_rate: u32) -> bool {
    match entry_step(e, channel_count, sample_rate) {
        Some(FrameStep::FormatError) => true,
        Some(FrameStep::KeepAndStop) => true,
        Some(_) => false,
        None => true,
    }
}

/// The samples kept of the frame whose fill is recorded in `e`.
pub open spec fn entry_kept(e: FillEntry, channel_count: u16, sample_rate: u32) -> Seq<i16> {
    match entry_step(e, channel_count, sample_rate) {
        Some(FrameStep::Keep) => padded(e.0.1, channel_count as nat),
        Some(FrameStep::KeepPadded) => padded(e.0.1, channel_count as nat),
        Some(FrameStep::KeepAndStop) => e.0.1,
        _ => Seq::empty(),
    }
}

/// The samples kept of the frames whose fills are recorded in `fills`, in
/// order.
pub open spec fn frames_kept(fills: Seq<FillEntry>, channel_count: u16, sample_rate: u32) -> Seq<i16>
    decreases fills.len(),
{
    if fills.len() == 0 {
        Seq::empty()
    } else {
        frames_kept(fills.drop_last(), channel_count, sample_rate) + entry_kept(fills.last(), channel_count, sample_rate)
    }
}

/// Whether `fills` is a whole run of frame fills that
/// [`MemorySound::from_sound`] makes: no fill but the last stops it, and the
/// last one does, or the run is `MAX_ROUNDS` long.
pub open spec fn complete_read(fills: Seq<FillEntry>, channel_count: u16, sample_rate: u32) -> bool {
    &&& 0 < fills.len() <= MAX_ROUNDS
    &&& forall|i: int| 0 <= i < fills.len() - 1 ==> !#[trigger] entry_stops(fills[i], channel_count, sample_rate)
    &&& (entry_stops(fills.last(), channel_count, sample_rate) || fills.len() == MAX_ROUNDS)
}

/// What [`MemorySound::from_sound`] returns after the run of fills `fills`:
/// the error of a failed last fill; an I/O error where the format changed;
/// else a sound of the samples kept of all frames.
pub open spec fn read_outcome(
    fills: Seq<FillEntry>,
    channel_count: u16,
    sample_rate: u32,
    r: Result<MemorySound, RawedioError>,
) -> bool {
    match fills.last().0.0 {
        Err(e) => r == Err::<MemorySound, RawedioError>(e),
        Ok(_) => if entry_step(fills.last(), channel_count, sample_rate) == Some(FrameStep::FormatError) {
            r matches Err(RawedioError::IoError(_))
        } else {
            r matches Ok(m) && m.samples() == frames_kept(fills, channel_count, sample_rate)
        },
    }
}

/// Whether `r` is what [`MemorySound::from_sound`] returns for `orig`: the
/// [`read_outcome`] of a run of fills that [`complete_read`] describes, whose
/// fills are those `next_fill` and `fills_ahead` of the sound promise, where
/// they promise them.
pub open spec fn read_result<S: Sound>(orig: S, r: Result<MemorySound, RawedioError>) -> bool {
    exists|fills: Seq<FillEntry>|
        {
            &&& #[trigger] complete_read(fills, orig.spec_channel_count(), orig.spec_sample_rate())
            &&& (orig.next_fill(orig.spec_channel_count() as usize) matches Some(rec) ==> fills[0].0 == rec)
            &&& forall|k: nat|
                #[trigger] orig.fills_ahead(frame_lens(orig.spec_channel_count(), k)) matches Some(recs) ==> forall|
                    i: int,
                | 0 <= i < k && i < fills.len() ==> fills[i] == recs[i]
            &&& read_outcome(fills, orig.spec_channel_count(), orig.spec_sample_rate(), r)
        }
}

/// Append to `samples` what `step` keeps of `frame`, in which `count`
/// samples were written.
pub fn keep_frame(samples: &mut Vec<i16>, frame: &mut Vec<i16>, count: usize, step: FrameStep)
    requires
        count <= old(frame)@.len(),
    ensures
        final(samples)@ == old(samples)@ + kept_samples(old(frame)@, count as int, step),
{
    match step {
        FrameStep::KeepAndStop => {
            frame.truncate(count);
            append_frame(samples, frame);
        },
        FrameStep::Keep | FrameStep::KeepPadded => {
            let ghost f0 = frame@;
            zero_from(frame, count);
            assert(frame@ =~= kept_samples(f0, count as int, step));
            append_frame(samples, frame);
        },
        _ => {
            assert(old(samples)@ + kept_samples(old(frame)@, count as int, step) =~= old(samples)@);
        },
    }
}

/// Append all of `frame` to `samples`.
fn append_frame(samples: &mut Vec<i16>, frame: &Vec<i16>)
    ensures
        final(samples)@ == old(samples)@ + frame@,
        frame@.len() > 0 && old(samples)@.len() as int % (frame@.len() as int) == 0
            ==> final(samples)@.len() as int % (frame@.len() as int) == 0,
{
    proof {
        if frame@.len() > 0 {
            vstd::arithmetic::div_mod::lemma_mod_add_multiples_vanish(old(samples)@.len() as int, frame@.len() as int);
        }
    }
    let mut i: usize = 0;
    while i < frame.len()
        invariant
            i <= frame@.len(),
            samples@ == old(samples)@ + frame@.subrange(0, i as int),
        decreases frame@.len() - i,
    {
        samples.push(frame[i]);
        i = i + 1;
        assert(samples@ =~= old(samples)@ + frame@.subrange(0, i as int));
    }
    assert(frame@.subrange(0, frame@.len() as int) =~= frame@);
}

/// Set the samples of `frame` at and after `from` to zero.
fn zero_from(frame: &mut Vec<i16>, from: usize)
    ensures
        final(frame)@.len() == old(frame)@.len(),
        forall|i: int| 0 <= i < from && i < old(frame)@.len() ==> #[trigger] final(frame)@[i] == old(frame)@[i],
        forall|i: int| from <= i < old(frame)@.len() ==> #[trigger] final(frame)@[i] == 0,
{
    let mut i = from;
    while i < frame.len()
        invariant
            frame@.len() == old(frame)@.len(),
            from <= i,
            forall|j: int| 0 <= j < from && j < old(frame)@.len() ==> #[trigger] frame@[j] == old(frame)@[j],
            forall|j: int| from <= j < i && j < old(frame)@.len() ==> #[trigger] frame@[j] == 0,
        decreases frame@.len() - i,
    {
        frame.set(i, 0);
        i = i + 1;
    }
}

impl MemorySound {
    // The fill itself; `fill_next_frames` records its result.
    fn fill_frames(&mut self, buffer: &mut [i16]) -> (r: FillResult)
        requires
            old(self).wf(),
            buffer_len_ok(old(buffer)@.len()),
        ensures
            final(self).wf(),
            final(buffer)@.len() == old(buffer)@.len(),
            r matches Ok((n, _)) ==> n <= old(buffer)@.len(),
            old(self).infallible() ==> r is Ok && final(self).infallible(),
            old(self).fixed_format() ==> {
                &&& final(self).fixed_format()
                &&& final(self).spec_channel_count() == old(self).spec_channel_count()
                &&& final(self).spec_sample_rate() == old(self).spec_sample_rate()
            },
            r == filled(
                memory_fill_count(
                    old(self).position(),
                    old(self).samples().len() as int,
                    old(buffer)@.len() as int,
                    old(self).is_looping(),
                ),
                memory_fill_state(
                    old(self).position(),
                    old(self).samples().len() as int,
                    old(buffer)@.len() as int,
                    old(self).is_looping(),
                ),
            ),
            forall|k: int|
                0 <= k < memory_fill_count(
                    old(self).position(),
                    old(self).samples().len() as int,
                    old(buffer)@.len() as int,
                    old(self).is_looping(),
                ) ==> #[trigger] final(buffer)@[k] == old(self).samples()[(old(self).position() + k)
                    % (old(self).samples().len() as int)],
            unchanged_from(
                final(buffer)@,
                old(buffer)@,
                memory_fill_count(
                    old(self).position(),
                    old(self).samples().len() as int,
                    old(buffer)@.len() as int,
                    old(self).is_looping(),
                ),
            ),
            final(self).position() == memory_next_position(
                old(self).position(),
                old(self).samples().len() as int,
                old(buffer)@.len() as int,
                old(self).is_looping(),
            ),
            final(self).samples() == old(self).samples(),
            final(self).is_looping() == old(self).is_looping(),
            final(self).spec_channel_count() == old(self).spec_channel_count(),
            final(self).spec_sample_rate() == old(self).spec_sample_rate(),
    {
        let n = buffer.len();
        let len = self.samples.len();
        let ghost p0 = self.next_sample as int;
        let ghost s = self.samples@;
        if n == 0 {
            return Ok((0, NextState::Playing));
        }
        let looping = self.should_loop && len > 0;
        if self.next_sample == len {
            if looping {
                self.next_sample = 0;
                proof {
                    vstd::arithmetic::div_mod::lemma_mod_self_0(len as int);
                }
            } else {
                return Ok((0, NextState::Finished));
            }
        } else {
            proof {
                vstd::arithmetic::div_mod::lemma_small_mod(p0 as nat, len as nat);
            }
        }
        let mut i: usize = 0;
        loop
            invariant
                0 <= i < n,
                n == buffer@.len(),
                n == old(buffer)@.len(),
                len == s.len(),
                len > 0,
                s == self.samples@,
                s == old(self).samples@,
                p0 == old(self).next_sample as int,
                0 <= p0 <= len,
                self.next_sample < len,
                self.next_sample == (p0 + i) % (len as int),
                !looping ==> p0 + i < len,
                !looping ==> self.next_sample == p0 + i,
                looping == (old(self).should_loop && len > 0),
                self.should_loop == old(self).should_loop,
                self.channel_count == old(self).channel_count,
                self.sample_rate == old(self).sample_rate,
                forall|k: int| 0 <= k < i ==> #[trigger] buffer@[k] == s[(p0 + k) % (len as int)],
                forall|k: int| i <= k < n ==> #[trigger] buffer@[k] == old(buffer)@[k],
            decreases n - i,
        {
            buffer[i] = self.samples[self.next_sample];
            assert(buffer@[i as int] == s[(p0 + i) % (len as int)]);
            proof {
                lemma_div_mod_step(p0 + i, len as int);
            }
            self.next_sample = self.next_sample + 1;
            i = i + 1;
            if self.next_sample == len {
                if looping {
                    self.next_sample = 0;
                } else {
                    proof {
                        assert forall|k: int| 0 <= k < i implies #[trigger] buffer@[k] == s[(p0 + k)] by {
                            vstd::arithmetic::div_mod::lemma_small_mod((p0 + k) as nat, len as nat);
                        }
                    }
                    return Ok((i, NextState::Finished));
                }
            }
            if i == n {
                return Ok((n, NextState::Playing));
            }
        }
    }
}


impl Sound for MemorySound {
    closed spec fn wf(&self) -> bool {
        self.next_sample <= self.samples@.len()
    }

    closed spec fn spec_channel_count(&self) -> u16 {
        self.channel_count
    }

    closed spec fn spec_sample_rate(&self) -> u32 {
        self.sample_rate
    }

    closed spec fn infallible(&self) -> bool {
        true
    }

    closed spec fn fixed_format(&self) -> bool {
        true
    }

    closed spec fn last_fill(&self) -> Option<FillRecord> {
        self.last@
    }


    closed spec fn fill_log(&self) -> Seq<FillEntry> {

        self.log@

    }

    open spec fn next_fill(&self, len: usize) -> Option<FillRecord> {
        Some(memory_record(self.samples(), self.position(), self.is_looping(), len))
    }

    open spec fn fills_ahead(&self, lens: Seq<usize>) -> Option<Seq<FillEntry>> {
        Some(
            memory_fills(
                self.samples(),
                self.position(),
                self.is_looping(),
                self.spec_channel_count(),
                self.spec_sample_rate(),
                lens,
            ),
        )
    }

    fn channel_count(&self) -> (r: u16) {
        self.channel_count
    }

    fn sample_rate(&self) -> (r: u32) {
        self.sample_rate
    }

    /// Copies the next samples, starting over at the first sample when
    /// looping, and reports `Finished` once the last sample of a sound that
    /// does not loop has been written.
    fn fill_next_frames(&mut self, buffer: &mut [i16]) -> (r: FillResult)
        ensures
            r == filled(
                memory_fill_count(
                    old(self).position(),
                    old(self).samples().len() as int,
                    old(buffer)@.len() as int,
                    old(self).is_looping(),
                ),
                memory_fill_state(
                    old(self).position(),
                    old(self).samples().len() as int,
                    old(buffer)@.len() as int,
                    old(self).is_looping(),
                ),
            ),
            forall|k: int|
                0 <= k < memory_fill_count(
                    old(self).position(),
                    old(self).samples().len() as int,
                    old(buffer)@.len() as int,
                    old(self).is_looping(),
                ) ==> #[trigger] final(buffer)@[k] == old(self).samples()[(old(self).position() + k)
                    % (old(self).samples().len() as int)],
            unchanged_from(
                final(buffer)@,
                old(buffer)@,
                memory_fill_count(
                    old(self).position(),
                    old(self).samples().len() as int,
                    old(buffer)@.len() as int,
                    old(self).is_looping(),
                ),
            ),
            final(self).position() == memory_next_position(
                old(self).position(),
                old(self).samples().len() as int,
                old(buffer)@.len() as int,
                old(self).is_looping(),
            ),
            final(self).samples() == old(self).samples(),
            final(self).is_looping() == old(self).is_looping(),
            final(self).spec_channel_count() == old(self).spec_channel_count(),
            final(self).spec_sample_rate() == old(self).spec_sample_rate(),
    {
        let ghost count = memory_fill_count(
            self.position(),
            self.samples().len() as int,
            buffer@.len() as int,
            self.is_looping(),
        );
        let ghost s0 = self.samples();
        let ghost p0 = self.position();
        let ghost log0 = self.log@;
        let r = self.fill_frames(buffer);
        proof {
            assert(buffer@.take(count) =~= Seq::new(count as nat, |k: int| s0[(p0 + k) % (s0.len() as int)]));
        }
        self.last = Ghost(Some(fill_record(r, buffer@)));
        self.log = Ghost(log0.push((fill_record(r, buffer@), self.spec_channel_count(), self.spec_sample_rate())));
        proof {
            let len = old(buffer)@.len() as usize;
            assert(fill_record(r, buffer@) == memory_record(s0, p0, old(self).is_looping(), len));
            assert forall|rest: Seq<usize>|
                #[trigger] old(self).fills_ahead(seq![len] + rest) is Some implies {
                    let recs = old(self).fills_ahead(seq![len] + rest).unwrap();
                    &&& recs.len() > 0
                    &&& recs[0] == (fill_record(r, buffer@), self.spec_channel_count(), self.spec_sample_rate())
                    &&& self.fills_ahead(rest) == Some(recs.drop_first())
                } by {
                let lens = seq![len] + rest;
                assert(lens.drop_first() =~= rest);
                assert(lens[0] == len);
                let cc = self.spec_channel_count();
                let sr = self.spec_sample_rate();
                let tail = memory_fills(s0, self.position(), self.is_looping(), cc, sr, rest);
                assert((seq![(memory_record(s0, p0, old(self).is_looping(), len), cc, sr)] + tail).drop_first() =~= tail);
            }
        }
        r
    }
}

} // verus!

verus! {

/// The position of a [`MemorySound`] of `len` samples that does not loop
/// after `j` fills of `c` samples each, starting at position `p`.
pub open spec fn frame_position(p: int, j: int, c: int, len: int) -> int {
    if p + j * c < len {
        p + j * c
    } else {
        len
    }
}

// The fills of whole frames of a sound that does not loop, one by one.
proof fn lemma_frame_fills(s: Seq<i16>, p: int, cc: u16, sr: u32, k: nat)
    requires
        0 <= p <= s.len(),
        cc > 0,
    ensures
        memory_fills(s, p, false, cc, sr, frame_lens(cc, k)).len() == k,
        forall|j: int|
            0 <= j < k ==> #[trigger] memory_fills(s, p, false, cc, sr, frame_lens(cc, k))[j] == (
                memory_record(s, frame_position(p, j, cc as int, s.len() as int), false, cc as usize),
                cc,
                sr,
            ),
    decreases k,
{
    if k > 0 {
        let c = cc as int;
        let len = s.len() as int;
        let lens = frame_lens(cc, k);
        assert(lens.drop_first() =~= frame_lens(cc, (k - 1) as nat));
        assert(lens[0] == cc as usize);
        let p2 = memory_next_position(p, len, c, false);
        assert(p2 == if p + c < len { p + c } else { len });
        lemma_frame_fills(s, p2, cc, sr, (k - 1) as nat);
        let fs = memory_fills(s, p, false, cc, sr, lens);
        let tail = memory_fills(s, p2, false, cc, sr, frame_lens(cc, (k - 1) as nat));
        assert(fs == seq![(memory_record(s, p, false, cc as usize), cc, sr)] + tail);
        assert forall|j: int| 0 <= j < k implies #[trigger] fs[j] == (
            memory_record(s, frame_position(p, j, c, len), false, cc as usize),
            cc,
            sr,
        ) by {
            if j == 0 {
                assert(frame_position(p, 0, c, len) == p);
            } else {
                assert(fs[j] == tail[j - 1]);
                assert((j - 1) * c + c == j * c) by (nonlinear_arith);
                assert((j - 1) * c >= 0) by (nonlinear_arith)
                    requires
                        j >= 1,
                        c > 0,
                ;
                assert(frame_position(p2, j - 1, c, len) == frame_position(p, j, c, len));
            }
        }
    }
}

// The samples a fill of `c` samples from position `q` writes, while the
// sound does not loop and `q + n <= len` with `n` the count written.
proof fn lemma_frame_samples(s: Seq<i16>, q: int, n: int)
    requires
        0 <= q,
        0 <= n,
        q + n <= s.len(),
    ensures
        Seq::new(n as nat, |k: int| s[(q + k) % (s.len() as int)]) == s.subrange(q, q + n),
{
    assert forall|k: int| 0 <= k < n implies Seq::new(n as nat, |k: int| s[(q + k) % (s.len() as int)])[k]
        == #[trigger] s.subrange(q, q + n)[k] by {
        vstd::arithmetic::div_mod::lemma_small_mod((q + k) as nat, s.len() as nat);
    }
    assert(Seq::new(n as nat, |k: int| s[(q + k) % (s.len() as int)]) =~= s.subrange(q, q + n));
}

/// Reading a sound held in memory that does not loop, from its start, into
/// memory gives back all its samples: whatever
/// [`MemorySound::from_sound`] returns for it is a sound of the same
/// samples.
pub proof fn lemma_memory_round_trip(m: MemorySound, r: Result<MemorySound, RawedioError>)
    requires
        m.wf(),
        m.position() == 0,
        !m.is_looping(),
        m.spec_channel_count() > 0,
        m.samples().len() <= usize::MAX,
        read_result(m, r),
    ensures
        r matches Ok(copy) && copy.samples() == m.samples(),
{
    let cc = m.spec_channel_count();
    let sr = m.spec_sample_rate();
    let c = cc as int;
    let s = m.samples();
    let len = s.len() as int;
    let fills = choose|fills: Seq<FillEntry>|
        {
            &&& #[trigger] complete_read(fills, cc, sr)
            &&& (m.next_fill(cc as usize) matches Some(rec) ==> fills[0].0 == rec)
            &&& forall|k: nat|
                #[trigger] m.fills_ahead(frame_lens(cc, k)) matches Some(recs) ==> forall|i: int|
                    0 <= i < k && i < fills.len() ==> fills[i] == recs[i]
            &&& read_outcome(fills, cc, sr, r)
        };
    let n = fills.len();
    lemma_frame_fills(s, 0, cc, sr, n);
    let mf = memory_fills(s, 0, false, cc, sr, frame_lens(cc, n));
    assert(m.fills_ahead(frame_lens(cc, n)) == Some(mf));
    assert forall|i: int| 0 <= i < n implies #[trigger] fills[i] == (
        memory_record(s, frame_position(0, i, c, len), false, cc as usize),
        cc,
        sr,
    ) by {
        assert(fills[i] == mf[i]);
    }
    // Every fill but the last plays a whole frame.
    assert forall|i: int| 0 <= i < n - 1 implies #[trigger] (i * c + c) < len by {
        assert(!entry_stops(fills[i], cc, sr));
        let q = frame_position(0, i, c, len);
        if q == len {
            assert(memory_fill_count(q, len, c, false) == 0);
        }
    }
    assert forall|j: int| 0 <= j <= n - 1 implies #[trigger] frames_kept(fills.take(j), cc, sr) == s.take(j * c) by {
        lemma_kept_prefix(s, fills, cc, sr, j);
    }
    // The last fill stops: otherwise `MAX_ROUNDS` frames would fit.
    let last = n - 1;
    let q = frame_position(0, last, c, len);
    if last > 0 {
        assert((last - 1) * c + c < len);
        assert((last - 1) * c + c == last * c) by (nonlinear_arith)
            requires
                last >= 1,
        ;
    }
    assert(q == last * c) by {
        if last == 0 {
            assert(last * c == 0);
        }
    }
    if !entry_stops(fills[last], cc, sr) {
        assert(q + c < len);
        assert(last * c + c >= MAX_ROUNDS) by (nonlinear_arith)
            requires
                last == MAX_ROUNDS - 1,
                c >= 1,
        ;
        assert(false);
    }
    let count = len - q;
    assert(memory_fill_count(q, len, c, false) == count);
    lemma_frame_samples(s, q, count);
    assert(fills.drop_last() =~= fills.take(last));
    assert(frames_kept(fills.take(last), cc, sr) == s.take(last * c));
    assert(entry_kept(fills[last], cc, sr) == s.subrange(q, len));
    assert(frames_kept(fills, cc, sr) == frames_kept(fills.take(last), cc, sr) + entry_kept(fills[last], cc, sr));
    assert(s.take(last * c) + s.subrange(q, len) =~= s);
    assert(frames_kept(fills, cc, sr) == s);
}

// The frames kept of the first `j` fills of whole frames are the first
// `j * c` samples.
proof fn lemma_kept_prefix(s: Seq<i16>, fills: Seq<FillEntry>, cc: u16, sr: u32, j: int)
    requires
        cc > 0,
        0 <= j < fills.len(),
        forall|i: int| 0 <= i < j ==> #[trigger] (i * (cc as int) + (cc as int)) < s.len(),
        forall|i: int|
            0 <= i < fills.len() ==> #[trigger] fills[i] == (
                memory_record(s, frame_position(0, i, cc as int, s.len() as int), false, cc as usize),
                cc,
                sr,
            ),
    ensures
        frames_kept(fills.take(j), cc, sr) == s.take(j * (cc as int)),
    decreases j,
{
    let c = cc as int;
    if j == 0 {
        assert(j * c == 0) by (nonlinear_arith)
            requires
                j == 0,
        ;
        assert(fills.take(0) =~= Seq::<FillEntry>::empty());
        assert(s.take(0) =~= Seq::<i16>::empty());
    } else {
        lemma_kept_prefix(s, fills, cc, sr, j - 1);
        let i = j - 1;
        assert(i * c + c < s.len());
        assert(i * c + c == j * c) by (nonlinear_arith)
            requires
                i == j - 1,
        ;
        assert(i * c >= 0) by (nonlinear_arith)
            requires
                i >= 0,
                c > 0,
        ;
        let q = frame_position(0, i, c, s.len() as int);
        assert(q == i * c);
        lemma_frame_samples(s, q, c);
        assert(fills.take(j).drop_last() =~= fills.take(i));
        assert(fills.take(j).last() == fills[i]);
        let rec = fills[i].0;
        assert(rec.1 == s.subrange(q, q + c));
        assert(padded(rec.1, cc as nat) =~= rec.1);
        assert(memory_fill_count(q, s.len() as int, c, false) == c);
        assert(entry_kept(fills[i], cc, sr) == s.subrange(q, q + c));
        assert(frames_kept(fills.take(j), cc, sr) == frames_kept(fills.take(i), cc, sr) + entry_kept(fills[i], cc, sr));
        assert(s.take(i * c) + s.subrange(q, q + c) =~= s.take(j * c));
    }
}

} // verus!
