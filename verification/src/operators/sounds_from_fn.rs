//! Sounds produced by a function, played one after the other.

use vstd::prelude::*;

use crate::error::RawedioError;
use crate::sound::{written_by, FillEntry, buffer_len_ok, filled, FillResult, NextState, Sound, MAX_ROUNDS, FillRecord, fill_record};

verus! {

/// `generator` can be called, and every sound it returns keeps its
/// invariant.
pub open spec fn generator_ok<F: FnMut() -> Option<Box<dyn Sound>>>(generator: F) -> bool {
    &&& call_requires(generator, ())
    &&& forall|r: Option<Box<dyn Sound>>| call_ensures(generator, (), r) ==> (r matches Some(s) ==> s.wf())
}

/// The channel count reported while `current` plays: one without a sound.
pub open spec fn channel_count_of(current: Option<Box<dyn Sound>>) -> u16 {
    match current {
        Some(s) => s.spec_channel_count(),
        None => 1,
    }
}

/// The sample rate reported while `current` plays: 1000 without a sound.
pub open spec fn sample_rate_of(current: Option<Box<dyn Sound>>) -> u32 {
    match current {
        Some(s) => s.spec_sample_rate(),
        None => 1000,
    }
}

/// The channel count and sample rate of `current`, if there is a sound.
pub open spec fn format_of(current: Option<Box<dyn Sound>>) -> Option<(u16, u32)> {
    match current {
        Some(s) => Some((s.spec_channel_count(), s.spec_sample_rate())),
        None => None,
    }
}

/// What [`SoundsFromFn`] reports after its current sound wrote `count`
/// samples and reported `state`, where `channel_count` and `sample_rate` are
/// the format it knew and `next` the format of the sound that follows a
/// finished one (`None` when the generator had no more). A finished sound is
/// reported as `Finished` when no sound follows, as `MetadataChanged` when
/// the next one has another format, and as `Playing` when it wrote samples;
/// `None` means that the next sound fills the buffer at once. Any other
/// state is reported as it is.
pub open spec fn from_fn_step_spec(
    count: usize,
    state: NextState,
    channel_count: u16,
    sample_rate: u32,
    next: Option<(u16, u32)>,
) -> Option<(usize, NextState)> {
    match state {
        NextState::Finished => match next {
            None => Some((count, NextState::Finished)),
            Some((next_channel_count, next_sample_rate)) => if next_channel_count != channel_count
                || next_sample_rate != sample_rate {
                Some((count, NextState::MetadataChanged))
            } else if count > 0 {
                Some((count, NextState::Playing))
            } else {
                None
            },
        },
        _ => Some((count, state)),
    }
}

/// [`SoundsFromFn`] never changes the number of samples its current sound
/// wrote, and reports what that sound reported while it goes on: any state
/// but `Finished` is passed on as it is. A finished sound is reported as
/// `Finished` when no sound follows it and as `MetadataChanged` when the
/// next one has another channel count or sample rate; when the next one has
/// the same format the samples written are reported as `Playing`, and where
/// there were none the next sound fills the buffer at once.
pub proof fn lemma_from_fn_step_passes_on(
    count: usize,
    state: NextState,
    channel_count: u16,
    sample_rate: u32,
    next: Option<(u16, u32)>,
)
    ensures
        state != NextState::Finished ==> from_fn_step_spec(count, state, channel_count, sample_rate, next) == Some(
            (count, state),
        ),
        state == NextState::Finished && next is None ==> from_fn_step_spec(
            count,
            state,
            channel_count,
            sample_rate,
            next,
        ) == Some((count, NextState::Finished)),
        state == NextState::Finished && (next matches Some((c, r)) && (c != channel_count || r != sample_rate))
            ==> from_fn_step_spec(count, state, channel_count, sample_rate, next) == Some(
            (count, NextState::MetadataChanged),
        ),
        state == NextState::Finished && next == Some((channel_count, sample_rate)) ==> from_fn_step_spec(
            count,
            state,
            channel_count,
            sample_rate,
            next,
        ) == if count > 0 {
            Some((count, NextState::Playing))
        } else {
            None::<(usize, NextState)>
        },
        from_fn_step_spec(count, state, channel_count, sample_rate, next) matches Some((n, _)) ==> n == count,
{
}

/// The step of [`SoundsFromFn`], as [`from_fn_step_spec`] says.
pub fn from_fn_step(
    count: usize,
    state: NextState,
    channel_count: u16,
    sample_rate: u32,
    next: Option<(u16, u32)>,
) -> (r: Option<(usize, NextState)>)
    ensures
        r == from_fn_step_spec(count, state, channel_count, sample_rate, next),
{
    match state {
        NextState::Finished => match next {
            None => Some((count, NextState::Finished)),
            Some((next_channel_count, next_sample_rate)) => {
                if next_channel_count != channel_count || next_sample_rate != sample_rate {
                    Some((count, NextState::MetadataChanged))
                } else if count > 0 {
                    Some((count, NextState::Playing))
                } else {
                    None
                }
            },
        },
        _ => Some((count, state)),
    }
}

/// Play sounds produced by a function returning sounds one after the other.
///
/// The generator function is called after each previously produced sound has
/// returned finished. After the generator returns `None` this sound returns
/// `Finished`. If an error is returned from the current sound, that sound is
/// dropped, the generator is called for the next one and the error is
/// returned.
///
/// This can be used to create sounds that loop forever without storing all
/// samples in memory.
pub struct SoundsFromFn<F: FnMut() -> Option<Box<dyn Sound>> + Send> {
    generator: F,
    current: Option<Box<dyn Sound>>,
    current_channel_count: u16,
    current_sample_rate: u32,
    last: Ghost<Option<FillRecord>>,
    log: Ghost<Seq<FillEntry>>,
    inner_fill: Ghost<Option<(FillRecord, u16, u32)>>,
}

impl<F: FnMut() -> Option<Box<dyn Sound>> + Send> SoundsFromFn<F> {
    /// The function that produces the sounds.
    pub closed spec fn generator(&self) -> F {
        self.generator
    }

    /// The sound playing now, if any.
    pub closed spec fn current(&self) -> Option<Box<dyn Sound>> {
        self.current
    }

    /// The channel count seen when the current sound last started or
    /// reported a change.
    pub closed spec fn known_channel_count(&self) -> u16 {
        self.current_channel_count
    }

    /// The sample rate seen when the current sound last started or reported
    /// a change.
    pub closed spec fn known_sample_rate(&self) -> u32 {
        self.current_sample_rate
    }

    /// What the latest sound that filled gave in the last call, with the
    /// channel count and sample rate known before it filled.
    pub closed spec fn last_inner_fill(&self) -> Option<(FillRecord, u16, u32)> {
        self.inner_fill@
    }

    /// Call `generator` to generate sounds that will be played to completion.
    /// If `generator` returns `None`, this sound will be `Finished` and
    /// `generator` will no longer be called.
    #[must_use]
    pub fn new(generator: F) -> (r: Self)
        requires
            generator_ok(generator),
        ensures
            r.wf(),
            call_ensures(generator, (), r.current()),
            r.known_channel_count() == channel_count_of(r.current()),
            r.known_sample_rate() == sample_rate_of(r.current()),
    {
        let mut generator = generator;
        let current = generator();
        let mut to_return = Self {
            generator,
            current,
            current_channel_count: 0,
            current_sample_rate: 0,
            last: Ghost(None),
            log: Ghost(Seq::empty()),
            inner_fill: Ghost(None),
        };
        to_return.update_metadata();
        to_return
    }

    fn update_metadata(&mut self)
        requires
            generator_ok(old(self).generator),
            old(self).current matches Some(s) ==> s.wf(),
        ensures
            final(self).wf(),
            final(self).generator == old(self).generator,
            final(self).current == old(self).current,
            final(self).current_channel_count == channel_count_of(final(self).current),
            final(self).current_sample_rate == sample_rate_of(final(self).current),
            final(self).inner_fill == old(self).inner_fill,
            final(self).last == old(self).last,
    {
        self.current_channel_count = self.channel_count();
        self.current_sample_rate = self.sample_rate();
    }
}

impl<F: FnMut() -> Option<Box<dyn Sound>> + Send> SoundsFromFn<F> {
    // The fill itself; `fill_next_frames` records its result.
    fn fill_frames(&mut self, buffer: &mut [i16]) -> (r: FillResult)
        requires
            old(self).wf(),
            buffer_len_ok(old(buffer)@.len()),
        ensures
            final(self).wf(),
            final(buffer)@.len() == old(buffer)@.len(),
            r matches Ok((n, _)) ==> n <= old(buffer)@.len(),
            old(self).infallible() ==> r is Ok && final(self).infallible(),
            old(self).fixed_format() ==> {
                &&& final(self).fixed_format()
                &&& final(self).spec_channel_count() == old(self).spec_channel_count()
                &&& final(self).spec_sample_rate() == old(self).spec_sample_rate()
            },
            old(self).current() is None ==> {
                &&& r == filled(0, NextState::Finished)
                &&& *final(self) == *old(self)
                &&& final(buffer)@ == old(buffer)@
            },
            r matches Ok((_, NextState::Finished)) ==> final(self).current() is None,
            (r matches Ok((_, NextState::Playing)) || r matches Ok((_, NextState::Paused)))
                ==> final(self).current() is Some,
            r is Err ==> call_ensures(old(self).generator(), (), final(self).current()),
            old(self).current() is Some ==> (final(self).last_inner_fill() matches Some((rec, _, _)) && rec.1
                == written_by(rec.0, final(buffer)@)),
            old(self).current() is Some ==> (final(self).last_inner_fill() matches Some((rec, _, _)) && (rec.0 matches Ok(
                (_, st),
            ) && st != NextState::Finished ==> r == rec.0)),
            old(self).current() matches Some(s) ==> (s.next_fill(old(buffer)@.len() as usize) matches Some(x) ==> (
            !(x.0 matches Ok((_, NextState::Finished))) ==> (final(self).last_inner_fill() matches Some((rec, _, _))
                && rec == x))),
            old(self).current() is Some ==> (final(self).last_inner_fill() matches Some((rec, channel_count, sample_rate))
                && match rec.0 {
                Err(e) => r == Err::<(usize, NextState), RawedioError>(e),
                Ok((count, state)) => match from_fn_step_spec(
                    count,
                    state,
                    channel_count,
                    sample_rate,
                    format_of(final(self).current()),
                ) {
                    Some((n, reported)) => r == Ok::<(usize, NextState), RawedioError>((n, reported)),
                    None => r == Ok::<(usize, NextState), RawedioError>((0, NextState::Paused)),
                },
            }),
            !(r matches Ok((_, NextState::Playing)) || r matches Ok((_, NextState::Paused)))
                ==> final(self).known_channel_count() == channel_count_of(final(self).current())
                && final(self).known_sample_rate() == sample_rate_of(final(self).current()),
    {
        let mut rounds: u64 = 0;
        while rounds < MAX_ROUNDS
            invariant
                self.wf(),
                self.generator == old(self).generator,
                buffer@.len() == old(buffer)@.len(),
                crate::sound::buffer_len_ok(buffer@.len()),
                rounds == 0 ==> *self == *old(self) && buffer@ == old(buffer)@,
                rounds > 0 ==> self.current is Some && old(self).current is Some,
                rounds > 0 ==> (self.inner_fill@ matches Some((rec, kcc, ksr)) && rec.0 matches Ok((count, state))
                    && from_fn_step_spec(count, state, kcc, ksr, format_of(self.current)) == None::<(usize, NextState)>),
                rounds > 0 ==> (self.inner_fill@ matches Some((rec, _, _)) && rec.1 == written_by(rec.0, buffer@)),
                rounds > 0 ==> self.current_channel_count == channel_count_of(self.current)
                    && self.current_sample_rate == sample_rate_of(self.current),
                rounds > 0 ==> (old(self).current() matches Some(s) ==> (s.next_fill(old(buffer)@.len() as usize)
                    matches Some(x) ==> x.0 matches Ok((_, NextState::Finished)))),
            decreases MAX_ROUNDS - rounds,
        {
            let known_channel_count = self.current_channel_count;
            let known_sample_rate = self.current_sample_rate;
            let res = if let Some(current) = &mut self.current {
                current.fill_next_frames(buffer)
            } else {
                return Ok((0, NextState::Finished));
            };
            self.inner_fill = Ghost(Some((fill_record(res, buffer@), known_channel_count, known_sample_rate)));
            let (count, state) = match res {
                Err(e) => {
                    self.current = None;
                    self.current = (self.generator)();
                    self.update_metadata();
                    return Err(e);
                },
                Ok(v) => v,
            };
            match state {
                NextState::Finished => {
                    self.current = None;
                    self.current = (self.generator)();
                    self.update_metadata();
                },
                NextState::MetadataChanged => {
                    self.update_metadata();
                },
                _ => {},
            }
            let next = match &self.current {
                Some(s) => Some((s.channel_count(), s.sample_rate())),
                None => None,
            };
            match from_fn_step(count, state, known_channel_count, known_sample_rate, next) {
                Some(reported) => return Ok(reported),
                None => {},
            }
            rounds = rounds + 1;
        }
        Ok((0, NextState::Paused))
    }
}


impl<F: FnMut() -> Option<Box<dyn Sound>> + Send> Sound for SoundsFromFn<F> {
    closed spec fn wf(&self) -> bool {
        &&& generator_ok(self.generator)
        &&& self.current matches Some(s) ==> s.wf()
        &&& self.current is None ==> self.current_channel_count == 1 && self.current_sample_rate == 1000
    }

    closed spec fn spec_channel_count(&self) -> u16 {
        channel_count_of(self.current)
    }

    closed spec fn spec_sample_rate(&self) -> u32 {
        sample_rate_of(self.current)
    }

    closed spec fn infallible(&self) -> bool {
        false
    }

    closed spec fn fixed_format(&self) -> bool {
        false
    }

    closed spec fn last_fill(&self) -> Option<FillRecord> {
        self.last@
    }


    closed spec fn fill_log(&self) -> Seq<FillEntry> {

        self.log@

    }

    closed spec fn next_fill(&self, len: usize) -> Option<FillRecord> {
        if self.current is None {
            Some((Ok((0usize, NextState::Finished)), Seq::empty()))
        } else {
            None
        }
    }

    fn channel_count(&self) -> (r: u16) {
        match &self.current {
            Some(s) => s.channel_count(),
            None => 1,
        }
    }

    fn sample_rate(&self) -> (r: u32) {
        match &self.current {
            Some(s) => s.sample_rate(),
            None => 1000,
        }
    }

    fn on_start_of_batch(&mut self) {
        if let Some(current) = &mut self.current {
            current.on_start_of_batch();
        }
    }

    /// The current sound fills the buffer. When it finishes, the generator
    /// is called for the next sound: `Finished` when there is none,
    /// `MetadataChanged` when the next one has another format, `Playing`
    /// when samples were written, and otherwise the next sound fills the
    /// buffer. When `MAX_ROUNDS` sounds in a row finish without writing,
    /// this gives up for now with `Paused`.
    fn fill_next_frames(&mut self, buffer: &mut [i16]) -> (r: FillResult)
        ensures
            old(self).current() is None ==> {
                &&& r == filled(0, NextState::Finished)
                &&& final(self).current() == old(self).current()
                &&& final(self).generator() == old(self).generator()
                &&& final(self).known_channel_count() == old(self).known_channel_count()
                &&& final(self).known_sample_rate() == old(self).known_sample_rate()
                &&& final(buffer)@ == old(buffer)@
            },
            r matches Ok((_, NextState::Finished)) ==> final(self).current() is None,
            (r matches Ok((_, NextState::Playing)) || r matches Ok((_, NextState::Paused)))
                ==> final(self).current() is Some,
            r is Err ==> call_ensures(old(self).generator(), (), final(self).current()),
            old(self).current() is Some ==> (final(self).last_inner_fill() matches Some((rec, _, _)) && rec.1
                == written_by(rec.0, final(buffer)@)),
            old(self).current() is Some ==> (final(self).last_inner_fill() matches Some((rec, _, _)) && (rec.0 matches Ok(
                (_, st),
            ) && st != NextState::Finished ==> r == rec.0)),
            old(self).current() matches Some(s) ==> (s.next_fill(old(buffer)@.len() as usize) matches Some(x) ==> (
            !(x.0 matches Ok((_, NextState::Finished))) ==> (final(self).last_inner_fill() matches Some((rec, _, _))
                && rec == x))),
            old(self).current() is Some ==> (final(self).last_inner_fill() matches Some((rec, channel_count, sample_rate))
                && match rec.0 {
                Err(e) => r == Err::<(usize, NextState), RawedioError>(e),
                Ok((count, state)) => match from_fn_step_spec(
                    count,
                    state,
                    channel_count,
                    sample_rate,
                    format_of(final(self).current()),
                ) {
                    Some((n, reported)) => r == Ok::<(usize, NextState), RawedioError>((n, reported)),
                    None => r == Ok::<(usize, NextState), RawedioError>((0, NextState::Paused)),
                },
            }),
            !(r matches Ok((_, NextState::Playing)) || r matches Ok((_, NextState::Paused)))
                ==> final(self).known_channel_count() == channel_count_of(final(self).current())
                && final(self).known_sample_rate() == sample_rate_of(final(self).current()),
    {
        let ghost log0 = self.log@;
        let r = self.fill_frames(buffer);
        proof {
            assert(buffer@.take(0) =~= Seq::<i16>::empty());
        }
        self.last = Ghost(Some(fill_record(r, buffer@)));
        self.log = Ghost(log0.push((fill_record(r, buffer@), self.spec_channel_count(), self.spec_sample_rate())));
        r
    }
}

} // verus!
