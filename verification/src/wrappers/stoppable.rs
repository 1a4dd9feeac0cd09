//! A wrapper that can stop its inner sound for good.

use vstd::prelude::*;

use crate::error::RawedioError;

use crate::sound::{FillEntry, buffer_len_ok, filled, FillResult, NextState, Sound, FillRecord, fill_record};
use crate::wrappers::SetPaused;

verus! {

/// A Sound which can be stopped.
pub trait SetStopped: Sound {
    /// Whether the sound has been stopped.
    spec fn spec_stopped(&self) -> bool;

    /// Stop the sound.
    fn set_stopped(&mut self)
        ensures
            final(self).spec_stopped(),
            final(self).wf() == old(self).wf(),
            final(self).spec_channel_count() == old(self).spec_channel_count(),
            final(self).spec_sample_rate() == old(self).spec_sample_rate(),
    ;
}

/// A wrapper to make a Sound stoppable.
/// A stopped sound always returns `Finished`.
pub struct Stoppable<S: Sound> {
    inner: S,
    stopped: bool,
    last: Ghost<Option<FillRecord>>,
    log: Ghost<Seq<FillEntry>>,
}

impl<S: Sound> Stoppable<S> {
    /// The wrapped sound.
    pub closed spec fn wrapped(&self) -> S {
        self.inner
    }

    /// Whether the sound has been stopped.
    pub closed spec fn is_stopped(&self) -> bool {
        self.stopped
    }

    /// Wrap `inner` and allow it to be stopped via
    /// [`set_stopped`][SetStopped::set_stopped].
    pub fn new(inner: S) -> (r: Self)
        ensures
            r.wrapped() == inner,
            !r.is_stopped(),
    {
        Stoppable { inner, stopped: false, last: Ghost(None), log: Ghost(Seq::empty()) }
    }

    /// Get a reference to the wrapped inner Sound.
    pub fn inner(&self) -> (r: &S)
        ensures
            *r == self.wrapped(),
    {
        &self.inner
    }

    /// Get a mutable reference to the wrapped inner Sound.
    pub fn inner_mut(&mut self) -> (r: &mut S)
        ensures
            *r == old(self).wrapped(),
            final(self).wrapped() == *final(r),
            final(self).is_stopped() == old(self).is_stopped(),
    {
        &mut self.inner
    }

    /// Unwrap and return the previously wrapped Sound.
    pub fn into_inner(self) -> (r: S)
        ensures
            r == self.wrapped(),
    {
        self.inner
    }

    /// Return if the Sound is stopped.
    pub fn stopped(&self) -> (r: bool)
        ensures
            r == self.is_stopped(),
    {
        self.stopped
    }
}

impl<S: Sound> Stoppable<S> {
    // The fill itself; `fill_next_frames` records its result.
    fn fill_frames(&mut self, buffer: &mut [i16]) -> (r: FillResult)
        requires
            old(self).wf(),
            buffer_len_ok(old(buffer)@.len()),
        ensures
            final(self).wf(),
            final(buffer)@.len() == old(buffer)@.len(),
            r matches Ok((n, _)) ==> n <= old(buffer)@.len(),
            old(self).infallible() ==> r is Ok && final(self).infallible(),
            old(self).fixed_format() ==> {
                &&& final(self).fixed_format()
                &&& final(self).spec_channel_count() == old(self).spec_channel_count()
                &&& final(self).spec_sample_rate() == old(self).spec_sample_rate()
            },
            old(self).is_stopped() ==> {
                &&& r == filled(0, NextState::Finished)
                &&& final(buffer)@ == old(buffer)@
                &&& *final(self) == *old(self)
            },
            final(self).is_stopped() == old(self).is_stopped(),
            !old(self).is_stopped() ==> (final(self).wrapped().last_fill() == Some(fill_record(r, final(buffer)@))),
            !old(self).is_stopped() ==> (old(self).wrapped().next_fill(old(buffer)@.len() as usize) matches Some(x)
                ==> fill_record(r, final(buffer)@) == x),
            !old(self).is_stopped() ==> forall|rest: Seq<usize>|
                #[trigger] old(self).wrapped().fills_ahead(seq![old(buffer)@.len() as usize] + rest) matches Some(recs)
                    ==> recs.len() > 0 && recs[0] == (
                    fill_record(r, final(buffer)@),
                    final(self).wrapped().spec_channel_count(),
                    final(self).wrapped().spec_sample_rate(),
                ) && final(self).wrapped().fills_ahead(
                    rest,
                ) == Some(recs.drop_first()),
    {
        if self.stopped {
            return Ok((0, NextState::Finished));
        }
        self.inner.fill_next_frames(buffer)
    }
}


impl<S: Sound> Sound for Stoppable<S> {
    closed spec fn wf(&self) -> bool {
        self.inner.wf()
    }

    closed spec fn spec_channel_count(&self) -> u16 {
        self.inner.spec_channel_count()
    }

    closed spec fn spec_sample_rate(&self) -> u32 {
        self.inner.spec_sample_rate()
    }

    closed spec fn infallible(&self) -> bool {
        self.inner.infallible()
    }

    closed spec fn fixed_format(&self) -> bool {
        self.inner.fixed_format()
    }

    closed spec fn last_fill(&self) -> Option<FillRecord> {
        self.last@
    }


    closed spec fn fill_log(&self) -> Seq<FillEntry> {

        self.log@

    }

    open spec fn next_fill(&self, len: usize) -> Option<FillRecord> {
        if self.is_stopped() {
            Some((Ok((0usize, NextState::Finished)), Seq::empty()))
        } else {
            self.wrapped().next_fill(len)
        }
    }

    open spec fn fills_ahead(&self, lens: Seq<usize>) -> Option<Seq<FillEntry>> {
        if self.is_stopped() {
            Some(
                lens.map_values(
                    |len: usize|
                        (
                            (Ok::<(usize, NextState), RawedioError>((0usize, NextState::Finished)), Seq::<i16>::empty()),
                            self.spec_channel_count(),
                            self.spec_sample_rate(),
                        ),
                ),
            )
        } else {
            self.wrapped().fills_ahead(lens)
        }
    }

    fn channel_count(&self) -> (r: u16) {
        self.inner.channel_count()
    }

    fn sample_rate(&self) -> (r: u32) {
        self.inner.sample_rate()
    }

    fn on_start_of_batch(&mut self)
        ensures
            final(self).is_stopped() == old(self).is_stopped(),
    {
        self.inner.on_start_of_batch();
    }

    /// A stopped sound writes nothing and reports `Finished`; otherwise the
    /// inner sound fills the buffer.
    fn fill_next_frames(&mut self, buffer: &mut [i16]) -> (r: FillResult)
        ensures
            old(self).is_stopped() ==> {
                &&& r == filled(0, NextState::Finished)
                &&& final(buffer)@ == old(buffer)@
                &&& final(self).wrapped() == old(self).wrapped()
            },
            final(self).is_stopped() == old(self).is_stopped(),
            !old(self).is_stopped() ==> (final(self).wrapped().last_fill() == Some(fill_record(r, final(buffer)@))),
    {
        let ghost log0 = self.log@;
        let r = self.fill_frames(buffer);
        proof {
            assert(buffer@.take(0) =~= Seq::<i16>::empty());
        }
        self.last = Ghost(Some(fill_record(r, buffer@)));
        self.log = Ghost(log0.push((fill_record(r, buffer@), self.spec_channel_count(), self.spec_sample_rate())));
        proof {
            let len = old(buffer)@.len() as usize;
            assert forall|rest: Seq<usize>|
                #[trigger] old(self).fills_ahead(seq![len] + rest) is Some implies {
                    let recs = old(self).fills_ahead(seq![len] + rest).unwrap();
                    &&& recs.len() > 0
                    &&& recs[0] == (fill_record(r, buffer@), self.spec_channel_count(), self.spec_sample_rate())
                    &&& self.fills_ahead(rest) == Some(recs.drop_first())
                } by {
                let lens = seq![len] + rest;
                assert(lens.drop_first() =~= rest);
                if old(self).is_stopped() {
                    let f = |l: usize|
                        (
                            (Ok::<(usize, NextState), RawedioError>((0usize, NextState::Finished)), Seq::<i16>::empty()),
                            old(self).spec_channel_count(),
                            old(self).spec_sample_rate(),
                        );
                    assert(lens.map_values(f).drop_first() =~= rest.map_values(f));
                }
            }
        }
        r
    }
}

impl<S: Sound> SetStopped for Stoppable<S> {
    closed spec fn spec_stopped(&self) -> bool {
        self.stopped
    }

    fn set_stopped(&mut self)
        ensures
            final(self).is_stopped(),
            final(self).wrapped() == old(self).wrapped(),
    {
        self.stopped = true;
    }
}

impl<S: SetPaused> SetPaused for Stoppable<S> {
    closed spec fn spec_paused(&self) -> bool {
        self.inner.spec_paused()
    }

    fn set_paused(&mut self, pause: bool)
        ensures
            final(self).is_stopped() == old(self).is_stopped(),
    {
        self.inner.set_paused(pause);
    }
}

} // verus!
