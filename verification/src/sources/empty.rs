//! A sound without samples.

use vstd::prelude::*;

use crate::error::RawedioError;

use crate::sound::{FillEntry, filled, FillResult, NextState, Sound, FillRecord, fill_record};

verus! {

/// A Sound that immediately and always returns Finished.
pub struct Empty {
    channel_count: u16,
    sample_rate: u32,
    last: Ghost<Option<FillRecord>>,
    log: Ghost<Seq<FillEntry>>,
}

impl Empty {
    /// Create a new sound that will immediately and always return Finished.
    #[must_use]
    pub fn new(channel_count: u16, sample_rate: u32) -> (r: Empty)
        ensures
            r.spec_channel_count() == channel_count,
            r.spec_sample_rate() == sample_rate,
            r.wf(),
    {
        Empty { channel_count, sample_rate, last: Ghost(None), log: Ghost(Seq::empty()) }
    }
}

impl Sound for Empty {
    closed spec fn wf(&self) -> bool {
        true
    }

    closed spec fn spec_channel_count(&self) -> u16 {
        self.channel_count
    }

    closed spec fn spec_sample_rate(&self) -> u32 {
        self.sample_rate
    }

    closed spec fn infallible(&self) -> bool {
        true
    }

    closed spec fn fixed_format(&self) -> bool {
        true
    }

    closed spec fn last_fill(&self) -> Option<FillRecord> {
        self.last@
    }


    closed spec fn fill_log(&self) -> Seq<FillEntry> {

        self.log@

    }

    open spec fn fills_ahead(&self, lens: Seq<usize>) -> Option<Seq<FillEntry>> {
        Some(lens.map_values(|len: usize| ((Ok::<(usize, NextState), RawedioError>((0usize, NextState::Finished)), Seq::<i16>::empty()), self.spec_channel_count(), self.spec_sample_rate())))
    }

    open spec fn next_fill(&self, len: usize) -> Option<FillRecord> {
        Some((Ok((0usize, NextState::Finished)), Seq::empty()))
    }

    fn channel_count(&self) -> (r: u16) {
        self.channel_count
    }

    fn sample_rate(&self) -> (r: u32) {
        self.sample_rate
    }

    /// Writes nothing and reports `Finished`.
    fn fill_next_frames(&mut self, buffer: &mut [i16]) -> (r: FillResult)
        ensures
            r == filled(0, NextState::Finished),
            final(buffer)@ == old(buffer)@,
            final(self).spec_channel_count() == old(self).spec_channel_count(),
            final(self).spec_sample_rate() == old(self).spec_sample_rate(),
    {
        let r: FillResult = Ok((0, NextState::Finished));
        assert(buffer@.take(0) =~= Seq::<i16>::empty());
        self.last = Ghost(Some(fill_record(r, buffer@)));
        self.log = Ghost(self.log@.push((fill_record(r, buffer@), self.spec_channel_count(), self.spec_sample_rate())));
        proof {
            let len = old(buffer)@.len() as usize;
            let f = |len: usize| ((Ok::<(usize, NextState), RawedioError>((0usize, NextState::Finished)), Seq::<i16>::empty()), old(self).spec_channel_count(), old(self).spec_sample_rate());
            assert forall|rest: Seq<usize>|
                #[trigger] old(self).fills_ahead(seq![len] + rest) is Some implies {
                    let recs = old(self).fills_ahead(seq![len] + rest).unwrap();
                    &&& recs.len() > 0
                    &&& recs[0] == (fill_record(r, buffer@), self.spec_channel_count(), self.spec_sample_rate())
                    &&& self.fills_ahead(rest) == Some(recs.drop_first())
                } by {
                let lens = seq![len] + rest;
                assert(lens.drop_first() =~= rest);
                assert(lens.map_values(f).drop_first() =~= rest.map_values(f));
            }
        }
        r
    }
}

} // verus!
