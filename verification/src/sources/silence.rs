//! A sound of zero samples that never ends.

use vstd::prelude::*;

use crate::error::RawedioError;

use crate::sound::{FillEntry, filled, FillResult, NextState, Sound, FillRecord, fill_record};

verus! {

/// A forever stream of samples of value 0 (creating no sound).
pub struct Silence {
    channel_count: u16,
    sample_rate: u32,
    last: Ghost<Option<FillRecord>>,
    log: Ghost<Seq<FillEntry>>,
}

impl Silence {
    /// Create a new sound that will return 0 samples forever and return the
    /// specified channel count and sample rate from their respective methods.
    #[must_use]
    pub fn new(channel_count: u16, sample_rate: u32) -> (r: Silence)
        ensures
            r.spec_channel_count() == channel_count,
            r.spec_sample_rate() == sample_rate,
            r.wf(),
    {
        Silence { channel_count, sample_rate, last: Ghost(None), log: Ghost(Seq::empty()) }
    }
}

impl Sound for Silence {
    closed spec fn wf(&self) -> bool {
        true
    }

    closed spec fn spec_channel_count(&self) -> u16 {
        self.channel_count
    }

    closed spec fn spec_sample_rate(&self) -> u32 {
        self.sample_rate
    }

    closed spec fn infallible(&self) -> bool {
        true
    }

    closed spec fn fixed_format(&self) -> bool {
        true
    }

    closed spec fn last_fill(&self) -> Option<FillRecord> {
        self.last@
    }


    closed spec fn fill_log(&self) -> Seq<FillEntry> {

        self.log@

    }

    open spec fn fills_ahead(&self, lens: Seq<usize>) -> Option<Seq<FillEntry>> {
        Some(lens.map_values(|len: usize| ((Ok::<(usize, NextState), RawedioError>((len, NextState::Playing)), Seq::new(len as nat, |i: int| 0i16)), self.spec_channel_count(), self.spec_sample_rate())))
    }

    open spec fn next_fill(&self, len: usize) -> Option<FillRecord> {
        Some((Ok((len, NextState::Playing)), Seq::new(len as nat, |i: int| 0i16)))
    }

    fn channel_count(&self) -> (r: u16) {
        self.channel_count
    }

    fn sample_rate(&self) -> (r: u32) {
        self.sample_rate
    }

    /// Fills the whole buffer with zeros and keeps playing.
    fn fill_next_frames(&mut self, buffer: &mut [i16]) -> (r: FillResult)
        ensures
            r == filled(old(buffer)@.len() as int, NextState::Playing),
            final(buffer)@ == Seq::new(old(buffer)@.len(), |i: int| 0i16),
            final(self).spec_channel_count() == old(self).spec_channel_count(),
            final(self).spec_sample_rate() == old(self).spec_sample_rate(),
    {
        let mut i: usize = 0;
        while i < buffer.len()
            invariant
                i <= buffer@.len(),
                buffer@.len() == old(buffer)@.len(),
                forall|j: int| 0 <= j < i ==> buffer@[j] == 0i16,
            decreases buffer@.len() - i,
        {
            buffer[i] = 0;
            i = i + 1;
        }
        assert(buffer@ =~= Seq::new(old(buffer)@.len(), |i: int| 0i16));
        let r: FillResult = Ok((buffer.len(), NextState::Playing));
        assert(buffer@.take(buffer@.len() as int) =~= buffer@);
        self.last = Ghost(Some(fill_record(r, buffer@)));
        self.log = Ghost(self.log@.push((fill_record(r, buffer@), self.spec_channel_count(), self.spec_sample_rate())));
        proof {
            let len = old(buffer)@.len() as usize;
            let f = |len: usize| ((Ok::<(usize, NextState), RawedioError>((len, NextState::Playing)), Seq::new(len as nat, |i: int| 0i16)), old(self).spec_channel_count(), old(self).spec_sample_rate());
            assert forall|rest: Seq<usize>|
                #[trigger] old(self).fills_ahead(seq![len] + rest) is Some implies {
                    let recs = old(self).fills_ahead(seq![len] + rest).unwrap();
                    &&& recs.len() > 0
                    &&& recs[0] == (fill_record(r, buffer@), self.spec_channel_count(), self.spec_sample_rate())
                    &&& self.fills_ahead(rest) == Some(recs.drop_first())
                } by {
                let lens = seq![len] + rest;
                assert(lens.drop_first() =~= rest);
                assert(lens.map_values(f).drop_first() =~= rest.map_values(f));
            }
        }
        r
    }
}

} // verus!
