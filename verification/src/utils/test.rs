//! Simple deterministic sounds, used to exercise other sounds.

use vstd::prelude::*;

use crate::error::RawedioError;
use crate::legacy::NextSample;
use crate::sound::{FillEntry, buffer_len_ok, filled, FillResult, NextState, Sound, FillRecord, fill_record};
use crate::utils::lemma_div_mod_step;

verus! {

/// The default sample rate of the sounds of this module.
pub const DEFAULT_SAMPLE_RATE: u32 = 44100;

/// The default channel count of the sounds of this module.
pub const DEFAULT_CHANNEL_COUNT: u16 = 2;

/// A sound whose samples all have one value. Only useful for tests as a
/// constant offset makes no hearable sound.
///
/// Changing the channel count or sample rate makes the next call report
/// `MetadataChanged`.
pub struct ConstantValueSound {
    /// The value of every sample.
    pub value: i16,
    /// The reported channel count.
    pub channel_count: u16,
    /// The reported sample rate.
    pub sample_rate: u32,
    /// Whether a `MetadataChanged` is pending.
    pub metadata_changed: bool,
    /// What the latest fill gave.
    pub last: Ghost<Option<FillRecord>>,
    /// Every fill made so far.
    pub log: Ghost<Seq<FillEntry>>,
}

impl ConstantValueSound {
    /// A constant sound of `value` with the default channel count and sample
    /// rate.
    #[must_use]
    pub fn new(value: i16) -> (r: ConstantValueSound)
        ensures
            r.value == value,
            r.channel_count == DEFAULT_CHANNEL_COUNT,
            r.sample_rate == DEFAULT_SAMPLE_RATE,
            !r.metadata_changed,
    {
        ConstantValueSound {
            value,
            channel_count: DEFAULT_CHANNEL_COUNT,
            sample_rate: DEFAULT_SAMPLE_RATE,
            metadata_changed: false,
            last: Ghost(None),
            log: Ghost(Seq::empty()),
        }
    }

    /// Change the channel count; the next call reports `MetadataChanged`.
    pub fn set_channel_count(&mut self, new_count: u16)
        ensures
            *final(self) == (ConstantValueSound {
                channel_count: new_count,
                metadata_changed: true,
                ..*old(self)
            }),
    {
        self.channel_count = new_count;
        self.metadata_changed = true;
    }

    /// Change the sample rate; the next call reports `MetadataChanged`.
    pub fn set_sample_rate(&mut self, new_rate: u32)
        ensures
            *final(self) == (ConstantValueSound {
                sample_rate: new_rate,
                metadata_changed: true,
                ..*old(self)
            }),
    {
        self.sample_rate = new_rate;
        self.metadata_changed = true;
    }

    /// The next sample, or the pending `MetadataChanged`.
    pub fn next_sample(&mut self) -> (r: Result<NextSample, RawedioError>)
        ensures
            old(self).metadata_changed ==> r == Ok::<NextSample, RawedioError>(NextSample::MetadataChanged),
            !old(self).metadata_changed ==> r == Ok::<NextSample, RawedioError>(NextSample::Sample(old(self).value)),
            *final(self) == (ConstantValueSound { metadata_changed: false, ..*old(self) }),
    {
        if self.metadata_changed {
            self.metadata_changed = false;
            return Ok(NextSample::MetadataChanged);
        }
        Ok(NextSample::Sample(self.value))
    }
}

impl ConstantValueSound {
    // The fill itself; `fill_next_frames` records its result.
    fn fill_frames(&mut self, buffer: &mut [i16]) -> (r: FillResult)
        requires
            old(self).wf(),
            buffer_len_ok(old(buffer)@.len()),
        ensures
            final(self).wf(),
            final(buffer)@.len() == old(buffer)@.len(),
            r matches Ok((n, _)) ==> n <= old(buffer)@.len(),
            old(self).infallible() ==> r is Ok && final(self).infallible(),
            old(self).fixed_format() ==> {
                &&& final(self).fixed_format()
                &&& final(self).spec_channel_count() == old(self).spec_channel_count()
                &&& final(self).spec_sample_rate() == old(self).spec_sample_rate()
            },
            old(self).metadata_changed ==> {
                &&& r == filled(0, NextState::MetadataChanged)
                &&& final(buffer)@ == old(buffer)@
            },
            !old(self).metadata_changed ==> {
                &&& r == filled(old(buffer)@.len() as int, NextState::Playing)
                &&& final(buffer)@ == Seq::new(old(buffer)@.len(), |i: int| old(self).value)
            },
            *final(self) == (ConstantValueSound { metadata_changed: false, ..*old(self) }),
    {
        if self.metadata_changed {
            self.metadata_changed = false;
            return Ok((0, NextState::MetadataChanged));
        }
        let mut i: usize = 0;
        while i < buffer.len()
            invariant
                i <= buffer@.len(),
                buffer@.len() == old(buffer)@.len(),
                forall|j: int| 0 <= j < i ==> buffer@[j] == self.value,
            decreases buffer@.len() - i,
        {
            buffer[i] = self.value;
            i = i + 1;
        }
        assert(buffer@ =~= Seq::new(old(buffer)@.len(), |i: int| old(self).value));
        Ok((buffer.len(), NextState::Playing))
    }
}


/// The record of a fill of `len` samples by a sound whose every sample is
/// `value`: all of them written, still playing.
pub open spec fn constant_record(value: i16, len: usize) -> FillRecord {
    (Ok((len, NextState::Playing)), Seq::new(len as nat, |i: int| value))
}

impl Sound for ConstantValueSound {
    open spec fn wf(&self) -> bool {
        true
    }

    open spec fn spec_channel_count(&self) -> u16 {
        self.channel_count
    }

    open spec fn spec_sample_rate(&self) -> u32 {
        self.sample_rate
    }

    open spec fn infallible(&self) -> bool {
        true
    }

    open spec fn fixed_format(&self) -> bool {
        true
    }

    closed spec fn last_fill(&self) -> Option<FillRecord> {
        self.last@
    }


    closed spec fn fill_log(&self) -> Seq<FillEntry> {

        self.log@

    }

    open spec fn next_fill(&self, len: usize) -> Option<FillRecord> {
        if self.metadata_changed {
            Some((Ok((0usize, NextState::MetadataChanged)), Seq::empty()))
        } else {
            Some(constant_record(self.value, len))
        }
    }

    open spec fn fills_ahead(&self, lens: Seq<usize>) -> Option<Seq<FillEntry>> {
        if lens.len() == 0 {
            Some(Seq::empty())
        } else if self.metadata_changed {
            Some(
                seq![((Ok((0usize, NextState::MetadataChanged)), Seq::empty()), self.channel_count, self.sample_rate)]
                    + lens.drop_first().map_values(
                    |len: usize| (constant_record(self.value, len), self.channel_count, self.sample_rate),
                ),
            )
        } else {
            Some(lens.map_values(|len: usize| (constant_record(self.value, len), self.channel_count, self.sample_rate)))
        }
    }

    fn channel_count(&self) -> (r: u16) {
        self.channel_count
    }

    fn sample_rate(&self) -> (r: u32) {
        self.sample_rate
    }

    /// Reports a pending `MetadataChanged` without writing, otherwise fills
    /// the whole buffer with the value.
    fn fill_next_frames(&mut self, buffer: &mut [i16]) -> (r: FillResult)
        ensures
            old(self).metadata_changed ==> {
                &&& r == filled(0, NextState::MetadataChanged)
                &&& final(buffer)@ == old(buffer)@
            },
            !old(self).metadata_changed ==> {
                &&& r == filled(old(buffer)@.len() as int, NextState::Playing)
                &&& final(buffer)@ == Seq::new(old(buffer)@.len(), |i: int| old(self).value)
            },
            *final(self) == (ConstantValueSound { metadata_changed: false, last: final(self).last, log: final(self).log, ..*old(self) }),
    {
        let ghost log0 = self.log@;
        let r = self.fill_frames(buffer);
        proof {
            assert(buffer@.take(0) =~= Seq::<i16>::empty());
            assert(buffer@.take(buffer@.len() as int) =~= buffer@);
        }
        self.last = Ghost(Some(fill_record(r, buffer@)));
        self.log = Ghost(log0.push((fill_record(r, buffer@), self.spec_channel_count(), self.spec_sample_rate())));
        proof {
            let len = old(buffer)@.len() as usize;
            let v = old(self).value;
            let cc = old(self).channel_count;
            let sr = old(self).sample_rate;
            assert forall|rest: Seq<usize>|
                #[trigger] old(self).fills_ahead(seq![len] + rest) is Some implies {
                    let recs = old(self).fills_ahead(seq![len] + rest).unwrap();
                    &&& recs.len() > 0
                    &&& recs[0] == (fill_record(r, buffer@), self.spec_channel_count(), self.spec_sample_rate())
                    &&& self.fills_ahead(rest) == Some(recs.drop_first())
                } by {
                let lens = seq![len] + rest;
                assert(lens.drop_first() =~= rest);
                assert(lens[0] == len);
                if !old(self).metadata_changed {
                    assert(lens.map_values(|l: usize| (constant_record(v, l), cc, sr)).drop_first() =~= rest.map_values(
                        |l: usize| (constant_record(v, l), cc, sr),
                    ));
                    assert(buffer@ =~= Seq::new(len as nat, |i: int| v));
                } else {
                    assert((seq![((Ok((0usize, NextState::MetadataChanged)), Seq::<i16>::empty()), cc, sr)]
                        + lens.drop_first().map_values(|l: usize| (constant_record(v, l), cc, sr))).drop_first()
                        =~= rest.map_values(|l: usize| (constant_record(v, l), cc, sr)));
                    if rest.len() == 0 {
                        assert(rest.map_values(|l: usize| (constant_record(v, l), cc, sr)) =~= Seq::<FillEntry>::empty());
                    }
                }
            }
        }
        r
    }
}

/// The value of a sawtooth after `steps` increments of one, wrapping from the
/// maximum to the minimum `i16`.
pub open spec fn sawtooth_value(start: i16, steps: nat) -> i16
    decreases steps,
{
    if steps == 0 {
        start
    } else {
        vstd::wrapping::i16_specs::wrapping_add(sawtooth_value(start, (steps - 1) as nat), 1)
    }
}

/// The `k`-th next sample of a sawtooth at `value` that is `channel_idx`
/// samples into a frame of `channel_count` samples.
pub open spec fn sawtooth_sample(value: i16, channel_idx: int, channel_count: int, k: int) -> i16 {
    sawtooth_value(value, ((channel_idx + k) / channel_count) as nat)
}

/// Start at 0, increment by 1 every frame until the maximum value then jump
/// to the minimum value and increment by 1 again.
pub struct Sawtooth {
    /// The value of the samples of the current frame.
    pub value: i16,
    /// The number of channels.
    pub channel_count: u16,
    /// The channel of the next sample.
    pub channel_idx: u16,
    /// The reported sample rate.
    pub sample_rate: u32,
    /// What the latest fill gave.
    pub last: Ghost<Option<FillRecord>>,
    /// Every fill made so far.
    pub log: Ghost<Seq<FillEntry>>,
}

impl Sawtooth {
    /// A sawtooth starting at 0 on the first channel.
    #[must_use]
    pub fn new(channel_count: u16, sample_rate: u32) -> (r: Sawtooth)
        requires
            channel_count > 0,
        ensures
            r == (Sawtooth { value: 0, channel_count, channel_idx: 0, sample_rate, last: Ghost(None), log: Ghost(Seq::empty()) }),
            r.wf(),
    {
        Sawtooth { value: 0, channel_count, channel_idx: 0, sample_rate, last: Ghost(None), log: Ghost(Seq::empty()) }
    }

    /// Return the next sample and advance.
    fn advance(&mut self) -> (s: i16)
        requires
            old(self).wf(),
        ensures
            final(self).wf(),
            s == old(self).value,
            final(self).channel_count == old(self).channel_count,
            final(self).sample_rate == old(self).sample_rate,
            final(self).channel_idx as int == (old(self).channel_idx + 1) % (old(self).channel_count as int),
            final(self).value == sawtooth_value(
                old(self).value,
                ((old(self).channel_idx + 1) / (old(self).channel_count as int)) as nat,
            ),
    {
        proof {
            lemma_div_mod_step(self.channel_idx as int, self.channel_count as int);
            vstd::arithmetic::div_mod::lemma_small_mod(self.channel_idx as nat, self.channel_count as nat);
            vstd::arithmetic::div_mod::lemma_basic_div(self.channel_idx as int, self.channel_count as int);
            reveal_with_fuel(sawtooth_value, 2);
        }
        let to_return = self.value;
        self.channel_idx = self.channel_idx + 1;
        if self.channel_idx == self.channel_count {
            self.channel_idx = 0;
            self.value = self.value.wrapping_add(1);
        }
        to_return
    }

    /// The next sample.
    pub fn next_sample(&mut self) -> (r: Result<NextSample, RawedioError>)
        requires
            old(self).wf(),
        ensures
            final(self).wf(),
            r == Ok::<NextSample, RawedioError>(NextSample::Sample(old(self).value)),
            final(self).channel_count == old(self).channel_count,
            final(self).sample_rate == old(self).sample_rate,
            final(self).channel_idx as int == (old(self).channel_idx + 1) % (old(self).channel_count as int),
            final(self).value == sawtooth_value(
                old(self).value,
                ((old(self).channel_idx + 1) / (old(self).channel_count as int)) as nat,
            ),
    {
        Ok(NextSample::Sample(self.advance()))
    }
}

proof fn lemma_sawtooth_value_add(start: i16, a: nat, b: nat)
    ensures
        sawtooth_value(sawtooth_value(start, a), b) == sawtooth_value(start, a + b),
    decreases b,
{
    if b > 0 {
        lemma_sawtooth_value_add(start, a, (b - 1) as nat);
    }
}

impl Sawtooth {
    // The fill itself; `fill_next_frames` records its result.
    fn fill_frames(&mut self, buffer: &mut [i16]) -> (r: FillResult)
        requires
            old(self).wf(),
            buffer_len_ok(old(buffer)@.len()),
        ensures
            final(self).wf(),
            final(buffer)@.len() == old(buffer)@.len(),
            r matches Ok((n, _)) ==> n <= old(buffer)@.len(),
            old(self).infallible() ==> r is Ok && final(self).infallible(),
            old(self).fixed_format() ==> {
                &&& final(self).fixed_format()
                &&& final(self).spec_channel_count() == old(self).spec_channel_count()
                &&& final(self).spec_sample_rate() == old(self).spec_sample_rate()
            },
            r == filled(old(buffer)@.len() as int, NextState::Playing),
            forall|k: int|
                0 <= k < old(buffer)@.len() ==> #[trigger] final(buffer)@[k] == sawtooth_sample(
                    old(self).value,
                    old(self).channel_idx as int,
                    old(self).channel_count as int,
                    k,
                ),
            final(self).channel_count == old(self).channel_count,
            final(self).sample_rate == old(self).sample_rate,
            final(self).channel_idx as int == (old(self).channel_idx + old(buffer)@.len())
                % (old(self).channel_count as int),
            final(self).value == sawtooth_sample(
                old(self).value,
                old(self).channel_idx as int,
                old(self).channel_count as int,
                old(buffer)@.len() as int,
            ),
    {
        let ghost v0 = self.value;
        let ghost c0 = self.channel_idx as int;
        let ghost cc = self.channel_count as int;
        proof {
            vstd::arithmetic::div_mod::lemma_small_mod(c0 as nat, cc as nat);
            vstd::arithmetic::div_mod::lemma_basic_div(c0, cc);
        }
        let mut i: usize = 0;
        while i < buffer.len()
            invariant
                i <= buffer@.len(),
                buffer@.len() == old(buffer)@.len(),
                self.wf(),
                self.channel_count as int == cc,
                self.sample_rate == old(self).sample_rate,
                cc > 0,
                c0 >= 0,
                self.channel_idx as int == (c0 + i) % cc,
                self.value == sawtooth_value(v0, ((c0 + i) / cc) as nat),
                forall|k: int| 0 <= k < i ==> #[trigger] buffer@[k] == sawtooth_sample(v0, c0, cc, k),
            decreases buffer@.len() - i,
        {
            let ghost before = *self;
            let s = self.advance();
            proof {
                lemma_div_mod_step(c0 + i, cc);
                let q = (c0 + i) / cc;
                vstd::arithmetic::div_mod::lemma_fundamental_div_mod(c0 + i, cc);
                if (before.channel_idx + 1) == cc {
                    assert((before.channel_idx + 1) / cc == 1) by {
                        vstd::arithmetic::div_mod::lemma_div_by_self(cc);
                    }
                    lemma_sawtooth_value_add(v0, q as nat, 1);
                    vstd::arithmetic::div_mod::lemma_mod_self_0(cc);
                } else {
                    vstd::arithmetic::div_mod::lemma_basic_div(before.channel_idx + 1, cc);
                    vstd::arithmetic::div_mod::lemma_small_mod((before.channel_idx + 1) as nat, cc as nat);
                }
            }
            buffer[i] = s;
            i = i + 1;
        }
        Ok((buffer.len(), NextState::Playing))
    }
}


impl Sound for Sawtooth {
    open spec fn wf(&self) -> bool {
        self.channel_idx < self.channel_count
    }

    open spec fn spec_channel_count(&self) -> u16 {
        self.channel_count
    }

    open spec fn spec_sample_rate(&self) -> u32 {
        self.sample_rate
    }

    open spec fn infallible(&self) -> bool {
        true
    }

    open spec fn fixed_format(&self) -> bool {
        true
    }

    closed spec fn last_fill(&self) -> Option<FillRecord> {
        self.last@
    }


    closed spec fn fill_log(&self) -> Seq<FillEntry> {

        self.log@

    }

    closed spec fn next_fill(&self, len: usize) -> Option<FillRecord> {
        None
    }

    fn channel_count(&self) -> (r: u16) {
        self.channel_count
    }

    fn sample_rate(&self) -> (r: u32) {
        self.sample_rate
    }

    /// Fills the whole buffer with the next samples of the sawtooth.
    fn fill_next_frames(&mut self, buffer: &mut [i16]) -> (r: FillResult)
        ensures
            r == filled(old(buffer)@.len() as int, NextState::Playing),
            forall|k: int|
                0 <= k < old(buffer)@.len() ==> #[trigger] final(buffer)@[k] == sawtooth_sample(
                    old(self).value,
                    old(self).channel_idx as int,
                    old(self).channel_count as int,
                    k,
                ),
            final(self).channel_count == old(self).channel_count,
            final(self).sample_rate == old(self).sample_rate,
            final(self).channel_idx as int == (old(self).channel_idx + old(buffer)@.len())
                % (old(self).channel_count as int),
            final(self).value == sawtooth_sample(
                old(self).value,
                old(self).channel_idx as int,
                old(self).channel_count as int,
                old(buffer)@.len() as int,
            ),
    {
        let ghost log0 = self.log@;
        let r = self.fill_frames(buffer);
        self.last = Ghost(Some(fill_record(r, buffer@)));
        self.log = Ghost(log0.push((fill_record(r, buffer@), self.spec_channel_count(), self.spec_sample_rate())));
        r
    }
}

} // verus!
