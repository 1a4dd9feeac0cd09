//! Sounds played one after the other.

use vstd::prelude::*;

use crate::sound::{written_by, FillEntry, buffer_len_ok, filled, FillResult, NextState, Sound, FillRecord, fill_record};

verus! {

/// The channel count a `SoundList` without sounds reports.
pub const DEFAULT_CHANNEL_COUNT: u16 = 2;

/// The sample rate a `SoundList` without sounds reports.
pub const DEFAULT_SAMPLE_RATE: u32 = 48000;

/// Every sound of `sounds` keeps its invariant.
pub open spec fn all_wf<S: Sound>(sounds: Seq<S>) -> bool {
    forall|i: int| 0 <= i < sounds.len() ==> #[trigger] sounds[i].wf()
}

/// The result of a list whose first sound's fill gave `inner`, where `more`
/// says whether other sounds follow it: a sound that finished while another
/// follows is reported as a change of metadata, so that the one after it can
/// start with its own format.
pub open spec fn list_result(inner: FillResult, more: bool) -> FillResult {
    match inner {
        Ok((n, NextState::Finished)) => if more {
            Ok((n, NextState::MetadataChanged))
        } else {
            inner
        },
        _ => inner,
    }
}

/// Whether the first sound of a list is taken out after a fill that gave
/// `inner`: it failed or finished.
pub open spec fn inner_stops(inner: FillResult) -> bool {
    inner is Err || inner matches Ok((_, NextState::Finished))
}

/// The fill of an empty list: nothing written, `Finished`, with the default
/// format.
pub open spec fn empty_list_fill() -> FillEntry {
    ((Ok((0usize, NextState::Finished)), Seq::empty()), DEFAULT_CHANNEL_COUNT, DEFAULT_SAMPLE_RATE)
}

/// The channel count and sample rate of a list of `sounds`.
pub open spec fn list_format<S: Sound>(sounds: Seq<S>) -> (u16, u32) {
    if sounds.len() > 0 {
        (sounds[0].spec_channel_count(), sounds[0].spec_sample_rate())
    } else {
        (DEFAULT_CHANNEL_COUNT, DEFAULT_SAMPLE_RATE)
    }
}

/// What successive fills of the lengths `lens` give for a list whose first
/// sound gives `cur` for them and is followed by `rest`: each fill of the
/// first sound is passed on until it fails or finishes; then the list goes
/// on with the sounds of `rest`.
pub open spec fn list_run<S: Sound>(cur: Seq<FillEntry>, rest: Seq<S>, lens: Seq<usize>) -> Option<Seq<FillEntry>>
    decreases lens.len(), 0int,
{
    if lens.len() == 0 {
        Some(Seq::empty())
    } else if cur.len() == 0 {
        None
    } else {
        let e = cur[0];
        if inner_stops(e.0.0) {
            match list_fills_from(rest, lens.drop_first()) {
                Some(tail) => Some(
                    seq![((list_result(e.0.0, rest.len() > 0), e.0.1), list_format(rest).0, list_format(rest).1)]
                        + tail,
                ),
                None => None,
            }
        } else {
            match list_run(cur.drop_first(), rest, lens.drop_first()) {
                Some(tail) => Some(seq![e] + tail),
                None => None,
            }
        }
    }
}

/// What successive fills of the lengths `lens` give for a list of `sounds`
/// with no change of metadata pending, where the sounds promise their fills.
pub open spec fn list_fills_from<S: Sound>(sounds: Seq<S>, lens: Seq<usize>) -> Option<Seq<FillEntry>>
    decreases lens.len(), 1int,
{
    if lens.len() == 0 {
        Some(Seq::empty())
    } else if sounds.len() == 0 {
        Some(lens.map_values(|len: usize| empty_list_fill()))
    } else {
        match sounds[0].fills_ahead(lens) {
            Some(cur) => list_run(cur, sounds.drop_first(), lens),
            None => None,
        }
    }
}

/// Whether `after` is `before` after the start of a batch, as far as its
/// specification tells: the same format, the same fills made, and the same
/// fills promised.
pub open spec fn batch_kept<S: Sound>(before: S, after: S) -> bool {
    &&& after.fixed_format() == before.fixed_format()
    &&& after.spec_channel_count() == before.spec_channel_count()
    &&& after.spec_sample_rate() == before.spec_sample_rate()
    &&& after.last_fill() == before.last_fill()
    &&& after.fill_log() == before.fill_log()
    &&& forall|len: usize| #[trigger] after.next_fill(len) == before.next_fill(len)
    &&& forall|lens: Seq<usize>| #[trigger] after.fills_ahead(lens) == before.fills_ahead(lens)
}

/// A batch start keeps what a list plays next: two lists whose sounds are,
/// one by one, kept as [`batch_kept`] says give the same fills, from the
/// list and from any run of its first sound.
pub proof fn lemma_list_fills_kept<S: Sound>(a: Seq<S>, b: Seq<S>, cur: Seq<FillEntry>, lens: Seq<usize>)
    requires
        a.len() == b.len(),
        forall|i: int| 0 <= i < a.len() ==> batch_kept(#[trigger] a[i], b[i]),
    ensures
        list_fills_from(a, lens) == list_fills_from(b, lens),
        list_run(cur, a, lens) == list_run(cur, b, lens),
    decreases lens.len(), 1int,
{
    lemma_list_run_kept(a, b, cur, lens);
    if lens.len() > 0 && a.len() > 0 {
        assert(batch_kept(a[0], b[0]));
        assert(a[0].fills_ahead(lens) == b[0].fills_ahead(lens));
        match a[0].fills_ahead(lens) {
            Some(c) => {
                lemma_list_run_kept(a.drop_first(), b.drop_first(), c, lens);
                assert forall|i: int| 0 <= i < a.drop_first().len() implies batch_kept(
                    #[trigger] a.drop_first()[i],
                    b.drop_first()[i],
                ) by {
                    assert(batch_kept(a[i + 1], b[i + 1]));
                }
            },
            None => {},
        }
    }
}

// The runs of two lists kept as `batch_kept` says are the same.
proof fn lemma_list_run_kept<S: Sound>(a: Seq<S>, b: Seq<S>, cur: Seq<FillEntry>, lens: Seq<usize>)
    requires
        a.len() == b.len(),
        forall|i: int| 0 <= i < a.len() ==> batch_kept(#[trigger] a[i], b[i]),
    ensures
        list_run(cur, a, lens) == list_run(cur, b, lens),
    decreases lens.len(), 0int,
{
    if lens.len() > 0 && cur.len() > 0 {
        if a.len() > 0 {
            assert(batch_kept(a[0], b[0]));
        }
        assert(list_format(a) == list_format(b));
        if inner_stops(cur[0].0.0) {
            lemma_list_fills_kept(a, b, cur, lens.drop_first());
        } else {
            lemma_list_run_kept(a, b, cur.drop_first(), lens.drop_first());
        }
    }
}

/// No sound of `sounds` ever fails.
pub open spec fn all_infallible<S: Sound>(sounds: Seq<S>) -> bool {
    forall|i: int| 0 <= i < sounds.len() ==> #[trigger] sounds[i].infallible()
}

/// Play Sounds sequentially one after the other.
///
/// The list holds sounds of one type, by default `Box<dyn Sound>` so that
/// any sounds can be mixed in one list.
///
/// Only after a Sound has returned `Finished` will the next Sound start
/// playing.
///
/// If an Error is returned from a Sound it is dropped and the error is
/// propagated to the caller. Calling `fill_next_frames` again continues with
/// the next Sound in the list.
pub struct SoundList<S: Sound = Box<dyn Sound>> {
    sounds: Vec<S>,
    was_empty: bool,
    last: Ghost<Option<FillRecord>>,
    log: Ghost<Seq<FillEntry>>,
}

impl<S: Sound> SoundList<S> {
    /// The sounds still to be played, the current one first.
    pub closed spec fn sounds(&self) -> Seq<S> {
        self.sounds@
    }

    /// Whether sounds were added while the list was empty and the resulting
    /// `MetadataChanged` has not been reported yet.
    pub closed spec fn pending_metadata_change(&self) -> bool {
        self.was_empty
    }

    /// Create a new empty `SoundList`.
    #[must_use]
    pub fn new() -> (r: Self)
        ensures
            r.sounds() == Seq::<S>::empty(),
            !r.pending_metadata_change(),
            r.wf(),
    {
        SoundList { sounds: Vec::new(), was_empty: false, last: Ghost(None), log: Ghost(Seq::empty()) }
    }

    /// A list of the given sounds; the first plays first.
    pub fn from_sounds(sounds: Vec<S>) -> (r: Self)
        requires
            all_wf(sounds@),
        ensures
            r.sounds() == sounds@,
            r.pending_metadata_change() == (sounds@.len() == 0),
            r.wf(),
    {
        let was_empty = sounds.len() == 0;
        SoundList { sounds, was_empty, last: Ghost(None), log: Ghost(Seq::empty()) }
    }

    /// The sounds still to be played, the current one first.
    pub fn into_sounds(self) -> (r: Vec<S>)
        ensures
            r@ == self.sounds(),
    {
        self.sounds
    }

    /// Add a Sound to be played after any existing sounds have `Finished`.
    pub fn add(&mut self, sound: S)
        requires
            old(self).wf(),
            sound.wf(),
        ensures
            final(self).wf(),
            final(self).sounds() == old(self).sounds().push(sound),
            final(self).pending_metadata_change() == (old(self).pending_metadata_change() || old(
                self,
            ).sounds().len() == 0),
    {
        if self.sounds.len() == 0 {
            self.was_empty = true;
        }
        self.sounds.push(sound);
    }

    /// Inserts a sound at position `index`, shifting all sounds after it to
    /// the right. `index` must not be larger than the number of sounds.
    pub fn insert(&mut self, index: usize, sound: S)
        requires
            old(self).wf(),
            sound.wf(),
            index <= old(self).sounds().len(),
        ensures
            final(self).wf(),
            final(self).sounds() == old(self).sounds().insert(index as int, sound),
            final(self).pending_metadata_change() == (old(self).pending_metadata_change() || old(
                self,
            ).sounds().len() == 0),
    {
        if self.sounds.len() == 0 {
            self.was_empty = true;
        }
        self.sounds.insert(index, sound);
    }

    /// Stop all sounds including the currently playing one.
    pub fn clear(&mut self)
        ensures
            final(self).wf(),
            final(self).sounds() == Seq::<S>::empty(),
            final(self).pending_metadata_change() == old(self).pending_metadata_change(),
    {
        self.sounds.clear();
    }

    /// Returns the number of sounds currently in the list.
    #[must_use]
    pub fn len(&self) -> (r: usize)
        ensures
            r == self.sounds().len(),
    {
        self.sounds.len()
    }

    /// Returns `true` if the list is empty.
    #[must_use]
    pub fn is_empty(&self) -> (r: bool)
        ensures
            r == (self.sounds().len() == 0),
    {
        self.sounds.len() == 0
    }
}

impl<S: Sound> Default for SoundList<S> {
    fn default() -> (r: Self)
        ensures
            r.sounds() == Seq::<S>::empty(),
            !r.pending_metadata_change(),
    {
        Self::new()
    }
}

impl<S: Sound> SoundList<S> {
    // The fill itself; `fill_next_frames` records its result.
    fn fill_frames(&mut self, buffer: &mut [i16]) -> (r: FillResult)
        requires
            old(self).wf(),
            buffer_len_ok(old(buffer)@.len()),
        ensures
            final(self).wf(),
            final(buffer)@.len() == old(buffer)@.len(),
            r matches Ok((n, _)) ==> n <= old(buffer)@.len(),
            old(self).infallible() ==> r is Ok && final(self).infallible(),
            old(self).fixed_format() ==> {
                &&& final(self).fixed_format()
                &&& final(self).spec_channel_count() == old(self).spec_channel_count()
                &&& final(self).spec_sample_rate() == old(self).spec_sample_rate()
            },
            old(self).sounds().len() == 0 ==> {
                &&& r == filled(0, NextState::Finished)
                &&& final(buffer)@ == old(buffer)@
                &&& *final(self) == *old(self)
            },
            old(self).sounds().len() > 0 && old(self).pending_metadata_change() ==> {
                &&& r == filled(0, NextState::MetadataChanged)
                &&& final(buffer)@ == old(buffer)@
                &&& final(self).sounds() == old(self).sounds()
                &&& !final(self).pending_metadata_change()
            },
            old(self).sounds().len() > 0 && !old(self).pending_metadata_change() ==> {
                &&& !final(self).pending_metadata_change()
                &&& final(self).sounds() == old(self).sounds().drop_first() || {
                    &&& final(self).sounds().len() == old(self).sounds().len()
                    &&& final(self).sounds().drop_first() == old(self).sounds().drop_first()
                }
                &&& (r is Err || r matches Ok((_, NextState::Finished))) ==> final(self).sounds()
                    == old(self).sounds().drop_first()
                &&& r matches Ok((_, NextState::Finished)) ==> old(self).sounds().len() == 1
                &&& final(self).sounds().len() == old(self).sounds().len() ==> (final(self).sounds()[0].last_fill() matches Some(
                    rec,
                ) && rec.0 == r && rec.1 == written_by(r, final(buffer)@))
                &&& old(self).sounds()[0].next_fill(old(buffer)@.len() as usize) matches Some(rec) ==> fill_record(
                    r,
                    final(buffer)@,
                ) == (list_result(rec.0, old(self).sounds().len() > 1), rec.1)
                &&& forall|rest: Seq<usize>|
                    #[trigger] old(self).sounds()[0].fills_ahead(seq![old(buffer)@.len() as usize] + rest) matches Some(
                        cur,
                    ) ==> {
                        &&& cur.len() > 0
                        &&& fill_record(r, final(buffer)@) == (
                            list_result(cur[0].0.0, old(self).sounds().len() > 1),
                            cur[0].0.1,
                        )
                        &&& inner_stops(cur[0].0.0) ==> final(self).sounds() == old(self).sounds().drop_first()
                        &&& !inner_stops(cur[0].0.0) ==> {
                            &&& final(self).sounds().len() == old(self).sounds().len()
                            &&& final(self).sounds().drop_first() == old(self).sounds().drop_first()
                            &&& final(self).sounds()[0].fills_ahead(rest) == Some(cur.drop_first())
                            &&& cur[0].1 == final(self).sounds()[0].spec_channel_count()
                            &&& cur[0].2 == final(self).sounds()[0].spec_sample_rate()
                        }
                    }
                &&& (r matches Ok((_, NextState::Playing)) || r matches Ok((_, NextState::Paused))) ==> {
                    &&& final(self).sounds().len() == old(self).sounds().len()
                    &&& final(self).sounds().drop_first() == old(self).sounds().drop_first()
                }
            },
    {
        if self.sounds.len() == 0 {
            return Ok((0, NextState::Finished));
        }
        if self.was_empty {
            self.was_empty = false;
            return Ok((0, NextState::MetadataChanged));
        }
        let ghost before = self.sounds@;
        let next_sample = match self.sounds[0].fill_next_frames(buffer) {
            Ok(s) => s,
            Err(e) => {
                self.sounds.remove(0);
                assert(self.sounds@ =~= before.drop_first());
                return Err(e);
            },
        };
        assert(self.sounds@.drop_first() =~= before.drop_first());
        match next_sample {
            (count, NextState::Finished) => {
                self.sounds.remove(0);
                assert(self.sounds@ =~= before.drop_first());
                if self.sounds.len() == 0 {
                    Ok((count, NextState::Finished))
                } else {
                    // The next sound might have different metadata. Instead of
                    // normalizing here let downstream normalize.
                    Ok((count, NextState::MetadataChanged))
                }
            },
            _ => Ok(next_sample),
        }
    }
}


impl<S: Sound> Sound for SoundList<S> {
    closed spec fn wf(&self) -> bool {
        all_wf(self.sounds@)
    }

    open spec fn spec_channel_count(&self) -> u16 {
        if self.sounds().len() > 0 {
            self.sounds()[0].spec_channel_count()
        } else {
            DEFAULT_CHANNEL_COUNT
        }
    }

    open spec fn spec_sample_rate(&self) -> u32 {
        if self.sounds().len() > 0 {
            self.sounds()[0].spec_sample_rate()
        } else {
            DEFAULT_SAMPLE_RATE
        }
    }

    closed spec fn infallible(&self) -> bool {
        all_infallible(self.sounds@)
    }

    closed spec fn fixed_format(&self) -> bool {
        false
    }

    closed spec fn last_fill(&self) -> Option<FillRecord> {
        self.last@
    }


    closed spec fn fill_log(&self) -> Seq<FillEntry> {

        self.log@

    }

    open spec fn fills_ahead(&self, lens: Seq<usize>) -> Option<Seq<FillEntry>> {
        if lens.len() > 0 && self.sounds().len() > 0 && self.pending_metadata_change() {
            match list_fills_from(self.sounds(), lens.drop_first()) {
                Some(tail) => Some(
                    seq![
                        (
                            (Ok((0usize, NextState::MetadataChanged)), Seq::empty()),
                            list_format(self.sounds()).0,
                            list_format(self.sounds()).1,
                        ),
                    ] + tail,
                ),
                None => None,
            }
        } else {
            list_fills_from(self.sounds(), lens)
        }
    }

    open spec fn next_fill(&self, len: usize) -> Option<FillRecord> {
        if self.sounds().len() == 0 {
            Some((Ok((0usize, NextState::Finished)), Seq::empty()))
        } else if self.pending_metadata_change() {
            Some((Ok((0usize, NextState::MetadataChanged)), Seq::empty()))
        } else {
            match self.sounds()[0].next_fill(len) {
                Some(rec) => Some((list_result(rec.0, self.sounds().len() > 1), rec.1)),
                None => None,
            }
        }
    }

    fn channel_count(&self) -> (r: u16) {
        if self.sounds.len() > 0 {
            self.sounds[0].channel_count()
        } else {
            DEFAULT_CHANNEL_COUNT
        }
    }

    fn sample_rate(&self) -> (r: u32) {
        if self.sounds.len() > 0 {
            self.sounds[0].sample_rate()
        } else {
            DEFAULT_SAMPLE_RATE
        }
    }

    fn on_start_of_batch(&mut self)
        ensures
            final(self).sounds().len() == old(self).sounds().len(),
            final(self).pending_metadata_change() == old(self).pending_metadata_change(),
            forall|i: int|
                0 <= i < old(self).sounds().len() ==> batch_kept(#[trigger] old(self).sounds()[i], final(self).sounds()[i]),
    {
        let mut i: usize = 0;
        while i < self.sounds.len()
            invariant
                i <= self.sounds@.len(),
                self.sounds@.len() == old(self).sounds@.len(),
                self.was_empty == old(self).was_empty,
                all_wf(self.sounds@),
                all_infallible(old(self).sounds@) ==> all_infallible(self.sounds@),
                forall|j: int| 0 <= j < i ==> batch_kept(#[trigger] old(self).sounds@[j], self.sounds@[j]),
                forall|j: int| i <= j < self.sounds@.len() ==> #[trigger] self.sounds@[j] == old(self).sounds@[j],
                self.last == old(self).last,
                self.log == old(self).log,
            decreases self.sounds@.len() - i,
        {
            let ghost before = self.sounds@;
            self.sounds[i].on_start_of_batch();
            proof {
                assert forall|j: int| 0 <= j < self.sounds@.len() && j != i implies #[trigger] self.sounds@[j]
                    == before[j] by {}
                assert(batch_kept(old(self).sounds@[i as int], self.sounds@[i as int]));
            }
            i = i + 1;
        }
        proof {
            assert forall|lens: Seq<usize>| #[trigger] self.fills_ahead(lens) == old(self).fills_ahead(lens) by {
                lemma_list_fills_kept(old(self).sounds@, self.sounds@, Seq::empty(), lens);
                if lens.len() > 0 {
                    lemma_list_fills_kept(old(self).sounds@, self.sounds@, Seq::empty(), lens.drop_first());
                }
            }
            if self.sounds@.len() > 0 {
                assert(batch_kept(old(self).sounds@[0], self.sounds@[0]));
            }
        }
    }

    /// An empty list is `Finished`. The first call after sounds were added to
    /// an empty list reports `MetadataChanged` without writing. Otherwise the
    /// first sound fills the buffer; a sound that returns an error or
    /// `Finished` is removed, and a `Finished` becomes `MetadataChanged` when
    /// another sound follows.
    fn fill_next_frames(&mut self, buffer: &mut [i16]) -> (r: FillResult)
        ensures
            old(self).sounds().len() == 0 ==> {
                &&& r == filled(0, NextState::Finished)
                &&& final(buffer)@ == old(buffer)@
                &&& final(self).sounds() == old(self).sounds()
                &&& final(self).pending_metadata_change() == old(self).pending_metadata_change()
            },
            old(self).sounds().len() > 0 && old(self).pending_metadata_change() ==> {
                &&& r == filled(0, NextState::MetadataChanged)
                &&& final(buffer)@ == old(buffer)@
                &&& final(self).sounds() == old(self).sounds()
                &&& !final(self).pending_metadata_change()
            },
            old(self).sounds().len() > 0 && !old(self).pending_metadata_change() ==> {
                &&& !final(self).pending_metadata_change()
                &&& final(self).sounds() == old(self).sounds().drop_first() || {
                    &&& final(self).sounds().len() == old(self).sounds().len()
                    &&& final(self).sounds().drop_first() == old(self).sounds().drop_first()
                }
                &&& (r is Err || r matches Ok((_, NextState::Finished))) ==> final(self).sounds()
                    == old(self).sounds().drop_first()
                &&& r matches Ok((_, NextState::Finished)) ==> old(self).sounds().len() == 1
                &&& final(self).sounds().len() == old(self).sounds().len() ==> (final(self).sounds()[0].last_fill() matches Some(
                    rec,
                ) && rec.0 == r && rec.1 == written_by(r, final(buffer)@))
                &&& old(self).sounds()[0].next_fill(old(buffer)@.len() as usize) matches Some(rec) ==> fill_record(
                    r,
                    final(buffer)@,
                ) == (list_result(rec.0, old(self).sounds().len() > 1), rec.1)
                &&& forall|rest: Seq<usize>|
                    #[trigger] old(self).sounds()[0].fills_ahead(seq![old(buffer)@.len() as usize] + rest) matches Some(
                        cur,
                    ) ==> {
                        &&& cur.len() > 0
                        &&& fill_record(r, final(buffer)@) == (
                            list_result(cur[0].0.0, old(self).sounds().len() > 1),
                            cur[0].0.1,
                        )
                        &&& inner_stops(cur[0].0.0) ==> final(self).sounds() == old(self).sounds().drop_first()
                        &&& !inner_stops(cur[0].0.0) ==> {
                            &&& final(self).sounds().len() == old(self).sounds().len()
                            &&& final(self).sounds().drop_first() == old(self).sounds().drop_first()
                            &&& final(self).sounds()[0].fills_ahead(rest) == Some(cur.drop_first())
                            &&& cur[0].1 == final(self).sounds()[0].spec_channel_count()
                            &&& cur[0].2 == final(self).sounds()[0].spec_sample_rate()
                        }
                    }
                &&& (r matches Ok((_, NextState::Playing)) || r matches Ok((_, NextState::Paused))) ==> {
                    &&& final(self).sounds().len() == old(self).sounds().len()
                    &&& final(self).sounds().drop_first() == old(self).sounds().drop_first()
                }
            },
    {
        let ghost log0 = self.log@;
        let r = self.fill_frames(buffer);
        proof {
            assert(buffer@.take(0) =~= Seq::<i16>::empty());
        }
        self.last = Ghost(Some(fill_record(r, buffer@)));
        self.log = Ghost(log0.push((fill_record(r, buffer@), self.spec_channel_count(), self.spec_sample_rate())));
        proof {
            let len = old(buffer)@.len() as usize;
            assert(buffer@.take(0) =~= Seq::<i16>::empty());
            assert forall|rest: Seq<usize>|
                #[trigger] old(self).fills_ahead(seq![len] + rest) is Some implies {
                    let recs = old(self).fills_ahead(seq![len] + rest).unwrap();
                    &&& recs.len() > 0
                    &&& recs[0] == (fill_record(r, buffer@), self.spec_channel_count(), self.spec_sample_rate())
                    &&& self.fills_ahead(rest) == Some(recs.drop_first())
                } by {
                let lens = seq![len] + rest;
                assert(lens.drop_first() =~= rest);
                assert(lens[0] == len);
                let sounds = old(self).sounds();
                if sounds.len() == 0 {
                    let f = |l: usize| empty_list_fill();
                    assert(lens.map_values(f).drop_first() =~= rest.map_values(f));
                    if rest.len() == 0 {
                        assert(rest.map_values(f) =~= Seq::<FillEntry>::empty());
                    }
                } else if old(self).pending_metadata_change() {
                    let mc: FillEntry = (
                        (Ok((0usize, NextState::MetadataChanged)), Seq::empty()),
                        list_format(sounds).0,
                        list_format(sounds).1,
                    );
                    let tail = list_fills_from(sounds, rest).unwrap();
                    assert((seq![mc] + tail).drop_first() =~= tail);
                } else {
                    let cur = sounds[0].fills_ahead(lens).unwrap();
                    let e = cur[0];
                    if inner_stops(e.0.0) {
                        let more = sounds.drop_first();
                        let out: FillEntry = (
                            (list_result(e.0.0, more.len() > 0), e.0.1),
                            list_format(more).0,
                            list_format(more).1,
                        );
                        let tail = list_fills_from(more, rest).unwrap();
                        assert((seq![out] + tail).drop_first() =~= tail);
                    } else {
                        let tail = list_run(cur.drop_first(), sounds.drop_first(), rest).unwrap();
                        assert((seq![e] + tail).drop_first() =~= tail);
                        if rest.len() == 0 {
                            assert(tail =~= Seq::<FillEntry>::empty());
                        }
                    }
                }
            }
        }
        r
    }
}

} // verus!
