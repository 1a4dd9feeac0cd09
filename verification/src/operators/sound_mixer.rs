//! Several sounds played at the same time.

use vstd::prelude::*;

use crate::operators::index_map::{
    has_key, inserted, inserted_all, key_index, key_removed, keys_distinct, keys_of, lemma_inserted_all_distinct,
    lemma_inserted_distinct, lemma_key_removed_distinct, mixer_entries, mixer_map_clear, mixer_map_drain,
    mixer_map_insert, mixer_map_key_at, mixer_map_len, mixer_map_new, mixer_map_swap_remove, mixer_map_value_mut, MixedSound,
    MixerMap,
};
use crate::sound::{FillEntry, buffer_len_ok, fill_prefix, FillResult, NextState, Sound, MAX_ROUNDS, FillRecord, fill_record};
use crate::wrappers::{converter_type_for, ChannelCountConverter};

verus! {

/// The identifier of a sound added to a [`SoundMixer`].
#[derive(Debug, Copy, Clone, PartialEq, Eq, Hash, PartialOrd, Ord, Structural)]
pub struct SoundId {
    id: u32,
}

impl SoundId {
    /// The number inside the id.
    pub closed spec fn id(self) -> u32 {
        self.id
    }

    /// The id with the given number.
    pub fn from_inner(id: u32) -> (r: SoundId)
        ensures
            r.id() == id,
    {
        SoundId { id }
    }

    /// The number inside the id.
    pub fn into_inner(self) -> (r: u32)
        ensures
            r == self.id(),
    {
        self.id
    }
}

/// `a + b`, clamped to the range of `i16`, as `i16::saturating_add` computes
/// it.
pub open spec fn sat_add(a: i16, b: i16) -> i16 {
    let s = a + b;
    if s > i16::MAX {
        i16::MAX
    } else if s < i16::MIN {
        i16::MIN
    } else {
        s as i16
    }
}

fn saturating_add_i16(a: i16, b: i16) -> (r: i16)
    ensures
        r == sat_add(a, b),
{
    let s = a as i32 + b as i32;
    if s > i16::MAX as i32 {
        i16::MAX
    } else if s < i16::MIN as i32 {
        i16::MIN
    } else {
        s as i16
    }
}

/// What one sound added to one call of [`SoundMixer::fill_next_frames`]:
/// the number of its samples mixed in, the samples it wrote, and the state
/// it reported (`None` for an error).
pub type Contribution = (nat, Seq<i16>, Option<NextState>);

/// Whether contribution `c` is what a sound whose latest fill gave `rec`
/// adds to the mix: an error adds nothing and is reported as `None`; a
/// change of metadata adds nothing; any other state adds the samples the
/// sound wrote.
pub open spec fn reported(rec: Option<FillRecord>, c: Contribution) -> bool {
    match rec {
        None => false,
        Some((res, written)) => match res {
            Err(_) => c.0 == 0 && c.2 == None::<NextState>,
            Ok((n, state)) => {
                &&& c.2 == Some(state)
                &&& c.0 == (if state == NextState::MetadataChanged {
                    0
                } else {
                    n as nat
                })
                &&& c.1.take(c.0 as int) == written.take(c.0 as int)
            },
        },
    }
}

/// Whether a fill that gave `r` is the one the mixer mixes in: any but a
/// `MetadataChanged` before any sample, after which the sound is asked
/// again.
pub open spec fn settles(r: FillResult) -> bool {
    !(r matches Ok((k, NextState::MetadataChanged)) && k == 0)
}

/// `k` lengths of `len` samples each.
pub open spec fn repeated(len: usize, k: nat) -> Seq<usize> {
    Seq::new(k, |i: int| len)
}

/// Whether `fills` are the fills the mixer asks one sound for in one call:
/// the sound is asked again at once while it reports `MetadataChanged`
/// before any sample, so every fill but the last is such a report, and the
/// last one settles, unless the sound was asked `MAX_ROUNDS` times.
pub open spec fn mix_run(fills: Seq<FillEntry>) -> bool {
    &&& 0 < fills.len() <= MAX_ROUNDS
    &&& forall|i: int| 0 <= i < fills.len() - 1 ==> !settles(#[trigger] fills[i].0.0)
    &&& (settles(fills.last().0.0) || fills.len() == MAX_ROUNDS)
}

/// A sound that reports `MetadataChanged` before any sample is asked again
/// within the same mixer call: of a sound whose fills would be `promised`,
/// the fill mixed in is the first promised one that settles, and every one
/// before it was made.
pub proof fn lemma_mixer_asks_again(fills: Seq<FillEntry>, promised: Seq<FillEntry>, j: int)
    requires
        mix_run(fills),
        forall|i: int| 0 <= i < promised.len() && i < fills.len() ==> fills[i] == promised[i],
        0 <= j < promised.len(),
        j < MAX_ROUNDS - 1,
        forall|i: int| 0 <= i < j ==> !settles(#[trigger] promised[i].0.0),
        settles(promised[j].0.0),
    ensures
        fills.len() == j + 1,
        fills.last() == promised[j],
{
    if fills.len() <= j {
        let l = fills.len() - 1;
        assert(fills[l] == promised[l]);
        assert(!settles(promised[l].0.0));
    } else if fills.len() > j + 1 {
        assert(fills[j] == promised[j]);
        assert(!settles(fills[j].0.0));
    }
}

/// Sample `k` of the mix of `c`: the contributions are added one after the
/// other, each saturating, and a contribution only counts at the positions
/// below its count.
pub open spec fn mixed_sample(c: Seq<Contribution>, k: int) -> i16
    decreases c.len(),
{
    if c.len() == 0 {
        0
    } else {
        let prev = mixed_sample(c.drop_last(), k);
        if k < c.last().0 {
            sat_add(prev, c.last().1[k])
        } else {
            prev
        }
    }
}

/// The largest count of the contributions `c`, or zero.
pub open spec fn max_count(c: Seq<Contribution>) -> nat
    decreases c.len(),
{
    if c.len() == 0 {
        0
    } else {
        let prev = max_count(c.drop_last());
        if c.last().0 > prev {
            c.last().0
        } else {
            prev
        }
    }
}

/// A sound that contributes only silence does not change the mix.
pub proof fn lemma_silence_changes_nothing(c: Seq<Contribution>, x: Contribution, k: int)
    requires
        0 <= k,
        forall|i: int| 0 <= i < x.0 ==> #[trigger] x.1[i] == 0,
    ensures
        mixed_sample(c.push(x), k) == mixed_sample(c, k),
{
    assert(c.push(x).drop_last() =~= c);
    if k < x.0 {
        assert(x.1[k] == 0);
    }
}

/// Two sounds are added together, saturating: the mix of two contributions
/// at a position both cover is their saturating sum.
pub proof fn lemma_two_sounds_add(a: Contribution, b: Contribution, k: int)
    requires
        0 <= k < a.0,
        k < b.0,
        -32768 <= a.1[k] + b.1[k] <= 32767,
    ensures
        mixed_sample(seq![a, b], k) == a.1[k] + b.1[k],
{
    let s = seq![a, b];
    assert(s.drop_last() =~= seq![a]);
    assert(seq![a].drop_last() =~= Seq::<Contribution>::empty());
    reveal_with_fuel(mixed_sample, 3);
}

/// The mix never goes beyond what a sample holds, and a position that no
/// contribution covers is silent.
pub proof fn lemma_uncovered_is_silent(c: Seq<Contribution>, k: int)
    requires
        forall|i: int| 0 <= i < c.len() ==> k >= (#[trigger] c[i]).0,
    ensures
        mixed_sample(c, k) == 0,
    decreases c.len(),
{
    if c.len() > 0 {
        assert forall|i: int| 0 <= i < c.drop_last().len() implies k >= (#[trigger] c.drop_last()[i]).0 by {
            assert(c.drop_last()[i] == c[i]);
        }
        lemma_uncovered_is_silent(c.drop_last(), k);
    }
}

/// A sound that reported `report` keeps playing in the same batch.
pub open spec fn keeps_playing(report: Option<NextState>) -> bool {
    report == Some(NextState::Playing)
}

/// A sound that reported `report` waits for the next batch: it paused, or
/// its metadata changed.
pub open spec fn waits_for_batch(report: Option<NextState>) -> bool {
    report == Some(NextState::Paused) || report == Some(NextState::MetadataChanged)
}

/// The sounds to take out after mixing `c`, in the order of the sounds: the
/// id of each sound that does not keep playing, and whether it waits for the
/// next batch (otherwise it is dropped). `ids[i]` is the id of the sound that
/// made `c[i]`.
pub open spec fn removals(ids: Seq<u32>, c: Seq<Contribution>) -> Seq<(u32, bool)>
    decreases c.len(),
{
    if c.len() == 0 {
        Seq::empty()
    } else {
        let prev = removals(ids, c.drop_last());
        let report = c.last().2;
        if keeps_playing(report) {
            prev
        } else {
            prev.push((ids[c.len() - 1], waits_for_batch(report)))
        }
    }
}

/// The playing and the paused sounds after taking out `rem`, last first:
/// each is swap-removed from the playing sounds and, if it waits for the next
/// batch, inserted among the paused ones.
pub open spec fn apply_removals(
    sounds: Seq<(u32, MixedSound)>,
    paused: Seq<(u32, MixedSound)>,
    rem: Seq<(u32, bool)>,
) -> (Seq<(u32, MixedSound)>, Seq<(u32, MixedSound)>)
    decreases rem.len(),
{
    if rem.len() == 0 {
        (sounds, paused)
    } else {
        let k = rem.last().0;
        let moved = if rem.last().1 && has_key(sounds, k) {
            inserted(paused, k, sounds[key_index(sounds, k)].1)
        } else {
            paused
        };
        apply_removals(key_removed(sounds, k), moved, rem.drop_last())
    }
}

/// A contribution whose sound failed or finished.
pub open spec fn dropped(c: Contribution) -> bool {
    c.2 == None::<NextState> || c.2 == Some(NextState::Finished)
}

proof fn lemma_dropped_prefix(
    ids: Seq<u32>,
    c: Seq<Contribution>,
    n: int,
    sounds: Seq<(u32, MixedSound)>,
    paused: Seq<(u32, MixedSound)>,
    k: u32,
    x: int,
)
    requires
        0 <= n <= c.len(),
        ids.len() == c.len(),
        forall|i: int, j: int| 0 <= i < ids.len() && 0 <= j < ids.len() && i != j ==> ids[i] != ids[j],
        keys_distinct(sounds),
        keys_distinct(paused),
        !has_key(paused, k),
        (0 <= x < n && ids[x] == k && dropped(c[x])) || ((forall|i: int| 0 <= i < n ==> ids[i] != k) && !has_key(
            sounds,
            k,
        )),
    ensures
        !has_key(apply_removals(sounds, paused, removals(ids, c.take(n))).0, k),
        !has_key(apply_removals(sounds, paused, removals(ids, c.take(n))).1, k),
    decreases n,
{
    let ct = c.take(n);
    if n == 0 {
        assert(removals(ids, ct) =~= Seq::<(u32, bool)>::empty());
    } else {
        assert(ct.drop_last() =~= c.take(n - 1));
        assert(ct.last() == c[n - 1]);
        let prev = removals(ids, c.take(n - 1));
        if keeps_playing(c[n - 1].2) {
            assert(removals(ids, ct) == prev);
            lemma_dropped_prefix(ids, c, n - 1, sounds, paused, k, x);
        } else {
            let e = (ids[n - 1], waits_for_batch(c[n - 1].2));
            let rem = removals(ids, ct);
            assert(rem == prev.push(e));
            assert(rem.last() == e);
            assert(rem.drop_last() =~= prev);
            let k2 = ids[n - 1];
            let removed = key_removed(sounds, k2);
            lemma_key_removed_distinct(sounds, k2);
            let moved = if e.1 && has_key(sounds, k2) {
                inserted(paused, k2, sounds[key_index(sounds, k2)].1)
            } else {
                paused
            };
            if e.1 && has_key(sounds, k2) {
                lemma_inserted_distinct(paused, k2, sounds[key_index(sounds, k2)].1);
            }
            assert(apply_removals(sounds, paused, rem) == apply_removals(removed, moved, prev));
            if x == n - 1 && ids[x] == k && dropped(c[x]) {
                assert(!e.1);
                assert(moved == paused);
                assert forall|i: int| 0 <= i < n - 1 implies ids[i] != k by {
                    assert(ids[i] != ids[n - 1]);
                }
                lemma_dropped_prefix(ids, c, n - 1, removed, moved, k, x);
            } else {
                assert(k2 != k);
                assert(!has_key(moved, k));
                lemma_dropped_prefix(ids, c, n - 1, removed, moved, k, x);
            }
        }
    }
}

/// A sound that failed or finished is dropped: after the sounds `s` made the
/// contributions `c`, in their order, and were taken out as the mixer takes
/// them out, its id is neither among the playing nor among the paused
/// sounds.
pub proof fn lemma_dropped_is_gone(
    s: Seq<(u32, MixedSound)>,
    paused: Seq<(u32, MixedSound)>,
    c: Seq<Contribution>,
    x: int,
)
    requires
        s.len() == c.len(),
        0 <= x < c.len(),
        keys_distinct(s),
        keys_distinct(paused),
        !has_key(paused, s[x].0),
        dropped(c[x]),
    ensures
        !has_key(apply_removals(s, paused, removals(keys_of(s), c)).0, s[x].0),
        !has_key(apply_removals(s, paused, removals(keys_of(s), c)).1, s[x].0),
{
    let ids = keys_of(s);
    assert forall|i: int, j: int| 0 <= i < ids.len() && 0 <= j < ids.len() && i != j implies ids[i] != ids[j] by {
        assert(ids[i] == s[i].0 && ids[j] == s[j].0);
    }
    assert(c.take(c.len() as int) =~= c);
    lemma_dropped_prefix(ids, c, c.len() as int, s, paused, s[x].0, x);
}

/// Every sound of `s` keeps its invariant and has `channel_count` channels.
pub open spec fn all_mixable(s: Seq<(u32, MixedSound)>, channel_count: u16) -> bool {
    forall|i: int|
        0 <= i < s.len() ==> (#[trigger] s[i]).1.wf() && s[i].1.spec_channel_count() == channel_count
}

/// Every sound of `s` can be converted to `channel_count` channels.
pub open spec fn all_convertible(s: Seq<(u32, MixedSound)>, channel_count: u16) -> bool {
    forall|i: int|
        0 <= i < s.len() ==> ChannelCountConverter::<Box<dyn Sound>>::supported(
            (#[trigger] s[i]).1.wrapped().spec_channel_count(),
            channel_count,
        )
}

proof fn lemma_inserted_mixable(s: Seq<(u32, MixedSound)>, k: u32, v: MixedSound, cc: u16)
    requires
        all_mixable(s, cc),
        v.wf(),
        v.spec_channel_count() == cc,
    ensures
        all_mixable(inserted(s, k, v), cc),
{
    let r = inserted(s, k, v);
    assert forall|i: int| 0 <= i < r.len() implies (#[trigger] r[i]).1.wf() && r[i].1.spec_channel_count() == cc by {
        if has_key(s, k) {
            if i != key_index(s, k) {
                assert(r[i] == s[i]);
            }
        } else {
            if i < s.len() {
                assert(r[i] == s[i]);
            }
        }
    }
}

proof fn lemma_key_removed_mixable(s: Seq<(u32, MixedSound)>, k: u32, cc: u16)
    requires
        all_mixable(s, cc),
    ensures
        all_mixable(key_removed(s, k), cc),
{
    let r = key_removed(s, k);
    if has_key(s, k) {
        let j = key_index(s, k);
        assert forall|i: int| 0 <= i < r.len() implies (#[trigger] r[i]).1.wf() && r[i].1.spec_channel_count() == cc by {
            if i == j {
                assert(r[i] == s[s.len() - 1]);
            } else {
                assert(r[i] == s[i]);
            }
        }
    }
}

proof fn lemma_apply_removals_ok(
    sounds: Seq<(u32, MixedSound)>,
    paused: Seq<(u32, MixedSound)>,
    rem: Seq<(u32, bool)>,
    cc: u16,
)
    requires
        all_mixable(sounds, cc),
        all_mixable(paused, cc),
        keys_distinct(sounds),
        keys_distinct(paused),
    ensures
        all_mixable(apply_removals(sounds, paused, rem).0, cc),
        all_mixable(apply_removals(sounds, paused, rem).1, cc),
        keys_distinct(apply_removals(sounds, paused, rem).0),
        keys_distinct(apply_removals(sounds, paused, rem).1),
    decreases rem.len(),
{
    if rem.len() > 0 {
        let k = rem.last().0;
        let moved = if rem.last().1 && has_key(sounds, k) {
            inserted(paused, k, sounds[key_index(sounds, k)].1)
        } else {
            paused
        };
        if rem.last().1 && has_key(sounds, k) {
            lemma_inserted_mixable(paused, k, sounds[key_index(sounds, k)].1, cc);
            lemma_inserted_distinct(paused, k, sounds[key_index(sounds, k)].1);
        }
        lemma_key_removed_mixable(sounds, k, cc);
        lemma_key_removed_distinct(sounds, k);
        lemma_apply_removals_ok(key_removed(sounds, k), moved, rem.drop_last(), cc);
    }
}

} // verus!

verus! {

/// The state a mixer reports after mixing: `Playing` while some sound plays,
/// `Paused` while only paused sounds are left, `Finished` without sounds.
pub open spec fn mixer_state(any_playing: bool, any_paused: bool) -> NextState {
    if any_playing {
        NextState::Playing
    } else if any_paused {
        NextState::Paused
    } else {
        NextState::Finished
    }
}

/// Mix multiple sounds together to be played simultaneously.
///
/// Every added sound is converted to the mixer's channel count. If a sound
/// returns an error from `fill_next_frames`, the sound is dropped but other
/// sounds keep playing. A sound that pauses, or whose metadata changes in the
/// middle of a frame, waits until the next batch.
pub struct SoundMixer {
    sounds: MixerMap,
    paused_sounds: MixerMap,
    next_sound_id: u32,
    output_channel_count: u16,
    output_sample_rate: u32,
    metadata_changed: bool,
    next_output_channel_idx: u16,
    scratch_buffer: Vec<i16>,
    to_remove: Vec<(u32, bool)>,
    contributions: Ghost<Seq<Contribution>>,
    filled: Ghost<Seq<(u32, MixedSound)>>,
    last: Ghost<Option<FillRecord>>,
    log: Ghost<Seq<FillEntry>>,
}

// Let `sound` fill the first `len` samples of `scratch`, again while it
// reports a `MetadataChanged` before writing anything, and return how many of
// its samples to mix in with the state it reported (`None` for an error). A
// sound that reports `MetadataChanged` after writing samples is mixed in with
// none of them; one that keeps reporting `MetadataChanged` for `MAX_ROUNDS`
// calls is treated as such.
fn fill_one(sound: &mut MixedSound, scratch: &mut Vec<i16>, len: usize) -> (r: (usize, Option<NextState>))
    requires
        old(sound).wf(),
        len <= old(scratch)@.len(),
        buffer_len_ok(old(scratch)@.len()),
    ensures
        final(sound).wf(),
        final(sound).spec_channel_count() == old(sound).spec_channel_count(),
        final(scratch)@.len() == old(scratch)@.len(),
        r.0 <= len,
        (r.1 == None::<NextState> || r.1 == Some(NextState::MetadataChanged)) ==> r.0 == 0,
        old(sound).infallible() ==> r.1 is Some && final(sound).infallible(),
        reported(final(sound).last_fill(), (r.0 as nat, final(scratch)@.subrange(0, len as int), r.1)),
        old(sound).next_fill(len) matches Some(rec) ==> (settles(rec.0) ==> final(sound).last_fill() == Some(rec)),
        forall|rest: Seq<usize>|
            #[trigger] old(sound).fills_ahead(seq![len] + rest) matches Some(recs) ==> (recs.len() > 0 && settles(
                recs[0].0.0,
            ) ==> final(sound).last_fill() == Some(recs[0].0) && final(sound).fills_ahead(rest) == Some(recs.drop_first())),
        final(sound).fill_log().take(old(sound).fill_log().len() as int) == old(sound).fill_log(),
        mix_run(final(sound).fill_log().skip(old(sound).fill_log().len() as int)),
        final(sound).fill_log().len() > 0 && final(sound).last_fill() == Some(final(sound).fill_log().last().0),
        forall|k: nat|
            #[trigger] old(sound).fills_ahead(repeated(len, k)) matches Some(recs) ==> forall|i: int|
                0 <= i < k && i < final(sound).fill_log().skip(old(sound).fill_log().len() as int).len()
                    ==> final(sound).fill_log().skip(old(sound).fill_log().len() as int)[i] == recs[i],
{
    let ghost log0 = sound.fill_log();
    let ghost mut fills: Seq<FillEntry> = Seq::empty();
    proof {
        assert(sound.fill_log().take(log0.len() as int) =~= log0);
        assert forall|k: nat|
            #[trigger] old(sound).fills_ahead(repeated(len, k)) is Some implies k >= fills.len() ==> sound.fills_ahead(
                repeated(len, (k - fills.len()) as nat),
            ) == Some(old(sound).fills_ahead(repeated(len, k)).unwrap().skip(fills.len() as int)) && fills.len()
                <= old(sound).fills_ahead(repeated(len, k)).unwrap().len() by {
            assert(old(sound).fills_ahead(repeated(len, k)).unwrap().skip(0) =~= old(sound).fills_ahead(
                repeated(len, k),
            ).unwrap());
        }
    }
    let mut rounds: u64 = 0;
    while rounds < MAX_ROUNDS
        invariant
            sound.wf(),
            sound.spec_channel_count() == old(sound).spec_channel_count(),
            scratch@.len() == old(scratch)@.len(),
            len <= scratch@.len(),
            buffer_len_ok(scratch@.len()),
            old(sound).infallible() ==> sound.infallible(),
            rounds > 0 ==> reported(
                sound.last_fill(),
                (0nat, scratch@.subrange(0, len as int), Some(NextState::MetadataChanged)),
            ),
            rounds == 0 ==> *sound == *old(sound),
            rounds > 0 ==> !(old(sound).next_fill(len) matches Some(rec) && settles(rec.0)),
            rounds > 0 ==> forall|rest: Seq<usize>|
                #[trigger] old(sound).fills_ahead(seq![len] + rest) matches Some(recs) ==> !(recs.len() > 0
                    && settles(recs[0].0.0)),
            log0 == old(sound).fill_log(),
            fills.len() == rounds,
            sound.fill_log() == log0 + fills,
            forall|i: int| 0 <= i < fills.len() ==> !settles(#[trigger] fills[i].0.0),
            rounds > 0 ==> sound.last_fill() == Some(fills.last().0),
            forall|k: nat|
                #[trigger] old(sound).fills_ahead(repeated(len, k)) matches Some(recs) ==> {
                    &&& forall|i: int| 0 <= i < k && i < fills.len() ==> fills[i] == recs[i]
                    &&& k >= fills.len() ==> sound.fills_ahead(repeated(len, (k - fills.len()) as nat)) == Some(
                        recs.skip(fills.len() as int),
                    )
                    &&& k >= fills.len() ==> fills.len() <= recs.len()
                },
        decreases MAX_ROUNDS - rounds,
    {
        let ghost s0 = scratch@;
        let ghost before = *sound;
        let (head, _tail) = scratch.as_mut_slice().split_at_mut(len);
        let res = sound.fill_next_frames(head);
        proof {
            assert(head@.len() == len);
            assert forall|rest: Seq<usize>|
                #[trigger] old(sound).fills_ahead(seq![len] + rest) is Some && rounds == 0 implies {
                    let recs = old(sound).fills_ahead(seq![len] + rest).unwrap();
                    &&& recs.len() > 0
                    &&& recs[0].0 == fill_record(res, head@)
                    &&& sound.fills_ahead(rest) == Some(recs.drop_first())
                } by {}
            assert(scratch@.subrange(0, len as int) =~= head@);
            match res {
                Ok((c, _)) => {
                    assert(head@.take(c as int).take(c as int) =~= head@.take(c as int));
                    assert(head@.take(0) =~= head@.take(c as int).take(0));
                },
                Err(_) => {},
            }
            let entry: FillEntry = (fill_record(res, head@), sound.spec_channel_count(), sound.spec_sample_rate());
            let n = fills.len();
            assert(log0 + fills.push(entry) =~= (log0 + fills).push(entry));
            assert(fills.push(entry)[n as int] == entry);
            assert forall|k: nat|
                #[trigger] old(sound).fills_ahead(repeated(len, k)) is Some implies {
                    let recs = old(sound).fills_ahead(repeated(len, k)).unwrap();
                    &&& forall|i: int| 0 <= i < k && i < fills.push(entry).len() ==> fills.push(entry)[i] == recs[i]
                    &&& k >= fills.push(entry).len() ==> sound.fills_ahead(repeated(len, (k - fills.push(entry).len()) as nat))
                        == Some(recs.skip(fills.push(entry).len() as int))
                    &&& k >= fills.push(entry).len() ==> fills.push(entry).len() <= recs.len()
                } by {
                let recs = old(sound).fills_ahead(repeated(len, k)).unwrap();
                if k > n {
                    let rest = repeated(len, (k - n - 1) as nat);
                    assert(repeated(len, (k - n) as nat) =~= seq![len] + rest);
                    assert(before.fills_ahead(seq![len] + rest) == Some(recs.skip(n as int)));
                    assert(recs.skip(n as int).len() > 0);
                    assert(recs.skip(n as int)[0] == entry);
                    assert(recs.skip(n as int)[0] == recs[n as int]);
                    assert(recs.skip(n as int).drop_first() =~= recs.skip(n as int + 1));
                    assert forall|i: int| 0 <= i < k && i < fills.push(entry).len() implies fills.push(entry)[i] == recs[i] by {
                        if i < n {
                            assert(fills.push(entry)[i] == fills[i]);
                        }
                    }
                } else {
                    assert forall|i: int| 0 <= i < k && i < fills.push(entry).len() implies fills.push(entry)[i] == recs[i] by {
                        assert(fills.push(entry)[i] == fills[i]);
                    }
                }
            }
            assert forall|i: int| 0 <= i < n implies #[trigger] fills.push(entry)[i] == fills[i] by {}
            fills = fills.push(entry);
            assert(sound.fill_log().skip(log0.len() as int) =~= fills);
            assert(sound.fill_log().take(log0.len() as int) =~= log0);
        }
        match res {
            Ok((count, NextState::Playing)) => return (count, Some(NextState::Playing)),
            Ok((count, NextState::MetadataChanged)) => {
                if count != 0 {
                    return (0, Some(NextState::MetadataChanged));
                }
            },
            Ok((count, NextState::Paused)) => return (count, Some(NextState::Paused)),
            Ok((count, NextState::Finished)) => return (count, Some(NextState::Finished)),
            Err(_) => return (0, None),
        }
        rounds = rounds + 1;
    }
    (0, Some(NextState::MetadataChanged))
}

// Add the first `count` samples of `scratch` onto `buffer`, saturating.
fn accumulate(buffer: &mut [i16], scratch: &Vec<i16>, count: usize)
    requires
        count <= old(buffer)@.len(),
        count <= scratch@.len(),
    ensures
        final(buffer)@.len() == old(buffer)@.len(),
        forall|j: int| 0 <= j < count ==> #[trigger] final(buffer)@[j] == sat_add(old(buffer)@[j], scratch@[j]),
        forall|j: int| count <= j < old(buffer)@.len() ==> #[trigger] final(buffer)@[j] == old(buffer)@[j],
{
    let mut k: usize = 0;
    while k < count
        invariant
            k <= count,
            count <= buffer@.len(),
            count <= scratch@.len(),
            buffer@.len() == old(buffer)@.len(),
            forall|j: int| 0 <= j < k ==> #[trigger] buffer@[j] == sat_add(old(buffer)@[j], scratch@[j]),
            forall|j: int| k <= j < buffer@.len() ==> #[trigger] buffer@[j] == old(buffer)@[j],
        decreases count - k,
    {
        let v = saturating_add_i16(buffer[k], scratch[k]);
        buffer[k] = v;
        k = k + 1;
    }
}

impl SoundMixer {
    /// The playing sounds with their ids, in the mixer's order.
    pub closed spec fn sound_entries(&self) -> Seq<(u32, MixedSound)> {
        mixer_entries(self.sounds)
    }

    /// The sounds waiting for the next batch, with their ids.
    pub closed spec fn paused_entries(&self) -> Seq<(u32, MixedSound)> {
        mixer_entries(self.paused_sounds)
    }

    /// The id the next added sound gets.
    pub closed spec fn next_id(&self) -> u32 {
        self.next_sound_id
    }

    /// Whether a change of the output format has not been reported yet.
    pub closed spec fn metadata_pending(&self) -> bool {
        self.metadata_changed
    }

    /// The output channel the next sample is for.
    pub closed spec fn next_channel(&self) -> u16 {
        self.next_output_channel_idx
    }

    /// What each playing sound added to the last mix, in the order of the
    /// sounds.
    pub closed spec fn last_contributions(&self) -> Seq<Contribution> {
        self.contributions@
    }

    /// The playing sounds right after they filled the last mix, before the
    /// paused and finished ones were taken out.
    pub closed spec fn last_filled(&self) -> Seq<(u32, MixedSound)> {
        self.filled@
    }

    /// Create a new empty sound mixer with an output channel count and
    /// sample rate that all added sounds will be converted to. The channel
    /// count must not be zero.
    #[must_use]
    pub fn new(output_channel_count: u16, output_sample_rate: u32) -> (r: Self)
        requires
            output_channel_count > 0,
        ensures
            r.wf(),
            r.sound_entries() == Seq::<(u32, MixedSound)>::empty(),
            r.paused_entries() == Seq::<(u32, MixedSound)>::empty(),
            r.next_id() == 0,
            r.spec_channel_count() == output_channel_count,
            r.spec_sample_rate() == output_sample_rate,
            !r.metadata_pending(),
            r.next_channel() == 0,
    {
        SoundMixer {
            sounds: mixer_map_new(),
            paused_sounds: mixer_map_new(),
            next_sound_id: 0,
            output_channel_count,
            output_sample_rate,
            metadata_changed: false,
            next_output_channel_idx: 0,
            scratch_buffer: Vec::new(),
            to_remove: Vec::new(),
            contributions: Ghost(Seq::empty()),
            filled: Ghost(Seq::empty()),
            last: Ghost(None),
            log: Ghost(Seq::empty()),
        }
    }
}

impl SoundMixer {
    // The fill itself; `fill_next_frames` records its result.
    fn fill_frames(&mut self, buffer: &mut [i16]) -> (r: FillResult)
        requires
            old(self).wf(),
            buffer_len_ok(old(buffer)@.len()),
        ensures
            final(self).wf(),
            final(buffer)@.len() == old(buffer)@.len(),
            r matches Ok((n, _)) ==> n <= old(buffer)@.len(),
            old(self).infallible() ==> r is Ok && final(self).infallible(),
            old(self).fixed_format() ==> {
                &&& final(self).fixed_format()
                &&& final(self).spec_channel_count() == old(self).spec_channel_count()
                &&& final(self).spec_sample_rate() == old(self).spec_sample_rate()
            },
            r is Ok,
            final(self).spec_channel_count() == old(self).spec_channel_count(),
            final(self).spec_sample_rate() == old(self).spec_sample_rate(),
            final(self).next_id() == old(self).next_id(),
            !final(self).metadata_pending(),
            old(self).metadata_pending() ==> {
                &&& r == Ok::<(usize, NextState), crate::error::RawedioError>((0, NextState::MetadataChanged))
                &&& final(buffer)@ == old(buffer)@
                &&& final(self).sound_entries() == old(self).sound_entries()
                &&& final(self).paused_entries() == old(self).paused_entries()
                &&& final(self).next_channel() == old(self).next_channel()
            },
            !old(self).metadata_pending() ==> {
                let c = final(self).last_contributions();
                let f = final(self).last_filled();
                let len = old(buffer)@.len();
                &&& c.len() == old(self).sound_entries().len()
                &&& keys_of(f) == keys_of(old(self).sound_entries())
                &&& forall|x: int| 0 <= x < c.len() ==> reported(#[trigger] f[x].1.last_fill(), c[x])
                &&& forall|x: int|
                    0 <= x < c.len() ==> (old(self).sound_entries()[x].1.next_fill(len as usize) matches Some(rec)
                        ==> (settles(rec.0) ==> #[trigger] f[x].1.last_fill() == Some(rec)))
                &&& forall|x: int|
                    0 <= x < c.len() ==> {
                        let l0 = old(self).sound_entries()[x].1.fill_log();
                        let fl = (#[trigger] f[x]).1.fill_log();
                        &&& fl.take(l0.len() as int) == l0
                        &&& mix_run(fl.skip(l0.len() as int))
                        &&& fl.len() > 0 && f[x].1.last_fill() == Some(fl.last().0)
                    }
                &&& forall|x: int, k: nat|
                    0 <= x < c.len() ==> (#[trigger] old(self).sound_entries()[x].1.fills_ahead(repeated(len as usize, k))
                        matches Some(recs) ==> forall|i: int|
                        0 <= i < k && i < f[x].1.fill_log().skip(old(self).sound_entries()[x].1.fill_log().len() as int).len()
                            ==> f[x].1.fill_log().skip(old(self).sound_entries()[x].1.fill_log().len() as int)[i] == recs[i])
                &&& forall|x: int, rest: Seq<usize>|
                    0 <= x < c.len() ==> (#[trigger] old(self).sound_entries()[x].1.fills_ahead(seq![len as usize] + rest)
                        matches Some(recs) ==> (recs.len() > 0 && settles(recs[0].0.0) ==> f[x].1.last_fill() == Some(recs[0].0) && f[x].1.fills_ahead(rest)
                        == Some(recs.drop_first())))
                &&& forall|x: int|
                    0 <= x < c.len() ==> {
                        &&& (#[trigger] c[x]).0 <= len
                        &&& c[x].1.len() == len
                        &&& (c[x].2 == None::<NextState> || c[x].2 == Some(NextState::MetadataChanged))
                            ==> c[x].0 == 0
                    }
                &&& forall|k: int| 0 <= k < len ==> #[trigger] final(buffer)@[k] == mixed_sample(c, k)
                &&& (final(self).sound_entries(), final(self).paused_entries()) == apply_removals(
                    f,
                    old(self).paused_entries(),
                    removals(keys_of(f), c),
                )
                &&& final(self).next_channel() == (old(self).next_channel() + max_count(c)) % (old(
                    self,
                ).spec_channel_count() as int)
                &&& r == Ok::<(usize, NextState), crate::error::RawedioError>((
                    (if final(self).sound_entries().len() > 0 {
                        len
                    } else {
                        max_count(c)
                    }) as usize,
                    mixer_state(
                        final(self).sound_entries().len() > 0,
                        final(self).paused_entries().len() > 0,
                    ),
                ))
            },
    {
        if self.metadata_changed {
            self.metadata_changed = false;
            return Ok((0, NextState::MetadataChanged));
        }
        let len = buffer.len();
        if self.scratch_buffer.len() < len {
            self.scratch_buffer.resize(len, 0);
        }
        let mut k: usize = 0;
        while k < len
            invariant
                k <= len,
                buffer@.len() == len,
                forall|j: int| 0 <= j < k ==> #[trigger] buffer@[j] == 0,
            decreases len - k,
        {
            buffer[k] = 0;
            k = k + 1;
        }
        let ghost entries0 = mixer_entries(self.sounds);
        let ghost keys = keys_of(entries0);
        let n = mixer_map_len(&self.sounds);
        let mut max_written: usize = 0;
        let ghost mut cs: Seq<Contribution> = Seq::empty();
        let mut i: usize = 0;
        while i < n
            invariant
                i <= n,
                n == mixer_entries(self.sounds).len(),
                keys == keys_of(entries0),
                keys.len() == n,
                forall|x: int| 0 <= x < n ==> #[trigger] mixer_entries(self.sounds)[x].0 == keys[x],
                all_mixable(mixer_entries(self.sounds), self.output_channel_count),
                self.output_channel_count == old(self).output_channel_count,
                self.output_sample_rate == old(self).output_sample_rate,
                self.next_sound_id == old(self).next_sound_id,
                self.next_output_channel_idx == old(self).next_output_channel_idx,
                self.paused_sounds == old(self).paused_sounds,
                !self.metadata_changed,
                buffer@.len() == len,
                len <= self.scratch_buffer@.len(),
                buffer_len_ok(self.scratch_buffer@.len()),
                cs.len() == i,
                forall|x: int|
                    0 <= x < i ==> {
                        &&& (#[trigger] cs[x]).0 <= len
                        &&& cs[x].1.len() == len
                        &&& (cs[x].2 == None::<NextState> || cs[x].2 == Some(NextState::MetadataChanged))
                            ==> cs[x].0 == 0
                    },
                forall|j: int| 0 <= j < len ==> #[trigger] buffer@[j] == mixed_sample(cs, j),
                self.to_remove@ == removals(keys, cs),
                max_written == max_count(cs),
                max_written <= len,
                forall|x: int| 0 <= x < i ==> reported(#[trigger] mixer_entries(self.sounds)[x].1.last_fill(), cs[x]),
                entries0 == mixer_entries(old(self).sounds),
                forall|x: int| i <= x < n ==> #[trigger] mixer_entries(self.sounds)[x] == entries0[x],
                forall|x: int|
                    0 <= x < i ==> (entries0[x].1.next_fill(len as usize) matches Some(rec)
                        ==> (settles(rec.0) ==> #[trigger] mixer_entries(self.sounds)[x].1.last_fill() == Some(rec))),
                forall|x: int|
                    0 <= x < i ==> {
                        let l0 = entries0[x].1.fill_log();
                        let fl = (#[trigger] mixer_entries(self.sounds)[x]).1.fill_log();
                        &&& fl.take(l0.len() as int) == l0
                        &&& mix_run(fl.skip(l0.len() as int))
                        &&& fl.len() > 0 && mixer_entries(self.sounds)[x].1.last_fill() == Some(fl.last().0)
                    },
                forall|x: int, k: nat|
                    0 <= x < i ==> (#[trigger] entries0[x].1.fills_ahead(repeated(len as usize, k)) matches Some(recs)
                        ==> forall|j: int|
                        0 <= j < k && j < mixer_entries(self.sounds)[x].1.fill_log().skip(entries0[x].1.fill_log().len() as int).len()
                            ==> mixer_entries(self.sounds)[x].1.fill_log().skip(entries0[x].1.fill_log().len() as int)[j] == recs[j]),
                forall|x: int, rest: Seq<usize>|
                    0 <= x < i ==> (#[trigger] entries0[x].1.fills_ahead(seq![len as usize] + rest) matches Some(recs)
                        ==> (recs.len() > 0 && settles(recs[0].0.0) ==> mixer_entries(self.sounds)[x].1.last_fill() == Some(recs[0].0) && mixer_entries(self.sounds)[x].1.fills_ahead(rest)
                        == Some(recs.drop_first()))),
            decreases n - i,
        {
            let id = mixer_map_key_at(&self.sounds, i);
            let ghost before = mixer_entries(self.sounds);
            let sound = mixer_map_value_mut(&mut self.sounds, i);
            let (count, report) = fill_one(sound, &mut self.scratch_buffer, len);
            proof {
                assert(mixer_entries(self.sounds) == before.update(i as int, (before[i as int].0, *sound)));
            }
            let ghost samples = self.scratch_buffer@.subrange(0, len as int);
            let ghost buf_before = buffer@;
            accumulate(buffer, &self.scratch_buffer, count);
            let ghost entry: Contribution = (count as nat, samples, report);
            proof {
                let cs2 = cs.push(entry);
                assert(cs2.drop_last() =~= cs);
                assert forall|j: int| 0 <= j < len implies #[trigger] buffer@[j] == mixed_sample(cs2, j) by {
                    if j < count {
                        assert(buffer@[j] == sat_add(buf_before[j], self.scratch_buffer@[j]));
                    }
                }
                assert forall|x: int| 0 <= x < n implies #[trigger] mixer_entries(self.sounds)[x].0 == keys[x] by {
                    if x != i {
                        assert(mixer_entries(self.sounds)[x] == before[x]);
                    }
                }
                assert forall|x: int| i + 1 <= x < n implies #[trigger] mixer_entries(self.sounds)[x] == entries0[x] by {
                    assert(mixer_entries(self.sounds)[x] == before[x]);
                }
                assert forall|x: int|
                    0 <= x < i + 1 implies (entries0[x].1.next_fill(len as usize) matches Some(rec)
                        ==> (settles(rec.0) ==> #[trigger] mixer_entries(self.sounds)[x].1.last_fill() == Some(rec))) by {
                    if x != i {
                        assert(mixer_entries(self.sounds)[x] == before[x]);
                    } else {
                        assert(before[x] == entries0[x]);
                    }
                }
                assert forall|x: int| 0 <= x < i + 1 implies {
                    let l0 = entries0[x].1.fill_log();
                    let fl = (#[trigger] mixer_entries(self.sounds)[x]).1.fill_log();
                    &&& fl.take(l0.len() as int) == l0
                    &&& mix_run(fl.skip(l0.len() as int))
                    &&& fl.len() > 0 && mixer_entries(self.sounds)[x].1.last_fill() == Some(fl.last().0)
                } by {
                    if x != i {
                        assert(mixer_entries(self.sounds)[x] == before[x]);
                    } else {
                        assert(before[x] == entries0[x]);
                    }
                }
                assert forall|x: int, k: nat|
                    0 <= x < i + 1 && #[trigger] entries0[x].1.fills_ahead(repeated(len as usize, k)) is Some implies {
                        let recs = entries0[x].1.fills_ahead(repeated(len as usize, k)).unwrap();
                        forall|j: int|
                            0 <= j < k && j < mixer_entries(self.sounds)[x].1.fill_log().skip(entries0[x].1.fill_log().len() as int).len()
                                ==> mixer_entries(self.sounds)[x].1.fill_log().skip(entries0[x].1.fill_log().len() as int)[j] == recs[j]
                    } by {
                    if x != i {
                        assert(mixer_entries(self.sounds)[x] == before[x]);
                    } else {
                        assert(before[x] == entries0[x]);
                    }
                }
                assert forall|x: int, rest: Seq<usize>|
                    0 <= x < i + 1 && #[trigger] entries0[x].1.fills_ahead(seq![len as usize] + rest) is Some implies {
                        let recs = entries0[x].1.fills_ahead(seq![len as usize] + rest).unwrap();
                        recs.len() > 0 && settles(recs[0].0.0) ==> mixer_entries(self.sounds)[x].1.last_fill() == Some(recs[0].0) && mixer_entries(self.sounds)[x].1.fills_ahead(rest)
                            == Some(recs.drop_first())
                    } by {
                    if x != i {
                        assert(mixer_entries(self.sounds)[x] == before[x]);
                    } else {
                        assert(before[x] == entries0[x]);
                    }
                }
                assert forall|x: int| 0 <= x < i + 1 implies reported(
                    #[trigger] mixer_entries(self.sounds)[x].1.last_fill(),
                    cs2[x],
                ) by {
                    if x != i {
                        assert(mixer_entries(self.sounds)[x] == before[x]);
                        assert(cs2[x] == cs[x]);
                    } else {
                        assert(cs2[x] == entry);
                    }
                }
                assert forall|x: int|
                    0 <= x < n implies (#[trigger] mixer_entries(self.sounds)[x]).1.wf()
                        && mixer_entries(self.sounds)[x].1.spec_channel_count() == self.output_channel_count by {
                    if x != i {
                        assert(mixer_entries(self.sounds)[x] == before[x]);
                    }
                }
                cs = cs2;
            }
            if !matches!(report, Some(NextState::Playing)) {
                let waits = matches!(report, Some(NextState::Paused) | Some(NextState::MetadataChanged));
                self.to_remove.push((id, waits));
            }
            if count > max_written {
                max_written = count;
            }
            i = i + 1;
        }
        let ghost filled = mixer_entries(self.sounds);
        let ghost paused0 = mixer_entries(self.paused_sounds);
        let ghost rem = self.to_remove@;
        proof {
            assert(keys_of(filled) =~= keys);
        }
        let mut j: usize = self.to_remove.len();
        while j > 0
            invariant
                j <= rem.len(),
                self.to_remove@ == rem.subrange(0, j as int),
                apply_removals(mixer_entries(self.sounds), mixer_entries(self.paused_sounds), self.to_remove@)
                    == apply_removals(filled, paused0, rem),
                self.output_channel_count == old(self).output_channel_count,
                self.output_sample_rate == old(self).output_sample_rate,
                self.next_sound_id == old(self).next_sound_id,
                self.next_output_channel_idx == old(self).next_output_channel_idx,
                !self.metadata_changed,
                buffer_len_ok(self.scratch_buffer@.len()),
                max_written <= len,
                len <= self.scratch_buffer@.len(),
            decreases j,
        {
            let ghost cur = self.to_remove@;
            let (id, waits) = self.to_remove.pop().unwrap();
            proof {
                assert(self.to_remove@ =~= cur.drop_last());
                assert(self.to_remove@ =~= rem.subrange(0, j - 1));
            }
            let removed = mixer_map_swap_remove(&mut self.sounds, id);
            if waits {
                if let Some(sound) = removed {
                    let _ = mixer_map_insert(&mut self.paused_sounds, id, sound);
                }
            }
            j = j - 1;
        }
        proof {
            lemma_apply_removals_ok(filled, paused0, rem, self.output_channel_count);
        }
        self.next_output_channel_idx = ((self.next_output_channel_idx as usize + max_written)
            % (self.output_channel_count as usize)) as u16;
        self.contributions = Ghost(cs);
        self.filled = Ghost(filled);
        let any_playing = mixer_map_len(&self.sounds) > 0;
        let any_paused = mixer_map_len(&self.paused_sounds) > 0;
        if any_playing {
            Ok((len, NextState::Playing))
        } else if any_paused {
            Ok((max_written, NextState::Paused))
        } else {
            Ok((max_written, NextState::Finished))
        }
    }
}


impl Sound for SoundMixer {
    closed spec fn wf(&self) -> bool {
        &&& self.output_channel_count > 0
        &&& all_mixable(mixer_entries(self.sounds), self.output_channel_count)
        &&& all_mixable(mixer_entries(self.paused_sounds), self.output_channel_count)
        &&& keys_distinct(mixer_entries(self.sounds))
        &&& keys_distinct(mixer_entries(self.paused_sounds))
        &&& self.next_output_channel_idx < self.output_channel_count
        &&& self.metadata_changed ==> self.next_output_channel_idx == 0
        &&& self.to_remove@.len() == 0
        &&& buffer_len_ok(self.scratch_buffer@.len())
    }

    closed spec fn spec_channel_count(&self) -> u16 {
        self.output_channel_count
    }

    closed spec fn spec_sample_rate(&self) -> u32 {
        self.output_sample_rate
    }

    closed spec fn infallible(&self) -> bool {
        true
    }

    closed spec fn fixed_format(&self) -> bool {
        true
    }

    closed spec fn last_fill(&self) -> Option<FillRecord> {
        self.last@
    }


    closed spec fn fill_log(&self) -> Seq<FillEntry> {

        self.log@

    }

    closed spec fn next_fill(&self, len: usize) -> Option<FillRecord> {
        None
    }

    fn channel_count(&self) -> (r: u16) {
        self.output_channel_count
    }

    fn sample_rate(&self) -> (r: u32) {
        self.output_sample_rate
    }

    /// Paused sounds get another chance: they are put back among the playing
    /// sounds, in their order, and every playing sound starts its batch.
    fn on_start_of_batch(&mut self)
        ensures
            final(self).paused_entries() == Seq::<(u32, MixedSound)>::empty(),
            keys_of(final(self).sound_entries()) == keys_of(
                inserted_all(old(self).sound_entries(), old(self).paused_entries()),
            ),
            final(self).spec_channel_count() == old(self).spec_channel_count(),
            final(self).spec_sample_rate() == old(self).spec_sample_rate(),
            final(self).next_id() == old(self).next_id(),
            final(self).metadata_pending() == old(self).metadata_pending(),
            final(self).next_channel() == old(self).next_channel(),
    {
        let drained = mixer_map_drain(&mut self.paused_sounds);
        let ghost s0 = mixer_entries(self.sounds);
        let ghost p0 = drained@;
        for e in it: drained.into_iter()
            invariant
                it.seq() == p0,
                all_mixable(p0, self.output_channel_count),
                mixer_entries(self.sounds) == inserted_all(s0, p0.take(it.index() as int)),
                all_mixable(mixer_entries(self.sounds), self.output_channel_count),
                keys_distinct(mixer_entries(self.sounds)),
                mixer_entries(self.paused_sounds) == Seq::<(u32, MixedSound)>::empty(),
                self.output_channel_count == old(self).output_channel_count,
                self.output_sample_rate == old(self).output_sample_rate,
                self.next_sound_id == old(self).next_sound_id,
                self.metadata_changed == old(self).metadata_changed,
                self.next_output_channel_idx == old(self).next_output_channel_idx,
                self.to_remove@.len() == 0,
                buffer_len_ok(self.scratch_buffer@.len()),
                self.last == old(self).last,
                self.log == old(self).log,
        {
            let (id, sound) = e;
            proof {
                lemma_inserted_mixable(mixer_entries(self.sounds), id, sound, self.output_channel_count);
                lemma_inserted_distinct(mixer_entries(self.sounds), id, sound);
                assert(p0.take(it.index() as int + 1).drop_last() =~= p0.take(it.index() as int));
            }
            let _ = mixer_map_insert(&mut self.sounds, id, sound);
        }
        let ghost merged = mixer_entries(self.sounds);
        proof {
            assert(p0.take(p0.len() as int) =~= p0);
        }
        let n = mixer_map_len(&self.sounds);
        let mut i: usize = 0;
        while i < n
            invariant
                i <= n,
                n == mixer_entries(self.sounds).len(),
                n == merged.len(),
                forall|x: int| 0 <= x < n ==> #[trigger] mixer_entries(self.sounds)[x].0 == merged[x].0,
                all_mixable(mixer_entries(self.sounds), self.output_channel_count),
                keys_distinct(merged),
                mixer_entries(self.paused_sounds) == Seq::<(u32, MixedSound)>::empty(),
                self.output_channel_count == old(self).output_channel_count,
                self.output_sample_rate == old(self).output_sample_rate,
                self.next_sound_id == old(self).next_sound_id,
                self.metadata_changed == old(self).metadata_changed,
                self.next_output_channel_idx == old(self).next_output_channel_idx,
                self.to_remove@.len() == 0,
                buffer_len_ok(self.scratch_buffer@.len()),
                self.last == old(self).last,
                self.log == old(self).log,
            decreases n - i,
        {
            let ghost before = mixer_entries(self.sounds);
            let sound = mixer_map_value_mut(&mut self.sounds, i);
            sound.on_start_of_batch();
            proof {
                assert(mixer_entries(self.sounds) == before.update(i as int, (before[i as int].0, *sound)));
                assert forall|x: int| 0 <= x < n implies #[trigger] mixer_entries(self.sounds)[x].0 == merged[x].0 by {
                    if x != i {
                        assert(mixer_entries(self.sounds)[x] == before[x]);
                    }
                }
                assert forall|x: int|
                    0 <= x < n implies (#[trigger] mixer_entries(self.sounds)[x]).1.wf()
                        && mixer_entries(self.sounds)[x].1.spec_channel_count() == self.output_channel_count by {
                    if x != i {
                        assert(mixer_entries(self.sounds)[x] == before[x]);
                    }
                }
            }
            i = i + 1;
        }
        proof {
            assert(keys_of(mixer_entries(self.sounds)) =~= keys_of(merged));
            assert forall|a: int, b: int|
                0 <= a < n && 0 <= b < n && a != b implies #[trigger] mixer_entries(self.sounds)[a].0
                    != #[trigger] mixer_entries(self.sounds)[b].0 by {
                assert(merged[a].0 != merged[b].0);
            }
        }
    }

    /// Reports a pending change of the output format first. Otherwise every
    /// playing sound fills its part and the parts are added up; sounds that
    /// paused or whose metadata changed mid-frame wait for the next batch, and
    /// finished or failing ones are dropped. Never returns an error.
    #[verifier::rlimit(40)]
    fn fill_next_frames(&mut self, buffer: &mut [i16]) -> (r: FillResult)
        ensures
            r is Ok,
            final(self).spec_channel_count() == old(self).spec_channel_count(),
            final(self).spec_sample_rate() == old(self).spec_sample_rate(),
            final(self).next_id() == old(self).next_id(),
            !final(self).metadata_pending(),
            old(self).metadata_pending() ==> {
                &&& r == Ok::<(usize, NextState), crate::error::RawedioError>((0, NextState::MetadataChanged))
                &&& final(buffer)@ == old(buffer)@
                &&& final(self).sound_entries() == old(self).sound_entries()
                &&& final(self).paused_entries() == old(self).paused_entries()
                &&& final(self).next_channel() == old(self).next_channel()
            },
            !old(self).metadata_pending() ==> {
                let c = final(self).last_contributions();
                let f = final(self).last_filled();
                let len = old(buffer)@.len();
                &&& c.len() == old(self).sound_entries().len()
                &&& keys_of(f) == keys_of(old(self).sound_entries())
                &&& forall|x: int| 0 <= x < c.len() ==> reported(#[trigger] f[x].1.last_fill(), c[x])
                &&& forall|x: int|
                    0 <= x < c.len() ==> (old(self).sound_entries()[x].1.next_fill(len as usize) matches Some(rec)
                        ==> (settles(rec.0) ==> #[trigger] f[x].1.last_fill() == Some(rec)))
                &&& forall|x: int|
                    0 <= x < c.len() ==> {
                        let l0 = old(self).sound_entries()[x].1.fill_log();
                        let fl = (#[trigger] f[x]).1.fill_log();
                        &&& fl.take(l0.len() as int) == l0
                        &&& mix_run(fl.skip(l0.len() as int))
                        &&& fl.len() > 0 && f[x].1.last_fill() == Some(fl.last().0)
                    }
                &&& forall|x: int, k: nat|
                    0 <= x < c.len() ==> (#[trigger] old(self).sound_entries()[x].1.fills_ahead(repeated(len as usize, k))
                        matches Some(recs) ==> forall|i: int|
                        0 <= i < k && i < f[x].1.fill_log().skip(old(self).sound_entries()[x].1.fill_log().len() as int).len()
                            ==> f[x].1.fill_log().skip(old(self).sound_entries()[x].1.fill_log().len() as int)[i] == recs[i])
                &&& forall|x: int, rest: Seq<usize>|
                    0 <= x < c.len() ==> (#[trigger] old(self).sound_entries()[x].1.fills_ahead(seq![len as usize] + rest)
                        matches Some(recs) ==> (recs.len() > 0 && settles(recs[0].0.0) ==> f[x].1.last_fill() == Some(recs[0].0) && f[x].1.fills_ahead(rest)
                        == Some(recs.drop_first())))
                &&& forall|x: int|
                    0 <= x < c.len() ==> {
                        &&& (#[trigger] c[x]).0 <= len
                        &&& c[x].1.len() == len
                        &&& (c[x].2 == None::<NextState> || c[x].2 == Some(NextState::MetadataChanged))
                            ==> c[x].0 == 0
                    }
                &&& forall|k: int| 0 <= k < len ==> #[trigger] final(buffer)@[k] == mixed_sample(c, k)
                &&& (final(self).sound_entries(), final(self).paused_entries()) == apply_removals(
                    f,
                    old(self).paused_entries(),
                    removals(keys_of(f), c),
                )
                &&& final(self).next_channel() == (old(self).next_channel() + max_count(c)) % (old(
                    self,
                ).spec_channel_count() as int)
                &&& r == Ok::<(usize, NextState), crate::error::RawedioError>((
                    (if final(self).sound_entries().len() > 0 {
                        len
                    } else {
                        max_count(c)
                    }) as usize,
                    mixer_state(
                        final(self).sound_entries().len() > 0,
                        final(self).paused_entries().len() > 0,
                    ),
                ))
            },
    {
        let ghost log0 = self.log@;
        let r = self.fill_frames(buffer);
        self.last = Ghost(Some(fill_record(r, buffer@)));
        self.log = Ghost(log0.push((fill_record(r, buffer@), self.spec_channel_count(), self.spec_sample_rate())));
        r
    }
}

} // verus!

verus! {

/// `after` holds the sounds of `before` under the same ids, in the same
/// order, each converted again to its new channel count.
pub open spec fn reconverted(before: Seq<(u32, MixedSound)>, after: Seq<(u32, MixedSound)>) -> bool {
    &&& after.len() == before.len()
    &&& forall|i: int|
        0 <= i < before.len() ==> (#[trigger] after[i]).0 == before[i].0 && after[i].1.wrapped() == before[i].1.wrapped()
}

// Convert the sound inside `s` anew to `to_count` channels.
fn reconvert(s: MixedSound, to_count: u16) -> (r: MixedSound)
    requires
        s.wf(),
        ChannelCountConverter::<Box<dyn Sound>>::supported(s.wrapped().spec_channel_count(), to_count),
    ensures
        r.wf(),
        r.wrapped() == s.wrapped(),
        r.spec_channel_count() == to_count,
{
    let inner = s.into_inner();
    let r = ChannelCountConverter::new(inner, to_count);
    r
}

// The sound inside `v`, if there is one. Values of type `Box<dyn Sound>` are
// passed through this generic function, so that no coercion between trait
// object types stands between them and the contract.
fn inner_of<S: Sound>(v: Option<ChannelCountConverter<S>>) -> (r: Option<S>)
    ensures
        r == (match v {
            Some(c) => Some(c.wrapped()),
            None => None::<S>,
        }),
{
    match v {
        Some(c) => Some(c.into_inner()),
        None => None,
    }
}

/// Calls `replace_with::replace_with_or_abort`, which moves the sound out of
/// `dest`, hands it to a closure that converts it anew to `to_count`
/// channels (`reconvert`, verified), and moves the result back into `dest`.
#[verifier::external_body]
fn reconvert_in_place(dest: &mut MixedSound, to_count: u16)
    requires
        old(dest).wf(),
        ChannelCountConverter::<Box<dyn Sound>>::supported(old(dest).wrapped().spec_channel_count(), to_count),
    ensures
        final(dest).wf(),
        final(dest).wrapped() == old(dest).wrapped(),
        final(dest).spec_channel_count() == to_count,
{
    replace_with::replace_with_or_abort(dest, |tmp| reconvert(tmp, to_count))
}

impl SoundMixer {
    // Convert every sound of `m` anew to `to_count` channels.
    fn reconvert_all(m: &mut MixerMap, to_count: u16, from_count: u16)
        requires
            all_mixable(mixer_entries(*old(m)), from_count),
            all_convertible(mixer_entries(*old(m)), to_count),
        ensures
            all_mixable(mixer_entries(*final(m)), to_count),
            reconverted(mixer_entries(*old(m)), mixer_entries(*final(m))),
    {
        let n = mixer_map_len(m);
        let mut i: usize = 0;
        while i < n
            invariant
                i <= n,
                n == mixer_entries(*m).len(),
                n == mixer_entries(*old(m)).len(),
                forall|x: int|
                    0 <= x < n ==> (#[trigger] mixer_entries(*m)[x]).0 == mixer_entries(*old(m))[x].0
                        && mixer_entries(*m)[x].1.wrapped() == mixer_entries(*old(m))[x].1.wrapped(),
                forall|x: int|
                    0 <= x < i ==> (#[trigger] mixer_entries(*m)[x]).1.wf()
                        && mixer_entries(*m)[x].1.spec_channel_count() == to_count,
                forall|x: int|
                    i <= x < n ==> (#[trigger] mixer_entries(*m)[x]).1 == mixer_entries(*old(m))[x].1,
                all_mixable(mixer_entries(*old(m)), from_count),
                all_convertible(mixer_entries(*old(m)), to_count),
            decreases n - i,
        {
            let ghost before = mixer_entries(*m);
            let sound = mixer_map_value_mut(m, i);
            proof {
                assert(before[i as int] == mixer_entries(*old(m))[i as int]);
            }
            reconvert_in_place(sound, to_count);
            proof {
                assert(mixer_entries(*m) == before.update(i as int, (before[i as int].0, *sound)));
            }
            i = i + 1;
        }
    }

    /// Set the output channel count and sample rate. Added sounds are
    /// converted to the new channel count; the next fill reports
    /// `MetadataChanged`. Must only be called when the next sample is for the
    /// first channel in the frame, and every sound must be convertible to the
    /// new channel count, which must not be zero.
    pub fn set_output_channel_count_and_sample_rate(&mut self, output_channel_count: u16, output_sample_rate: u32)
        requires
            old(self).wf(),
            old(self).next_channel() == 0,
            output_channel_count > 0,
            all_convertible(old(self).sound_entries(), output_channel_count),
            all_convertible(old(self).paused_entries(), output_channel_count),
        ensures
            final(self).wf(),
            final(self).metadata_pending(),
            final(self).spec_channel_count() == output_channel_count,
            final(self).spec_sample_rate() == output_sample_rate,
            reconverted(old(self).sound_entries(), final(self).sound_entries()),
            reconverted(old(self).paused_entries(), final(self).paused_entries()),
            final(self).next_id() == old(self).next_id(),
            final(self).next_channel() == 0,
    {
        let from_count = self.output_channel_count;
        self.metadata_changed = true;
        self.output_channel_count = output_channel_count;
        self.output_sample_rate = output_sample_rate;
        Self::reconvert_all(&mut self.sounds, output_channel_count, from_count);
        Self::reconvert_all(&mut self.paused_sounds, output_channel_count, from_count);
        proof {
            assert forall|i: int, j: int|
                0 <= i < mixer_entries(self.sounds).len() && 0 <= j < mixer_entries(self.sounds).len() && i != j
                implies #[trigger] mixer_entries(self.sounds)[i].0 != #[trigger] mixer_entries(self.sounds)[j].0 by {
            }
            assert forall|i: int, j: int|
                0 <= i < mixer_entries(self.paused_sounds).len() && 0 <= j < mixer_entries(self.paused_sounds).len()
                    && i != j
                implies #[trigger] mixer_entries(self.paused_sounds)[i].0
                    != #[trigger] mixer_entries(self.paused_sounds)[j].0 by {
            }
        }
    }

    /// Add a sound under the next id and return that id. The sound is
    /// converted to the mixer's channel count, which it must support.
    pub fn add(&mut self, sound: Box<dyn Sound>) -> (r: SoundId)
        requires
            old(self).wf(),
            sound.wf(),
            ChannelCountConverter::<Box<dyn Sound>>::supported(sound.spec_channel_count(), old(self).spec_channel_count()),
            old(self).next_id() < u32::MAX,
        ensures
            final(self).wf(),
            r.id() == old(self).next_id(),
            final(self).next_id() == old(self).next_id() + 1,
            exists|v: MixedSound|
                #[trigger] inserted(old(self).sound_entries(), r.id(), v) == final(self).sound_entries()
                    && v.wrapped() == sound && v.spec_channel_count() == old(self).spec_channel_count()
                    && v.converter_type() == converter_type_for(sound.spec_channel_count(), old(self).spec_channel_count()),
            final(self).paused_entries() == old(self).paused_entries(),
            final(self).spec_channel_count() == old(self).spec_channel_count(),
            final(self).spec_sample_rate() == old(self).spec_sample_rate(),
            final(self).metadata_pending() == old(self).metadata_pending(),
            final(self).next_channel() == old(self).next_channel(),
    {
        let id = self.next_sound_id;
        self.next_sound_id = self.next_sound_id + 1;
        let converted = ChannelCountConverter::new(sound, self.output_channel_count);
        let ghost v = converted;
        proof {
            lemma_inserted_mixable(mixer_entries(self.sounds), id, v, self.output_channel_count);
            lemma_inserted_distinct(mixer_entries(self.sounds), id, v);
        }
        let _ = mixer_map_insert(&mut self.sounds, id, converted);
        assert(inserted(old(self).sound_entries(), id, v) == self.sound_entries());
        SoundId::from_inner(id)
    }

    /// Add a sound under the given id, converted to the mixer's channel
    /// count. A playing sound with that id is replaced in its place and
    /// returned.
    pub fn insert(&mut self, id: SoundId, sound: Box<dyn Sound>) -> (r: Option<Box<dyn Sound>>)
        requires
            old(self).wf(),
            sound.wf(),
            ChannelCountConverter::<Box<dyn Sound>>::supported(sound.spec_channel_count(), old(self).spec_channel_count()),
        ensures
            final(self).wf(),
            exists|v: MixedSound|
                #[trigger] inserted(old(self).sound_entries(), id.id(), v) == final(self).sound_entries()
                    && v.wrapped() == sound && v.spec_channel_count() == old(self).spec_channel_count(),
            r == (if has_key(old(self).sound_entries(), id.id()) {
                Some(old(self).sound_entries()[key_index(old(self).sound_entries(), id.id())].1.wrapped())
            } else {
                None::<Box<dyn Sound>>
            }),
            final(self).paused_entries() == old(self).paused_entries(),
            final(self).next_id() == old(self).next_id(),
            final(self).spec_channel_count() == old(self).spec_channel_count(),
            final(self).spec_sample_rate() == old(self).spec_sample_rate(),
            final(self).metadata_pending() == old(self).metadata_pending(),
            final(self).next_channel() == old(self).next_channel(),
    {
        let converted = ChannelCountConverter::new(sound, self.output_channel_count);
        let ghost v = converted;
        proof {
            lemma_inserted_mixable(mixer_entries(self.sounds), id.id(), v, self.output_channel_count);
            lemma_inserted_distinct(mixer_entries(self.sounds), id.id(), v);
        }
        let previous = mixer_map_insert(&mut self.sounds, id.into_inner(), converted);
        assert(inserted(old(self).sound_entries(), id.id(), v) == self.sound_entries());
        inner_of(previous)
    }

    /// Remove the playing sound with the given id and return it.
    pub fn remove(&mut self, id: SoundId) -> (r: Option<Box<dyn Sound>>)
        requires
            old(self).wf(),
        ensures
            final(self).wf(),
            final(self).sound_entries() == key_removed(old(self).sound_entries(), id.id()),
            r == (if has_key(old(self).sound_entries(), id.id()) {
                Some(old(self).sound_entries()[key_index(old(self).sound_entries(), id.id())].1.wrapped())
            } else {
                None::<Box<dyn Sound>>
            }),
            final(self).paused_entries() == old(self).paused_entries(),
            final(self).next_id() == old(self).next_id(),
            final(self).spec_channel_count() == old(self).spec_channel_count(),
            final(self).spec_sample_rate() == old(self).spec_sample_rate(),
            final(self).metadata_pending() == old(self).metadata_pending(),
            final(self).next_channel() == old(self).next_channel(),
    {
        proof {
            lemma_key_removed_mixable(mixer_entries(self.sounds), id.id(), self.output_channel_count);
            lemma_key_removed_distinct(mixer_entries(self.sounds), id.id());
        }
        let previous = mixer_map_swap_remove(&mut self.sounds, id.into_inner());
        inner_of(previous)
    }

    /// Remove all sounds, playing and paused.
    pub fn clear(&mut self)
        requires
            old(self).wf(),
        ensures
            final(self).wf(),
            final(self).sound_entries() == Seq::<(u32, MixedSound)>::empty(),
            final(self).paused_entries() == Seq::<(u32, MixedSound)>::empty(),
            final(self).next_id() == old(self).next_id(),
            final(self).spec_channel_count() == old(self).spec_channel_count(),
            final(self).spec_sample_rate() == old(self).spec_sample_rate(),
            final(self).metadata_pending() == old(self).metadata_pending(),
            final(self).next_channel() == old(self).next_channel(),
    {
        mixer_map_clear(&mut self.sounds);
        mixer_map_clear(&mut self.paused_sounds);
    }
}

} // verus!
