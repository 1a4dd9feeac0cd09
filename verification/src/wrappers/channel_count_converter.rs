//! A wrapper that converts between mono and stereo.

use vstd::prelude::*;

use crate::error::RawedioError;
use crate::sound::{written_by, FillEntry, buffer_len_ok, unchanged_from, FillResult, NextState, Sound, FillRecord, fill_record};

verus! {

/// How a [`ChannelCountConverter`] maps the channels of its inner sound.
#[derive(Debug, Copy, Clone, PartialEq, Eq, Structural)]
pub enum ConverterType {
    /// The inner sound already has the wanted channel count.
    PassThrough,
    /// Every mono sample is played on both stereo channels.
    MonoToStereo,
    /// Each stereo frame is played as the midpoint of its two samples.
    StereoToMono,
    /// The inner sound changed to a channel count that cannot be converted.
    Unsupported,
}

/// The conversion from `from_count` to `to_count` channels.
pub open spec fn converter_type_for(from_count: u16, to_count: u16) -> ConverterType {
    if from_count == to_count {
        ConverterType::PassThrough
    } else if from_count == 1 && to_count == 2 {
        ConverterType::MonoToStereo
    } else if from_count == 2 && to_count == 1 {
        ConverterType::StereoToMono
    } else {
        ConverterType::Unsupported
    }
}

/// The middle of two samples, rounded towards zero, as `i16::midpoint`
/// computes it.
pub open spec fn midpoint(l: i16, r: i16) -> i16 {
    let sum = l + r;
    if sum >= 0 {
        (sum / 2) as i16
    } else {
        (-((-sum) / 2)) as i16
    }
}

/// A mono sample played on both stereo channels comes back unchanged when
/// the stereo frame is turned into mono again: the midpoint of a sample and
/// itself is that sample.
pub proof fn lemma_mono_stereo_round_trip(s: i16)
    ensures
        midpoint(s, s) == s,
{
}

/// The midpoint lies between the two samples, so turning stereo into mono
/// never clips.
pub proof fn lemma_midpoint_between(l: i16, r: i16)
    ensures
        (l <= r ==> l <= midpoint(l, r) <= r),
        (r <= l ==> r <= midpoint(l, r) <= l),
{
}

/// Turning stereo into mono takes both channels alike: the midpoint does not
/// depend on the order of the two samples, and it is their sum halved,
/// rounded towards zero, so twice the midpoint misses the sum by at most
/// one, towards zero.
pub proof fn lemma_midpoint_is_halved_sum(l: i16, r: i16)
    ensures
        midpoint(l, r) == midpoint(r, l),
        l + r >= 0 ==> 2 * midpoint(l, r) <= l + r <= 2 * midpoint(l, r) + 1,
        l + r < 0 ==> 2 * midpoint(l, r) - 1 <= l + r <= 2 * midpoint(l, r),
{
}

fn midpoint_i16(l: i16, r: i16) -> (m: i16)
    ensures
        m == midpoint(l, r),
{
    let sum = l as i32 + r as i32;
    if sum >= 0 {
        (sum / 2) as i16
    } else {
        (-((-sum) / 2)) as i16
    }
}

/// The result of a conversion of type `t` whose inner sound returned `inner`:
/// an error is passed on, mono to stereo reports two samples for each inner
/// sample, stereo to mono one for each inner frame, and the state is the
/// inner state.
#[verifier::opaque]
pub open spec fn converted_result(t: ConverterType, inner: FillResult) -> FillResult {
    match inner {
        Err(e) => Err(e),
        Ok((n, state)) => match t {
            ConverterType::MonoToStereo => Ok(((2 * n) as usize, state)),
            ConverterType::StereoToMono => Ok(((n / 2) as usize, state)),
            _ => Ok((n, state)),
        },
    }
}

/// `buffer` holds, in place of the first `n` samples of `orig`, each of
/// the first `n / 2` samples of `inner` twice, and `n` is even and fits.
pub open spec fn spread_to_stereo(buffer: Seq<i16>, orig: Seq<i16>, inner: Seq<i16>, n: int) -> bool {
    &&& n % 2 == 0
    &&& n <= orig.len()
    &&& forall|k: int|
        0 <= k < n / 2 ==> #[trigger] buffer[2 * k] == inner[k] && buffer[2 * k + 1] == inner[k]
    &&& unchanged_from(buffer, orig, n)
}

proof fn lemma_spread_to_stereo(buffer: Seq<i16>, orig: Seq<i16>, inner: Seq<i16>, c: int)
    requires
        0 <= c,
        2 * c <= orig.len(),
        forall|k: int| 0 <= k < c ==> #[trigger] buffer[2 * k] == inner[k] && buffer[2 * k + 1] == inner[k],
        unchanged_from(buffer, orig, 2 * c),
    ensures
        spread_to_stereo(buffer, orig, inner, 2 * c),
{
    assert((2 * c) / 2 == c);
    assert((2 * c) % 2 == 0);
}

// Samples spread onto two channels are the inner samples, each twice.
proof fn lemma_doubled(buffer: Seq<i16>, inner: Seq<i16>, c: int)
    requires
        0 <= c <= inner.len(),
        2 * c <= buffer.len(),
        forall|k: int| 0 <= k < c ==> #[trigger] buffer[2 * k] == inner[k] && buffer[2 * k + 1] == inner[k],
    ensures
        buffer.take(2 * c) == doubled(inner.take(c)),
{
    assert forall|i: int| 0 <= i < 2 * c implies #[trigger] buffer.take(2 * c)[i] == doubled(inner.take(c))[i] by {
        let k = i / 2;
        assert(i == 2 * k || i == 2 * k + 1) by (nonlinear_arith)
            requires k == i / 2, i >= 0;
        assert(0 <= k < c) by (nonlinear_arith)
            requires k == i / 2, 0 <= i < 2 * c;
        assert(buffer[2 * k] == inner[k]);
        assert(buffer[2 * k + 1] == inner[k]);
    }
    assert(buffer.take(2 * c) =~= doubled(inner.take(c)));
}

/// Whether a fill with conversion `t` into a buffer of `len` samples asks
/// the inner sound for samples.
pub open spec fn asks_inner(t: ConverterType, len: nat) -> bool {
    &&& t != ConverterType::Unsupported
    &&& t == ConverterType::StereoToMono ==> len <= isize::MAX / 4
}

/// The number of samples a conversion of type `t` asks its inner sound for
/// when it is asked for `len`.
pub open spec fn inner_request(t: ConverterType, len: usize) -> usize {
    match t {
        ConverterType::MonoToStereo => len / 2,
        ConverterType::StereoToMono => (2 * len) as usize,
        _ => len,
    }
}

/// Each sample of `s` twice in a row.
pub open spec fn doubled(s: Seq<i16>) -> Seq<i16> {
    Seq::new(2 * s.len(), |i: int| s[i / 2])
}

/// The midpoint of each pair of samples of `s`; a last unpaired sample is
/// left out.
pub open spec fn halved(s: Seq<i16>) -> Seq<i16> {
    Seq::new(s.len() / 2, |k: int| midpoint(s[2 * k], s[2 * k + 1]))
}

/// The record of a fill of a conversion of type `t` whose inner sound's fill
/// is recorded in `rec`.
pub open spec fn converted_record(t: ConverterType, rec: FillRecord) -> FillRecord {
    (
        converted_result(t, rec.0),
        match t {
            ConverterType::MonoToStereo => doubled(rec.1),
            ConverterType::StereoToMono => halved(rec.1),
            _ => rec.1,
        },
    )
}

// The record of the outer fill is the converted record of the inner one.
proof fn lemma_converted_record(
    t: ConverterType,
    rec: FillRecord,
    r: FillResult,
    buffer: Seq<i16>,
    orig: Seq<i16>,
    inner: Seq<i16>,
)
    requires
        t != ConverterType::Unsupported,
        orig.len() <= usize::MAX,
        t == ConverterType::MonoToStereo ==> 2 * inner.len() <= orig.len(),
        r == converted_result(t, rec.0),
        rec.1 == written_by(rec.0, if t == ConverterType::PassThrough { buffer } else { inner }),
        rec.0 matches Ok((c, _)) ==> c <= (if t == ConverterType::PassThrough { buffer.len() } else { inner.len() }),
        r matches Ok((n, _)) ==> n <= buffer.len(),
        t == ConverterType::MonoToStereo ==> (r matches Ok((n, _)) ==> spread_to_stereo(buffer, orig, inner, n as int)),
        t == ConverterType::StereoToMono ==> (r matches Ok((n, _)) ==> {
            &&& 2 * n <= inner.len()
            &&& forall|k: int| 0 <= k < n ==> #[trigger] buffer[k] == midpoint(inner[2 * k], inner[2 * k + 1])
        }),
    ensures
        fill_record(r, buffer) == converted_record(t, rec),
{
    reveal(converted_result);
    match rec.0 {
        Err(_) => {
            assert(doubled(rec.1) =~= Seq::<i16>::empty());
            assert(halved(rec.1) =~= Seq::<i16>::empty());
        },
        Ok((c, st)) => {
            if t == ConverterType::MonoToStereo {
                assert(2 * c <= orig.len());
                let n = (2 * c) as usize;
                assert(r == Ok::<(usize, NextState), RawedioError>((n, st)));
                assert(spread_to_stereo(buffer, orig, inner, n as int));
                assert(n as int / 2 == c as int);
                assert(forall|j: int| 0 <= j < c ==> #[trigger] buffer[2 * j] == inner[j] && buffer[2 * j + 1] == inner[j]);
                lemma_doubled(buffer, inner, c as int);
                assert(buffer.take(n as int) =~= doubled(rec.1));
            } else if t == ConverterType::StereoToMono {
                let n = c / 2;
                assert(r == Ok::<(usize, NextState), RawedioError>((n, st)));
                assert(rec.1.len() / 2 == n);
                assert forall|k: int| 0 <= k < n implies #[trigger] buffer.take(n as int)[k] == halved(rec.1)[k] by {
                    assert(2 * k + 1 < c) by (nonlinear_arith)
                        requires 0 <= k < n, n == c / 2;
                    assert(buffer[k] == midpoint(inner[2 * k], inner[2 * k + 1]));
                    assert(rec.1[2 * k] == inner[2 * k]);
                    assert(rec.1[2 * k + 1] == inner[2 * k + 1]);
                }
                assert(buffer.take(n as int) =~= halved(rec.1));
            }
        },
    }
}

// Write each of the first `count` samples of `scratch` onto two channels.
fn spread_mono(buffer: &mut [i16], scratch: &Vec<i16>, count: usize)
    requires
        count <= scratch@.len(),
        2 * scratch@.len() <= old(buffer)@.len(),
    ensures
        final(buffer)@.len() == old(buffer)@.len(),
        forall|j: int|
            0 <= j < count ==> #[trigger] final(buffer)@[2 * j] == scratch@[j] && final(buffer)@[2 * j + 1]
                == scratch@[j],
        unchanged_from(final(buffer)@, old(buffer)@, 2 * count),
{
    let blen = buffer.len();
    let mut k: usize = 0;
    while k < count
        invariant
            blen == buffer@.len(),
            k <= count,
            count <= scratch@.len(),
            2 * scratch@.len() <= old(buffer)@.len(),
            buffer@.len() == old(buffer)@.len(),
            forall|j: int| 0 <= j < k ==> #[trigger] buffer@[2 * j] == scratch@[j] && buffer@[2 * j + 1] == scratch@[j],
            unchanged_from(buffer@, old(buffer)@, 2 * k),
        decreases count - k,
    {
        assert(2 * k + 1 < buffer@.len());
        let s = scratch[k];
        let ghost before = buffer@;
        buffer[2 * k] = s;
        buffer[2 * k + 1] = s;
        proof {
            assert(buffer@ == before.update(2 * k as int, s).update(2 * k + 1, s));
            assert forall|j: int| 0 <= j < k + 1 implies #[trigger] buffer@[2 * j] == scratch@[j] && buffer@[2 * j + 1]
                == scratch@[j] by {
                if j < k {
                    assert(2 * j + 1 < 2 * k);
                    assert(buffer@[2 * j] == before[2 * j]);
                    assert(buffer@[2 * j + 1] == before[2 * j + 1]);
                }
            }
        }
        k = k + 1;
    }
}

/// Convert a Sound to have a specified number of output channels: a mono
/// sound to stereo or vice versa.
pub struct ChannelCountConverter<S: Sound> {
    inner: S,
    to_count: u16,
    converter_type: ConverterType,
    scratch: Vec<i16>,
    last: Ghost<Option<FillRecord>>,
    log: Ghost<Seq<FillEntry>>,
}

impl<S: Sound> ChannelCountConverter<S> {
    /// The wrapped sound.
    pub closed spec fn wrapped(&self) -> S {
        self.inner
    }

    /// The current conversion.
    pub closed spec fn converter_type(&self) -> ConverterType {
        self.converter_type
    }

    /// The samples the inner sound wrote in the last call of a converting
    /// `fill_next_frames`.
    pub closed spec fn inner_samples(&self) -> Seq<i16> {
        self.scratch@
    }

    /// Whether the channels of a sound with `from_count` channels can be
    /// converted to `to_count` channels.
    pub open spec fn supported(from_count: u16, to_count: u16) -> bool {
        converter_type_for(from_count, to_count) != ConverterType::Unsupported
    }

    fn get_type(from_count: u16, to_count: u16) -> (r: ConverterType)
        ensures
            r == converter_type_for(from_count, to_count),
    {
        if from_count == to_count {
            ConverterType::PassThrough
        } else if from_count == 1 && to_count == 2 {
            ConverterType::MonoToStereo
        } else if from_count == 2 && to_count == 1 {
            ConverterType::StereoToMono
        } else {
            ConverterType::Unsupported
        }
    }

    /// Wrap `inner` such that it will output `to_count` channels. Only mono
    /// to stereo, stereo to mono and keeping the channel count are supported.
    pub fn new(inner: S, to_count: u16) -> (r: ChannelCountConverter<S>)
        requires
            inner.wf(),
            Self::supported(inner.spec_channel_count(), to_count),
        ensures
            r.wf(),
            r.wrapped() == inner,
            r.spec_channel_count() == to_count,
            r.spec_sample_rate() == inner.spec_sample_rate(),
            r.converter_type() == converter_type_for(inner.spec_channel_count(), to_count),
    {
        let converter_type = Self::get_type(inner.channel_count(), to_count);
        ChannelCountConverter { inner, to_count, converter_type, scratch: Vec::new(), last: Ghost(None), log: Ghost(Seq::empty()) }
    }

    // The metadata of the inner sound changed: pick the conversion for its
    // new channel count.
    fn handle_channel_count_change(&mut self)
        requires
            old(self).wf(),
        ensures
            final(self).wf(),
            final(self).inner == old(self).inner,
            final(self).to_count == old(self).to_count,
            final(self).scratch == old(self).scratch,
            final(self).converter_type == converter_type_for(old(self).inner.spec_channel_count(), old(self).to_count),
    {
        let from_count = self.inner.channel_count();
        self.converter_type = Self::get_type(from_count, self.to_count);
    }

    /// Unwrap the inner Sound.
    pub fn into_inner(self) -> (r: S)
        ensures
            r == self.wrapped(),
            self.wf() ==> r.wf(),
    {
        self.inner
    }

    /// Get a reference to the wrapped inner Sound.
    pub fn inner(&self) -> (r: &S)
        ensures
            *r == self.wrapped(),
    {
        &self.inner
    }
}

impl<S: Sound> ChannelCountConverter<S> {
    // Mono to stereo: each inner sample goes onto both channels.
    #[verifier::spinoff_prover]
    #[verifier::rlimit(40)]
    fn fill_mono_to_stereo(&mut self, buffer: &mut [i16]) -> (r: FillResult)
        requires
            old(self).wf(),
            buffer_len_ok(old(buffer)@.len()),
            old(self).converter_type == ConverterType::MonoToStereo,
        ensures
            final(self).wf(),
            final(buffer)@.len() == old(buffer)@.len(),
            final(self).to_count == old(self).to_count,
            final(self).inner.wf(),
            old(self).inner.infallible() ==> r is Ok && final(self).inner.infallible(),
            old(self).inner.fixed_format() ==> {
                &&& final(self).inner.fixed_format()
                &&& final(self).inner.spec_channel_count() == old(self).inner.spec_channel_count()
                &&& final(self).inner.spec_sample_rate() == old(self).inner.spec_sample_rate()
            },
            final(self).scratch@.len() == old(buffer)@.len() / 2,
            (final(self).inner.last_fill() matches Some(rec) && r == converted_result(
                ConverterType::MonoToStereo,
                rec.0,
            )),
            (final(self).inner.last_fill() matches Some(rec) && rec.1 == written_by(rec.0, final(self).scratch@)),
            old(self).inner.next_fill((old(buffer)@.len() / 2) as usize) matches Some(rec) ==> final(self).inner.last_fill() == Some(rec),
            (final(self).inner.last_fill() matches Some(rec) && (rec.0 matches Ok((c, _)) ==> c <= final(self).scratch@.len())),
            r matches Ok((_, NextState::MetadataChanged)) ==> final(self).converter_type == converter_type_for(
                final(self).inner.spec_channel_count(),
                final(self).to_count,
            ),
            !(r matches Ok((_, NextState::MetadataChanged))) ==> final(self).converter_type
                == ConverterType::MonoToStereo,
            r matches Ok((n, _)) ==> spread_to_stereo(final(buffer)@, old(buffer)@, final(self).scratch@, n as int),
    {
        let len = buffer.len();
        self.scratch.clear();
        self.scratch.resize(len / 2, 0);
        let next = self.inner.fill_next_frames(self.scratch.as_mut_slice());
        let (count, state) = match next {
            Ok(v) => v,
            Err(e) => {
                proof {
                    reveal(converted_result);
                }
                return Err(e);
            },
        };
        if let NextState::MetadataChanged = state {
            self.handle_channel_count_change();
        }
        assert(count <= self.scratch@.len());
        assert(self.scratch@.len() == len / 2);
        assert(2 * count <= len);
        spread_mono(buffer, &self.scratch, count);
        let written = count * 2;
        proof {
            reveal(converted_result);
            lemma_spread_to_stereo(buffer@, old(buffer)@, self.scratch@, count as int);
        }
        Ok((written, state))
    }

    // The fill itself; `fill_next_frames` records its result.
    #[verifier::spinoff_prover]
    #[verifier::rlimit(80)]
    fn fill_frames(&mut self, buffer: &mut [i16]) -> (r: FillResult)
        requires
            old(self).wf(),
            buffer_len_ok(old(buffer)@.len()),
        ensures
            final(self).wf(),
            final(buffer)@.len() == old(buffer)@.len(),
            r matches Ok((n, _)) ==> n <= old(buffer)@.len(),
            old(self).infallible() ==> r is Ok && final(self).infallible(),
            old(self).fixed_format() ==> {
                &&& final(self).fixed_format()
                &&& final(self).spec_channel_count() == old(self).spec_channel_count()
                &&& final(self).spec_sample_rate() == old(self).spec_sample_rate()
            },
            final(self).spec_channel_count() == old(self).spec_channel_count(),
            old(self).wrapped().infallible() && old(self).converter_type() != ConverterType::Unsupported
                && (old(self).converter_type() == ConverterType::StereoToMono ==> old(buffer)@.len()
                <= isize::MAX / 4) ==> r is Ok,
            old(self).converter_type() == ConverterType::StereoToMono && old(buffer)@.len() > isize::MAX / 4
                ==> r is Err && final(buffer)@ == old(buffer)@ && *final(self) == *old(self),
            old(self).converter_type() == ConverterType::MonoToStereo ==> final(self).inner_samples().len()
                == old(buffer)@.len() / 2,
            old(self).converter_type() == ConverterType::StereoToMono && old(buffer)@.len() <= isize::MAX / 4
                ==> final(self).inner_samples().len() == 2 * old(buffer)@.len(),
            old(self).converter_type() == ConverterType::PassThrough ==> final(self).inner_samples()
                == old(self).inner_samples(),
            asks_inner(old(self).converter_type(), old(buffer)@.len()) ==> (final(self).wrapped().last_fill() matches Some(
                rec,
            ) && r == converted_result(old(self).converter_type(), rec.0)),
            asks_inner(old(self).converter_type(), old(buffer)@.len()) ==> (old(self).wrapped().next_fill(
                inner_request(old(self).converter_type(), old(buffer)@.len() as usize),
            ) matches Some(rec) ==> final(self).wrapped().last_fill() == Some(rec)),
            old(self).wrapped().fixed_format() ==> final(self).wrapped().fixed_format()
                && final(self).wrapped().spec_channel_count() == old(self).wrapped().spec_channel_count(),
            old(self).converter_type() == ConverterType::PassThrough ==> forall|rest: Seq<usize>|
                #[trigger] old(self).wrapped().fills_ahead(seq![old(buffer)@.len() as usize] + rest) matches Some(recs) ==> {
                    &&& recs.len() > 0
                    &&& recs[0] == (
                        final(self).wrapped().last_fill().unwrap(),
                        final(self).wrapped().spec_channel_count(),
                        final(self).wrapped().spec_sample_rate(),
                    )
                    &&& final(self).wrapped().last_fill() is Some
                    &&& final(self).wrapped().fills_ahead(rest) == Some(recs.drop_first())
                },
            asks_inner(old(self).converter_type(), old(buffer)@.len()) ==> (final(self).wrapped().last_fill() matches Some(
                rec,
            ) && rec.0 matches Ok((c, _)) ==> c <= if old(self).converter_type() == ConverterType::PassThrough {
                old(buffer)@.len()
            } else {
                final(self).inner_samples().len()
            }),
            asks_inner(old(self).converter_type(), old(buffer)@.len()) ==> (final(self).wrapped().last_fill() matches Some(
                rec,
            ) && rec.1 == written_by(
                rec.0,
                if old(self).converter_type() == ConverterType::PassThrough {
                    final(buffer)@
                } else {
                    final(self).inner_samples()
                },
            )),
            old(self).converter_type() == ConverterType::Unsupported ==> r is Err && final(buffer)@ == old(
                buffer,
            )@ && (final(self).wrapped() == old(self).wrapped() && final(self).converter_type() == old(self).converter_type() && final(self).inner_samples() == old(self).inner_samples()),
            r matches Ok((_, NextState::MetadataChanged)) ==> final(self).converter_type() == converter_type_for(
                final(self).wrapped().spec_channel_count(),
                final(self).spec_channel_count(),
            ),
            !(r matches Ok((_, NextState::MetadataChanged))) ==> final(self).converter_type() == old(
                self,
            ).converter_type(),
            old(self).converter_type() == ConverterType::MonoToStereo ==> (r matches Ok((n, _))
                ==> spread_to_stereo(final(buffer)@, old(buffer)@, final(self).inner_samples(), n as int)),
            old(self).converter_type() == ConverterType::StereoToMono ==> (r matches Ok((n, _)) ==> {
                &&& 2 * n <= final(self).inner_samples().len()
                &&& forall|k: int|
                    0 <= k < n ==> #[trigger] final(buffer)@[k] == midpoint(
                        final(self).inner_samples()[2 * k],
                        final(self).inner_samples()[2 * k + 1],
                    )
                &&& unchanged_from(final(buffer)@, old(buffer)@, n as int)
            }),
    {
        match self.converter_type {
            ConverterType::PassThrough => {
                let next = self.inner.fill_next_frames(buffer);
                if let Ok((_, NextState::MetadataChanged)) = next {
                    self.handle_channel_count_change();
                }
                proof {
                    reveal(converted_result);
                    assert(old(self).converter_type() == ConverterType::PassThrough);
                    assert(old(self).converter_type() != ConverterType::MonoToStereo);
                    assert(old(self).converter_type() != ConverterType::StereoToMono);
                }
                next
            },
            ConverterType::MonoToStereo => self.fill_mono_to_stereo(buffer),
            ConverterType::StereoToMono => {
                if buffer.len() > (isize::MAX as usize) / 4 {
                    return Err(RawedioError::FormatError("buffer too large to convert stereo to mono".to_string()));
                }
                self.scratch.clear();
                self.scratch.resize(buffer.len() * 2, 0);
                let next = self.inner.fill_next_frames(self.scratch.as_mut_slice());
                let (count, state) = match next {
                    Ok(v) => v,
                    Err(e) => {
                        proof {
                            reveal(converted_result);
                        }
                        return Err(e);
                    },
                };
                if let NextState::MetadataChanged = state {
                    self.handle_channel_count_change();
                }
                let frames = count / 2;
                let mut k: usize = 0;
                while k < frames
                    invariant
                        k <= frames,
                        frames == count / 2,
                        count <= self.scratch@.len(),
                        self.scratch@.len() == old(buffer)@.len() * 2,
                        buffer@.len() == old(buffer)@.len(),
                        forall|j: int|
                            0 <= j < k ==> #[trigger] buffer@[j] == midpoint(
                                self.scratch@[2 * j],
                                self.scratch@[2 * j + 1],
                            ),
                        unchanged_from(buffer@, old(buffer)@, k as int),
                    decreases frames - k,
                {
                    let m = midpoint_i16(self.scratch[2 * k], self.scratch[2 * k + 1]);
                    buffer[k] = m;
                    k = k + 1;
                }
                proof {
                    reveal(converted_result);
                }
                Ok((frames, state))
            },
            ConverterType::Unsupported => {
                Err(RawedioError::FormatError("channel count conversion not supported".to_string()))
            },
        }
    }
}


impl<S: Sound> Sound for ChannelCountConverter<S> {
    closed spec fn wf(&self) -> bool {
        self.inner.wf()
    }

    closed spec fn spec_channel_count(&self) -> u16 {
        self.to_count
    }

    closed spec fn spec_sample_rate(&self) -> u32 {
        self.inner.spec_sample_rate()
    }

    /// Only a sound that keeps its format and never fails, passed through or
    /// turned from mono into stereo, is sure never to fail: other conversions
    /// can fail or become unsupported.
    closed spec fn infallible(&self) -> bool {
        &&& self.inner.infallible()
        &&& self.inner.fixed_format()
        &&& self.converter_type == converter_type_for(self.inner.spec_channel_count(), self.to_count)
        &&& (self.converter_type == ConverterType::PassThrough || self.converter_type
            == ConverterType::MonoToStereo)
    }

    closed spec fn fixed_format(&self) -> bool {
        self.inner.fixed_format()
    }

    closed spec fn last_fill(&self) -> Option<FillRecord> {
        self.last@
    }


    closed spec fn fill_log(&self) -> Seq<FillEntry> {

        self.log@

    }

    open spec fn fills_ahead(&self, lens: Seq<usize>) -> Option<Seq<FillEntry>> {
        if self.converter_type() == ConverterType::PassThrough && self.wrapped().fixed_format()
            && self.wrapped().spec_channel_count() == self.spec_channel_count() {
            self.wrapped().fills_ahead(lens)
        } else {
            None
        }
    }

    open spec fn next_fill(&self, len: usize) -> Option<FillRecord> {
        if asks_inner(self.converter_type(), len as nat) {
            match self.wrapped().next_fill(inner_request(self.converter_type(), len)) {
                Some(rec) => Some(converted_record(self.converter_type(), rec)),
                None => None,
            }
        } else {
            None
        }
    }

    fn channel_count(&self) -> (r: u16) {
        self.to_count
    }

    fn sample_rate(&self) -> (r: u32) {
        self.inner.sample_rate()
    }

    fn on_start_of_batch(&mut self)
        ensures
            final(self).converter_type() == old(self).converter_type(),
            final(self).spec_channel_count() == old(self).spec_channel_count(),
    {
        self.inner.on_start_of_batch();
    }

    /// Passes through, duplicates each mono sample onto two channels, or
    /// writes the midpoint of each stereo frame, according to the current
    /// conversion. After the inner sound reports `MetadataChanged` the
    /// conversion is chosen again for its new channel count. A conversion
    /// that is not supported returns an error, and so does turning stereo
    /// into mono for a buffer too large to ask the inner sound for twice its
    /// samples. Otherwise only the inner sound can fail.
    #[verifier::spinoff_prover]
    fn fill_next_frames(&mut self, buffer: &mut [i16]) -> (r: FillResult)
        ensures
            final(self).spec_channel_count() == old(self).spec_channel_count(),
            old(self).wrapped().infallible() && old(self).converter_type() != ConverterType::Unsupported
                && (old(self).converter_type() == ConverterType::StereoToMono ==> old(buffer)@.len()
                <= isize::MAX / 4) ==> r is Ok,
            old(self).converter_type() == ConverterType::StereoToMono && old(buffer)@.len() > isize::MAX / 4
                ==> r is Err && final(buffer)@ == old(buffer)@ && (final(self).wrapped() == old(self).wrapped() && final(self).converter_type() == old(self).converter_type() && final(self).inner_samples() == old(self).inner_samples()),
            old(self).converter_type() == ConverterType::MonoToStereo ==> final(self).inner_samples().len()
                == old(buffer)@.len() / 2,
            old(self).converter_type() == ConverterType::StereoToMono && old(buffer)@.len() <= isize::MAX / 4
                ==> final(self).inner_samples().len() == 2 * old(buffer)@.len(),
            old(self).converter_type() == ConverterType::PassThrough ==> final(self).inner_samples()
                == old(self).inner_samples(),
            asks_inner(old(self).converter_type(), old(buffer)@.len()) ==> (final(self).wrapped().last_fill() matches Some(
                rec,
            ) && r == converted_result(old(self).converter_type(), rec.0)),
            asks_inner(old(self).converter_type(), old(buffer)@.len()) ==> (final(self).wrapped().last_fill() matches Some(
                rec,
            ) && rec.1 == written_by(
                rec.0,
                if old(self).converter_type() == ConverterType::PassThrough {
                    final(buffer)@
                } else {
                    final(self).inner_samples()
                },
            )),
            old(self).converter_type() == ConverterType::Unsupported ==> r is Err && final(buffer)@ == old(
                buffer,
            )@ && (final(self).wrapped() == old(self).wrapped() && final(self).converter_type() == old(self).converter_type() && final(self).inner_samples() == old(self).inner_samples()),
            r matches Ok((_, NextState::MetadataChanged)) ==> final(self).converter_type() == converter_type_for(
                final(self).wrapped().spec_channel_count(),
                final(self).spec_channel_count(),
            ),
            !(r matches Ok((_, NextState::MetadataChanged))) ==> final(self).converter_type() == old(
                self,
            ).converter_type(),
            old(self).converter_type() == ConverterType::MonoToStereo ==> (r matches Ok((n, _))
                ==> spread_to_stereo(final(buffer)@, old(buffer)@, final(self).inner_samples(), n as int)),
            old(self).converter_type() == ConverterType::StereoToMono ==> (r matches Ok((n, _)) ==> {
                &&& 2 * n <= final(self).inner_samples().len()
                &&& forall|k: int|
                    0 <= k < n ==> #[trigger] final(buffer)@[k] == midpoint(
                        final(self).inner_samples()[2 * k],
                        final(self).inner_samples()[2 * k + 1],
                    )
                &&& unchanged_from(final(buffer)@, old(buffer)@, n as int)
            }),
    {
        let ghost log0 = self.log@;
        let ghost t = self.converter_type;
        let ghost b0 = buffer@;
        let r = self.fill_frames(buffer);
        proof {
            if asks_inner(t, b0.len()) {
                let rec = self.inner.last_fill().unwrap();
                lemma_converted_record(t, rec, r, buffer@, b0, self.scratch@);
                assert(fill_record(r, buffer@) == converted_record(t, rec));
            }
            if t == ConverterType::PassThrough {
                reveal(converted_result);
            }
            assert forall|rest: Seq<usize>|
                #[trigger] old(self).fills_ahead(seq![b0.len() as usize] + rest) is Some implies {
                    let recs = old(self).fills_ahead(seq![b0.len() as usize] + rest).unwrap();
                    &&& recs.len() > 0
                    &&& recs[0] == (fill_record(r, buffer@), self.spec_channel_count(), self.spec_sample_rate())
                    &&& self.fills_ahead(rest) == Some(recs.drop_first())
                } by {
                assert(old(self).wrapped().fills_ahead(seq![b0.len() as usize] + rest) is Some);
                let recs = old(self).wrapped().fills_ahead(seq![b0.len() as usize] + rest).unwrap();
                assert(self.inner.last_fill() == Some(recs[0].0));
                assert(converted_record(t, recs[0].0) == recs[0].0);
                assert(self.wrapped().fixed_format());
                assert(self.wrapped().spec_channel_count() == self.spec_channel_count());
                if r matches Ok((_, NextState::MetadataChanged)) {
                    assert(converter_type_for(self.wrapped().spec_channel_count(), self.spec_channel_count())
                        == ConverterType::PassThrough);
                } else {
                    assert(self.converter_type() == old(self).converter_type());
                }
                assert(self.converter_type() == ConverterType::PassThrough);
            }
        }
        self.last = Ghost(Some(fill_record(r, buffer@)));
        self.log = Ghost(log0.push((fill_record(r, buffer@), self.spec_channel_count(), self.spec_sample_rate())));
        r
    }
}

} // verus!
