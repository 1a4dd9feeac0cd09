//! The consumer side: a sound that plays the chunks rendered ahead.

use vstd::prelude::*;

use crate::async_sound::{written_samples_of, AsyncSampleChunk, AsyncSoundId, ASYNC_SAMPLE_CHUNK_CAP};
use crate::error::RawedioError;
use crate::legacy::NextSampleBuffer;
use crate::sound::{FillEntry, buffer_len_ok, unchanged_from, FillResult, NextState, Sound, FillRecord, fill_record};

verus! {

/// The most chunks an [`AsyncSound`] takes from the ring buffer ahead of
/// playing them.
pub const MAX_PENDING_CHUNKS: usize = 5;

/// Calls `rtrb::Consumer::slots`, the number of chunks ready to be read.
/// It depends on the producer on the other side, so nothing is stated of it.
#[verifier::external_body]
fn consumer_slots(c: &rtrb::Consumer<AsyncSampleChunk>) -> (r: usize) {
    c.slots()
}

/// Calls `rtrb::Consumer::pop`, which takes the oldest chunk if there is
/// one. It depends on the producer on the other side, so nothing is stated
/// of it.
#[verifier::external_body]
fn consumer_pop(c: &mut rtrb::Consumer<AsyncSampleChunk>) -> (r: Option<AsyncSampleChunk>) {
    c.pop().ok()
}

/// Calls `rtrb::Consumer::is_abandoned`, whether the producer is gone. It
/// depends on the other side, so nothing is stated of it.
#[verifier::external_body]
fn consumer_is_abandoned(c: &rtrb::Consumer<AsyncSampleChunk>) -> (r: bool) {
    c.is_abandoned()
}

/// The number of samples of chunk `c` that can be played: those it holds,
/// but never more than fit in it.
pub open spec fn playable(c: AsyncSampleChunk) -> nat {
    let w = written_samples_of(c.response, c.max_samples);
    if w <= ASYNC_SAMPLE_CHUNK_CAP {
        w as nat
    } else {
        ASYNC_SAMPLE_CHUNK_CAP as nat
    }
}

/// The samples of chunk `c` that can be played.
pub open spec fn chunk_samples(c: AsyncSampleChunk) -> Seq<i16> {
    c.data@.take(playable(c) as int)
}

/// The samples of `chunks`, one chunk after the other.
pub open spec fn flatten_chunks(chunks: Seq<AsyncSampleChunk>) -> Seq<i16>
    decreases chunks.len(),
{
    if chunks.len() == 0 {
        Seq::empty()
    } else {
        chunk_samples(chunks[0]) + flatten_chunks(chunks.drop_first())
    }
}

/// Where the first chunk of `chunks` whose response is not `Continue` ends,
/// counting the playable samples from `from` on in the first chunk: the
/// samples before that chunk, the samples through its end, and its
/// response. `None` when every chunk carries `Continue`.
pub open spec fn first_stop(chunks: Seq<AsyncSampleChunk>, from: int) -> Option<(int, int, NextSampleBuffer)>
    decreases chunks.len(),
{
    if chunks.len() == 0 {
        None
    } else {
        let here = playable(chunks[0]) - from;
        if chunks[0].response != NextSampleBuffer::Continue {
            Some((0, here, chunks[0].response))
        } else {
            match first_stop(chunks.drop_first(), 0) {
                None => None,
                Some((before, through, response)) => Some((before + here, through + here, response)),
            }
        }
    }
}

/// Whether a fill of `len` samples reaches the end of the first chunk that
/// does not carry `Continue`: the chunk starts before `len` samples are
/// played and ends within them.
pub open spec fn stop_reached(chunks: Seq<AsyncSampleChunk>, from: int, len: int) -> bool {
    first_stop(chunks, from) matches Some((before, through, _)) && before < len && through <= len
}

/// The state a chunk's response is reported as.
pub open spec fn state_of_response(response: NextSampleBuffer) -> NextState {
    match response {
        NextSampleBuffer::Continue => NextState::Playing,
        NextSampleBuffer::MetadataChanged(_) => NextState::MetadataChanged,
        NextSampleBuffer::Paused(_) => NextState::Paused,
        NextSampleBuffer::Finished(_) => NextState::Finished,
    }
}

/// `stop` moved on by `k` samples.
pub open spec fn shifted(stop: Option<(int, int, NextSampleBuffer)>, k: int) -> Option<(int, int, NextSampleBuffer)> {
    match stop {
        None => None,
        Some((before, through, response)) => Some((before + k, through + k, response)),
    }
}

/// The state reported once every held chunk is played: `Finished` when the
/// worker dropped its end of the ring buffer, `Paused` while it may still
/// send chunks.
pub fn dry_state(abandoned: bool) -> (r: NextState)
    ensures
        r == (if abandoned {
            NextState::Finished
        } else {
            NextState::Paused
        }),
{
    if abandoned {
        NextState::Finished
    } else {
        NextState::Paused
    }
}

/// A sound that plays chunks of samples rendered ahead on a worker.
///
/// The chunks are played in order. Once a chunk is played to its end, the
/// state it carries is reported: a change of metadata takes the chunk's
/// channel count and sample rate. Without chunks the sound is `Paused`, or
/// `Finished` once the worker dropped its end of the ring buffer.
pub struct AsyncSound {
    id: AsyncSoundId,
    rx: rtrb::Consumer<AsyncSampleChunk>,
    channel_count: u16,
    sample_rate: u32,
    chunks: Vec<AsyncSampleChunk>,
    chunk_offset: usize,
    last: Ghost<Option<FillRecord>>,
    log: Ghost<Seq<FillEntry>>,
}

proof fn lemma_first_stop_ordered(chunks: Seq<AsyncSampleChunk>, from: int)
    requires
        chunks.len() > 0 ==> 0 <= from <= playable(chunks[0]),
        chunks.len() == 0 ==> from == 0,
    ensures
        first_stop(chunks, from) matches Some((before, through, _)) ==> 0 <= before <= through,
    decreases chunks.len(),
{
    if chunks.len() > 0 && chunks[0].response == NextSampleBuffer::Continue {
        lemma_first_stop_ordered(chunks.drop_first(), 0);
    }
}

proof fn lemma_skip_concat(a: Seq<i16>, b: Seq<i16>, k: int)
    requires
        0 <= k <= a.len(),
    ensures
        (a + b).skip(k) == a.skip(k) + b,
{
    assert((a + b).skip(k) =~= a.skip(k) + b);
}

impl AsyncSound {
    /// The samples taken from the ring buffer and not played yet, in order.
    pub closed spec fn pending(&self) -> Seq<i16> {
        flatten_chunks(self.chunks@).skip(self.chunk_offset as int)
    }

    /// The chunks taken from the ring buffer and not played to their end.
    pub closed spec fn chunks(&self) -> Seq<AsyncSampleChunk> {
        self.chunks@
    }

    /// How many playable samples of the first chunk were played already.
    pub closed spec fn offset(&self) -> int {
        self.chunk_offset as int
    }

    /// The id of the sound on the worker.
    pub closed spec fn spec_id(&self) -> AsyncSoundId {
        self.id
    }

    /// A sound that plays the chunks that arrive at `rx`, starting with the
    /// given format.
    pub fn new(id: AsyncSoundId, rx: rtrb::Consumer<AsyncSampleChunk>, channel_count: u16, sample_rate: u32) -> (r: Self)
        ensures
            r.wf(),
            r.spec_id() == id,
            r.chunks() == Seq::<AsyncSampleChunk>::empty(),
            r.pending() == Seq::<i16>::empty(),
            r.spec_channel_count() == channel_count,
            r.spec_sample_rate() == sample_rate,
    {
        AsyncSound { id, rx, channel_count, sample_rate, chunks: Vec::new(), chunk_offset: 0, last: Ghost(None), log: Ghost(Seq::empty()) }
    }

    /// The id of the sound on the worker.
    pub fn id(&self) -> (r: AsyncSoundId)
        ensures
            r == self.spec_id(),
    {
        self.id
    }

    // Take ready chunks from the ring buffer until `MAX_PENDING_CHUNKS` are
    // held.
    fn try_pull(&mut self)
        requires
            old(self).wf(),
        ensures
            final(self).wf(),
            final(self).chunks().take(old(self).chunks().len() as int) == old(self).chunks(),
            final(self).chunks().len() >= old(self).chunks().len(),
            old(self).chunks().len() <= MAX_PENDING_CHUNKS ==> final(self).chunks().len() <= MAX_PENDING_CHUNKS,
            final(self).chunk_offset == old(self).chunk_offset,
            final(self).channel_count == old(self).channel_count,
            final(self).sample_rate == old(self).sample_rate,
            final(self).id == old(self).id,
            final(self).last == old(self).last,
            final(self).log == old(self).log,
    {
        let held = self.chunks.len();
        let room = if held < MAX_PENDING_CHUNKS { MAX_PENDING_CHUNKS - held } else { 0 };
        let ready = consumer_slots(&self.rx);
        let to_pull = if ready < room { ready } else { room };
        let mut i: usize = 0;
        while i < to_pull
            invariant
                self.wf(),
                self.chunks@.len() <= held + i,
                self.chunks@.len() >= held,
                self.chunks@.take(old(self).chunks@.len() as int) == old(self).chunks@,
                held == old(self).chunks@.len(),
                held + to_pull <= MAX_PENDING_CHUNKS || to_pull == 0,
                i <= to_pull,
                held <= MAX_PENDING_CHUNKS ==> held + to_pull <= MAX_PENDING_CHUNKS,
                self.chunk_offset == old(self).chunk_offset,
                self.channel_count == old(self).channel_count,
                self.sample_rate == old(self).sample_rate,
                self.id == old(self).id,
                self.last == old(self).last,
                self.log == old(self).log,
            decreases to_pull - i,
        {
            match consumer_pop(&mut self.rx) {
                Some(chunk) => {
                    let ghost before = self.chunks@;
                    self.chunks.push(chunk);
                    assert(self.chunks@.take(held as int) =~= before.take(held as int));
                },
                None => {},
            }
            i = i + 1;
        }
    }
}

impl AsyncSound {
    // The fill itself; `fill_next_frames` records its result.
    #[verifier::rlimit(80)]
    fn fill_frames(&mut self, buffer: &mut [i16]) -> (r: FillResult)
        requires
            old(self).wf(),
            buffer_len_ok(old(buffer)@.len()),
        ensures
            final(self).wf(),
            final(buffer)@.len() == old(buffer)@.len(),
            r matches Ok((n, _)) ==> n <= old(buffer)@.len(),
            old(self).infallible() ==> r is Ok && final(self).infallible(),
            old(self).fixed_format() ==> {
                &&& final(self).fixed_format()
                &&& final(self).spec_channel_count() == old(self).spec_channel_count()
                &&& final(self).spec_sample_rate() == old(self).spec_sample_rate()
            },
            r is Ok,
            r matches Ok((n, _)) ==> {
                &&& final(buffer)@.take(n as int) == old(self).pending().take(n as int)
                &&& final(self).pending() == old(self).pending().skip(n as int)
                &&& unchanged_from(final(buffer)@, old(buffer)@, n as int)
            },
            r matches Ok((n, NextState::Playing)) ==> n == old(buffer)@.len(),
            stop_reached(old(self).chunks(), old(self).offset(), old(buffer)@.len() as int) ==> (first_stop(
                old(self).chunks(),
                old(self).offset(),
            ) matches Some((_, through, response)) && r == Ok::<(usize, NextState), RawedioError>(
                (through as usize, state_of_response(response)),
            )),
            !stop_reached(old(self).chunks(), old(self).offset(), old(buffer)@.len() as int) && old(
                self,
            ).pending().len() >= old(buffer)@.len() ==> r == Ok::<(usize, NextState), RawedioError>(
                (old(buffer)@.len() as usize, NextState::Playing),
            ),
            !stop_reached(old(self).chunks(), old(self).offset(), old(buffer)@.len() as int) && old(
                self,
            ).pending().len() < old(buffer)@.len() ==> (r matches Ok((n, state)) && n == old(self).pending().len()
                && (state == NextState::Paused || state == NextState::Finished) && final(self).chunks().len()
                == 0),
            !(r matches Ok((_, NextState::MetadataChanged))) ==> final(self).spec_channel_count()
                == old(self).spec_channel_count() && final(self).spec_sample_rate() == old(
                self,
            ).spec_sample_rate(),
    {
        let len = buffer.len();
        let ghost p0 = self.pending();
        proof {
            lemma_first_stop_ordered(self.chunks@, self.chunk_offset as int);
        }
        let mut read: usize = 0;
        while read < len
            invariant
                self.wf(),
                read <= len,
                read <= p0.len(),
                len == buffer@.len(),
                len == old(buffer)@.len(),
                buffer@.take(read as int) == p0.take(read as int),
                self.pending() == p0.skip(read as int),
                unchanged_from(buffer@, old(buffer)@, read as int),
                self.channel_count == old(self).channel_count,
                self.sample_rate == old(self).sample_rate,
                p0 == old(self).pending(),
                read < len ==> first_stop(old(self).chunks@, old(self).chunk_offset as int) == shifted(
                    first_stop(self.chunks@, self.chunk_offset as int),
                    read as int,
                ),
                read == len ==> !stop_reached(old(self).chunks@, old(self).chunk_offset as int, len as int),
            decreases len - read, self.chunks@.len(),
        {
            if self.chunks.len() == 0 {
                proof {
                    assert(self.pending() =~= Seq::<i16>::empty());
                }
                let state = dry_state(consumer_is_abandoned(&self.rx));
                return Ok((read, state));
            }
            let ghost chunks0 = self.chunks@;
            let written = self.chunks[0].written_samples();
            let avail = if written <= ASYNC_SAMPLE_CHUNK_CAP { written } else { ASYNC_SAMPLE_CHUNK_CAP };
            let from = self.chunk_offset;
            let room = len - read;
            let n = if room < avail - from { room } else { avail - from };
            let ghost stop_here = first_stop(chunks0, from as int);
            proof {
                lemma_first_stop_ordered(chunks0.drop_first(), 0);
                assert(playable(chunks0[0]) == avail);
                lemma_skip_concat(chunk_samples(chunks0[0]), flatten_chunks(chunks0.drop_first()), from as int);
                assert(chunks0[0].data@.len() == ASYNC_SAMPLE_CHUNK_CAP);
                assert(chunk_samples(chunks0[0]).len() == avail);
                assert(flatten_chunks(chunks0) == chunk_samples(chunks0[0]) + flatten_chunks(chunks0.drop_first()));
                assert(self.pending().len() >= n);
                assert(read + n <= p0.len());
                assert forall|j: int| 0 <= j < read implies #[trigger] buffer@[j] == p0[j] by {
                    assert(buffer@.take(read as int)[j] == p0.take(read as int)[j]);
                }
            }
            let mut k: usize = 0;
            while k < n
                invariant
                    k <= n,
                    from + n <= avail,
                    avail == playable(self.chunks@[0]),
                    self.chunks@ == chunks0,
                    chunks0.len() > 0,
                    read + n <= len,
                    read <= p0.len(),
                    buffer@.len() == len,
                    forall|j: int| 0 <= j < read ==> #[trigger] buffer@[j] == p0[j],
                    forall|j: int| 0 <= j < k ==> #[trigger] buffer@[read + j] == chunks0[0].data@[from + j],
                    forall|j: int| read + k <= j < len ==> #[trigger] buffer@[j] == old(buffer)@[j],
                decreases n - k,
            {
                buffer[read + k] = self.chunks[0].data[from + k];
                k = k + 1;
            }
            let ghost before = self.pending();
            proof {
                assert forall|j: int| 0 <= j < n implies #[trigger] p0[read + j] == chunks0[0].data@[from + j] by {
                    assert(p0.skip(read as int)[j] == p0[read + j]);
                    assert(before[j] == chunk_samples(chunks0[0])[from + j]);
                }
                assert forall|j: int| 0 <= j < read + n implies #[trigger] buffer@[j] == p0[j] by {
                    if j >= read {
                        let d = j - read;
                        assert(buffer@[read + d] == chunks0[0].data@[from + d]);
                        assert(p0[read + d] == chunks0[0].data@[from + d]);
                    }
                }
                assert(buffer@.take((read + n) as int) =~= p0.take((read + n) as int));
            }
            read = read + n;
            self.chunk_offset = from + n;
            proof {
                lemma_skip_concat(chunk_samples(chunks0[0]), flatten_chunks(chunks0.drop_first()), (from + n) as int);
                assert(self.pending() =~= before.skip(n as int));
                assert(before.skip(n as int) =~= p0.skip(read as int));
            }
            if self.chunk_offset == avail {
                let response = self.chunks[0].response;
                let channel_count = self.chunks[0].channel_count;
                let sample_rate = self.chunks[0].sample_rate;
                let ghost mid = self.pending();
                self.chunks.remove(0);
                self.chunk_offset = 0;
                proof {
                    assert(self.chunks@ =~= chunks0.drop_first());
                    assert(chunk_samples(chunks0[0]).skip(avail as int) =~= Seq::<i16>::empty());
                    assert(self.pending() =~= mid);
                }
                match response {
                    NextSampleBuffer::Continue => {
                        proof {
                            assert(stop_here == shifted(first_stop(self.chunks@, 0), (avail - from) as int));
                        }
                    },
                    NextSampleBuffer::MetadataChanged(_) => {
                        self.channel_count = channel_count;
                        self.sample_rate = sample_rate;
                        return Ok((read, NextState::MetadataChanged));
                    },
                    NextSampleBuffer::Paused(_) => return Ok((read, NextState::Paused)),
                    NextSampleBuffer::Finished(_) => return Ok((read, NextState::Finished)),
                }
            }
        }
        Ok((len, NextState::Playing))
    }
}


impl Sound for AsyncSound {
    closed spec fn wf(&self) -> bool {
        &&& self.chunks@.len() > 0 ==> self.chunk_offset <= playable(self.chunks@[0])
        &&& self.chunks@.len() == 0 ==> self.chunk_offset == 0
    }

    closed spec fn spec_channel_count(&self) -> u16 {
        self.channel_count
    }

    closed spec fn spec_sample_rate(&self) -> u32 {
        self.sample_rate
    }

    closed spec fn infallible(&self) -> bool {
        true
    }

    closed spec fn fixed_format(&self) -> bool {
        false
    }

    closed spec fn last_fill(&self) -> Option<FillRecord> {
        self.last@
    }


    closed spec fn fill_log(&self) -> Seq<FillEntry> {

        self.log@

    }

    closed spec fn next_fill(&self, len: usize) -> Option<FillRecord> {
        None
    }

    fn channel_count(&self) -> (r: u16) {
        self.channel_count
    }

    fn sample_rate(&self) -> (r: u32) {
        self.sample_rate
    }

    fn on_start_of_batch(&mut self) {
        self.try_pull();
    }

    /// Plays the pending samples in order: the buffer is filled until it is
    /// full or a chunk played to its end carries another state than
    /// `Continue`; without pending chunks the sound is `Paused`, or
    /// `Finished` once the worker is gone. Never returns an error.
    fn fill_next_frames(&mut self, buffer: &mut [i16]) -> (r: FillResult)
        ensures
            r is Ok,
            r matches Ok((n, _)) ==> {
                &&& final(buffer)@.take(n as int) == old(self).pending().take(n as int)
                &&& final(self).pending() == old(self).pending().skip(n as int)
                &&& unchanged_from(final(buffer)@, old(buffer)@, n as int)
            },
            r matches Ok((n, NextState::Playing)) ==> n == old(buffer)@.len(),
            stop_reached(old(self).chunks(), old(self).offset(), old(buffer)@.len() as int) ==> (first_stop(
                old(self).chunks(),
                old(self).offset(),
            ) matches Some((_, through, response)) && r == Ok::<(usize, NextState), RawedioError>(
                (through as usize, state_of_response(response)),
            )),
            !stop_reached(old(self).chunks(), old(self).offset(), old(buffer)@.len() as int) && old(
                self,
            ).pending().len() >= old(buffer)@.len() ==> r == Ok::<(usize, NextState), RawedioError>(
                (old(buffer)@.len() as usize, NextState::Playing),
            ),
            !stop_reached(old(self).chunks(), old(self).offset(), old(buffer)@.len() as int) && old(
                self,
            ).pending().len() < old(buffer)@.len() ==> (r matches Ok((n, state)) && n == old(self).pending().len()
                && (state == NextState::Paused || state == NextState::Finished) && final(self).chunks().len()
                == 0),
            !(r matches Ok((_, NextState::MetadataChanged))) ==> final(self).spec_channel_count()
                == old(self).spec_channel_count() && final(self).spec_sample_rate() == old(
                self,
            ).spec_sample_rate(),
    {
        let ghost log0 = self.log@;
        let r = self.fill_frames(buffer);
        self.last = Ghost(Some(fill_record(r, buffer@)));
        self.log = Ghost(log0.push((fill_record(r, buffer@), self.spec_channel_count(), self.spec_sample_rate())));
        r
    }
}

} // verus!
