//! The worker side: filling chunks from a sound and handing them over.

use vstd::prelude::*;

use crate::async_sound::{AsyncSampleChunk, ASYNC_SAMPLE_CHUNK_CAP};
use crate::legacy::NextSampleBuffer;
use crate::sound::{fill_record, FillEntry, NextState, Sound};

verus! {

/// Calls `rtrb::Producer::push`, which appends `value` to the ring buffer
/// unless it is full; returns whether it was appended. Whether there is room
/// depends on the consumer on the other side, so nothing is stated of it.
#[verifier::external_body]
fn producer_push(p: &mut rtrb::Producer<AsyncSampleChunk>, value: AsyncSampleChunk) -> (r: bool) {
    p.push(value).is_ok()
}

/// What the worker does with a sound after filling one chunk.
#[derive(Debug, Copy, Clone, PartialEq, Eq, Structural)]
pub enum JobNext {
    /// Fill the next free slot.
    Continue,
    /// The sound paused: fill no more slots in this batch.
    StopBatch,
    /// The sound finished: remove it.
    Remove,
}

/// The response a chunk carries after the sound filled `count` samples and
/// reported `state`. A finished sound is reported as a change of metadata:
/// the consumer sees it finish once the worker drops its end of the ring
/// buffer.
pub open spec fn fill_state_response(count: usize, state: NextState) -> NextSampleBuffer {
    match state {
        NextState::Playing => NextSampleBuffer::Continue,
        NextState::MetadataChanged => NextSampleBuffer::MetadataChanged(count),
        NextState::Paused => NextSampleBuffer::Paused(count),
        NextState::Finished => NextSampleBuffer::MetadataChanged(count),
    }
}

/// What the worker does next after a fill that reported `state`.
pub open spec fn job_next_for(state: NextState) -> JobNext {
    match state {
        NextState::Playing => JobNext::Continue,
        NextState::MetadataChanged => JobNext::Continue,
        NextState::Paused => JobNext::StopBatch,
        NextState::Finished => JobNext::Remove,
    }
}

/// The chunk made of `data` after the sound filled `count` of
/// `max_samples` samples and reported `state`, and what the worker does
/// next. Unless the sound keeps playing, the samples from `count` up to
/// `max_samples` are set to zero.
pub fn chunk_after_fill(
    data: [i16; ASYNC_SAMPLE_CHUNK_CAP],
    count: usize,
    state: NextState,
    max_samples: usize,
    channel_count: u16,
    sample_rate: u32,
) -> (r: (AsyncSampleChunk, JobNext))
    requires
        count <= max_samples,
        max_samples <= ASYNC_SAMPLE_CHUNK_CAP,
    ensures
        r.0.response == fill_state_response(count, state),
        r.0.max_samples == max_samples,
        r.0.channel_count == channel_count,
        r.0.sample_rate == sample_rate,
        forall|i: int|
            0 <= i < ASYNC_SAMPLE_CHUNK_CAP ==> #[trigger] r.0.data@[i] == if state != NextState::Playing
                && count <= i < max_samples {
                0
            } else {
                data@[i]
            },
        r.1 == job_next_for(state),
{
    let ghost original = data;
    let mut data = data;
    if state != NextState::Playing {
        let mut k = count;
        while k < max_samples
            invariant
                count <= k <= max_samples,
                max_samples <= ASYNC_SAMPLE_CHUNK_CAP,
                forall|i: int|
                    0 <= i < ASYNC_SAMPLE_CHUNK_CAP ==> #[trigger] data@[i] == if count <= i < k {
                        0
                    } else {
                        original@[i]
                    },
            decreases max_samples - k,
        {
            data[k] = 0;
            k = k + 1;
        }
    }
    let response = match state {
        NextState::Playing => NextSampleBuffer::Continue,
        NextState::MetadataChanged => NextSampleBuffer::MetadataChanged(count),
        NextState::Paused => NextSampleBuffer::Paused(count),
        NextState::Finished => NextSampleBuffer::MetadataChanged(count),
    };
    let next = match state {
        NextState::Playing => JobNext::Continue,
        NextState::MetadataChanged => JobNext::Continue,
        NextState::Paused => JobNext::StopBatch,
        NextState::Finished => JobNext::Remove,
    };
    (AsyncSampleChunk { response, channel_count, sample_rate, max_samples, data }, next)
}

/// Whether `chunk` is the one the worker makes after the fill recorded in
/// `fill`, in which the sound was asked for `max_samples` samples: it
/// carries the response for the reported state, the format the sound had
/// after the fill and the samples written; unless the sound keeps playing,
/// the samples after those written are zero.
pub open spec fn chunk_of_fill(chunk: AsyncSampleChunk, fill: FillEntry, max_samples: usize) -> bool {
    match fill.0.0 {
        Ok((count, state)) => {
            &&& chunk.response == fill_state_response(count, state)
            &&& chunk.max_samples == max_samples
            &&& chunk.channel_count == fill.1
            &&& chunk.sample_rate == fill.2
            &&& chunk.data@.take(count as int) == fill.0.1
            &&& state != NextState::Playing ==> forall|i: int| count <= i < max_samples ==> #[trigger] chunk.data@[i] == 0
        },
        Err(_) => false,
    }
}

/// Whether the worker goes on with a sound after the fill recorded in
/// `fill`: it kept playing or only changed its format.
pub open spec fn goes_on_after(fill: FillEntry) -> bool {
    fill.0.0 matches Ok((_, state)) && (state == NextState::Playing || state == NextState::MetadataChanged)
}

/// The number of samples the worker asks a sound with `channels` channels
/// for: the most whole frames that fit a chunk.
pub open spec fn chunk_request(channels: nat) -> nat {
    if channels == 0 {
        0
    } else {
        (ASYNC_SAMPLE_CHUNK_CAP as nat / channels) * channels
    }
}

/// A sound on the worker, and the producer end of the ring buffer its chunks
/// go to.
pub struct AsyncSoundJob {
    /// The sound rendered ahead.
    pub source: Box<dyn Sound>,
    /// Where the chunks go.
    pub sample_tx: rtrb::Producer<AsyncSampleChunk>,
    /// Every chunk handed to the consumer so far, oldest first.
    pub handed: Ghost<Seq<AsyncSampleChunk>>,
}

impl AsyncSoundJob {
    /// Every chunk handed to the consumer so far, oldest first.
    pub open spec fn handed_over(&self) -> Seq<AsyncSampleChunk> {
        self.handed@
    }

    /// A job for `source` whose chunks go to `sample_tx`.
    pub fn new(source: Box<dyn Sound>, sample_tx: rtrb::Producer<AsyncSampleChunk>) -> (r: AsyncSoundJob)
        ensures
            r.handed_over() == Seq::<AsyncSampleChunk>::empty(),
    {
        AsyncSoundJob { source, sample_tx, handed: Ghost(Seq::empty()) }
    }

    /// Hand a chunk to the consumer. The worker only fills as many chunks as
    /// the ring buffer had free slots, and only the consumer frees slots, so
    /// the chunk fits; were it full, the chunk would be dropped.
    pub fn push_chunk(&mut self, value: AsyncSampleChunk)
        ensures
            final(self).source == old(self).source,
            final(self).handed_over() == old(self).handed_over().push(value),
    {
        let ghost h = self.handed@;
        let _ = producer_push(&mut self.sample_tx, value);
        self.handed = Ghost(h.push(value));
    }
}

/// Fill up to `slots` chunks from the job's sound and hand them over, each
/// with the largest whole number of frames that fits a chunk. Returns false
/// when the sound should be removed: it finished, failed, or has no channels
/// (no frame fits then). A pause stops filling for this batch.
///
/// Each fill made hands over the chunk [`chunk_of_fill`] describes, but a
/// failed one, which hands over nothing; filling goes on while the sound
/// keeps playing or only changes its format, up to `slots` fills.
pub fn process_job(job: &mut AsyncSoundJob, slots: usize) -> (r: bool)
    requires
        old(job).source.wf(),
    ensures
        final(job).source.wf(),
        old(job).source.spec_channel_count() == 0 ==> !r && final(job).source == old(job).source
            && final(job).handed_over() == old(job).handed_over(),
        old(job).source.spec_channel_count() > 0 && slots == 0 ==> r && final(job).source == old(job).source,
        old(job).source.spec_channel_count() > 0 && !r ==> (final(job).source.last_fill() matches Some(rec) && (
        rec.0 is Err || rec.0 matches Ok((_, NextState::Finished)))),
        r && slots > 0 ==> (final(job).source.last_fill() matches Some(rec) && rec.0 matches Ok((_, state))
            && state != NextState::Finished),
        final(job).source.fill_log().take(old(job).source.fill_log().len() as int) == old(job).source.fill_log(),
        final(job).handed_over().take(old(job).handed_over().len() as int) == old(job).handed_over(),
        ({
            let fills = final(job).source.fill_log().skip(old(job).source.fill_log().len() as int);
            let chunks = final(job).handed_over().skip(old(job).handed_over().len() as int);
            let max = chunk_request(old(job).source.spec_channel_count() as nat);
            &&& fills.len() <= slots
            &&& forall|i: int| 0 <= i < fills.len() - 1 ==> #[trigger] goes_on_after(fills[i])
            &&& fills.len() < slots && old(job).source.spec_channel_count() > 0 ==> fills.len() > 0
                && !goes_on_after(fills.last())
            &&& chunks.len() == if fills.len() > 0 && fills.last().0.0 is Err {
                fills.len() - 1
            } else {
                fills.len() as int
            }
            &&& forall|i: int| 0 <= i < chunks.len() ==> chunk_of_fill(#[trigger] chunks[i], fills[i], max as usize)
        }),
{
    let ghost log0 = job.source.fill_log();
    let ghost h0 = job.handed_over();
    let channels = job.source.channel_count() as usize;
    if channels == 0 {
        proof {
            assert(job.source.fill_log().skip(log0.len() as int) =~= Seq::<FillEntry>::empty());
            assert(job.handed_over().skip(h0.len() as int) =~= Seq::<AsyncSampleChunk>::empty());
            assert(job.source.fill_log().take(log0.len() as int) =~= log0);
            assert(job.handed_over().take(h0.len() as int) =~= h0);
        }
        return false;
    }
    let frames_per_chunk = ASYNC_SAMPLE_CHUNK_CAP / channels;
    assert(frames_per_chunk * channels <= ASYNC_SAMPLE_CHUNK_CAP) by (nonlinear_arith)
        requires
            frames_per_chunk == ASYNC_SAMPLE_CHUNK_CAP / channels,
            channels > 0,
    ;
    let max_samples = frames_per_chunk * channels;
    assert(max_samples == chunk_request(channels as nat));
    let mut i: usize = 0;
    proof {
        assert(job.source.fill_log().skip(log0.len() as int) =~= Seq::<FillEntry>::empty());
        assert(job.handed_over().skip(h0.len() as int) =~= Seq::<AsyncSampleChunk>::empty());
        assert(job.source.fill_log().take(log0.len() as int) =~= log0);
        assert(job.handed_over().take(h0.len() as int) =~= h0);
    }
    while i < slots
        invariant
            job.source.wf(),
            channels > 0,
            channels == old(job).source.spec_channel_count(),
            frames_per_chunk * channels <= ASYNC_SAMPLE_CHUNK_CAP,
            max_samples == frames_per_chunk * channels,
            max_samples == chunk_request(channels as nat),
            i <= slots,
            i == 0 ==> job.source == old(job).source,
            i > 0 ==> (job.source.last_fill() matches Some(rec) && rec.0 matches Ok((_, state)) && (state
                == NextState::Playing || state == NextState::MetadataChanged)),
            log0 == old(job).source.fill_log(),
            h0 == old(job).handed_over(),
            job.source.fill_log().len() == log0.len() + i,
            job.handed_over().len() == h0.len() + i,
            job.source.fill_log().take(log0.len() as int) == log0,
            job.handed_over().take(h0.len() as int) == h0,
            forall|k: int| 0 <= k < i ==> #[trigger] goes_on_after(job.source.fill_log().skip(log0.len() as int)[k]),
            forall|k: int|
                0 <= k < i ==> chunk_of_fill(
                    #[trigger] job.handed_over().skip(h0.len() as int)[k],
                    job.source.fill_log().skip(log0.len() as int)[k],
                    max_samples,
                ),
        decreases slots - i,
    {
        let ghost fills0 = job.source.fill_log().skip(log0.len() as int);
        let ghost chunks0 = job.handed_over().skip(h0.len() as int);
        let mut data = [0i16; 2048];
        let filled = {
            let all: &mut [i16] = &mut data;
            let (head, _tail) = all.split_at_mut(max_samples);
            let res = job.source.fill_next_frames(head);
            proof {
                assert(all@.subrange(0, max_samples as int) =~= head@);
            }
            res
        };
        let ghost entry: FillEntry = (
            fill_record(filled, data@.subrange(0, max_samples as int)),
            job.source.spec_channel_count(),
            job.source.spec_sample_rate(),
        );
        let ghost fills1 = job.source.fill_log().skip(log0.len() as int);
        proof {
            assert(fills1 =~= fills0.push(entry));
            assert(job.source.fill_log().take(log0.len() as int) =~= log0);
        }
        let (count, state) = match filled {
            Ok(v) => v,
            Err(_) => {
                proof {
                    assert(job.handed_over().skip(h0.len() as int) =~= chunks0);
                    assert forall|k: int| 0 <= k < fills1.len() - 1 implies #[trigger] goes_on_after(fills1[k]) by {
                        assert(fills1[k] == fills0[k]);
                    }
                    assert forall|k: int| 0 <= k < chunks0.len() implies chunk_of_fill(#[trigger] chunks0[k], fills1[k], max_samples) by {
                        assert(fills1[k] == fills0[k]);
                    }
                }
                return false;
            },
        };
        let channel_count = job.source.channel_count();
        let sample_rate = job.source.sample_rate();
        let (chunk, next) = chunk_after_fill(data, count, state, max_samples, channel_count, sample_rate);
        proof {
            assert(chunk.data@.take(count as int) =~= entry.0.1);
        }
        job.push_chunk(chunk);
        let ghost chunks1 = job.handed_over().skip(h0.len() as int);
        proof {
            assert(chunks1 =~= chunks0.push(chunk));
            assert(job.handed_over().take(h0.len() as int) =~= h0);
            assert(chunk_of_fill(chunk, entry, max_samples));
            assert forall|k: int| 0 <= k < fills1.len() - 1 implies #[trigger] goes_on_after(fills1[k]) by {
                assert(fills1[k] == fills0[k]);
            }
            assert forall|k: int| 0 <= k < chunks1.len() implies chunk_of_fill(#[trigger] chunks1[k], fills1[k], max_samples) by {
                if k < chunks0.len() {
                    assert(chunks1[k] == chunks0[k]);
                    assert(fills1[k] == fills0[k]);
                }
            }
        }
        match next {
            JobNext::Continue => {},
            JobNext::StopBatch => return true,
            JobNext::Remove => return false,
        }
        i = i + 1;
    }
    proof {
        let fills = job.source.fill_log().skip(log0.len() as int);
        assert forall|k: int| 0 <= k < fills.len() - 1 implies #[trigger] goes_on_after(fills[k]) by {}
        if fills.len() > 0 {
            assert(goes_on_after(fills[fills.len() - 1]));
        }
    }
    true
}

} // verus!
