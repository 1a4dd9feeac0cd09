//! Sounds rendered ahead on a worker and handed over in chunks through a
//! single producer, single consumer ring buffer of the `rtrb` crate.

use vstd::prelude::*;

use crate::legacy::NextSampleBuffer;

mod sound;
mod worker;

pub use sound::{dry_state, first_stop, shifted, state_of_response, stop_reached, AsyncSound, MAX_PENDING_CHUNKS};
pub use worker::{
    chunk_after_fill, chunk_of_fill, chunk_request, fill_state_response, goes_on_after, job_next_for, process_job,
    AsyncSoundJob, JobNext,
};

verus! {

#[verifier::external_type_specification]
#[verifier::external_body]
#[verifier::reject_recursive_types(T)]
pub struct ExProducer<T>(rtrb::Producer<T>);

#[verifier::external_type_specification]
#[verifier::external_body]
#[verifier::reject_recursive_types(T)]
pub struct ExConsumer<T>(rtrb::Consumer<T>);

/// The number of samples a chunk holds at most (about 4 KiB).
pub const ASYNC_SAMPLE_CHUNK_CAP: usize = 2048;

/// How many samples a chunk that reports `response` holds, when it was
/// filled with at most `max_samples`.
pub open spec fn written_samples_of(response: NextSampleBuffer, max_samples: usize) -> usize {
    match response {
        NextSampleBuffer::Continue => max_samples,
        NextSampleBuffer::MetadataChanged(count) => count,
        NextSampleBuffer::Paused(count) => count,
        NextSampleBuffer::Finished(count) => count,
    }
}

/// A chunk of samples rendered ahead, with the state the sound reported
/// after them.
#[derive(Debug)]
pub struct AsyncSampleChunk {
    /// What the sound reported after the samples.
    pub response: NextSampleBuffer,
    /// The channel count of the sound after filling the chunk.
    pub channel_count: u16,
    /// The sample rate of the sound after filling the chunk.
    pub sample_rate: u32,
    /// How many samples the sound was asked for.
    pub max_samples: usize,
    /// The samples; only the first `written_samples()` count.
    pub data: [i16; ASYNC_SAMPLE_CHUNK_CAP],
}

impl AsyncSampleChunk {
    /// The number of samples in this chunk: all that were asked for while
    /// the sound kept playing, otherwise the count it reported.
    pub fn written_samples(&self) -> (r: usize)
        ensures
            r == written_samples_of(self.response, self.max_samples),
    {
        match self.response {
            NextSampleBuffer::Continue => self.max_samples,
            NextSampleBuffer::MetadataChanged(count) => count,
            NextSampleBuffer::Paused(count) => count,
            NextSampleBuffer::Finished(count) => count,
        }
    }
}

/// The identifier of a sound handed to the worker.
#[derive(Debug, Clone, Copy, PartialEq, Eq, Hash)]
pub struct AsyncSoundId {
    id: u64,
}

impl AsyncSoundId {
    /// The number inside the id.
    pub closed spec fn id(self) -> u64 {
        self.id
    }

    /// The number inside the id.
    pub fn into_inner(self) -> (r: u64)
        ensures
            r == self.id(),
    {
        self.id
    }

    /// The id numbered `next`, and the number of the id after it; the
    /// numbers are exhausted when `next` is the largest `u64`.
    pub fn allocate(next: u64) -> (r: Result<(AsyncSoundId, u64), AsyncSoundError>)
        ensures
            next < u64::MAX ==> (r matches Ok((id, following)) && id.id() == next && following == next + 1),
            next == u64::MAX ==> r == Err::<(AsyncSoundId, u64), AsyncSoundError>(AsyncSoundError::ExhaustedIDs),
    {
        match next.checked_add(1) {
            Some(following) => Ok((AsyncSoundId { id: next }, following)),
            None => Err(AsyncSoundError::ExhaustedIDs),
        }
    }
}

/// Errors of handing sounds to the worker.
#[derive(Debug, Clone, Copy, PartialEq, Eq, Structural)]
pub enum AsyncSoundError {
    /// Exhausted all ID numbers for controller.
    ExhaustedIDs,
    /// Async sound worker stopped unexpectedly.
    WorkerStopped,
}

impl AsyncSoundError {
    /// The human readable message of this error.
    pub fn message(&self) -> (r: String)
        ensures
            r@ == async_sound_error_message(*self),
    {
        match self {
            AsyncSoundError::ExhaustedIDs => "Exhausted all ID numbers for controller".to_string(),
            AsyncSoundError::WorkerStopped => "Async sound worker stopped unexpectedly".to_string(),
        }
    }
}

/// The message of each [`AsyncSoundError`].
pub open spec fn async_sound_error_message(e: AsyncSoundError) -> Seq<char> {
    match e {
        AsyncSoundError::ExhaustedIDs => "Exhausted all ID numbers for controller"@,
        AsyncSoundError::WorkerStopped => "Async sound worker stopped unexpectedly"@,
    }
}

} // verus!
