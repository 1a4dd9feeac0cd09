//! The decisions of rendering a sound on another thread: filling chunks of
//! samples on the rendering side and playing them back on the other.
//!
//! The queue that carries the chunks between the threads is not part of this
//! module; what each side does with a chunk is.

use vstd::prelude::*;

use crate::sound::{buffer_len_ok, unchanged_from, NextState, Sound};

verus! {

/// Marks a threaded renderer that plays a single sound.
pub struct ForSound;

/// Marks a threaded renderer that plays a mixer backend source.
pub struct ForBackendSource;

/// Error related to the threaded renderer and sounds.
#[derive(Debug)]
pub enum RawedioThreadingError {
    /// The backend returned an error; its message is kept.
    Backend(String),
    /// Standard IO error. Usually only occurs when creating the thread.
    Io(std::io::Error),
    /// Error sending a command to the threaded worker, usually means that
    /// the worker has crashed or otherwise stopped prematurely.
    WorkerError,
}

impl From<std::io::Error> for RawedioThreadingError {
    fn from(e: std::io::Error) -> (r: Self)
        ensures
            r == RawedioThreadingError::Io(e),
    {
        RawedioThreadingError::Io(e)
    }
}

impl vstd::std_specs::convert::FromSpecImpl<std::io::Error> for RawedioThreadingError {
    open spec fn obeys_from_spec() -> bool {
        true
    }

    open spec fn from_spec(v: std::io::Error) -> Self {
        RawedioThreadingError::Io(v)
    }
}

/// A chunk of samples passed from the rendering side to the playing side.
pub struct SampleChunk {
    /// The samples.
    pub samples: Vec<i16>,
    /// The state the sound reported after the samples.
    pub next_state: NextState,
    /// The sample rate of the sound after the samples.
    pub sample_rate: u32,
    /// The channel count of the sound after the samples.
    pub channel_count: u16,
}

/// Fill `chunk` with the next `size` samples of `inner`, as the rendering
/// side does for each free chunk: the batch starts, the samples that were
/// written are kept with the state and format the sound reported after
/// them. An error leaves the chunk empty and `Finished`. Returns whether the
/// rendering side stops: after a `Finished` or an error.
pub fn fill_chunk<S: Sound>(inner: &mut S, chunk: &mut SampleChunk, size: usize) -> (stop: bool)
    requires
        old(inner).wf(),
        buffer_len_ok(size as nat),
    ensures
        final(inner).wf(),
        final(chunk).samples@.len() <= size,
        stop == (final(chunk).next_state == NextState::Finished),
        final(chunk).samples@.len() == 0 || final(chunk).channel_count == final(inner).spec_channel_count(),
        final(chunk).samples@.len() == 0 || final(chunk).sample_rate == final(inner).spec_sample_rate(),
        (final(inner).last_fill() matches Some(rec) && match rec.0 {
            Ok((_, state)) => final(chunk).samples@ == rec.1 && final(chunk).next_state == state,
            Err(_) => final(chunk).samples@.len() == 0 && final(chunk).next_state == NextState::Finished,
        }),
{
    chunk.samples.resize(size, 0);
    inner.on_start_of_batch();
    match inner.fill_next_frames(chunk.samples.as_mut_slice()) {
        Ok((count, next)) => {
            chunk.samples.truncate(count);
            assert(chunk.samples@ =~= chunk.samples@.take(count as int));
            chunk.next_state = next;
            chunk.channel_count = inner.channel_count();
            chunk.sample_rate = inner.sample_rate();
            matches!(next, NextState::Finished)
        },
        Err(_) => {
            chunk.samples.clear();
            chunk.next_state = NextState::Finished;
            true
        },
    }
}

/// Where the playing side stands: the format it reports and how many
/// samples of the current chunk it has played.
#[derive(Debug, Copy, Clone, PartialEq, Eq, Structural)]
pub struct RxCursor {
    /// The sample rate reported.
    pub sample_rate: u32,
    /// The channel count reported.
    pub channel_count: u16,
    /// How many samples of the current chunk were played.
    pub samples_filled: usize,
}

/// Copy the next samples of `chunk` into `buffer` from position `written`:
/// as many as fit and are left in the chunk. When the chunk is used up, the
/// cursor takes its format and starts at the next chunk, and the chunk's
/// state is returned with the number of samples copied.
pub fn take_from_chunk(cursor: &mut RxCursor, chunk: &SampleChunk, buffer: &mut [i16], written: usize) -> (r: (
    usize,
    Option<NextState>,
))
    requires
        written <= old(buffer)@.len(),
        old(cursor).samples_filled <= chunk.samples@.len(),
    ensures
        ({
            let room = old(buffer)@.len() - written;
            let left = chunk.samples@.len() - old(cursor).samples_filled;
            r.0 == if room < left {
                room
            } else {
                left
            }
        }),
        final(buffer)@.len() == old(buffer)@.len(),
        forall|j: int| 0 <= j < written ==> #[trigger] final(buffer)@[j] == old(buffer)@[j],
        forall|j: int|
            0 <= j < r.0 ==> #[trigger] final(buffer)@[written + j] == chunk.samples@[old(cursor).samples_filled
                + j],
        unchanged_from(final(buffer)@, old(buffer)@, written + r.0),
        old(cursor).samples_filled + r.0 >= chunk.samples@.len() ==> {
            &&& r.1 == Some(chunk.next_state)
            &&& *final(cursor) == RxCursor {
                sample_rate: chunk.sample_rate,
                channel_count: chunk.channel_count,
                samples_filled: 0,
            }
        },
        old(cursor).samples_filled + r.0 < chunk.samples@.len() ==> {
            &&& r.1 == None::<NextState>
            &&& *final(cursor) == RxCursor { samples_filled: (old(cursor).samples_filled + r.0) as usize, ..*old(cursor) }
        },
{
    let room = buffer.len() - written;
    let left = chunk.samples.len() - cursor.samples_filled;
    let count = if room < left { room } else { left };
    let from = cursor.samples_filled;
    assert(buffer@.len() <= usize::MAX && chunk.samples@.len() <= usize::MAX);
    let mut k: usize = 0;
    while k < count
        invariant
            k <= count,
            written + count <= buffer@.len(),
            from + count <= chunk.samples@.len(),
            written + count <= usize::MAX,
            from + count <= usize::MAX,
            buffer@.len() == old(buffer)@.len(),
            forall|j: int| 0 <= j < written ==> #[trigger] buffer@[j] == old(buffer)@[j],
            forall|j: int| 0 <= j < k ==> #[trigger] buffer@[written + j] == chunk.samples@[from + j],
            forall|j: int| written + k <= j < buffer@.len() ==> #[trigger] buffer@[j] == old(buffer)@[j],
        decreases count - k,
    {
        buffer[written + k] = chunk.samples[from + k];
        k = k + 1;
    }
    cursor.samples_filled = cursor.samples_filled + count;
    if cursor.samples_filled >= chunk.samples.len() {
        cursor.samples_filled = 0;
        cursor.sample_rate = chunk.sample_rate;
        cursor.channel_count = chunk.channel_count;
        (count, Some(chunk.next_state))
    } else {
        (count, None)
    }
}

/// The state the playing side reports after a fill: `Paused` when it wrote
/// nothing while still playing, and `Finished` when no chunk came and the
/// rendering side is gone; otherwise the state it met.
pub fn rx_report(samples_written: usize, next_state: NextState, did_recv_chunk: bool, connected: bool) -> (r: NextState)
    ensures
        r == if !did_recv_chunk && !connected {
            NextState::Finished
        } else if samples_written == 0 && next_state == NextState::Playing {
            NextState::Paused
        } else {
            next_state
        },
{
    let mut state = next_state;
    if samples_written == 0 && state == NextState::Playing {
        state = NextState::Paused;
    }
    if !did_recv_chunk && !connected {
        state = NextState::Finished;
    }
    state
}

} // verus!
