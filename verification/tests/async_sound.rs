use rawedio::async_sound::{
    chunk_after_fill, process_job, AsyncSampleChunk, AsyncSound, AsyncSoundError, AsyncSoundId, AsyncSoundJob,
    JobNext, ASYNC_SAMPLE_CHUNK_CAP,
};
use rawedio::utils::test::{ConstantValueSound, Sawtooth};
use rawedio::{NextSampleBuffer, NextState, Sound};

fn chunk(response: NextSampleBuffer, max_samples: usize, first: i16) -> AsyncSampleChunk {
    let mut data = [0; ASYNC_SAMPLE_CHUNK_CAP];
    for (i, d) in data.iter_mut().enumerate() {
        *d = first.wrapping_add(i as i16);
    }
    AsyncSampleChunk { response, channel_count: 1, sample_rate: 1000, max_samples, data }
}

#[test]
fn written_samples_counts_by_response() {
    assert_eq!(chunk(NextSampleBuffer::Continue, 8, 0).written_samples(), 8);
    assert_eq!(chunk(NextSampleBuffer::MetadataChanged(3), 8, 0).written_samples(), 3);
    assert_eq!(chunk(NextSampleBuffer::Paused(2), 8, 0).written_samples(), 2);
    assert_eq!(chunk(NextSampleBuffer::Finished(1), 8, 0).written_samples(), 1);
}

#[test]
fn async_ids_are_allocated_in_order_until_exhausted() {
    let (id, next) = AsyncSoundId::allocate(0).unwrap();
    assert_eq!(id.into_inner(), 0);
    assert_eq!(next, 1);
    assert!(matches!(AsyncSoundId::allocate(u64::MAX), Err(AsyncSoundError::ExhaustedIDs)));
    assert_eq!(AsyncSoundError::WorkerStopped.message(), "Async sound worker stopped unexpectedly");
    assert_eq!(AsyncSoundError::ExhaustedIDs.message(), "Exhausted all ID numbers for controller");
}

#[test]
fn chunk_after_fill_zeroes_the_rest() {
    let data = [9; ASYNC_SAMPLE_CHUNK_CAP];
    let (c, next) = chunk_after_fill(data, 2, NextState::Paused, 4, 2, 1000);
    assert_eq!(next, JobNext::StopBatch);
    assert_eq!(c.response, NextSampleBuffer::Paused(2));
    assert_eq!(c.data[..5], [9, 9, 0, 0, 9]);

    let (c, next) = chunk_after_fill(data, 1, NextState::Finished, 4, 2, 1000);
    assert_eq!(next, JobNext::Remove);
    assert_eq!(c.response, NextSampleBuffer::MetadataChanged(1));

    let (c, next) = chunk_after_fill(data, 0, NextState::Playing, 4, 2, 1000);
    assert_eq!(next, JobNext::Continue);
    assert_eq!(c.response, NextSampleBuffer::Continue);
    assert_eq!(c.data[..4], [9, 9, 9, 9]);
}

#[test]
fn async_sound_plays_chunks_in_order() {
    let (mut tx, rx) = rtrb::RingBuffer::new(4);
    let (id, _) = AsyncSoundId::allocate(7).unwrap();
    let mut sound = AsyncSound::new(id, rx, 1, 1000);
    assert_eq!(sound.id().into_inner(), 7);
    tx.push(chunk(NextSampleBuffer::Continue, 3, 10)).unwrap();
    tx.push(chunk(NextSampleBuffer::Paused(2), 3, 20)).unwrap();
    sound.on_start_of_batch();

    let mut buffer = [0; 4];
    assert_eq!(sound.fill_next_frames(&mut buffer).unwrap(), (4, NextState::Playing));
    assert_eq!(buffer, [10, 11, 12, 20]);
    let mut buffer = [0; 4];
    assert_eq!(sound.fill_next_frames(&mut buffer).unwrap(), (1, NextState::Paused));
    assert_eq!(buffer, [21, 0, 0, 0]);
    assert_eq!(sound.fill_next_frames(&mut buffer).unwrap(), (0, NextState::Paused));
    drop(tx);
    assert_eq!(sound.fill_next_frames(&mut buffer).unwrap(), (0, NextState::Finished));
}

#[test]
fn async_sound_takes_format_of_changed_chunk() {
    let (mut tx, rx) = rtrb::RingBuffer::new(2);
    let (id, _) = AsyncSoundId::allocate(0).unwrap();
    let mut sound = AsyncSound::new(id, rx, 1, 1000);
    let mut changed = chunk(NextSampleBuffer::MetadataChanged(1), 2, 5);
    changed.channel_count = 2;
    changed.sample_rate = 8000;
    tx.push(changed).unwrap();
    sound.on_start_of_batch();
    let mut buffer = [0; 3];
    assert_eq!(sound.fill_next_frames(&mut buffer).unwrap(), (1, NextState::MetadataChanged));
    assert_eq!(buffer, [5, 0, 0]);
    assert_eq!(sound.channel_count(), 2);
    assert_eq!(sound.sample_rate(), 8000);
}

#[test]
fn process_job_fills_free_slots() {
    let (tx, mut rx) = rtrb::RingBuffer::new(3);
    let mut job = AsyncSoundJob::new(Box::new(Sawtooth::new(2, 1000)), tx);
    assert!(process_job(&mut job, 2));
    let first = rx.pop().unwrap();
    assert_eq!(first.response, NextSampleBuffer::Continue);
    assert_eq!(first.max_samples, ASYNC_SAMPLE_CHUNK_CAP);
    assert_eq!(first.data[..4], [0, 0, 1, 1]);
    let second = rx.pop().unwrap();
    assert_eq!(second.data[0], (ASYNC_SAMPLE_CHUNK_CAP / 2) as i16);
    assert!(rx.pop().is_err());
}

#[test]
fn process_job_hands_over_metadata_change() {
    let (tx, mut rx) = rtrb::RingBuffer::new(3);
    let mut changing = ConstantValueSound::new(1);
    changing.set_channel_count(3);
    let mut job = AsyncSoundJob::new(Box::new(changing), tx);
    // A change of metadata is handed over and filling goes on.
    assert!(process_job(&mut job, 2));
    let first = rx.pop().unwrap();
    assert_eq!(first.response, NextSampleBuffer::MetadataChanged(0));
    assert_eq!(first.max_samples, ASYNC_SAMPLE_CHUNK_CAP / 3 * 3);
    assert_eq!(first.channel_count, 3);
    let second = rx.pop().unwrap();
    assert_eq!(second.response, NextSampleBuffer::Continue);
}
