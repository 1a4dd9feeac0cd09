use rawedio::threaded::{fill_chunk, rx_report, take_from_chunk, RawedioThreadingError, RxCursor, SampleChunk};
use rawedio::utils::test::{ConstantValueSound, Sawtooth};
use rawedio::{NextState, SoundExt};

fn chunk(samples: Vec<i16>, next_state: NextState) -> SampleChunk {
    SampleChunk { samples, next_state, sample_rate: 8000, channel_count: 1 }
}

#[test]
fn fill_chunk_keeps_written_samples_and_state() {
    let mut sound = Sawtooth::new(1, 1000);
    let mut c = chunk(vec![], NextState::Playing);
    assert!(!fill_chunk(&mut sound, &mut c, 3));
    assert_eq!(c.samples, vec![0, 1, 2]);
    assert_eq!(c.next_state, NextState::Playing);
    assert_eq!(c.sample_rate, 1000);

    let mut short = ConstantValueSound::new(2).finish_after(std::time::Duration::from_micros(50));
    let mut c = chunk(vec![9; 10], NextState::Playing);
    // 50 microseconds at 44100 Hz hold 2 frames of two channels.
    assert!(!fill_chunk(&mut short, &mut c, 6));
    assert_eq!(c.samples, vec![2, 2, 2, 2]);
    assert!(fill_chunk(&mut short, &mut c, 6));
    assert_eq!(c.samples, Vec::<i16>::new());
    assert_eq!(c.next_state, NextState::Finished);
}

#[test]
fn take_from_chunk_copies_and_moves_on() {
    let mut cursor = RxCursor { sample_rate: 1000, channel_count: 2, samples_filled: 0 };
    let c = chunk(vec![1, 2, 3], NextState::Paused);
    let mut buffer = [0; 4];
    assert_eq!(take_from_chunk(&mut cursor, &c, &mut buffer, 2), (2, None));
    assert_eq!(buffer, [0, 0, 1, 2]);
    assert_eq!(cursor.samples_filled, 2);
    assert_eq!(take_from_chunk(&mut cursor, &c, &mut buffer, 0), (1, Some(NextState::Paused)));
    assert_eq!(buffer, [3, 0, 1, 2]);
    assert_eq!(cursor, RxCursor { sample_rate: 8000, channel_count: 1, samples_filled: 0 });
}

#[test]
fn rx_report_decides_the_state() {
    assert_eq!(rx_report(0, NextState::Playing, true, true), NextState::Paused);
    assert_eq!(rx_report(3, NextState::Playing, true, true), NextState::Playing);
    assert_eq!(rx_report(0, NextState::Playing, false, false), NextState::Finished);
    assert_eq!(rx_report(2, NextState::MetadataChanged, true, false), NextState::MetadataChanged);
}

#[test]
fn threading_error_from_io() {
    let e = RawedioThreadingError::from(std::io::Error::other("x"));
    assert!(matches!(e, RawedioThreadingError::Io(_)));
}
