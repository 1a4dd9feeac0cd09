use std::sync::Arc;
use std::time::Duration;

use rawedio::operators::SoundList;
use rawedio::sources::MemorySound;

use rawedio::legacy::SampleBySample;
use rawedio::utils::test::{ConstantValueSound, Sawtooth};
use rawedio::wrappers::{ChannelCountConverter, SetPaused, SetStopped};
use rawedio::{NextSample, NextSampleBuffer, NextState, RawedioError, Sound, SoundExt};

#[test]
fn finish_after_test_simple() {
    let mut buffer = [0, 0];
    let mut sound = ConstantValueSound::new(1000).finish_after(Duration::from_millis(100));
    for _ in 0..(44100 / 10) {
        assert!(matches!(
            sound.fill_next_frames(&mut buffer).unwrap(),
            (2, NextState::Playing | NextState::Finished)
        ));
    }
    assert_eq!(
        sound.fill_next_frames(&mut buffer).unwrap(),
        (0, NextState::Finished)
    );
}

#[test]
fn finish_after_test_pausing_does_not_count() {
    let mut buffer = [0, 0];
    let mut sound = ConstantValueSound::new(1000)
        .pausable()
        .finish_after(Duration::from_millis(100));
    for s in 0..(44100 / 10) {
        if s % 15 == 0 {
            sound.set_paused(true);
            assert_eq!(
                sound.fill_next_frames(&mut buffer).unwrap(),
                (0, NextState::Paused)
            );
            sound.set_paused(false);
        }
        assert!(matches!(
            sound.fill_next_frames(&mut buffer).unwrap(),
            (2, NextState::Playing | NextState::Finished)
        ));
        assert_eq!(buffer, [1000, 1000]);
    }
    assert_eq!(
        sound.fill_next_frames(&mut buffer).unwrap(),
        (0, NextState::Finished)
    );
}

#[test]
fn finish_after_test_metadata_change_beginning() {
    let mut buffer = [0];
    let mut sound = ConstantValueSound::new(1000).finish_after(Duration::from_millis(100));
    sound.inner_mut().set_sample_rate(22050);
    sound.inner_mut().set_channel_count(1);
    assert_eq!(
        sound.fill_next_frames(&mut buffer).unwrap(),
        (0, NextState::MetadataChanged)
    );
    for _ in 0..(22050 / 10) {
        assert!(matches!(
            sound.fill_next_frames(&mut buffer).unwrap(),
            (1, NextState::Playing | NextState::Finished)
        ));
        assert_eq!(buffer, [1000]);
    }
    assert_eq!(
        sound.fill_next_frames(&mut buffer).unwrap(),
        (0, NextState::Finished)
    );
}

#[test]
fn finish_after_test_metadata_change_halfway() {
    let mut buffer = [0, 0];
    let mut sound = ConstantValueSound::new(1000).finish_after(Duration::from_millis(100));
    for _ in 0..(44100 / 20) {
        assert!(matches!(
            sound.fill_next_frames(&mut buffer).unwrap(),
            (2, NextState::Playing | NextState::Finished)
        ));
        assert_eq!(buffer, [1000, 1000]);
    }
    sound.inner_mut().set_sample_rate(88200);
    sound.inner_mut().set_channel_count(4);
    let mut buffer = [0, 0, 0, 0];
    assert_eq!(
        sound.fill_next_frames(&mut buffer).unwrap(),
        (0, NextState::MetadataChanged)
    );
    for _ in 0..(88200 / 20) {
        assert!(matches!(
            sound.fill_next_frames(&mut buffer).unwrap(),
            (4, NextState::Playing | NextState::Finished)
        ));
        assert_eq!(buffer, [1000, 1000, 1000, 1000]);
    }
    assert_eq!(
        sound.fill_next_frames(&mut buffer).unwrap(),
        (0, NextState::Finished)
    );
}

#[test]
fn finish_after_test_metadata_change_end() {
    let mut buffer = [0, 0];
    let mut sound = ConstantValueSound::new(1000).finish_after(Duration::from_millis(100));
    for _ in 0..(44100 / 10) {
        assert!(matches!(
            sound.fill_next_frames(&mut buffer).unwrap(),
            (2, NextState::Playing | NextState::Finished)
        ));
        assert_eq!(buffer, [1000, 1000]);
    }
    assert_eq!(
        sound.fill_next_frames(&mut buffer).unwrap(),
        (0, NextState::Finished)
    );
    sound.inner_mut().set_sample_rate(22050);
    sound.inner_mut().set_channel_count(1);
    let mut buffer = [0];
    assert_eq!(
        sound.fill_next_frames(&mut buffer).unwrap(),
        (0, NextState::Finished)
    );
}

#[test]
fn finish_after_caps_a_large_buffer() {
    let mut buffer = [7; 10];
    let mut sound = ConstantValueSound::new(5).finish_after(Duration::from_micros(100));
    // 100 microseconds at 44100 Hz hold 4 frames of two channels.
    assert_eq!(sound.fill_next_frames(&mut buffer).unwrap(), (8, NextState::Playing));
    assert_eq!(buffer, [5, 5, 5, 5, 5, 5, 5, 5, 7, 7]);
    assert_eq!(sound.fill_next_frames(&mut buffer).unwrap(), (0, NextState::Finished));
}

#[test]
fn stoppable_set_stopped() {
    let mut buffer = [0];
    let mut first = ConstantValueSound::new(1000).stoppable();
    // starts unpaused
    assert_eq!(
        first.fill_next_frames(&mut buffer).unwrap(),
        (1, NextState::Playing)
    );
    assert_eq!(buffer, [1000]);
    first.set_stopped();
    assert_eq!(
        first.fill_next_frames(&mut buffer).unwrap(),
        (0, NextState::Finished)
    );
    assert_eq!(
        first.fill_next_frames(&mut buffer).unwrap(),
        (0, NextState::Finished)
    );
}

fn adapt_next_sample<S: Sound>(s: &mut S) -> Result<NextSample, RawedioError> {
    SampleBySample::new().next_sample(s)
}

fn adapt_next_samples_for<S: Sound>(s: &mut S) -> Result<NextSample, RawedioError> {
    let mut scratch = [0];
    match s.next_samples_for(&mut scratch) {
        Ok(NextSampleBuffer::Continue) => Ok(NextSample::Sample(scratch[0])),
        Ok(NextSampleBuffer::MetadataChanged(count)) => {
            if count > 0 {
                Ok(NextSample::Sample(scratch[0]))
            } else {
                Ok(NextSample::MetadataChanged)
            }
        }
        Ok(NextSampleBuffer::Paused(count)) => {
            if count > 0 {
                Ok(NextSample::Sample(scratch[0]))
            } else {
                Ok(NextSample::Paused)
            }
        }
        Ok(NextSampleBuffer::Finished(count)) => {
            if count > 0 {
                Ok(NextSample::Sample(scratch[0]))
            } else {
                Ok(NextSample::Finished)
            }
        }
        Err(e) => Err(e),
    }
}

#[test]
fn set_paused_and_unpause() {
    fn run_with(
        mut next: impl FnMut(&mut rawedio::wrappers::Pausable<ConstantValueSound>) -> Result<NextSample, RawedioError>,
    ) {
        let mut first = ConstantValueSound::new(1000).pausable();
        // starts unpaused
        assert_eq!(next(&mut first).unwrap(), NextSample::Sample(1000));
        first.set_paused(true);
        assert_eq!(next(&mut first).unwrap(), NextSample::Paused);
        first.set_paused(false);
        assert_eq!(next(&mut first).unwrap(), NextSample::Sample(1000));
    }

    run_with(adapt_next_sample);
    run_with(adapt_next_samples_for);
}

#[test]
fn paused_builder_starts_paused() {
    let mut buffer = [0, 0];
    let mut sound = ConstantValueSound::new(3).paused();
    assert!(rawedio::wrappers::Pausable::paused(&sound));
    assert_eq!(sound.fill_next_frames(&mut buffer).unwrap(), (0, NextState::Paused));
    sound.set_paused(false);
    assert_eq!(sound.fill_next_frames(&mut buffer).unwrap(), (2, NextState::Playing));
    assert_eq!(buffer, [3, 3]);
}

#[test]
fn stopping_through_pausable_and_pausing_through_stoppable() {
    let mut buffer = [0];
    let mut sound = ConstantValueSound::new(3).stoppable().pausable();
    sound.set_stopped();
    assert_eq!(sound.fill_next_frames(&mut buffer).unwrap(), (0, NextState::Finished));

    let mut other = ConstantValueSound::new(3).pausable().stoppable();
    other.set_paused(true);
    assert_eq!(other.fill_next_frames(&mut buffer).unwrap(), (0, NextState::Paused));
    assert!(!other.stopped());
}

#[test]
fn channel_count_converter_mono_to_stereo() {
    let mut buffer = [0; 6];
    let mut sound = ChannelCountConverter::new(Sawtooth::new(1, 44100), 2);
    assert_eq!(sound.channel_count(), 2);
    assert_eq!(sound.fill_next_frames(&mut buffer).unwrap(), (6, NextState::Playing));
    assert_eq!(buffer, [0, 0, 1, 1, 2, 2]);
}

#[test]
fn channel_count_converter_stereo_to_mono_midpoint() {
    let mut buffer = [0; 2];
    let mut inner = Sawtooth::new(2, 44100);
    inner.value = -3;
    let mut sound = ChannelCountConverter::new(inner, 1);
    assert_eq!(sound.fill_next_frames(&mut buffer).unwrap(), (2, NextState::Playing));
    assert_eq!(buffer, [-3, -2]);

    let mut extreme = Sawtooth::new(2, 44100);
    extreme.value = i16::MAX;
    let mut sound = ChannelCountConverter::new(extreme, 1);
    let mut one = [0];
    assert_eq!(sound.fill_next_frames(&mut one).unwrap(), (1, NextState::Playing));
    assert_eq!(one, [i16::MAX]);
}

#[test]
fn channel_count_converter_passes_through() {
    let mut buffer = [0; 2];
    let mut sound = ChannelCountConverter::new(ConstantValueSound::new(4), 2);
    assert_eq!(sound.fill_next_frames(&mut buffer).unwrap(), (2, NextState::Playing));
    assert_eq!(buffer, [4, 4]);
    assert_eq!(sound.into_inner().value, 4);
}

#[test]
fn channel_count_converter_unsupported_change_is_an_error() {
    let mut buffer = [0; 2];
    let mut list: SoundList = SoundList::new();
    list.add(Box::new(MemorySound::from_samples(Arc::new(vec![1, 2]), 2, 1000)));
    list.add(Box::new(MemorySound::from_samples(Arc::new(vec![1, 2, 3]), 3, 1000)));
    let mut sound = ChannelCountConverter::new(list, 2);
    assert_eq!(sound.fill_next_frames(&mut buffer).unwrap(), (0, NextState::MetadataChanged));
    assert_eq!(sound.fill_next_frames(&mut buffer).unwrap(), (2, NextState::MetadataChanged));
    assert_eq!(buffer, [1, 2]);
    assert!(matches!(
        sound.fill_next_frames(&mut buffer),
        Err(RawedioError::FormatError(_))
    ));
}

#[test]
fn skip_skips_frames_and_stops_at_finish() {
    let mut sound = Sawtooth::new(1, 1000);
    assert!(sound.skip(Duration::from_millis(5)).unwrap());
    let mut buffer = [0];
    sound.fill_next_frames(&mut buffer).unwrap();
    assert_eq!(buffer, [5]);

    let mut short = ConstantValueSound::new(1).finish_after(Duration::from_millis(1));
    assert!(!short.skip(Duration::from_millis(2)).unwrap());
    assert!(ConstantValueSound::new(1).skip(Duration::from_nanos(10)).unwrap());
}
