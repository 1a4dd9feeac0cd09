use rawedio::legacy::SampleBySample;
use rawedio::utils::test::{ConstantValueSound, Sawtooth};
use rawedio::{NextSample, NextSampleBuffer, NextState, Sound, SoundExt};

#[test]
fn test_test_constant_value_sound_basic() {
    let mut sound = ConstantValueSound::new(42);
    assert_eq!(sound.channel_count(), 2);
    assert_eq!(sound.sample_rate(), 44100);

    // First sample should be the constant value
    assert_eq!(sound.next_sample().unwrap(), NextSample::Sample(42));
}

#[test]
fn test_test_constant_value_sound_metadata_changes() {
    let mut sound = ConstantValueSound::new(42);

    // Change sample rate
    sound.set_sample_rate(48000);
    assert_eq!(sound.sample_rate(), 48000);
    assert_eq!(sound.next_sample().unwrap(), NextSample::MetadataChanged);
    assert_eq!(sound.next_sample().unwrap(), NextSample::Sample(42));

    // Change channel count
    sound.set_channel_count(1);
    assert_eq!(sound.channel_count(), 1);
    assert_eq!(sound.next_sample().unwrap(), NextSample::MetadataChanged);
    assert_eq!(sound.next_sample().unwrap(), NextSample::Sample(42));

    // Multiple changes before sampling
    sound.set_sample_rate(96000);
    sound.set_channel_count(4);
    assert_eq!(sound.next_sample().unwrap(), NextSample::MetadataChanged);
    assert_eq!(sound.sample_rate(), 96000);
    assert_eq!(sound.channel_count(), 4);
    assert_eq!(sound.next_sample().unwrap(), NextSample::Sample(42));
}

#[test]
fn test_test_sawtooth_basic() {
    let mut sound = Sawtooth::new(1, 44100);

    // Mono sawtooth should increment each sample
    assert_eq!(sound.next_sample().unwrap(), NextSample::Sample(0));
    assert_eq!(sound.next_sample().unwrap(), NextSample::Sample(1));
    assert_eq!(sound.next_sample().unwrap(), NextSample::Sample(2));
}

#[test]
fn test_test_sawtooth_stereo() {
    let mut sound = Sawtooth::new(2, 44100);

    // Stereo sawtooth should increment every other sample
    assert_eq!(sound.next_sample().unwrap(), NextSample::Sample(0)); // L
    assert_eq!(sound.next_sample().unwrap(), NextSample::Sample(0)); // R
    assert_eq!(sound.next_sample().unwrap(), NextSample::Sample(1)); // L
    assert_eq!(sound.next_sample().unwrap(), NextSample::Sample(1)); // R
}

#[test]
fn test_test_sawtooth_wrap_around() {
    let mut sound = Sawtooth::new(1, 44100);
    sound.value = i16::MAX - 1;

    assert_eq!(
        sound.next_sample().unwrap(),
        NextSample::Sample(i16::MAX - 1)
    );
    assert_eq!(sound.next_sample().unwrap(), NextSample::Sample(i16::MAX));
    assert_eq!(sound.next_sample().unwrap(), NextSample::Sample(i16::MIN));
}

#[test]
fn test_test_sawtooth_sample_rate() {
    let sound = Sawtooth::new(1, 48000);
    assert_eq!(sound.sample_rate(), 48000);
}

#[test]
fn tests_test_sawtooth_sample_rate() {
    let sound = Sawtooth::new(1, 48000);
    assert_eq!(sound.sample_rate(), 48000);
}

#[test]
fn sample_by_sample_hands_out_first_channel_first() {
    let mut sound = Sawtooth::new(2, 44100);
    sound.value = 7;
    let mut adapter = SampleBySample::new();
    // The frame [7, 7] is followed by [8, 8]; channels come in order.
    assert_eq!(adapter.next_sample(&mut sound).unwrap(), NextSample::Sample(7));
    assert_eq!(adapter.next_sample(&mut sound).unwrap(), NextSample::Sample(7));
    assert_eq!(adapter.next_sample(&mut sound).unwrap(), NextSample::Sample(8));
    assert_eq!(adapter.next_sample(&mut sound).unwrap(), NextSample::Sample(8));
}

#[test]
fn sample_by_sample_reports_state_after_samples() {
    let mut sound = ConstantValueSound::new(3);
    sound.set_sample_rate(8000);
    let mut adapter = SampleBySample::new();
    assert_eq!(adapter.next_sample(&mut sound).unwrap(), NextSample::MetadataChanged);
    assert_eq!(adapter.next_sample(&mut sound).unwrap(), NextSample::Sample(3));
}

#[test]
fn sample_by_sample_next_frame() {
    let mut sound = Sawtooth::new(2, 44100);
    let mut adapter = SampleBySample::new();
    assert_eq!(adapter.next_frame(&mut sound).unwrap(), vec![0, 0]);
    assert_eq!(adapter.next_frame(&mut sound).unwrap(), vec![1, 1]);
}

#[test]
fn sample_by_sample_next_frame_stops_at_state() {
    let mut sound = ConstantValueSound::new(3);
    sound.set_channel_count(1);
    let mut adapter = SampleBySample::new();
    assert!(matches!(
        adapter.next_frame(&mut sound),
        Err(Ok(NextSample::MetadataChanged))
    ));
    assert_eq!(adapter.next_frame(&mut sound).unwrap(), vec![3]);
}

#[test]
fn next_state_from_next_sample() {
    assert_eq!(NextState::from(NextSample::Sample(5)), NextState::Playing);
    assert_eq!(NextState::from(NextSample::MetadataChanged), NextState::MetadataChanged);
    assert_eq!(NextState::from(NextSample::Paused), NextState::Paused);
    assert_eq!(NextState::from(NextSample::Finished), NextState::Finished);
}

#[test]
fn sound_next_samples_for_reports_buffer_states() {
    let mut buffer = [0, 0];
    let mut sound = ConstantValueSound::new(9);
    assert_eq!(sound.next_samples_for(&mut buffer).unwrap(), NextSampleBuffer::Continue);
    assert_eq!(buffer, [9, 9]);
    sound.set_sample_rate(1000);
    assert_eq!(
        sound.next_samples_for(&mut buffer).unwrap(),
        NextSampleBuffer::MetadataChanged(0)
    );
}

#[test]
fn sound_next_frame_and_append() {
    let mut sound = Sawtooth::new(2, 44100);
    assert_eq!(sound.next_frame().unwrap(), vec![0, 0]);
    let mut samples = vec![42];
    sound.append_next_frame_to(&mut samples).unwrap();
    assert_eq!(samples, vec![42, 1, 1]);

    let mut changing = ConstantValueSound::new(4);
    changing.set_channel_count(1);
    let mut kept = vec![1, 2];
    assert!(matches!(
        changing.append_next_frame_to(&mut kept),
        Err(Ok(NextSampleBuffer::MetadataChanged(0)))
    ));
    assert_eq!(kept, vec![1, 2]);
}
