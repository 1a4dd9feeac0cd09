use rawedio::utils::test::{ConstantValueSound, Sawtooth};
use rawedio::{NextState, Sound};

#[test]
fn sound_test_constant_value_sound_basic() {
    let mut buffer = [0, 0];
    let mut sound = ConstantValueSound::new(42);
    assert_eq!(sound.channel_count(), 2);
    assert_eq!(sound.sample_rate(), 44100);

    // First sample should be the constant value
    assert_eq!(
        sound.fill_next_frames(&mut buffer).unwrap(),
        (2, NextState::Playing)
    );
    assert_eq!(buffer, [42, 42]);
}

#[test]
fn sound_test_constant_value_sound_metadata_changes() {
    let mut buffer = [0, 0];
    let mut sound = ConstantValueSound::new(42);

    // Change sample rate
    sound.set_sample_rate(48000);
    assert_eq!(sound.sample_rate(), 48000);
    assert_eq!(
        sound.fill_next_frames(&mut buffer).unwrap(),
        (0, NextState::MetadataChanged)
    );
    assert_eq!(
        sound.fill_next_frames(&mut buffer).unwrap(),
        (2, NextState::Playing)
    );
    assert_eq!(buffer, [42, 42]);

    // Change channel count
    sound.set_channel_count(1);
    assert_eq!(sound.channel_count(), 1);
    assert_eq!(
        sound.fill_next_frames(&mut buffer).unwrap(),
        (0, NextState::MetadataChanged)
    );
    assert_eq!(
        sound.fill_next_frames(&mut buffer).unwrap(),
        (2, NextState::Playing)
    );
    assert_eq!(buffer, [42, 42]);

    // Multiple changes before sampling
    sound.set_sample_rate(96000);
    sound.set_channel_count(4);
    assert_eq!(
        sound.fill_next_frames(&mut buffer).unwrap(),
        (0, NextState::MetadataChanged)
    );
    assert_eq!(sound.sample_rate(), 96000);
    assert_eq!(sound.channel_count(), 4);
    assert_eq!(
        sound.fill_next_frames(&mut buffer).unwrap(),
        (2, NextState::Playing)
    );
    assert_eq!(buffer, [42, 42]);
}

#[test]
fn sound_test_sawtooth_basic() {
    let mut buffer = [0];
    let mut sound = Sawtooth::new(1, 44100);

    // Mono sawtooth should increment each sample
    assert_eq!(
        sound.fill_next_frames(&mut buffer).unwrap(),
        (1, NextState::Playing)
    );
    assert_eq!(buffer, [0]);

    assert_eq!(
        sound.fill_next_frames(&mut buffer).unwrap(),
        (1, NextState::Playing)
    );
    assert_eq!(buffer, [1]);

    assert_eq!(
        sound.fill_next_frames(&mut buffer).unwrap(),
        (1, NextState::Playing)
    );
    assert_eq!(buffer, [2]);
}

#[test]
fn sound_test_sawtooth_stereo() {
    let mut buffer = [0, 0];
    let mut sound = Sawtooth::new(2, 44100);

    // Stereo sawtooth should increment every other sample
    assert_eq!(
        sound.fill_next_frames(&mut buffer).unwrap(),
        (2, NextState::Playing)
    );
    assert_eq!(buffer, [0, 0]);

    assert_eq!(
        sound.fill_next_frames(&mut buffer).unwrap(),
        (2, NextState::Playing)
    );
    assert_eq!(buffer, [1, 1]);
}

#[test]
fn sound_test_sawtooth_wrap_around() {
    let mut buffer = [0];
    let mut sound = Sawtooth::new(1, 44100);
    sound.value = i16::MAX - 1;

    assert_eq!(
        sound.fill_next_frames(&mut buffer).unwrap(),
        (1, NextState::Playing)
    );
    assert_eq!(buffer, [i16::MAX - 1]);

    assert_eq!(
        sound.fill_next_frames(&mut buffer).unwrap(),
        (1, NextState::Playing)
    );
    assert_eq!(buffer, [i16::MAX]);

    assert_eq!(
        sound.fill_next_frames(&mut buffer).unwrap(),
        (1, NextState::Playing)
    );
    assert_eq!(buffer, [i16::MIN]);
}

#[test]
fn sound_test_sawtooth_sample_rate() {
    let sound = Sawtooth::new(1, 48000);
    assert_eq!(sound.sample_rate(), 48000);
}
