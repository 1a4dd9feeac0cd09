use std::sync::Arc;

use rawedio::operators::{SoundId, SoundMixer};
use rawedio::sources::MemorySound;
use rawedio::utils::test::{ConstantValueSound, DEFAULT_CHANNEL_COUNT, DEFAULT_SAMPLE_RATE};
use rawedio::{NextState, Sound, SoundExt};

#[test]
fn sound_mixer_additional_silent_sounds_do_not_affect_first() {
    let mut buffer = [0, 0];
    let first = ConstantValueSound::new(5);
    let second = ConstantValueSound::new(0);
    let mut mixer = SoundMixer::new(DEFAULT_CHANNEL_COUNT, DEFAULT_SAMPLE_RATE);
    mixer.add(Box::new(first));
    mixer.add(Box::new(second));

    assert_eq!(
        mixer.fill_next_frames(&mut buffer).unwrap(),
        (2, NextState::Playing)
    );
    assert_eq!(buffer, [5, 5]);

    assert_eq!(
        mixer.fill_next_frames(&mut buffer).unwrap(),
        (2, NextState::Playing)
    );
    assert_eq!(buffer, [5, 5]);

    assert_eq!(
        mixer.fill_next_frames(&mut buffer).unwrap(),
        (2, NextState::Playing)
    );
    assert_eq!(buffer, [5, 5]);

    let third = ConstantValueSound::new(0);
    mixer.add(Box::new(third));

    assert_eq!(
        mixer.fill_next_frames(&mut buffer).unwrap(),
        (2, NextState::Playing)
    );
    assert_eq!(buffer, [5, 5]);

    assert_eq!(
        mixer.fill_next_frames(&mut buffer).unwrap(),
        (2, NextState::Playing)
    );
    assert_eq!(buffer, [5, 5]);

    assert_eq!(
        mixer.fill_next_frames(&mut buffer).unwrap(),
        (2, NextState::Playing)
    );
    assert_eq!(buffer, [5, 5]);
}

#[test]
fn sound_mixer_two_sounds_add_together() {
    let mut buffer = [0, 0];
    let first = ConstantValueSound::new(5);
    let second = ConstantValueSound::new(7);
    let mut mixer = SoundMixer::new(DEFAULT_CHANNEL_COUNT, DEFAULT_SAMPLE_RATE);
    mixer.add(Box::new(first));
    mixer.add(Box::new(second));
    assert_eq!(
        mixer.fill_next_frames(&mut buffer).unwrap(),
        (2, NextState::Playing)
    );
    assert_eq!(buffer, [12, 12]);

    assert_eq!(
        mixer.fill_next_frames(&mut buffer).unwrap(),
        (2, NextState::Playing)
    );
    assert_eq!(buffer, [12, 12]);

    assert_eq!(
        mixer.fill_next_frames(&mut buffer).unwrap(),
        (2, NextState::Playing)
    );
    assert_eq!(buffer, [12, 12]);
}

#[test]
fn sound_mixer_saturates() {
    let mut buffer = [0, 0];
    let mut mixer = SoundMixer::new(2, 44100);
    mixer.add(Box::new(ConstantValueSound::new(30000)));
    mixer.add(Box::new(ConstantValueSound::new(30000)));
    mixer.add(Box::new(ConstantValueSound::new(-1)));
    assert_eq!(mixer.fill_next_frames(&mut buffer).unwrap(), (2, NextState::Playing));
    // The first two saturate before the third is added.
    assert_eq!(buffer, [i16::MAX - 1, i16::MAX - 1]);
}

#[test]
fn sound_mixer_empty_is_finished() {
    let mut buffer = [3, 3];
    let mut mixer = SoundMixer::new(2, 44100);
    assert_eq!(mixer.fill_next_frames(&mut buffer).unwrap(), (0, NextState::Finished));
    assert_eq!(buffer, [0, 0]);
}

#[test]
fn sound_mixer_drops_finished_and_resumes_paused() {
    let mut buffer = [0, 0, 0, 0];
    let mut mixer = SoundMixer::new(1, 1000);
    mixer.add(Box::new(MemorySound::from_samples(Arc::new(vec![1, 2]), 1, 1000)));
    let mut paused = ConstantValueSound::new(10).paused();
    paused.inner_mut().set_channel_count(1);
    let paused_id = mixer.add(Box::new(paused));
    assert_eq!(paused_id.into_inner(), 1);
    // The memory sound finishes after two samples; the paused sound waits.
    assert_eq!(mixer.fill_next_frames(&mut buffer).unwrap(), (2, NextState::Paused));
    assert_eq!(buffer, [1, 2, 0, 0]);
    assert_eq!(mixer.fill_next_frames(&mut buffer).unwrap(), (0, NextState::Paused));
    mixer.on_start_of_batch();
    assert_eq!(mixer.fill_next_frames(&mut buffer).unwrap(), (0, NextState::Paused));
}

#[test]
fn sound_mixer_converts_mono_and_removes_by_id() {
    let mut buffer = [0, 0];
    let mut mixer = SoundMixer::new(2, 44100);
    let mut mono = ConstantValueSound::new(4);
    mono.set_channel_count(1);
    let _ = mono.next_sample();
    let id = mixer.add(Box::new(mono));
    assert_eq!(mixer.fill_next_frames(&mut buffer).unwrap(), (2, NextState::Playing));
    assert_eq!(buffer, [4, 4]);
    let removed = mixer.remove(id);
    assert!(removed.is_some());
    assert!(mixer.remove(SoundId::from_inner(99)).is_none());
    assert_eq!(mixer.fill_next_frames(&mut buffer).unwrap(), (0, NextState::Finished));
}

#[test]
fn sound_mixer_insert_replaces_in_place() {
    let mut buffer = [0, 0];
    let mut mixer = SoundMixer::new(2, 44100);
    let id = mixer.add(Box::new(ConstantValueSound::new(1)));
    let previous = mixer.insert(id, Box::new(ConstantValueSound::new(2)));
    assert!(previous.is_some());
    assert_eq!(mixer.fill_next_frames(&mut buffer).unwrap(), (2, NextState::Playing));
    assert_eq!(buffer, [2, 2]);
    mixer.clear();
    assert_eq!(mixer.fill_next_frames(&mut buffer).unwrap(), (0, NextState::Finished));
}

#[test]
fn sound_mixer_reports_new_format_once() {
    let mut buffer = [0, 0];
    let mut mixer = SoundMixer::new(2, 44100);
    mixer.add(Box::new(ConstantValueSound::new(6)));
    mixer.set_output_channel_count_and_sample_rate(1, 22050);
    assert_eq!(mixer.channel_count(), 1);
    assert_eq!(mixer.sample_rate(), 22050);
    assert_eq!(mixer.fill_next_frames(&mut buffer).unwrap(), (0, NextState::MetadataChanged));
    assert_eq!(mixer.fill_next_frames(&mut buffer).unwrap(), (2, NextState::Playing));
    assert_eq!(buffer, [6, 6]);
}
