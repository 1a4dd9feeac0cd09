use std::sync::Arc;

use rawedio::operators::SoundList;
use rawedio::sources::MemorySound;
use rawedio::utils::test::ConstantValueSound;
use rawedio::{NextState, Sound, SoundExt};

#[test]
fn memory_sound_metadata_change_two_off_does_not_cause_desync() {
    let first = MemorySound::from_samples(Arc::new(vec![1, 2, 3, 4, 11, 12]), 4, 1000);
    assert_eq!(first.as_ref(), [1, 2, 3, 4, 11, 12]);

    let second = MemorySound::from_samples(Arc::new(vec![21, 22, 23, 24]), 4, 1000);
    assert_eq!(second.as_ref(), [21, 22, 23, 24]);

    let mut list: SoundList = SoundList::new();
    list.add(Box::new(first));
    list.add(Box::new(second));

    let mut buffer = [0, 0, 0, 0];
    let mut sound = MemorySound::from_sound(list).unwrap();
    assert_eq!(sound.as_ref(), [1, 2, 3, 4, 11, 12, 0, 0, 21, 22, 23, 24]);

    assert_eq!(sound.sample_rate(), 1000);
    assert_eq!(sound.channel_count(), 4);
    assert_eq!(
        sound.fill_next_frames(&mut buffer).unwrap(),
        (4, NextState::Playing)
    );
    assert_eq!(buffer, [1, 2, 3, 4]);

    assert_eq!(
        sound.fill_next_frames(&mut buffer).unwrap(),
        (4, NextState::Playing)
    );
    assert_eq!(buffer, [11, 12, 0, 0]);

    assert_eq!(
        sound.fill_next_frames(&mut buffer).unwrap(),
        (4, NextState::Finished)
    );
    assert_eq!(buffer, [21, 22, 23, 24]);

    assert_eq!(
        sound.fill_next_frames(&mut buffer).unwrap(),
        (0, NextState::Finished)
    );
}

#[test]
fn memory_sound_metadata_change_one_off_does_not_cause_desync() {
    let first = MemorySound::from_samples(Arc::new(vec![1, 2, 3, 4, 11]), 4, 1000);
    let second = MemorySound::from_samples(Arc::new(vec![21, 22, 23, 24]), 4, 1000);
    let mut list: SoundList = SoundList::new();
    list.add(Box::new(first));
    list.add(Box::new(second));

    let mut buffer = [0, 0, 0, 0];
    let mut sound = MemorySound::from_sound(list).unwrap();
    assert_eq!(sound.sample_rate(), 1000);
    assert_eq!(sound.channel_count(), 4);
    assert_eq!(
        sound.fill_next_frames(&mut buffer).unwrap(),
        (4, NextState::Playing)
    );
    assert_eq!(buffer, [1, 2, 3, 4]);

    assert_eq!(
        sound.fill_next_frames(&mut buffer).unwrap(),
        (4, NextState::Playing)
    );
    assert_eq!(buffer, [11, 0, 0, 0]);

    assert_eq!(
        sound.fill_next_frames(&mut buffer).unwrap(),
        (4, NextState::Finished)
    );
    assert_eq!(buffer, [21, 22, 23, 24]);

    assert_eq!(
        sound.fill_next_frames(&mut buffer).unwrap(),
        (0, NextState::Finished)
    );
}

#[test]
fn memory_sound_metadata_change_in_sync() {
    let first = MemorySound::from_samples(Arc::new(vec![1, 2, 3, 4]), 4, 1000);
    let second = MemorySound::from_samples(Arc::new(vec![11, 12, 13, 14]), 4, 1000);
    let mut list: SoundList = SoundList::new();
    list.add(Box::new(first));
    list.add(Box::new(second));

    let mut buffer = [0, 0, 0, 0];
    let mut sound = MemorySound::from_sound(list).unwrap();

    assert_eq!(sound.sample_rate(), 1000);
    assert_eq!(sound.channel_count(), 4);

    assert_eq!(
        sound.fill_next_frames(&mut buffer).unwrap(),
        (4, NextState::Playing)
    );
    assert_eq!(buffer, [1, 2, 3, 4]);

    assert_eq!(
        sound.fill_next_frames(&mut buffer).unwrap(),
        (4, NextState::Finished)
    );
    assert_eq!(buffer, [11, 12, 13, 14]);

    assert_eq!(
        sound.fill_next_frames(&mut buffer).unwrap(),
        (0, NextState::Finished)
    );
}

#[test]
fn memory_sound_loop_forever() {
    let mut buffer = [0, 0];
    let mut sound = MemorySound::from_samples(Arc::new(vec![1, 2]), 2, 1000);
    sound.set_looping(true);

    assert_eq!(
        sound.fill_next_frames(&mut buffer).unwrap(),
        (2, NextState::Playing)
    );
    assert_eq!(buffer, [1, 2]);

    assert_eq!(
        sound.fill_next_frames(&mut buffer).unwrap(),
        (2, NextState::Playing)
    );
    assert_eq!(buffer, [1, 2]);

    assert_eq!(
        sound.fill_next_frames(&mut buffer).unwrap(),
        (2, NextState::Playing)
    );
    assert_eq!(buffer, [1, 2]);

    assert_eq!(
        sound.fill_next_frames(&mut buffer).unwrap(),
        (2, NextState::Playing)
    );
    assert_eq!(buffer, [1, 2]);

    assert_eq!(
        sound.fill_next_frames(&mut buffer).unwrap(),
        (2, NextState::Playing)
    );
    assert_eq!(buffer, [1, 2]);
}

#[test]
fn memory_sound_loops_across_buffer_ends() {
    let mut buffer = [0, 0, 0, 0, 0];
    let mut sound = MemorySound::from_samples(Arc::new(vec![1, 2, 3]), 1, 1000);
    sound.set_looping(true);
    assert_eq!(sound.fill_next_frames(&mut buffer).unwrap(), (5, NextState::Playing));
    assert_eq!(buffer, [1, 2, 3, 1, 2]);
    assert_eq!(sound.fill_next_frames(&mut buffer).unwrap(), (5, NextState::Playing));
    assert_eq!(buffer, [3, 1, 2, 3, 1]);
}

#[test]
fn memory_sound_finishes_with_partial_buffer() {
    let mut buffer = [9, 9, 9];
    let mut sound = MemorySound::from_samples(Arc::new(vec![1, 2]), 1, 1000);
    assert_eq!(sound.fill_next_frames(&mut buffer).unwrap(), (2, NextState::Finished));
    // Samples after the count are left as they were.
    assert_eq!(buffer, [1, 2, 9]);
    assert_eq!(sound.fill_next_frames(&mut buffer).unwrap(), (0, NextState::Finished));
}

#[test]
fn memory_sound_empty_looping_finishes() {
    let mut buffer = [0];
    let mut sound = MemorySound::from_samples(Arc::new(vec![]), 1, 1000);
    sound.set_looping(true);
    assert_eq!(sound.fill_next_frames(&mut buffer).unwrap(), (0, NextState::Finished));
}

#[test]
fn memory_sound_from_sound_refuses_format_change() {
    let mut list: SoundList = SoundList::new();
    list.add(Box::new(MemorySound::from_samples(Arc::new(vec![1, 2]), 2, 1000)));
    list.add(Box::new(MemorySound::from_samples(Arc::new(vec![3]), 1, 1000)));
    let result = MemorySound::from_sound(list);
    assert!(matches!(result, Err(rawedio::RawedioError::IoError(_))));
}

#[test]
fn memory_sound_into_and_loop_from_memory() {
    let source = MemorySound::from_samples(Arc::new(vec![5, 6]), 2, 1000);
    let copy = source.into_memory_sound().unwrap();
    assert_eq!(copy.as_ref(), [5, 6]);

    let mut looping = ConstantValueSound::new(1).finish_after(std::time::Duration::from_millis(1)).loop_from_memory().unwrap();
    // 1 ms at 44100 Hz holds 44 frames of two channels; the frame during
    // which the sound finished has no samples and adds none.
    assert_eq!(looping.as_ref().len(), 88);
    assert_eq!(looping.as_ref()[84..], [1, 1, 1, 1]);
    let mut buffer = [0; 100];
    assert_eq!(looping.fill_next_frames(&mut buffer).unwrap(), (100, NextState::Playing));
}

#[test]
fn memory_sound_from_empty_sound_is_empty() {
    let sound = MemorySound::from_sound(rawedio::sources::Empty::new(2, 48000)).unwrap();
    assert!(sound.as_ref().is_empty());
    assert_eq!(sound.channel_count(), 2);
    assert_eq!(sound.sample_rate(), 48000);
}

#[test]
fn memory_sound_from_sound_keeps_only_the_samples_of_the_last_frame() {
    let source = MemorySound::from_samples(Arc::new(vec![1, 2, 3]), 2, 1000);
    let copy = MemorySound::from_sound(source).unwrap();
    assert_eq!(copy.as_ref(), [1, 2, 3]);
}
