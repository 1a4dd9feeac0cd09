use std::sync::Arc;

use rawedio::operators::SoundList;
use rawedio::sources::MemorySound;
use rawedio::{NextState, Sound};

#[test]
fn empty_gives_metadata_changed_on_next() {
    let mut buffer = [0, 0, 0, 0];
    let mut list: SoundList = SoundList::new();
    assert_eq!(
        list.fill_next_frames(&mut buffer).unwrap(),
        (0, NextState::Finished)
    );

    let first = MemorySound::from_samples(Arc::new(vec![1, 2, 3, 4]), 4, 1000);
    list.add(Box::new(first));
    let second = MemorySound::from_samples(Arc::new(vec![5, 6]), 2, 8000);
    list.add(Box::new(second));
    assert_eq!(
        list.fill_next_frames(&mut buffer).unwrap(),
        (0, NextState::MetadataChanged)
    );
    assert_eq!(list.channel_count(), 4);
    assert_eq!(list.sample_rate(), 1000);

    assert_eq!(
        list.fill_next_frames(&mut buffer).unwrap(),
        (4, NextState::MetadataChanged)
    );
    assert_eq!(buffer, [1, 2, 3, 4]);
    assert_eq!(list.channel_count(), 2);
    assert_eq!(list.sample_rate(), 8000);

    assert_eq!(
        list.fill_next_frames(&mut buffer).unwrap(),
        (2, NextState::Finished)
    );
    assert_eq!(buffer[..2], [5, 6]);
}

#[test]
fn sound_list_defaults_without_sounds() {
    let list: SoundList = SoundList::default();
    assert_eq!(list.channel_count(), 2);
    assert_eq!(list.sample_rate(), 48000);
    assert!(list.is_empty());
    assert_eq!(list.len(), 0);
}

#[test]
fn sound_list_insert_and_clear() {
    let mut buffer = [0];
    let mut list: SoundList = SoundList::new();
    list.add(Box::new(MemorySound::from_samples(Arc::new(vec![2]), 1, 1000)));
    list.insert(0, Box::new(MemorySound::from_samples(Arc::new(vec![1]), 1, 1000)));
    assert_eq!(list.len(), 2);
    assert_eq!(list.fill_next_frames(&mut buffer).unwrap(), (0, NextState::MetadataChanged));
    assert_eq!(list.fill_next_frames(&mut buffer).unwrap(), (1, NextState::MetadataChanged));
    assert_eq!(buffer, [1]);
    list.clear();
    assert_eq!(list.fill_next_frames(&mut buffer).unwrap(), (0, NextState::Finished));
}
