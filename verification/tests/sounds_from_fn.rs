use std::sync::Arc;

use rawedio::operators::SoundsFromFn;
use rawedio::sources::MemorySound;
use rawedio::{NextState, Sound};

#[test]
fn sounds_from_fn_basic() {
    let generator = || {
        let sound = MemorySound::from_samples(Arc::new(vec![1, 2]), 2, 1000);
        let sound: Box<dyn Sound> = Box::new(sound);
        Some(sound)
    };
    let mut buffer = [0, 0];
    let mut from_fn = SoundsFromFn::new(Box::new(generator));
    assert_eq!(from_fn.channel_count(), 2);
    assert_eq!(from_fn.sample_rate(), 1000);

    assert_eq!(
        from_fn.fill_next_frames(&mut buffer).unwrap(),
        (2, NextState::Playing)
    );
    assert_eq!(buffer, [1, 2]);

    assert_eq!(
        from_fn.fill_next_frames(&mut buffer).unwrap(),
        (2, NextState::Playing)
    );
    assert_eq!(buffer, [1, 2]);
}

#[test]
fn sounds_from_fn_changing_metadata_and_finishing() {
    let mut num = 0;
    let generator = move || {
        num += 1;
        if num == 3 {
            return None;
        } else if num > 3 {
            unreachable!("should not have been called again");
        }
        let sound = MemorySound::from_samples(Arc::new(vec![1, 2]), 2, 1000 + num);
        let sound: Box<dyn Sound> = Box::new(sound);
        Some(sound)
    };
    let mut buffer = [0, 0];
    let mut from_fn = SoundsFromFn::new(Box::new(generator));

    assert_eq!(from_fn.channel_count(), 2);
    assert_eq!(from_fn.sample_rate(), 1001);

    assert_eq!(
        from_fn.fill_next_frames(&mut buffer).unwrap(),
        (2, NextState::MetadataChanged)
    );
    assert_eq!(buffer, [1, 2]);

    assert_eq!(from_fn.sample_rate(), 1002);
    assert_eq!(
        from_fn.fill_next_frames(&mut buffer).unwrap(),
        (2, NextState::Finished)
    );
    assert_eq!(buffer, [1, 2]);

    assert_eq!(
        from_fn.fill_next_frames(&mut buffer).unwrap(),
        (0, NextState::Finished)
    );
}

#[test]
fn sounds_from_fn_without_sounds() {
    let mut buffer = [0];
    let mut from_fn = SoundsFromFn::new(|| None);
    assert_eq!(from_fn.channel_count(), 1);
    assert_eq!(from_fn.sample_rate(), 1000);
    assert_eq!(from_fn.fill_next_frames(&mut buffer).unwrap(), (0, NextState::Finished));
}

#[test]
fn sounds_from_fn_skips_empty_sounds_of_same_format() {
    let mut calls = 0;
    let generator = move || {
        calls += 1;
        let samples = if calls % 2 == 0 { vec![] } else { vec![calls as i16] };
        let sound: Box<dyn Sound> = Box::new(MemorySound::from_samples(Arc::new(samples), 1, 1000));
        Some(sound)
    };
    let mut buffer = [0];
    let mut from_fn = SoundsFromFn::new(generator);
    // The first sound finishes with its sample; the next one has the same
    // format, so the sample is reported as playing.
    assert_eq!(from_fn.fill_next_frames(&mut buffer).unwrap(), (1, NextState::Playing));
    assert_eq!(buffer, [1]);
    // The empty sound finishes without writing: the next one plays at once.
    assert_eq!(from_fn.fill_next_frames(&mut buffer).unwrap(), (1, NextState::Playing));
    assert_eq!(buffer, [3]);
}
