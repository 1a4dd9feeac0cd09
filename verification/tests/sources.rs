use rawedio::sources::{Empty, Silence};
use rawedio::{NextState, Sound};

#[test]
fn empty_is_finished_at_once() {
    let mut buffer = [3, 3];
    let mut sound = Empty::new(2, 44100);
    assert_eq!(sound.channel_count(), 2);
    assert_eq!(sound.sample_rate(), 44100);
    assert_eq!(sound.fill_next_frames(&mut buffer).unwrap(), (0, NextState::Finished));
    assert_eq!(buffer, [3, 3]);
}

#[test]
fn silence_plays_zeros_forever() {
    let mut buffer = [3, 3, 3];
    let mut sound = Silence::new(1, 8000);
    assert_eq!(sound.channel_count(), 1);
    assert_eq!(sound.sample_rate(), 8000);
    for _ in 0..3 {
        assert_eq!(sound.fill_next_frames(&mut buffer).unwrap(), (3, NextState::Playing));
        assert_eq!(buffer, [0, 0, 0]);
        buffer = [3, 3, 3];
    }
}
