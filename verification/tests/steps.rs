use std::sync::Arc;

use rawedio::legacy::SampleBySample;
use rawedio::operators::{from_fn_step, SoundsFromFn};
use rawedio::sound::{next_buffer_from, skip_step, SkipStep};
use rawedio::sources::{frame_step, keep_frame, FrameStep, MemorySound};
use rawedio::{NextSample, NextSampleBuffer, NextState, RawedioError, Sound, SoundExt};

#[test]
fn skip_step_counts_down_a_played_frame() {
    assert_eq!(skip_step(5, 2, 48000, NextState::Playing, 2, 48000), SkipStep::Continue(4, 2, 48000));
}

#[test]
fn skip_step_rescales_on_a_new_sample_rate() {
    assert_eq!(
        skip_step(10, 2, 48000, NextState::MetadataChanged, 1, 24000),
        SkipStep::Continue(5, 1, 24000)
    );
    assert_eq!(skip_step(10, 2, 48000, NextState::MetadataChanged, 2, 48000), SkipStep::Continue(10, 2, 48000));
}

#[test]
fn skip_step_fails_from_a_sample_rate_of_zero() {
    assert_eq!(skip_step(10, 2, 0, NextState::MetadataChanged, 2, 48000), SkipStep::FormatError);
}

#[test]
fn skip_step_stops_on_pause_or_end() {
    assert_eq!(skip_step(3, 2, 48000, NextState::Paused, 2, 48000), SkipStep::Stop);
    assert_eq!(skip_step(3, 2, 48000, NextState::Finished, 2, 48000), SkipStep::Stop);
}

#[test]
fn next_buffer_from_maps_each_state() {
    assert_eq!(next_buffer_from(Ok((4, NextState::Playing))).unwrap(), NextSampleBuffer::Continue);
    assert_eq!(next_buffer_from(Ok((3, NextState::Paused))).unwrap(), NextSampleBuffer::Paused(3));
    assert_eq!(next_buffer_from(Ok((1, NextState::Finished))).unwrap(), NextSampleBuffer::Finished(1));
    assert_eq!(
        next_buffer_from(Ok((2, NextState::MetadataChanged))).unwrap(),
        NextSampleBuffer::MetadataChanged(2)
    );
    assert!(matches!(
        next_buffer_from(Err(RawedioError::FormatError("x".to_string()))),
        Err(RawedioError::FormatError(_))
    ));
}

#[test]
fn from_fn_step_reports_a_finished_sound() {
    assert_eq!(from_fn_step(3, NextState::Finished, 2, 48000, None), Some((3, NextState::Finished)));
    assert_eq!(
        from_fn_step(3, NextState::Finished, 2, 48000, Some((1, 48000))),
        Some((3, NextState::MetadataChanged))
    );
    assert_eq!(from_fn_step(3, NextState::Finished, 2, 48000, Some((2, 48000))), Some((3, NextState::Playing)));
    assert_eq!(from_fn_step(0, NextState::Finished, 2, 48000, Some((2, 48000))), None);
    assert_eq!(from_fn_step(2, NextState::Paused, 2, 48000, None), Some((2, NextState::Paused)));
}

#[test]
fn frame_step_keeps_pads_drops_and_fails() {
    assert_eq!(frame_step(2, NextState::Playing, true), FrameStep::Keep);
    assert_eq!(frame_step(1, NextState::MetadataChanged, true), FrameStep::KeepPadded);
    assert_eq!(frame_step(0, NextState::MetadataChanged, true), FrameStep::Drop);
    assert_eq!(frame_step(0, NextState::MetadataChanged, false), FrameStep::FormatError);
    assert_eq!(frame_step(0, NextState::Finished, true), FrameStep::KeepAndStop);
}

#[test]
fn keep_frame_pads_with_zeros() {
    let mut samples = vec![1, 2];
    let mut frame = vec![7, 8, 9];
    keep_frame(&mut samples, &mut frame, 1, FrameStep::KeepPadded);
    assert_eq!(samples, vec![1, 2, 7, 0, 0]);
    let mut dropped = vec![5, 5, 5];
    keep_frame(&mut samples, &mut dropped, 0, FrameStep::Drop);
    assert_eq!(samples, vec![1, 2, 7, 0, 0]);
}

#[test]
fn sample_by_sample_first_channel_first() {
    let mut m = MemorySound::from_samples(Arc::new(vec![1, 2]), 2, 1000);
    let mut sbs = SampleBySample::new();
    assert_eq!(sbs.next_sample(&mut m).unwrap(), NextSample::Sample(1));
    assert_eq!(sbs.next_sample(&mut m).unwrap(), NextSample::Sample(2));
    assert_eq!(sbs.next_sample(&mut m).unwrap(), NextSample::Finished);
}

#[test]
fn sounds_from_fn_counts_what_the_sound_wrote() {
    let mut made = 0;
    let mut sounds = SoundsFromFn::new(move || -> Option<Box<dyn Sound>> {
        made += 1;
        if made <= 1 {
            Some(Box::new(MemorySound::from_samples(Arc::new(vec![3, 4, 5]), 1, 1000)))
        } else {
            None
        }
    });
    let mut buffer = [0i16; 2];
    assert_eq!(sounds.fill_next_frames(&mut buffer).unwrap(), (2, NextState::Playing));
    assert_eq!(buffer, [3, 4]);
    let mut rest = [0i16; 4];
    assert_eq!(sounds.fill_next_frames(&mut rest).unwrap(), (1, NextState::Finished));
    assert_eq!(rest[0], 5);
    let mut after = [0i16; 2];
    assert_eq!(sounds.next_samples_for(&mut after).unwrap(), NextSampleBuffer::Finished(0));
}
