use rawedio::decoders::first_playable_track;

use rawedio::decoders::{
    format_changed, packet_action, qoa_fill_step, qoa_step, DecodeOutcome, PacketAction, QoaFillStep, QoaStep,
    QoaStreamItem, SampleCursor, SampleStep, rawedio_error_from_decode, format_of_first_item,
};
use rawedio::RawedioError;

#[test]
fn qoa_decode_errors_keep_their_message() {
    match rawedio_error_from_decode(qoaudio::DecodeError::NotQoaFile) {
        RawedioError::FormatError(message) => assert_eq!(message, "File is not a qoa file"),
        RawedioError::IoError(_) => panic!("expected a format error"),
    }
    match rawedio_error_from_decode(qoaudio::DecodeError::InvalidFrameHeader) {
        RawedioError::FormatError(message) => assert_eq!(message, "File has invalid frame header"),
        RawedioError::IoError(_) => panic!("expected a format error"),
    }
}

#[test]
fn qoa_io_errors_stay_io_errors() {
    let io = std::io::Error::new(std::io::ErrorKind::UnexpectedEof, "short");
    assert!(matches!(rawedio_error_from_decode(qoaudio::DecodeError::IoError(io)), RawedioError::IoError(_)));
}

#[test]
fn qoa_fill_steps() {
    assert!(matches!(qoa_fill_step(None, 2, 44100), QoaFillStep::End));
    assert!(matches!(qoa_fill_step(Some(Ok(QoaStreamItem::Sample(7))), 2, 44100), QoaFillStep::Write(7)));
    assert!(matches!(
        qoa_fill_step(Some(Ok(QoaStreamItem::FrameHeader(2, 44100))), 2, 44100),
        QoaFillStep::ReadOn
    ));
    assert!(matches!(
        qoa_fill_step(Some(Ok(QoaStreamItem::FrameHeader(1, 44100))), 2, 44100),
        QoaFillStep::FormatChanged(1, 44100)
    ));
    match qoa_fill_step(Some(Err(qoaudio::DecodeError::NoSamples)), 2, 44100) {
        QoaFillStep::Fail(RawedioError::FormatError(message)) => assert_eq!(message, "File has no samples"),
        other => panic!("unexpected {other:?}"),
    }
}

#[test]
fn qoa_steps() {
    assert_eq!(qoa_step(QoaStreamItem::Sample(-4), 2, 44100), QoaStep::Sample(-4));
    assert_eq!(qoa_step(QoaStreamItem::FrameHeader(2, 44100), 2, 44100), QoaStep::SameFormat);
    assert_eq!(
        qoa_step(QoaStreamItem::FrameHeader(1, 44100), 2, 44100),
        QoaStep::FormatChanged(1, 44100)
    );
    assert_eq!(
        qoa_step(QoaStreamItem::FrameHeader(2, 48000), 2, 44100),
        QoaStep::FormatChanged(2, 48000)
    );
    assert_eq!(format_of_first_item(QoaStreamItem::FrameHeader(3, 8000)), Some((3, 8000)));
    assert_eq!(format_of_first_item(QoaStreamItem::Sample(1)), None);
}

#[test]
fn symphonia_cursor_walks_frames() {
    let mut cursor = SampleCursor::start();
    assert_eq!(cursor.next_step(2, 2), SampleStep::Extract(0, 0));
    cursor.advance();
    assert_eq!(cursor.next_step(2, 2), SampleStep::Extract(1, 0));
    cursor.advance();
    assert_eq!(cursor.next_step(2, 2), SampleStep::Extract(0, 1));
    cursor.advance();
    cursor.advance();
    assert_eq!(cursor.next_step(2, 2), SampleStep::DecodeNext);
}

#[test]
fn symphonia_packet_decisions() {
    assert_eq!(packet_action(1, 2, DecodeOutcome::Decoded), PacketAction::Skip);
    assert_eq!(packet_action(2, 2, DecodeOutcome::Decoded), PacketAction::Use);
    assert_eq!(packet_action(2, 2, DecodeOutcome::Recoverable), PacketAction::Skip);
    assert_eq!(packet_action(2, 2, DecodeOutcome::Fatal), PacketAction::Fail);
    assert!(format_changed(false, 44100, 44100));
    assert!(format_changed(true, 44100, 48000));
    assert!(!format_changed(true, 44100, 44100));
}

#[test]
fn first_playable_track_picks_the_first() {
    assert_eq!(first_playable_track(&vec![false, true, true]), Some(1));
    assert_eq!(first_playable_track(&vec![false, false]), None);
}
