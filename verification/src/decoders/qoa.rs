//! What a decoder of the [QOA](https://qoaformat.org/) format does with
//! each item the `qoaudio` crate decodes, and how `qoaudio`'s errors are
//! reported.

use qoaudio::DecodeError;
use vstd::prelude::*;

use crate::error::RawedioError;

verus! {

#[verifier::external_type_specification]
#[verifier::external_body]
pub struct ExDecodeError(DecodeError);

/// An item of a QOA stream: one sample, or the header of a frame with its
/// channel count and sample rate.
#[derive(Debug, Copy, Clone, PartialEq, Eq, Structural)]
pub enum QoaStreamItem {
    /// A sample of one channel.
    Sample(i16),
    /// A frame starts with this number of channels and sample rate.
    FrameHeader(u8, u32),
}

/// The decoding errors other than I/O errors.
#[derive(Debug, Copy, Clone, PartialEq, Eq, Structural)]
pub enum DecodeErrorKind {
    /// The data does not start like a QOA file.
    NotQoaFile,
    /// The file has no samples.
    NoSamples,
    /// A frame header is not valid.
    InvalidFrameHeader,
    /// A frame does not fit the file.
    IncompatibleFrame,
}

/// Which kind of decoding error `e` is; `None` for an I/O error.
pub uninterp spec fn decode_error_kind(e: DecodeError) -> Option<DecodeErrorKind>;

/// The message `qoaudio` gives an error of kind `kind`.
pub open spec fn decode_error_message(kind: DecodeErrorKind) -> Seq<char> {
    match kind {
        DecodeErrorKind::NotQoaFile => "File is not a qoa file"@,
        DecodeErrorKind::NoSamples => "File has no samples"@,
        DecodeErrorKind::InvalidFrameHeader => "File has invalid frame header"@,
        DecodeErrorKind::IncompatibleFrame => "Incompatible frame header"@,
    }
}

/// Takes the I/O error out of `qoaudio::DecodeError::IoError`; any other
/// variant is turned into its message with qoaudio's `Display`, which writes
/// [`decode_error_message`] of the variant's [`DecodeErrorKind`].
#[verifier::external_body]
fn split_decode_error(e: DecodeError) -> (r: Result<std::io::Error, String>)
    ensures
        r is Ok <==> decode_error_kind(e) is None,
        r matches Err(m) ==> (decode_error_kind(e) matches Some(k) && m@ == decode_error_message(k)),
{
    match e {
        DecodeError::IoError(io) => Ok(io),
        other => Err(other.to_string()),
    }
}

/// The error a decoding error is reported as: an I/O error stays an I/O
/// error, any other keeps its message as a format error.
pub fn rawedio_error_from_decode(e: DecodeError) -> (r: RawedioError)
    ensures
        match decode_error_kind(e) {
            None => r is IoError,
            Some(kind) => r matches RawedioError::FormatError(m) && m@ == decode_error_message(kind),
        },
{
    match split_decode_error(e) {
        Ok(io) => RawedioError::IoError(io),
        Err(message) => RawedioError::FormatError(message),
    }
}

/// The channel count and sample rate a stream starts with, if its first item
/// is a frame header.
pub fn format_of_first_item(item: QoaStreamItem) -> (r: Option<(u16, u32)>)
    ensures
        r == match item {
            QoaStreamItem::FrameHeader(channels, rate) => Some((channels as u16, rate)),
            QoaStreamItem::Sample(_) => None::<(u16, u32)>,
        },
{
    match item {
        QoaStreamItem::FrameHeader(channels, rate) => Some((channels as u16, rate)),
        QoaStreamItem::Sample(_) => None,
    }
}

/// What the decoder makes of the next item of the stream.
#[derive(Debug, Copy, Clone, PartialEq, Eq, Structural)]
pub enum QoaStep {
    /// Hand out this sample.
    Sample(i16),
    /// A frame with this new channel count and sample rate starts.
    FormatChanged(u16, u32),
    /// A frame with the current format starts; read on.
    SameFormat,
}

/// The step for `item` while the stream has `channel_count` channels at
/// `sample_rate`.
pub open spec fn qoa_step_spec(item: QoaStreamItem, channel_count: u16, sample_rate: u32) -> QoaStep {
    match item {
        QoaStreamItem::Sample(s) => QoaStep::Sample(s),
        QoaStreamItem::FrameHeader(channels, rate) => if channels as u16 != channel_count || rate != sample_rate {
            QoaStep::FormatChanged(channels as u16, rate)
        } else {
            QoaStep::SameFormat
        },
    }
}

/// The step for `item` while the stream has `channel_count` channels at
/// `sample_rate`: a sample is handed out, a frame header with another format
/// changes the format, and one with the same format is passed over.
pub fn qoa_step(item: QoaStreamItem, channel_count: u16, sample_rate: u32) -> (r: QoaStep)
    ensures
        r == qoa_step_spec(item, channel_count, sample_rate),
{
    match item {
        QoaStreamItem::Sample(s) => QoaStep::Sample(s),
        QoaStreamItem::FrameHeader(channels, rate) => {
            if channels as u16 != channel_count || rate != sample_rate {
                QoaStep::FormatChanged(channels as u16, rate)
            } else {
                QoaStep::SameFormat
            }
        },
    }
}

/// What a QOA decoder does with what its stream gave next.
#[derive(Debug)]
pub enum QoaFillStep {
    /// Write this sample and read on.
    Write(i16),
    /// A frame with the current format starts; read on.
    ReadOn,
    /// A frame with this new channel count and sample rate starts: report
    /// `MetadataChanged` after the samples written.
    FormatChanged(u16, u32),
    /// The stream ended: report `Finished` after the samples written.
    End,
    /// Decoding failed with this error.
    Fail(RawedioError),
}

/// The step for what the stream gave next, `next`, while it has
/// `channel_count` channels at `sample_rate`: the end of the stream ends,
/// an error fails as [`rawedio_error_from_decode`] reports it, and an item
/// takes its [`qoa_step_spec`].
pub fn qoa_fill_step(next: Option<Result<QoaStreamItem, DecodeError>>, channel_count: u16, sample_rate: u32) -> (r:
    QoaFillStep)
    ensures
        match next {
            None => r is End,
            Some(Err(e)) => r matches QoaFillStep::Fail(err) && match decode_error_kind(e) {
                None => err is IoError,
                Some(kind) => err matches RawedioError::FormatError(m) && m@ == decode_error_message(kind),
            },
            Some(Ok(item)) => match qoa_step_spec(item, channel_count, sample_rate) {
                QoaStep::Sample(s) => r == QoaFillStep::Write(s),
                QoaStep::SameFormat => r is ReadOn,
                QoaStep::FormatChanged(c, rate) => r == QoaFillStep::FormatChanged(c, rate),
            },
        },
{
    match next {
        None => QoaFillStep::End,
        Some(Err(e)) => QoaFillStep::Fail(rawedio_error_from_decode(e)),
        Some(Ok(item)) => match qoa_step(item, channel_count, sample_rate) {
            QoaStep::Sample(s) => QoaFillStep::Write(s),
            QoaStep::SameFormat => QoaFillStep::ReadOn,
            QoaStep::FormatChanged(c, rate) => QoaFillStep::FormatChanged(c, rate),
        },
    }
}

} // verus!
