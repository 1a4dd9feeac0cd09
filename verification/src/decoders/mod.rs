//! The decisions of the decoders of audio formats.

mod qoa;
mod symphonia;

pub use qoa::{
    decode_error_kind, decode_error_message, format_of_first_item, qoa_step, qoa_step_spec, rawedio_error_from_decode,
    DecodeErrorKind, QoaStep, QoaStreamItem, qoa_fill_step, QoaFillStep,
};
pub use symphonia::{cursor_wrapped, first_playable_track, format_changed, packet_action, DecodeOutcome, PacketAction, SampleCursor, SampleStep};
