//! Sounds that wrap an inner sound and change its playback.

mod channel_count_converter;
mod finish_after;
mod pausable;
mod stoppable;

pub use channel_count_converter::{
    converter_type_for, lemma_midpoint_between, lemma_midpoint_is_halved_sum, lemma_mono_stereo_round_trip, midpoint,
    ChannelCountConverter,
    ConverterType,
};
pub use finish_after::{
    finish_after_max, frames_in, frames_left, lemma_finish_after_never_exceeds, num_frames, num_frames_ok, FinishAfter,
};
pub use pausable::{Pausable, SetPaused};
pub use stoppable::{SetStopped, Stoppable};
