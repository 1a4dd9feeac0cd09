//! Sound implementations that act as a base audio source.

mod empty;
mod memory_sound;
mod silence;

pub use empty::Empty;
pub use crate::error::UnsupportedMetadataChangeError;
pub use memory_sound::{
    lemma_finished_stays_finished, lemma_looping_plays_forever, lemma_plays_in_order, memory_fill_count,
    memory_fill_state, memory_next_position, memory_record, memory_fills, MemorySound, frame_step, frame_step_spec, keep_frame, kept_samples, padded,
    entry_step, entry_stops, entry_kept, frames_kept, complete_read, read_outcome, frame_lens, read_result,
    frame_position, lemma_memory_round_trip,
    FrameStep,
};
pub use silence::Silence;
