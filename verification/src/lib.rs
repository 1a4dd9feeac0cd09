//! Rawedio: composable audio sounds with verified sample bookkeeping.
//!
//! A [`Sound`] hands out interleaved 16 bit samples frame by frame through
//! [`Sound::fill_next_frames`]. Sources produce samples, wrappers modify the
//! samples or the playback state of an inner sound, and operators combine
//! several sounds.

pub mod async_sound;
pub mod decoders;
pub mod error;
pub mod legacy;
pub mod operators;
pub mod pool_queue;
pub mod sound;
pub mod sources;
pub mod threaded;
pub mod utils;
pub mod wrappers;

pub use error::RawedioError;
pub use legacy::{NextSample, NextSampleBuffer};
pub use sound::{NextState, Sound, SoundExt};
