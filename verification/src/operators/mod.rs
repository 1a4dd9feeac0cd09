//! Sound implementations that combine one or more sounds.

mod index_map;
mod sound_list;
mod sound_mixer;
mod sounds_from_fn;

pub use index_map::{
    has_key, inserted, inserted_all, key_index, key_removed, keys_distinct, keys_of, mixer_entries,
    swap_removed, MixedSound, MixerMap,
};
pub use sound_list::{
    batch_kept, empty_list_fill, inner_stops, lemma_list_fills_kept, list_fills_from, list_format, list_result, list_run,
    SoundList,
};
pub use sound_mixer::{
    all_convertible, all_mixable, apply_removals, dropped, keeps_playing, lemma_dropped_is_gone,
    lemma_mixer_asks_again, lemma_silence_changes_nothing, lemma_two_sounds_add, mix_run, repeated, settles,
    lemma_uncovered_is_silent, max_count, mixed_sample, removals, sat_add,
    mixer_state, reconverted, reported, waits_for_batch, Contribution, SoundId, SoundMixer,
};
pub use sounds_from_fn::{
    channel_count_of, format_of, from_fn_step, from_fn_step_spec, generator_ok, lemma_from_fn_step_passes_on,
    sample_rate_of, SoundsFromFn,
};
