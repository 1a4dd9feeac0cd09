# rawedio

Composable audio sounds whose sample bookkeeping is proved with Verus.

A `Sound` hands out interleaved 16 bit samples frame by frame through
`fill_next_frames`, together with the state it reached (`Playing`,
`MetadataChanged`, `Paused`, `Finished`). Sources produce samples, wrappers
change the samples or the playback state of an inner sound, and operators
combine several sounds.

## Layout

- `src/`: the verified library.
  - `sound.rs`: the `Sound` trait and the builders of `SoundExt`.
  - `sources/`: `Empty`, `Silence`, `MemorySound`.
  - `wrappers/`: `Pausable`, `Stoppable`, `FinishAfter`,
    `ChannelCountConverter`.
  - `operators/`: `SoundList`, `SoundMixer`, `SoundsFromFn`.
  - `decoders/`: the decisions of the QOA and Symphonia decoders, and the
    errors of `qoaudio`.
  - `async_sound/`, `threaded.rs`, `pool_queue.rs`: what each side of a
    sound rendered on another thread does with the chunks it passes on.
  - `legacy.rs`: the sample-by-sample interface.
  - `utils/`: conversions between durations, frames and sample rates.
- `tests/`: tests run against the compiled library.
- `app/`: the parts Verus does not take: threads and atomics, file I/O,
  floating point (`AdjustableVolume`, `SineWave`), the QOA and Symphonia
  decoder loops, and error types with `std::error::Error`.
