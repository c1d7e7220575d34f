# corus_v2

A small sound-synthesis toolkit. The library in `src/` holds the parts whose
behaviour is stated and proved with Verus:

- `ring_buffer`: the delay line that filters and reverbs read from;
- `event_queue`: events ordered by a time key, handed out once due;
- `nodes::voice_manager2` and `nodes::voice_manager`: least-recently-released
  voice allocation for notes, with or without the voices themselves;
- `nodes::param`: the timeline of scheduled parameter changes, the segment
  that decides a parameter's value at a time, and the events that due
  changes emit;
- `contrib::ondemand`: block rendering handed out sample by sample;
- `synth`: the memoizing cache, the effectors' names, parameters and state
  choice, the benders and producer ids;
- `unsafe_wrapper`: a shared handle.

`app/` holds the floating-point signal processing (signals, oscillators,
filters, envelopes, effects, parameter automation values, modulation pools)
built on those parts; times in seconds map to the library's `u64` time keys
through `app/time_key.rs`.
