# runt_core

The core of a small game engine, with everything that decides proved in
[Verus](https://github.com/verus-lang/verus): what the renderer draws in which
order, which input a tick sees, what a trace replays, how a scene is put together,
what the tuning panels do with a key or a finger, and how textures, materials and
noise cells are told apart.

## Layout

- `src/` is the library. A float is its bits there (`float::F32`, `float::F64`):
  comparing, clamping and casting are exact, and arithmetic is left to the callers,
  who hand in its results or the functions that compute them.
  - `float`, `text`, `find`, `paths`: numbers, text and maps.
  - `input`, `trace`, `trace_laws`, `replay_laws`, `clock`, `clock_laws`, `sim`: input,
    its recording and replay, and time.
  - `reflect`, `tweak`, `tweak_laws`, `tweak_panel`, `inspect_panel`: tuning.
  - `noise`, `texture`, `material`, `registry`, `scene`: content.
  - `gpu`, `render`, `shadow`, `ui`: drawing.
  - `physics`: balls, ground and colliders.
- `app/` is ordinary Rust around it: floating point, the GPU, files and the foreign
  traits.
- `tests/` runs the library on concrete values.

## What is trusted

Three things are taken on trust, each in its own item with a comment: how `postcard`
writes an integer (`texture::encode_number`), how `std` quotes a string for debugging
(`text::write_quoted`), and that `String::push` appends (`text`).
