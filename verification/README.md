# framestack

A video filter that combines the last N frames of a stream, byte by byte, into each frame that
goes out: their maximum (light trails), their mean (long exposure), or a mean that weights newer
frames more. The alpha channel of the current frame can be passed through.

- `src/` is the filter, verified with Verus: the ring buffer of frames, the combination modes,
  alpha handling, negotiation and properties. `src/laws.rs` states what holds of it as a whole.
- `app/` makes it the GStreamer element `framestack`.
- `tests/` runs it on concrete frames.
