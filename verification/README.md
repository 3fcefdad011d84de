# modscope

The decision logic behind a module player's displays and audio cleanup, written
and verified in Verus.

- `src/` is the verified library. Floating-point numbers appear in it as IEEE 754
  bit patterns, which it compares, orders, limits and moves about; arithmetic on
  them stays outside.
  - `float_order`: comparisons of bit patterns, and the whole part of a number.
  - `sorting`: sorting by a total order.
  - `spectrogram`, `spectro`: the ring of columns behind the spectrogram, and what
    its display uploads.
  - `scope`, `vinyl`, `upload`: the other displays and the steps that bring their
    buffers up to date.
  - `stereo`: frames of interleaved samples.
  - `icon`, `widgets`: the application icon and the transport's texts.
  - `cleanup`: which stretches of a recording to repair, how often and how.
- `app/` is ordinary Rust around it: transforms, shading, the GPU and files.
- `tests/` runs the library.
