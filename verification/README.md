# manokeso

The verified core of a tile-based world simulation, written in Verus.

`src/` is the library that Verus checks:

- `util::math` — `SaturatingAdd`, adding a signed offset to an unsigned
  number with saturation at both ends.
- `util::point` — board coordinates and their row-major index.
- `util::span` — `Span`, a span of time with the range of
  `std::time::Duration`, and the trusted calls into `std::time`.
- `timer` and `util::timer` — two ring buffers of measured spans with
  their averages.
- `world::swap_buffer` — `SwapBuffer`, a double-buffered grid of cells, and
  its random initialisation through `rand`.
- `world::world` — `BoardSlice`, the slice of the board around a camera,
  copying a slice out of a buffer, and `WorldControl`, the decisions of the
  world loop.
- `world::update` — the integer parts of the board update: connex number
  groups and changes, and neighbour indices.
- `render` — `arr_eq`, `FrameUniform` and the `TileUpdateData` trait.

`app/` holds what Verus does not check: the floating-point board physics,
noise-based map generation, the world thread with its channels and clock,
and copies of library types with serde and bytemuck derives.
