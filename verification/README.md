# dystopia_core

The core logic of the Dystopia game, verified with Verus.

- `src/` is the library. Every function in it carries a contract that Verus
  proves; the few calls into outside crates (hash maps and sets of `bevy`,
  `indexmap`'s ordered set, `rand`) stand behind small trusted wrappers whose
  contracts say what those crates document.
  - `map/storage.rs`, `map/tilemap.rs`: chunked tile storage, tile indices,
    atlas encoding, tilesets and animations.
  - `map/serde.rs`: the binary form in which a tilemap is saved, and the save
    file's path.
  - `map/render/`: the render chunks that mirror a tilemap's storage, and the
    vertex buffers of a chunk's mesh, rebuilt for the chunks marked dirty.
  - `map/gen.rs`, `map/shape.rs`, `math/shape/`: generated tilemaps, rectangles
    and the subdivided icosahedron.
  - `input/`: keyboard events, their mapping from keys, and multi-click
    counting.
  - `cosmos/`: the spawning order, types, names, counts and orbit centres of
    a generated cosmos's bodies, and the drawing of star names.
  - `localization/`: how numbers are shown.
- `app/` runs the library headless under bevy: configuration and save files,
  the keyboard, the player and the camera. It holds the floating-point
  distributions and samplers of cosmos generation, but not the generation
  pipeline itself, nor a renderer.
- `tests/` exercise the library on concrete values.
