# render_wasm

Verified decision logic of a skia-based shape renderer.

- `src/tree.rs`: the traversal of a shape tree into drawing steps (debug
  outlines, layers, shape draws, clips), with its completeness flag; proofs
  that layers are balanced, that only visible shapes are drawn, that the flag
  is true exactly when every reached shape is present and inside the
  viewbox, and that trees without nested cycles always yield a plan.
- `src/state.rs`: the cached surface image and the navigation decisions
  (zoom, pan, full render, render from cache).
- `src/paint.rs`: fill and stroke order and dispatch per shape kind, image
  clipping, stroke caps.
- `src/ids.rs`: shape ids as UUID values, through the `uuid` crate.
- `app/`: the skia drawing that performs the plans (GPU surfaces and
  floating-point geometry).
