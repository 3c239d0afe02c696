# showcase

A small GPU text-rendering showcase split into a verified library and a thin
application.

- `src/` (verified with Verus)
  - `atlas.rs`: integer square root, next power of two, the side of the square
    glyph atlas, and the cursor that packs glyph cells row by row, with the
    packing laws (cells follow the slot formula, never overlap, and stay inside
    the atlas while there are no more glyphs than cells).
  - `font.rs`: `BitmapFont`, the glyph table built by `BitmapFont::plan` from
    rasterized characters, and the texture writes it asks for.
  - `raster.rs`: font parsing through `ab_glyph` and coverage-bitmap helpers.
  - `charset.rs`: the distinct characters of a text.
  - `demo.rs`: font cycling, mouse state and the per-frame surface decision.
  - `window.rs`: when the window is created and which events end the loop.
- `app/`: the `winit` event loop and the `wgpu` side of the text demo
  (textures, bind groups, pipeline, drawing), and rasterization, which works
  in floating point.
