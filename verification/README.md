# ash_slug

Text processing for Lengyel's Slug font rendering algorithm: shapes text with
HarfRust, stores glyph curves in a curve texture and per-glyph band lists in a
band texture, and lays out one quad (four vertices, six indices) per visible
glyph.

## Layout

- `src/` is the verified library (Verus):
  - `lib.rs`: constants and the plain data types (offsets, glyph boxes,
    curve records, processed glyph data).
  - `bands.rs`: assignment of a glyph's curves to its 8 horizontal and 8
    vertical bands, sorted by the IEEE-754 total order of their largest
    coordinate.
  - `textures.rs`: `SlugGlyphProcessor`, which appends curves and band
    headers/lists to the two textures; its model `TextureView` states the
    exact texel contents.
  - `text_layout.rs`: the glyph cache and text layout (pen positions,
    quads, bounds, indices, multi-line layout) over shaped glyphs.
  - `slug_rendering.rs`: `SlugRendering`, which shapes text with HarfRust
    and lays it out through the glyph cache, and the texture data view.
  - `shaping.rs`: the declarations of the HarfRust and ttf-parser types and
    calls that the library relies on.
- `app/` is ordinary Rust around the library: glyph outline extraction
  through ttf-parser (floating point curve geometry), vertex generation and
  scaling to pixels, and the Vulkan (ash) interface types.
- `tests/` holds the tests, among them end-to-end tests with a small
  TrueType font embedded in `tests/font_rendering.rs`.

Curve coordinates are kept as the bit patterns of their single precision
values, so the textures can be uploaded as they are.
