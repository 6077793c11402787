use ash_slug::slug_rendering::SlugRendering;
use ash_slug::{CurveRecord, GlyphBox, GlyphOutline, Offset2D};

/// A small TrueType font: glyph 0 (.notdef) and one box-shaped glyph for each
/// printable ASCII character (glyph `c - 0x20`), the space as an empty glyph,
/// 1000 units per em, ascender 800.
fn font_bytes() -> Vec<u8> {
    vec![
    0x00, 0x01, 0x00, 0x00, 0x00, 0x07, 0x00, 0x40, 0x00, 0x02, 0x00, 0x30, 0x63, 0x6d, 0x61, 0x70, 0x00, 0x0f, 0x01, 0x80, 0x00, 0x00, 0x00, 0x7c,
    0x00, 0x00, 0x00, 0x34, 0x67, 0x6c, 0x79, 0x66, 0x83, 0x0c, 0x84, 0x80, 0x00, 0x00, 0x00, 0xb0, 0x00, 0x00, 0x0c, 0x9e, 0x68, 0x65, 0x61, 0x64,
    0x61, 0x13, 0x43, 0x3d, 0x00, 0x00, 0x0d, 0x50, 0x00, 0x00, 0x00, 0x36, 0x68, 0x68, 0x65, 0x61, 0x04, 0xe4, 0x01, 0x8d, 0x00, 0x00, 0x0d, 0x88,
    0x00, 0x00, 0x00, 0x24, 0x68, 0x6d, 0x74, 0x78, 0x84, 0x08, 0x12, 0x8e, 0x00, 0x00, 0x0d, 0xac, 0x00, 0x00, 0x01, 0x80, 0x6c, 0x6f, 0x63, 0x61,
    0x9c, 0x1f, 0x99, 0x00, 0x00, 0x00, 0x0f, 0x2c, 0x00, 0x00, 0x00, 0xc2, 0x6d, 0x61, 0x78, 0x70, 0x00, 0x62, 0x00, 0x06, 0x00, 0x00, 0x0f, 0xf0,
    0x00, 0x00, 0x00, 0x20, 0x00, 0x00, 0x00, 0x01, 0x00, 0x03, 0x00, 0x0a, 0x00, 0x00, 0x00, 0x0c, 0x00, 0x0c, 0x00, 0x00, 0x00, 0x00, 0x00, 0x28,
    0x00, 0x00, 0x00, 0x00, 0x00, 0x00, 0x00, 0x02, 0x00, 0x00, 0x00, 0x20, 0x00, 0x00, 0x00, 0x20, 0x00, 0x00, 0x00, 0x5f, 0x00, 0x00, 0x00, 0x21,
    0x00, 0x00, 0x00, 0x7e, 0x00, 0x00, 0x00, 0x01, 0x00, 0x01, 0x00, 0x32, 0x00, 0x00, 0x01, 0xc2, 0x02, 0xbc, 0x00, 0x03, 0x00, 0x00, 0x01, 0x01,
    0x01, 0x01, 0x00, 0x32, 0x01, 0x90, 0x00, 0x00, 0xfe, 0x70, 0x00, 0x00, 0x00, 0x00, 0x02, 0xbc, 0x00, 0x00, 0x00, 0x01, 0x00, 0x32, 0xff, 0x9c,
    0x01, 0x90, 0x02, 0x8a, 0x00, 0x03, 0x00, 0x00, 0x01, 0x01, 0x01, 0x01, 0x00, 0x32, 0x01, 0x5e, 0x00, 0x00, 0xfe, 0xa2, 0xff, 0x9c, 0x00, 0x00,
    0x02, 0xee, 0x00, 0x00, 0x00, 0x01, 0x00, 0x32, 0x00, 0x00, 0x01, 0xc2, 0x02, 0xbc, 0x00, 0x03, 0x00, 0x00, 0x01, 0x01, 0x01, 0x01, 0x00, 0x32,
    0x01, 0x90, 0x00, 0x00, 0xfe, 0x70, 0x00, 0x00, 0x00, 0x00, 0x02, 0xbc, 0x00, 0x00, 0x00, 0x01, 0x00, 0x32, 0x00, 0x00, 0x00, 0x96, 0x01, 0xf4,
    0x00, 0x03, 0x00, 0x00, 0x01, 0x01, 0x01, 0x01, 0x00, 0x32, 0x00, 0x64, 0x00, 0x00, 0xff, 0x9c, 0x00, 0x00, 0x00, 0x00, 0x01, 0xf4, 0x00, 0x00,
    0x00, 0x01, 0x00, 0x32, 0xff, 0x9c, 0x00, 0xc8, 0x02, 0x26, 0x00, 0x03, 0x00, 0x00, 0x01, 0x01, 0x01, 0x01, 0x00, 0x32, 0x00, 0x96, 0x00, 0x00,
    0xff, 0x6a, 0xff, 0x9c, 0x00, 0x00, 0x02, 0x8a, 0x00, 0x00, 0x00, 0x01, 0x00, 0x32, 0x00, 0x00, 0x00, 0xfa, 0x02, 0x58, 0x00, 0x03, 0x00, 0x00,
    0x01, 0x01, 0x01, 0x01, 0x00, 0x32, 0x00, 0xc8, 0x00, 0x00, 0xff, 0x38, 0x00, 0x00, 0x00, 0x00, 0x02, 0x58, 0x00, 0x00, 0x00, 0x01, 0x00, 0x32,
    0x00, 0x00, 0x01, 0x2c, 0x02, 0x8a, 0x00, 0x03, 0x00, 0x00, 0x01, 0x01, 0x01, 0x01, 0x00, 0x32, 0x00, 0xfa, 0x00, 0x00, 0xff, 0x06, 0x00, 0x00,
    0x00, 0x00, 0x02, 0x8a, 0x00, 0x00, 0x00, 0x01, 0x00, 0x32, 0xff, 0x9c, 0x01, 0x5e, 0x02, 0xbc, 0x00, 0x03, 0x00, 0x00, 0x01, 0x01, 0x01, 0x01,
    0x00, 0x32, 0x01, 0x2c, 0x00, 0x00, 0xfe, 0xd4, 0xff, 0x9c, 0x00, 0x00, 0x03, 0x20, 0x00, 0x00, 0x00, 0x01, 0x00, 0x32, 0x00, 0x00, 0x01, 0x90,
    0x01, 0xf4, 0x00, 0x03, 0x00, 0x00, 0x01, 0x01, 0x01, 0x01, 0x00, 0x32, 0x01, 0x5e, 0x00, 0x00, 0xfe, 0xa2, 0x00, 0x00, 0x00, 0x00, 0x01, 0xf4,
    0x00, 0x00, 0x00, 0x01, 0x00, 0x32, 0x00, 0x00, 0x01, 0xc2, 0x02, 0x26, 0x00, 0x03, 0x00, 0x00, 0x01, 0x01, 0x01, 0x01, 0x00, 0x32, 0x01, 0x90,
    0x00, 0x00, 0xfe, 0x70, 0x00, 0x00, 0x00, 0x00, 0x02, 0x26, 0x00, 0x00, 0x00, 0x01, 0x00, 0x32, 0xff, 0x9c, 0x00, 0x96, 0x02, 0x58, 0x00, 0x03,
    0x00, 0x00, 0x01, 0x01, 0x01, 0x01, 0x00, 0x32, 0x00, 0x64, 0x00, 0x00, 0xff, 0x9c, 0xff, 0x9c, 0x00, 0x00, 0x02, 0xbc, 0x00, 0x00, 0x00, 0x01,
    0x00, 0x32, 0x00, 0x00, 0x00, 0xc8, 0x02, 0x8a, 0x00, 0x03, 0x00, 0x00, 0x01, 0x01, 0x01, 0x01, 0x00, 0x32, 0x00, 0x96, 0x00, 0x00, 0xff, 0x6a,
    0x00, 0x00, 0x00, 0x00, 0x02, 0x8a, 0x00, 0x00, 0x00, 0x01, 0x00, 0x32, 0x00, 0x00, 0x00, 0xfa, 0x02, 0xbc, 0x00, 0x03, 0x00, 0x00, 0x01, 0x01,
    0x01, 0x01, 0x00, 0x32, 0x00, 0xc8, 0x00, 0x00, 0xff, 0x38, 0x00, 0x00, 0x00, 0x00, 0x02, 0xbc, 0x00, 0x00, 0x00, 0x01, 0x00, 0x32, 0xff, 0x9c,
    0x01, 0x2c, 0x01, 0xf4, 0x00, 0x03, 0x00, 0x00, 0x01, 0x01, 0x01, 0x01, 0x00, 0x32, 0x00, 0xfa, 0x00, 0x00, 0xff, 0x06, 0xff, 0x9c, 0x00, 0x00,
    0x02, 0x58, 0x00, 0x00, 0x00, 0x01, 0x00, 0x32, 0x00, 0x00, 0x01, 0x5e, 0x02, 0x26, 0x00, 0x03, 0x00, 0x00, 0x01, 0x01, 0x01, 0x01, 0x00, 0x32,
    0x01, 0x2c, 0x00, 0x00, 0xfe, 0xd4, 0x00, 0x00, 0x00, 0x00, 0x02, 0x26, 0x00, 0x00, 0x00, 0x01, 0x00, 0x32, 0x00, 0x00, 0x01, 0x90, 0x02, 0x58,
    0x00, 0x03, 0x00, 0x00, 0x01, 0x01, 0x01, 0x01, 0x00, 0x32, 0x01, 0x5e, 0x00, 0x00, 0xfe, 0xa2, 0x00, 0x00, 0x00, 0x00, 0x02, 0x58, 0x00, 0x00,
    0x00, 0x01, 0x00, 0x32, 0xff, 0x9c, 0x01, 0xc2, 0x02, 0x8a, 0x00, 0x03, 0x00, 0x00, 0x01, 0x01, 0x01, 0x01, 0x00, 0x32, 0x01, 0x90, 0x00, 0x00,
    0xfe, 0x70, 0xff, 0x9c, 0x00, 0x00, 0x02, 0xee, 0x00, 0x00, 0x00, 0x01, 0x00, 0x32, 0x00, 0x00, 0x00, 0x96, 0x02, 0xbc, 0x00, 0x03, 0x00, 0x00,
    0x01, 0x01, 0x01, 0x01, 0x00, 0x32, 0x00, 0x64, 0x00, 0x00, 0xff, 0x9c, 0x00, 0x00, 0x00, 0x00, 0x02, 0xbc, 0x00, 0x00, 0x00, 0x01, 0x00, 0x32,
    0x00, 0x00, 0x00, 0xc8, 0x01, 0xf4, 0x00, 0x03, 0x00, 0x00, 0x01, 0x01, 0x01, 0x01, 0x00, 0x32, 0x00, 0x96, 0x00, 0x00, 0xff, 0x6a, 0x00, 0x00,
    0x00, 0x00, 0x01, 0xf4, 0x00, 0x00, 0x00, 0x01, 0x00, 0x32, 0xff, 0x9c, 0x00, 0xfa, 0x02, 0x26, 0x00, 0x03, 0x00, 0x00, 0x01, 0x01, 0x01, 0x01,
    0x00, 0x32, 0x00, 0xc8, 0x00, 0x00, 0xff, 0x38, 0xff, 0x9c, 0x00, 0x00, 0x02, 0x8a, 0x00, 0x00, 0x00, 0x01, 0x00, 0x32, 0x00, 0x00, 0x01, 0x2c,
    0x02, 0x58, 0x00, 0x03, 0x00, 0x00, 0x01, 0x01, 0x01, 0x01, 0x00, 0x32, 0x00, 0xfa, 0x00, 0x00, 0xff, 0x06, 0x00, 0x00, 0x00, 0x00, 0x02, 0x58,
    0x00, 0x00, 0x00, 0x01, 0x00, 0x32, 0x00, 0x00, 0x01, 0x5e, 0x02, 0x8a, 0x00, 0x03, 0x00, 0x00, 0x01, 0x01, 0x01, 0x01, 0x00, 0x32, 0x01, 0x2c,
    0x00, 0x00, 0xfe, 0xd4, 0x00, 0x00, 0x00, 0x00, 0x02, 0x8a, 0x00, 0x00, 0x00, 0x01, 0x00, 0x32, 0xff, 0x9c, 0x01, 0x90, 0x02, 0xbc, 0x00, 0x03,
    0x00, 0x00, 0x01, 0x01, 0x01, 0x01, 0x00, 0x32, 0x01, 0x5e, 0x00, 0x00, 0xfe, 0xa2, 0xff, 0x9c, 0x00, 0x00, 0x03, 0x20, 0x00, 0x00, 0x00, 0x01,
    0x00, 0x32, 0x00, 0x00, 0x01, 0xc2, 0x01, 0xf4, 0x00, 0x03, 0x00, 0x00, 0x01, 0x01, 0x01, 0x01, 0x00, 0x32, 0x01, 0x90, 0x00, 0x00, 0xfe, 0x70,
    0x00, 0x00, 0x00, 0x00, 0x01, 0xf4, 0x00, 0x00, 0x00, 0x01, 0x00, 0x32, 0x00, 0x00, 0x00, 0x96, 0x02, 0x26, 0x00, 0x03, 0x00, 0x00, 0x01, 0x01,
    0x01, 0x01, 0x00, 0x32, 0x00, 0x64, 0x00, 0x00, 0xff, 0x9c, 0x00, 0x00, 0x00, 0x00, 0x02, 0x26, 0x00, 0x00, 0x00, 0x01, 0x00, 0x32, 0xff, 0x9c,
    0x00, 0xc8, 0x02, 0x58, 0x00, 0x03, 0x00, 0x00, 0x01, 0x01, 0x01, 0x01, 0x00, 0x32, 0x00, 0x96, 0x00, 0x00, 0xff, 0x6a, 0xff, 0x9c, 0x00, 0x00,
    0x02, 0xbc, 0x00, 0x00, 0x00, 0x01, 0x00, 0x32, 0x00, 0x00, 0x00, 0xfa, 0x02, 0x8a, 0x00, 0x03, 0x00, 0x00, 0x01, 0x01, 0x01, 0x01, 0x00, 0x32,
    0x00, 0xc8, 0x00, 0x00, 0xff, 0x38, 0x00, 0x00, 0x00, 0x00, 0x02, 0x8a, 0x00, 0x00, 0x00, 0x01, 0x00, 0x32, 0x00, 0x00, 0x01, 0x2c, 0x02, 0xbc,
    0x00, 0x03, 0x00, 0x00, 0x01, 0x01, 0x01, 0x01, 0x00, 0x32, 0x00, 0xfa, 0x00, 0x00, 0xff, 0x06, 0x00, 0x00, 0x00, 0x00, 0x02, 0xbc, 0x00, 0x00,
    0x00, 0x01, 0x00, 0x32, 0xff, 0x9c, 0x01, 0x5e, 0x01, 0xf4, 0x00, 0x03, 0x00, 0x00, 0x01, 0x01, 0x01, 0x01, 0x00, 0x32, 0x01, 0x2c, 0x00, 0x00,
    0xfe, 0xd4, 0xff, 0x9c, 0x00, 0x00, 0x02, 0x58, 0x00, 0x00, 0x00, 0x01, 0x00, 0x32, 0x00, 0x00, 0x01, 0x90, 0x02, 0x26, 0x00, 0x03, 0x00, 0x00,
    0x01, 0x01, 0x01, 0x01, 0x00, 0x32, 0x01, 0x5e, 0x00, 0x00, 0xfe, 0xa2, 0x00, 0x00, 0x00, 0x00, 0x02, 0x26, 0x00, 0x00, 0x00, 0x01, 0x00, 0x32,
    0x00, 0x00, 0x01, 0xc2, 0x02, 0x58, 0x00, 0x03, 0x00, 0x00, 0x01, 0x01, 0x01, 0x01, 0x00, 0x32, 0x01, 0x90, 0x00, 0x00, 0xfe, 0x70, 0x00, 0x00,
    0x00, 0x00, 0x02, 0x58, 0x00, 0x00, 0x00, 0x01, 0x00, 0x32, 0xff, 0x9c, 0x00, 0x96, 0x02, 0x8a, 0x00, 0x03, 0x00, 0x00, 0x01, 0x01, 0x01, 0x01,
    0x00, 0x32, 0x00, 0x64, 0x00, 0x00, 0xff, 0x9c, 0xff, 0x9c, 0x00, 0x00, 0x02, 0xee, 0x00, 0x00, 0x00, 0x01, 0x00, 0x32, 0x00, 0x00, 0x00, 0xc8,
    0x02, 0xbc, 0x00, 0x03, 0x00, 0x00, 0x01, 0x01, 0x01, 0x01, 0x00, 0x32, 0x00, 0x96, 0x00, 0x00, 0xff, 0x6a, 0x00, 0x00, 0x00, 0x00, 0x02, 0xbc,
    0x00, 0x00, 0x00, 0x01, 0x00, 0x32, 0x00, 0x00, 0x00, 0xfa, 0x01, 0xf4, 0x00, 0x03, 0x00, 0x00, 0x01, 0x01, 0x01, 0x01, 0x00, 0x32, 0x00, 0xc8,
    0x00, 0x00, 0xff, 0x38, 0x00, 0x00, 0x00, 0x00, 0x01, 0xf4, 0x00, 0x00, 0x00, 0x01, 0x00, 0x32, 0xff, 0x9c, 0x01, 0x2c, 0x02, 0x26, 0x00, 0x03,
    0x00, 0x00, 0x01, 0x01, 0x01, 0x01, 0x00, 0x32, 0x00, 0xfa, 0x00, 0x00, 0xff, 0x06, 0xff, 0x9c, 0x00, 0x00, 0x02, 0x8a, 0x00, 0x00, 0x00, 0x01,
    0x00, 0x32, 0x00, 0x00, 0x01, 0x5e, 0x02, 0x58, 0x00, 0x03, 0x00, 0x00, 0x01, 0x01, 0x01, 0x01, 0x00, 0x32, 0x01, 0x2c, 0x00, 0x00, 0xfe, 0xd4,
    0x00, 0x00, 0x00, 0x00, 0x02, 0x58, 0x00, 0x00, 0x00, 0x01, 0x00, 0x32, 0x00, 0x00, 0x01, 0x90, 0x02, 0x8a, 0x00, 0x03, 0x00, 0x00, 0x01, 0x01,
    0x01, 0x01, 0x00, 0x32, 0x01, 0x5e, 0x00, 0x00, 0xfe, 0xa2, 0x00, 0x00, 0x00, 0x00, 0x02, 0x8a, 0x00, 0x00, 0x00, 0x01, 0x00, 0x32, 0xff, 0x9c,
    0x01, 0xc2, 0x02, 0xbc, 0x00, 0x03, 0x00, 0x00, 0x01, 0x01, 0x01, 0x01, 0x00, 0x32, 0x01, 0x90, 0x00, 0x00, 0xfe, 0x70, 0xff, 0x9c, 0x00, 0x00,
    0x03, 0x20, 0x00, 0x00, 0x00, 0x01, 0x00, 0x32, 0x00, 0x00, 0x00, 0x96, 0x01, 0xf4, 0x00, 0x03, 0x00, 0x00, 0x01, 0x01, 0x01, 0x01, 0x00, 0x32,
    0x00, 0x64, 0x00, 0x00, 0xff, 0x9c, 0x00, 0x00, 0x00, 0x00, 0x01, 0xf4, 0x00, 0x00, 0x00, 0x01, 0x00, 0x32, 0x00, 0x00, 0x00, 0xc8, 0x02, 0x26,
    0x00, 0x03, 0x00, 0x00, 0x01, 0x01, 0x01, 0x01, 0x00, 0x32, 0x00, 0x96, 0x00, 0x00, 0xff, 0x6a, 0x00, 0x00, 0x00, 0x00, 0x02, 0x26, 0x00, 0x00,
    0x00, 0x01, 0x00, 0x32, 0xff, 0x9c, 0x00, 0xfa, 0x02, 0x58, 0x00, 0x03, 0x00, 0x00, 0x01, 0x01, 0x01, 0x01, 0x00, 0x32, 0x00, 0xc8, 0x00, 0x00,
    0xff, 0x38, 0xff, 0x9c, 0x00, 0x00, 0x02, 0xbc, 0x00, 0x00, 0x00, 0x01, 0x00, 0x32, 0x00, 0x00, 0x01, 0x2c, 0x02, 0x8a, 0x00, 0x03, 0x00, 0x00,
    0x01, 0x01, 0x01, 0x01, 0x00, 0x32, 0x00, 0xfa, 0x00, 0x00, 0xff, 0x06, 0x00, 0x00, 0x00, 0x00, 0x02, 0x8a, 0x00, 0x00, 0x00, 0x01, 0x00, 0x32,
    0x00, 0x00, 0x01, 0x5e, 0x02, 0xbc, 0x00, 0x03, 0x00, 0x00, 0x01, 0x01, 0x01, 0x01, 0x00, 0x32, 0x01, 0x2c, 0x00, 0x00, 0xfe, 0xd4, 0x00, 0x00,
    0x00, 0x00, 0x02, 0xbc, 0x00, 0x00, 0x00, 0x01, 0x00, 0x32, 0xff, 0x9c, 0x01, 0x90, 0x01, 0xf4, 0x00, 0x03, 0x00, 0x00, 0x01, 0x01, 0x01, 0x01,
    0x00, 0x32, 0x01, 0x5e, 0x00, 0x00, 0xfe, 0xa2, 0xff, 0x9c, 0x00, 0x00, 0x02, 0x58, 0x00, 0x00, 0x00, 0x01, 0x00, 0x32, 0x00, 0x00, 0x01, 0xc2,
    0x02, 0x26, 0x00, 0x03, 0x00, 0x00, 0x01, 0x01, 0x01, 0x01, 0x00, 0x32, 0x01, 0x90, 0x00, 0x00, 0xfe, 0x70, 0x00, 0x00, 0x00, 0x00, 0x02, 0x26,
    0x00, 0x00, 0x00, 0x01, 0x00, 0x32, 0x00, 0x00, 0x00, 0x96, 0x02, 0x58, 0x00, 0x03, 0x00, 0x00, 0x01, 0x01, 0x01, 0x01, 0x00, 0x32, 0x00, 0x64,
    0x00, 0x00, 0xff, 0x9c, 0x00, 0x00, 0x00, 0x00, 0x02, 0x58, 0x00, 0x00, 0x00, 0x01, 0x00, 0x32, 0xff, 0x9c, 0x00, 0xc8, 0x02, 0x8a, 0x00, 0x03,
    0x00, 0x00, 0x01, 0x01, 0x01, 0x01, 0x00, 0x32, 0x00, 0x96, 0x00, 0x00, 0xff, 0x6a, 0xff, 0x9c, 0x00, 0x00, 0x02, 0xee, 0x00, 0x00, 0x00, 0x01,
    0x00, 0x32, 0x00, 0x00, 0x00, 0xfa, 0x02, 0xbc, 0x00, 0x03, 0x00, 0x00, 0x01, 0x01, 0x01, 0x01, 0x00, 0x32, 0x00, 0xc8, 0x00, 0x00, 0xff, 0x38,
    0x00, 0x00, 0x00, 0x00, 0x02, 0xbc, 0x00, 0x00, 0x00, 0x01, 0x00, 0x32, 0x00, 0x00, 0x01, 0x2c, 0x01, 0xf4, 0x00, 0x03, 0x00, 0x00, 0x01, 0x01,
    0x01, 0x01, 0x00, 0x32, 0x00, 0xfa, 0x00, 0x00, 0xff, 0x06, 0x00, 0x00, 0x00, 0x00, 0x01, 0xf4, 0x00, 0x00, 0x00, 0x01, 0x00, 0x32, 0xff, 0x9c,
    0x01, 0x5e, 0x02, 0x26, 0x00, 0x03, 0x00, 0x00, 0x01, 0x01, 0x01, 0x01, 0x00, 0x32, 0x01, 0x2c, 0x00, 0x00, 0xfe, 0xd4, 0xff, 0x9c, 0x00, 0x00,
    0x02, 0x8a, 0x00, 0x00, 0x00, 0x01, 0x00, 0x32, 0x00, 0x00, 0x01, 0x90, 0x02, 0x58, 0x00, 0x03, 0x00, 0x00, 0x01, 0x01, 0x01, 0x01, 0x00, 0x32,
    0x01, 0x5e, 0x00, 0x00, 0xfe, 0xa2, 0x00, 0x00, 0x00, 0x00, 0x02, 0x58, 0x00, 0x00, 0x00, 0x01, 0x00, 0x32, 0x00, 0x00, 0x01, 0xc2, 0x02, 0x8a,
    0x00, 0x03, 0x00, 0x00, 0x01, 0x01, 0x01, 0x01, 0x00, 0x32, 0x01, 0x90, 0x00, 0x00, 0xfe, 0x70, 0x00, 0x00, 0x00, 0x00, 0x02, 0x8a, 0x00, 0x00,
    0x00, 0x01, 0x00, 0x32, 0xff, 0x9c, 0x00, 0x96, 0x02, 0xbc, 0x00, 0x03, 0x00, 0x00, 0x01, 0x01, 0x01, 0x01, 0x00, 0x32, 0x00, 0x64, 0x00, 0x00,
    0xff, 0x9c, 0xff, 0x9c, 0x00, 0x00, 0x03, 0x20, 0x00, 0x00, 0x00, 0x01, 0x00, 0x32, 0x00, 0x00, 0x00, 0xc8, 0x01, 0xf4, 0x00, 0x03, 0x00, 0x00,
    0x01, 0x01, 0x01, 0x01, 0x00, 0x32, 0x00, 0x96, 0x00, 0x00, 0xff, 0x6a, 0x00, 0x00, 0x00, 0x00, 0x01, 0xf4, 0x00, 0x00, 0x00, 0x01, 0x00, 0x32,
    0x00, 0x00, 0x00, 0xfa, 0x02, 0x26, 0x00, 0x03, 0x00, 0x00, 0x01, 0x01, 0x01, 0x01, 0x00, 0x32, 0x00, 0xc8, 0x00, 0x00, 0xff, 0x38, 0x00, 0x00,
    0x00, 0x00, 0x02, 0x26, 0x00, 0x00, 0x00, 0x01, 0x00, 0x32, 0xff, 0x9c, 0x01, 0x2c, 0x02, 0x58, 0x00, 0x03, 0x00, 0x00, 0x01, 0x01, 0x01, 0x01,
    0x00, 0x32, 0x00, 0xfa, 0x00, 0x00, 0xff, 0x06, 0xff, 0x9c, 0x00, 0x00, 0x02, 0xbc, 0x00, 0x00, 0x00, 0x01, 0x00, 0x32, 0x00, 0x00, 0x01, 0x5e,
    0x02, 0x8a, 0x00, 0x03, 0x00, 0x00, 0x01, 0x01, 0x01, 0x01, 0x00, 0x32, 0x01, 0x2c, 0x00, 0x00, 0xfe, 0xd4, 0x00, 0x00, 0x00, 0x00, 0x02, 0x8a,
    0x00, 0x00, 0x00, 0x01, 0x00, 0x32, 0x00, 0x00, 0x01, 0x90, 0x02, 0xbc, 0x00, 0x03, 0x00, 0x00, 0x01, 0x01, 0x01, 0x01, 0x00, 0x32, 0x01, 0x5e,
    0x00, 0x00, 0xfe, 0xa2, 0x00, 0x00, 0x00, 0x00, 0x02, 0xbc, 0x00, 0x00, 0x00, 0x01, 0x00, 0x32, 0xff, 0x9c, 0x01, 0xc2, 0x01, 0xf4, 0x00, 0x03,
    0x00, 0x00, 0x01, 0x01, 0x01, 0x01, 0x00, 0x32, 0x01, 0x90, 0x00, 0x00, 0xfe, 0x70, 0xff, 0x9c, 0x00, 0x00, 0x02, 0x58, 0x00, 0x00, 0x00, 0x01,
    0x00, 0x32, 0x00, 0x00, 0x00, 0x96, 0x02, 0x26, 0x00, 0x03, 0x00, 0x00, 0x01, 0x01, 0x01, 0x01, 0x00, 0x32, 0x00, 0x64, 0x00, 0x00, 0xff, 0x9c,
    0x00, 0x00, 0x00, 0x00, 0x02, 0x26, 0x00, 0x00, 0x00, 0x01, 0x00, 0x32, 0x00, 0x00, 0x00, 0xc8, 0x02, 0x58, 0x00, 0x03, 0x00, 0x00, 0x01, 0x01,
    0x01, 0x01, 0x00, 0x32, 0x00, 0x96, 0x00, 0x00, 0xff, 0x6a, 0x00, 0x00, 0x00, 0x00, 0x02, 0x58, 0x00, 0x00, 0x00, 0x01, 0x00, 0x32, 0xff, 0x9c,
    0x00, 0xfa, 0x02, 0x8a, 0x00, 0x03, 0x00, 0x00, 0x01, 0x01, 0x01, 0x01, 0x00, 0x32, 0x00, 0xc8, 0x00, 0x00, 0xff, 0x38, 0xff, 0x9c, 0x00, 0x00,
    0x02, 0xee, 0x00, 0x00, 0x00, 0x01, 0x00, 0x32, 0x00, 0x00, 0x01, 0x2c, 0x02, 0xbc, 0x00, 0x03, 0x00, 0x00, 0x01, 0x01, 0x01, 0x01, 0x00, 0x32,
    0x00, 0xfa, 0x00, 0x00, 0xff, 0x06, 0x00, 0x00, 0x00, 0x00, 0x02, 0xbc, 0x00, 0x00, 0x00, 0x01, 0x00, 0x32, 0x00, 0x00, 0x01, 0x5e, 0x01, 0xf4,
    0x00, 0x03, 0x00, 0x00, 0x01, 0x01, 0x01, 0x01, 0x00, 0x32, 0x01, 0x2c, 0x00, 0x00, 0xfe, 0xd4, 0x00, 0x00, 0x00, 0x00, 0x01, 0xf4, 0x00, 0x00,
    0x00, 0x01, 0x00, 0x32, 0xff, 0x9c, 0x01, 0x90, 0x02, 0x26, 0x00, 0x03, 0x00, 0x00, 0x01, 0x01, 0x01, 0x01, 0x00, 0x32, 0x01, 0x5e, 0x00, 0x00,
    0xfe, 0xa2, 0xff, 0x9c, 0x00, 0x00, 0x02, 0x8a, 0x00, 0x00, 0x00, 0x01, 0x00, 0x32, 0x00, 0x00, 0x01, 0xc2, 0x02, 0x58, 0x00, 0x03, 0x00, 0x00,
    0x01, 0x01, 0x01, 0x01, 0x00, 0x32, 0x01, 0x90, 0x00, 0x00, 0xfe, 0x70, 0x00, 0x00, 0x00, 0x00, 0x02, 0x58, 0x00, 0x00, 0x00, 0x01, 0x00, 0x32,
    0x00, 0x00, 0x00, 0x96, 0x02, 0x8a, 0x00, 0x03, 0x00, 0x00, 0x01, 0x01, 0x01, 0x01, 0x00, 0x32, 0x00, 0x64, 0x00, 0x00, 0xff, 0x9c, 0x00, 0x00,
    0x00, 0x00, 0x02, 0x8a, 0x00, 0x00, 0x00, 0x01, 0x00, 0x32, 0xff, 0x9c, 0x00, 0xc8, 0x02, 0xbc, 0x00, 0x03, 0x00, 0x00, 0x01, 0x01, 0x01, 0x01,
    0x00, 0x32, 0x00, 0x96, 0x00, 0x00, 0xff, 0x6a, 0xff, 0x9c, 0x00, 0x00, 0x03, 0x20, 0x00, 0x00, 0x00, 0x01, 0x00, 0x32, 0x00, 0x00, 0x00, 0xfa,
    0x01, 0xf4, 0x00, 0x03, 0x00, 0x00, 0x01, 0x01, 0x01, 0x01, 0x00, 0x32, 0x00, 0xc8, 0x00, 0x00, 0xff, 0x38, 0x00, 0x00, 0x00, 0x00, 0x01, 0xf4,
    0x00, 0x00, 0x00, 0x01, 0x00, 0x32, 0x00, 0x00, 0x01, 0x2c, 0x02, 0x26, 0x00, 0x03, 0x00, 0x00, 0x01, 0x01, 0x01, 0x01, 0x00, 0x32, 0x00, 0xfa,
    0x00, 0x00, 0xff, 0x06, 0x00, 0x00, 0x00, 0x00, 0x02, 0x26, 0x00, 0x00, 0x00, 0x01, 0x00, 0x32, 0xff, 0x9c, 0x01, 0x5e, 0x02, 0x58, 0x00, 0x03,
    0x00, 0x00, 0x01, 0x01, 0x01, 0x01, 0x00, 0x32, 0x01, 0x2c, 0x00, 0x00, 0xfe, 0xd4, 0xff, 0x9c, 0x00, 0x00, 0x02, 0xbc, 0x00, 0x00, 0x00, 0x01,
    0x00, 0x32, 0x00, 0x00, 0x01, 0x90, 0x02, 0x8a, 0x00, 0x03, 0x00, 0x00, 0x01, 0x01, 0x01, 0x01, 0x00, 0x32, 0x01, 0x5e, 0x00, 0x00, 0xfe, 0xa2,
    0x00, 0x00, 0x00, 0x00, 0x02, 0x8a, 0x00, 0x00, 0x00, 0x01, 0x00, 0x32, 0x00, 0x00, 0x01, 0xc2, 0x02, 0xbc, 0x00, 0x03, 0x00, 0x00, 0x01, 0x01,
    0x01, 0x01, 0x00, 0x32, 0x01, 0x90, 0x00, 0x00, 0xfe, 0x70, 0x00, 0x00, 0x00, 0x00, 0x02, 0xbc, 0x00, 0x00, 0x00, 0x01, 0x00, 0x32, 0xff, 0x9c,
    0x00, 0x96, 0x01, 0xf4, 0x00, 0x03, 0x00, 0x00, 0x01, 0x01, 0x01, 0x01, 0x00, 0x32, 0x00, 0x64, 0x00, 0x00, 0xff, 0x9c, 0xff, 0x9c, 0x00, 0x00,
    0x02, 0x58, 0x00, 0x00, 0x00, 0x01, 0x00, 0x32, 0x00, 0x00, 0x00, 0xc8, 0x02, 0x26, 0x00, 0x03, 0x00, 0x00, 0x01, 0x01, 0x01, 0x01, 0x00, 0x32,
    0x00, 0x96, 0x00, 0x00, 0xff, 0x6a, 0x00, 0x00, 0x00, 0x00, 0x02, 0x26, 0x00, 0x00, 0x00, 0x01, 0x00, 0x32, 0x00, 0x00, 0x00, 0xfa, 0x02, 0x58,
    0x00, 0x03, 0x00, 0x00, 0x01, 0x01, 0x01, 0x01, 0x00, 0x32, 0x00, 0xc8, 0x00, 0x00, 0xff, 0x38, 0x00, 0x00, 0x00, 0x00, 0x02, 0x58, 0x00, 0x00,
    0x00, 0x01, 0x00, 0x32, 0xff, 0x9c, 0x01, 0x2c, 0x02, 0x8a, 0x00, 0x03, 0x00, 0x00, 0x01, 0x01, 0x01, 0x01, 0x00, 0x32, 0x00, 0xfa, 0x00, 0x00,
    0xff, 0x06, 0xff, 0x9c, 0x00, 0x00, 0x02, 0xee, 0x00, 0x00, 0x00, 0x01, 0x00, 0x32, 0x00, 0x00, 0x01, 0x5e, 0x02, 0xbc, 0x00, 0x03, 0x00, 0x00,
    0x01, 0x01, 0x01, 0x01, 0x00, 0x32, 0x01, 0x2c, 0x00, 0x00, 0xfe, 0xd4, 0x00, 0x00, 0x00, 0x00, 0x02, 0xbc, 0x00, 0x00, 0x00, 0x01, 0x00, 0x32,
    0x00, 0x00, 0x01, 0x90, 0x01, 0xf4, 0x00, 0x03, 0x00, 0x00, 0x01, 0x01, 0x01, 0x01, 0x00, 0x32, 0x01, 0x5e, 0x00, 0x00, 0xfe, 0xa2, 0x00, 0x00,
    0x00, 0x00, 0x01, 0xf4, 0x00, 0x00, 0x00, 0x01, 0x00, 0x32, 0xff, 0x9c, 0x01, 0xc2, 0x02, 0x26, 0x00, 0x03, 0x00, 0x00, 0x01, 0x01, 0x01, 0x01,
    0x00, 0x32, 0x01, 0x90, 0x00, 0x00, 0xfe, 0x70, 0xff, 0x9c, 0x00, 0x00, 0x02, 0x8a, 0x00, 0x00, 0x00, 0x01, 0x00, 0x32, 0x00, 0x00, 0x00, 0x96,
    0x02, 0x58, 0x00, 0x03, 0x00, 0x00, 0x01, 0x01, 0x01, 0x01, 0x00, 0x32, 0x00, 0x64, 0x00, 0x00, 0xff, 0x9c, 0x00, 0x00, 0x00, 0x00, 0x02, 0x58,
    0x00, 0x00, 0x00, 0x01, 0x00, 0x32, 0x00, 0x00, 0x00, 0xc8, 0x02, 0x8a, 0x00, 0x03, 0x00, 0x00, 0x01, 0x01, 0x01, 0x01, 0x00, 0x32, 0x00, 0x96,
    0x00, 0x00, 0xff, 0x6a, 0x00, 0x00, 0x00, 0x00, 0x02, 0x8a, 0x00, 0x00, 0x00, 0x01, 0x00, 0x32, 0xff, 0x9c, 0x00, 0xfa, 0x02, 0xbc, 0x00, 0x03,
    0x00, 0x00, 0x01, 0x01, 0x01, 0x01, 0x00, 0x32, 0x00, 0xc8, 0x00, 0x00, 0xff, 0x38, 0xff, 0x9c, 0x00, 0x00, 0x03, 0x20, 0x00, 0x00, 0x00, 0x01,
    0x00, 0x32, 0x00, 0x00, 0x01, 0x2c, 0x01, 0xf4, 0x00, 0x03, 0x00, 0x00, 0x01, 0x01, 0x01, 0x01, 0x00, 0x32, 0x00, 0xfa, 0x00, 0x00, 0xff, 0x06,
    0x00, 0x00, 0x00, 0x00, 0x01, 0xf4, 0x00, 0x00, 0x00, 0x01, 0x00, 0x32, 0x00, 0x00, 0x01, 0x5e, 0x02, 0x26, 0x00, 0x03, 0x00, 0x00, 0x01, 0x01,
    0x01, 0x01, 0x00, 0x32, 0x01, 0x2c, 0x00, 0x00, 0xfe, 0xd4, 0x00, 0x00, 0x00, 0x00, 0x02, 0x26, 0x00, 0x00, 0x00, 0x01, 0x00, 0x32, 0xff, 0x9c,
    0x01, 0x90, 0x02, 0x58, 0x00, 0x03, 0x00, 0x00, 0x01, 0x01, 0x01, 0x01, 0x00, 0x32, 0x01, 0x5e, 0x00, 0x00, 0xfe, 0xa2, 0xff, 0x9c, 0x00, 0x00,
    0x02, 0xbc, 0x00, 0x00, 0x00, 0x01, 0x00, 0x32, 0x00, 0x00, 0x01, 0xc2, 0x02, 0x8a, 0x00, 0x03, 0x00, 0x00, 0x01, 0x01, 0x01, 0x01, 0x00, 0x32,
    0x01, 0x90, 0x00, 0x00, 0xfe, 0x70, 0x00, 0x00, 0x00, 0x00, 0x02, 0x8a, 0x00, 0x00, 0x00, 0x01, 0x00, 0x32, 0x00, 0x00, 0x00, 0x96, 0x02, 0xbc,
    0x00, 0x03, 0x00, 0x00, 0x01, 0x01, 0x01, 0x01, 0x00, 0x32, 0x00, 0x64, 0x00, 0x00, 0xff, 0x9c, 0x00, 0x00, 0x00, 0x00, 0x02, 0xbc, 0x00, 0x00,
    0x00, 0x01, 0x00, 0x32, 0xff, 0x9c, 0x00, 0xc8, 0x01, 0xf4, 0x00, 0x03, 0x00, 0x00, 0x01, 0x01, 0x01, 0x01, 0x00, 0x32, 0x00, 0x96, 0x00, 0x00,
    0xff, 0x6a, 0xff, 0x9c, 0x00, 0x00, 0x02, 0x58, 0x00, 0x00, 0x00, 0x01, 0x00, 0x32, 0x00, 0x00, 0x00, 0xfa, 0x02, 0x26, 0x00, 0x03, 0x00, 0x00,
    0x01, 0x01, 0x01, 0x01, 0x00, 0x32, 0x00, 0xc8, 0x00, 0x00, 0xff, 0x38, 0x00, 0x00, 0x00, 0x00, 0x02, 0x26, 0x00, 0x00, 0x00, 0x01, 0x00, 0x32,
    0x00, 0x00, 0x01, 0x2c, 0x02, 0x58, 0x00, 0x03, 0x00, 0x00, 0x01, 0x01, 0x01, 0x01, 0x00, 0x32, 0x00, 0xfa, 0x00, 0x00, 0xff, 0x06, 0x00, 0x00,
    0x00, 0x00, 0x02, 0x58, 0x00, 0x00, 0x00, 0x01, 0x00, 0x32, 0xff, 0x9c, 0x01, 0x5e, 0x02, 0x8a, 0x00, 0x03, 0x00, 0x00, 0x01, 0x01, 0x01, 0x01,
    0x00, 0x32, 0x01, 0x2c, 0x00, 0x00, 0xfe, 0xd4, 0xff, 0x9c, 0x00, 0x00, 0x02, 0xee, 0x00, 0x00, 0x00, 0x01, 0x00, 0x32, 0x00, 0x00, 0x01, 0x90,
    0x02, 0xbc, 0x00, 0x03, 0x00, 0x00, 0x01, 0x01, 0x01, 0x01, 0x00, 0x32, 0x01, 0x5e, 0x00, 0x00, 0xfe, 0xa2, 0x00, 0x00, 0x00, 0x00, 0x02, 0xbc,
    0x00, 0x00, 0x00, 0x01, 0x00, 0x32, 0x00, 0x00, 0x01, 0xc2, 0x01, 0xf4, 0x00, 0x03, 0x00, 0x00, 0x01, 0x01, 0x01, 0x01, 0x00, 0x32, 0x01, 0x90,
    0x00, 0x00, 0xfe, 0x70, 0x00, 0x00, 0x00, 0x00, 0x01, 0xf4, 0x00, 0x00, 0x00, 0x01, 0x00, 0x32, 0xff, 0x9c, 0x00, 0x96, 0x02, 0x26, 0x00, 0x03,
    0x00, 0x00, 0x01, 0x01, 0x01, 0x01, 0x00, 0x32, 0x00, 0x64, 0x00, 0x00, 0xff, 0x9c, 0xff, 0x9c, 0x00, 0x00, 0x02, 0x8a, 0x00, 0x00, 0x00, 0x00,
    0x00, 0x01, 0x00, 0x00, 0x00, 0x01, 0x00, 0x00, 0x00, 0x00, 0x00, 0x00, 0x5f, 0x0f, 0x3c, 0xf5, 0x00, 0x0b, 0x03, 0xe8, 0x00, 0x00, 0x00, 0x00,
    0x00, 0x00, 0x00, 0x00, 0x00, 0x00, 0x00, 0x00, 0x00, 0x00, 0x00, 0x00, 0x00, 0x32, 0xff, 0x9c, 0x01, 0xc2, 0x02, 0xbc, 0x00, 0x00, 0x00, 0x08,
    0x00, 0x02, 0x00, 0x00, 0x00, 0x00, 0x00, 0x00, 0x00, 0x01, 0x00, 0x00, 0x03, 0x20, 0xff, 0x38, 0x00, 0x00, 0x01, 0xf4, 0x00, 0x00, 0x00, 0x00,
    0x01, 0xc2, 0x00, 0x01, 0x00, 0x00, 0x00, 0x00, 0x00, 0x00, 0x00, 0x00, 0x00, 0x00, 0x00, 0x00, 0x00, 0x00, 0x00, 0x60, 0x01, 0xf4, 0x00, 0x32,
    0x01, 0xc2, 0x00, 0x32, 0x01, 0xf4, 0x00, 0x32, 0x00, 0xc8, 0x00, 0x32, 0x00, 0xfa, 0x00, 0x32, 0x01, 0x2c, 0x00, 0x32, 0x01, 0x5e, 0x00, 0x32,
    0x01, 0x90, 0x00, 0x32, 0x01, 0xc2, 0x00, 0x32, 0x01, 0xf4, 0x00, 0x32, 0x00, 0xc8, 0x00, 0x32, 0x00, 0xfa, 0x00, 0x32, 0x01, 0x2c, 0x00, 0x32,
    0x01, 0x5e, 0x00, 0x32, 0x01, 0x90, 0x00, 0x32, 0x01, 0xc2, 0x00, 0x32, 0x01, 0xf4, 0x00, 0x32, 0x00, 0xc8, 0x00, 0x32, 0x00, 0xfa, 0x00, 0x32,
    0x01, 0x2c, 0x00, 0x32, 0x01, 0x5e, 0x00, 0x32, 0x01, 0x90, 0x00, 0x32, 0x01, 0xc2, 0x00, 0x32, 0x01, 0xf4, 0x00, 0x32, 0x00, 0xc8, 0x00, 0x32,
    0x00, 0xfa, 0x00, 0x32, 0x01, 0x2c, 0x00, 0x32, 0x01, 0x5e, 0x00, 0x32, 0x01, 0x90, 0x00, 0x32, 0x01, 0xc2, 0x00, 0x32, 0x01, 0xf4, 0x00, 0x32,
    0x00, 0xc8, 0x00, 0x32, 0x00, 0xfa, 0x00, 0x32, 0x01, 0x2c, 0x00, 0x32, 0x01, 0x5e, 0x00, 0x32, 0x01, 0x90, 0x00, 0x32, 0x01, 0xc2, 0x00, 0x32,
    0x01, 0xf4, 0x00, 0x32, 0x00, 0xc8, 0x00, 0x32, 0x00, 0xfa, 0x00, 0x32, 0x01, 0x2c, 0x00, 0x32, 0x01, 0x5e, 0x00, 0x32, 0x01, 0x90, 0x00, 0x32,
    0x01, 0xc2, 0x00, 0x32, 0x01, 0xf4, 0x00, 0x32, 0x00, 0xc8, 0x00, 0x32, 0x00, 0xfa, 0x00, 0x32, 0x01, 0x2c, 0x00, 0x32, 0x01, 0x5e, 0x00, 0x32,
    0x01, 0x90, 0x00, 0x32, 0x01, 0xc2, 0x00, 0x32, 0x01, 0xf4, 0x00, 0x32, 0x00, 0xc8, 0x00, 0x32, 0x00, 0xfa, 0x00, 0x32, 0x01, 0x2c, 0x00, 0x32,
    0x01, 0x5e, 0x00, 0x32, 0x01, 0x90, 0x00, 0x32, 0x01, 0xc2, 0x00, 0x32, 0x01, 0xf4, 0x00, 0x32, 0x00, 0xc8, 0x00, 0x32, 0x00, 0xfa, 0x00, 0x32,
    0x01, 0x2c, 0x00, 0x32, 0x01, 0x5e, 0x00, 0x32, 0x01, 0x90, 0x00, 0x32, 0x01, 0xc2, 0x00, 0x32, 0x01, 0xf4, 0x00, 0x32, 0x00, 0xc8, 0x00, 0x32,
    0x00, 0xfa, 0x00, 0x32, 0x01, 0x2c, 0x00, 0x32, 0x01, 0x5e, 0x00, 0x32, 0x01, 0x90, 0x00, 0x32, 0x01, 0xc2, 0x00, 0x32, 0x01, 0xf4, 0x00, 0x32,
    0x00, 0xc8, 0x00, 0x32, 0x00, 0xfa, 0x00, 0x32, 0x01, 0x2c, 0x00, 0x32, 0x01, 0x5e, 0x00, 0x32, 0x01, 0x90, 0x00, 0x32, 0x01, 0xc2, 0x00, 0x32,
    0x01, 0xf4, 0x00, 0x32, 0x00, 0xc8, 0x00, 0x32, 0x00, 0xfa, 0x00, 0x32, 0x01, 0x2c, 0x00, 0x32, 0x01, 0x5e, 0x00, 0x32, 0x01, 0x90, 0x00, 0x32,
    0x01, 0xc2, 0x00, 0x32, 0x01, 0xf4, 0x00, 0x32, 0x00, 0xc8, 0x00, 0x32, 0x00, 0xfa, 0x00, 0x32, 0x01, 0x2c, 0x00, 0x32, 0x01, 0x5e, 0x00, 0x32,
    0x01, 0x90, 0x00, 0x32, 0x01, 0xc2, 0x00, 0x32, 0x01, 0xf4, 0x00, 0x32, 0x00, 0xc8, 0x00, 0x32, 0x01, 0x2c, 0x00, 0x00, 0x00, 0x00, 0x00, 0x11,
    0x00, 0x22, 0x00, 0x33, 0x00, 0x44, 0x00, 0x55, 0x00, 0x66, 0x00, 0x77, 0x00, 0x88, 0x00, 0x99, 0x00, 0xaa, 0x00, 0xbb, 0x00, 0xcc, 0x00, 0xdd,
    0x00, 0xee, 0x00, 0xff, 0x01, 0x10, 0x01, 0x21, 0x01, 0x32, 0x01, 0x43, 0x01, 0x54, 0x01, 0x65, 0x01, 0x76, 0x01, 0x87, 0x01, 0x98, 0x01, 0xa9,
    0x01, 0xba, 0x01, 0xcb, 0x01, 0xdc, 0x01, 0xed, 0x01, 0xfe, 0x02, 0x0f, 0x02, 0x20, 0x02, 0x31, 0x02, 0x42, 0x02, 0x53, 0x02, 0x64, 0x02, 0x75,
    0x02, 0x86, 0x02, 0x97, 0x02, 0xa8, 0x02, 0xb9, 0x02, 0xca, 0x02, 0xdb, 0x02, 0xec, 0x02, 0xfd, 0x03, 0x0e, 0x03, 0x1f, 0x03, 0x30, 0x03, 0x41,
    0x03, 0x52, 0x03, 0x63, 0x03, 0x74, 0x03, 0x85, 0x03, 0x96, 0x03, 0xa7, 0x03, 0xb8, 0x03, 0xc9, 0x03, 0xda, 0x03, 0xeb, 0x03, 0xfc, 0x04, 0x0d,
    0x04, 0x1e, 0x04, 0x2f, 0x04, 0x40, 0x04, 0x51, 0x04, 0x62, 0x04, 0x73, 0x04, 0x84, 0x04, 0x95, 0x04, 0xa6, 0x04, 0xb7, 0x04, 0xc8, 0x04, 0xd9,
    0x04, 0xea, 0x04, 0xfb, 0x05, 0x0c, 0x05, 0x1d, 0x05, 0x2e, 0x05, 0x3f, 0x05, 0x50, 0x05, 0x61, 0x05, 0x72, 0x05, 0x83, 0x05, 0x94, 0x05, 0xa5,
    0x05, 0xb6, 0x05, 0xc7, 0x05, 0xd8, 0x05, 0xe9, 0x05, 0xfa, 0x06, 0x0b, 0x06, 0x1c, 0x06, 0x2d, 0x06, 0x3e, 0x06, 0x4f, 0x06, 0x4f, 0x00, 0x00,
    0x00, 0x01, 0x00, 0x00, 0x00, 0x60, 0x00, 0x04, 0x00, 0x01, 0x00, 0x00, 0x00, 0x00, 0x00, 0x02, 0x00, 0x00, 0x00, 0x00, 0x00, 0x00, 0x00, 0x00,
    0x00, 0x00, 0x00, 0x00, 0x00, 0x00, 0x00, 0x00,
    ]
}

#[derive(Default)]
struct CurveRecorder {
    curves: Vec<CurveRecord>,
    start: (f32, f32),
    last: (f32, f32),
}

fn record(p0: (f32, f32), p1: (f32, f32), p2: (f32, f32)) -> CurveRecord {
    CurveRecord {
        p0x: p0.0.to_bits(),
        p0y: p0.1.to_bits(),
        p1x: p1.0.to_bits(),
        p1y: p1.1.to_bits(),
        p2x: p2.0.to_bits(),
        p2y: p2.1.to_bits(),
        h_band_first: 0,
        h_band_last: 7,
        v_band_first: 0,
        v_band_last: 7,
        max_x_bits: p0.0.max(p1.0).max(p2.0).to_bits(),
        max_y_bits: p0.1.max(p1.1).max(p2.1).to_bits(),
    }
}

impl ttf_parser::OutlineBuilder for CurveRecorder {
    fn move_to(&mut self, x: f32, y: f32) {
        self.start = (x, y);
        self.last = (x, y);
    }
    fn line_to(&mut self, x: f32, y: f32) {
        let mid = ((self.last.0 + x) / 2.0, (self.last.1 + y) / 2.0);
        self.curves.push(record(self.last, mid, (x, y)));
        self.last = (x, y);
    }
    fn quad_to(&mut self, x1: f32, y1: f32, x: f32, y: f32) {
        self.curves.push(record(self.last, (x1, y1), (x, y)));
        self.last = (x, y);
    }
    fn curve_to(&mut self, x1: f32, y1: f32, x2: f32, y2: f32, x: f32, y: f32) {
        // split the cubic at its middle into two quadratics
        let mid = |a: (f32, f32), b: (f32, f32)| ((a.0 + b.0) / 2.0, (a.1 + b.1) / 2.0);
        let (p0, p1, p2, p3) = (self.last, (x1, y1), (x2, y2), (x, y));
        let (m01, m12, m23) = (mid(p0, p1), mid(p1, p2), mid(p2, p3));
        let (m012, m123) = (mid(m01, m12), mid(m12, m23));
        let m = mid(m012, m123);
        self.curves.push(record(p0, m01, m));
        self.curves.push(record(m, m123, p3));
        self.last = p3;
    }
    fn close(&mut self) {
        let start = self.start;
        if start != self.last {
            self.line_to(start.0, start.1);
        }
    }
}

fn outline_of(face: &ttf_parser::Face, glyph_id: u16) -> Option<GlyphOutline> {
    let mut recorder = CurveRecorder::default();
    let rect = face.outline_glyph(ttf_parser::GlyphId(glyph_id), &mut recorder)?;
    Some(GlyphOutline {
        bounding_box: GlyphBox { x_min: rect.x_min, y_min: rect.y_min, x_max: rect.x_max, y_max: rect.y_max },
        curves: recorder.curves,
    })
}

fn assert_result_is_nonzero(result: ash_slug::slug_rendering::TextBuildResult) {
    let rect = result.rect.unwrap();
    assert!(rect.x_max > rect.x_min);
    assert!(rect.y_max > rect.y_min);
    assert!(result.end_offset.x > 0);
}

#[test]
fn single_glyph() {
    let bytes = font_bytes();
    let font_ref = harfrust::FontRef::from_index(&bytes, 0).expect("Failed to read font data");
    let shaper_data = harfrust::ShaperData::new(&font_ref);
    let face = ttf_parser::Face::parse(&bytes, 0).expect("Failed to parse font face from font data");
    let extract = |id: u16| outline_of(&face, id);
    let shaper = shaper_data.shaper(&font_ref).build();
    let mut slug = SlugRendering::new(&face, shaper);

    let mut indices = Vec::new();
    let layout = slug.build_text("a", Offset2D::default(), 0, &mut indices, &extract);
    assert_result_is_nonzero(layout.result);
    assert!(layout.result.new_glyphs);

    assert_eq!(layout.quads.len() * ash_slug::VERTICES_PER_GLYPH, ash_slug::VERTICES_PER_GLYPH);
    assert_eq!(indices.len(), ash_slug::INDICES_PER_GLYPH);
}

#[test]
fn glyphs_stored() {
    let bytes = font_bytes();
    let font_ref = harfrust::FontRef::from_index(&bytes, 0).expect("Failed to read font data");
    let shaper_data = harfrust::ShaperData::new(&font_ref);
    let face = ttf_parser::Face::parse(&bytes, 0).expect("Failed to parse font face from font data");
    let extract = |id: u16| outline_of(&face, id);
    let shaper = shaper_data.shaper(&font_ref).build();
    let mut slug = SlugRendering::new(&face, shaper);

    let mut indices = Vec::new();
    slug.add_glyphs_in_str("testing", &extract);

    let layout = slug.build_text("test", Offset2D::default(), 0, &mut indices, &extract);
    assert_result_is_nonzero(layout.result);
    assert!(!layout.result.new_glyphs);

    let layout = slug.build_text(".", Offset2D::default(), layout.next_quad, &mut indices, &extract);
    assert_result_is_nonzero(layout.result);
    assert!(layout.result.new_glyphs);

    assert!(!layout.quads.is_empty());
    assert!(!indices.is_empty());
}

#[test]
fn simulate() {
    let bytes = font_bytes();
    let font_ref = harfrust::FontRef::from_index(&bytes, 0).expect("Failed to read font data");
    let shaper_data = harfrust::ShaperData::new(&font_ref);
    let face = ttf_parser::Face::parse(&bytes, 0).expect("Failed to parse font face from font data");
    let extract = |id: u16| outline_of(&face, id);
    let shaper = shaper_data.shaper(&font_ref).build();
    let mut slug = SlugRendering::new(&face, shaper);

    slug.add_glyphs_in_str("h̶̫̞̭̪̭̮̲̱̟̼͔̳͐̍̇̔̕é̵̡̞͓̤̞͉͔͙̭̞̪̩̝̬ĺ̶͎̗͖̹̳̮̺͕͇͖̩͍͖̏̓̾̈͘l̶̨̹̝̯͕̠̥͔͖̆͜ơ̷̢̤̮̱̤̩̰͍̞͉̳̮̭͕͎͋̌͌̔̓̚ world!", &extract);

    let result = slug.simulate_build_text("world", Offset2D::default(), &extract);
    assert_result_is_nonzero(result);
    assert!(!result.new_glyphs);
}

#[test]
fn multiline_shaping() {
    let bytes = font_bytes();
    let font_ref = harfrust::FontRef::from_index(&bytes, 0).expect("Failed to read font data");
    let shaper_data = harfrust::ShaperData::new(&font_ref);
    let face = ttf_parser::Face::parse(&bytes, 0).expect("Failed to parse font face from font data");
    let extract = |id: u16| outline_of(&face, id);
    let shaper = shaper_data.shaper(&font_ref).build();
    let mut slug = SlugRendering::new(&face, shaper);

    slug.add_glyphs_in_str("o world", &extract);

    let mut indices = Vec::new();
    // 1.5 times the ascender
    let line_distance = (slug.font_ascender() as f32 * 1.5) as i32;
    let layout = slug.build_lines(&["hello", "world!"], Offset2D { x: 0, y: 0 }, line_distance, 0, &mut indices, &extract);
    let result = layout.result;

    let first = result.first_line_rect.unwrap();
    assert!(first.x_max > first.x_min);
    assert!(first.y_max > first.y_min);
    assert_result_is_nonzero(result.total);
    assert!(result.total.new_glyphs);

    let total = result.total.rect.unwrap();
    assert!(first.y_max - first.y_min < total.y_max - total.y_min);

    assert!(!layout.lines.is_empty());
    assert!(!indices.is_empty());
}

#[test]
fn main_example_test() {
    let bytes = font_bytes();
    let font_ref = harfrust::FontRef::from_index(&bytes, 0).expect("Failed to read font data");
    let shaper_data = harfrust::ShaperData::new(&font_ref);
    let face = ttf_parser::Face::parse(&bytes, 0).expect("Failed to parse font face from font data");
    let extract = |id: u16| outline_of(&face, id);
    let shaper = shaper_data.shaper(&font_ref).build();
    let mut slug = SlugRendering::new(&face, shaper);

    // add number glyphs to the beginning of the textures
    slug.add_glyphs_in_str("0123456789", &extract);

    let mut indices: Vec<u32> = Vec::new();
    let build_result = slug.build_text("hello, ", Offset2D::default(), 0, &mut indices, &extract);
    // write "world!" to the right
    let world = slug.build_text("world!", build_result.result.end_offset, build_result.next_quad, &mut indices, &extract);

    // write multiple lines
    let line_distance = (slug.font_ascender() as f32 * 1.5) as i32;
    let multiline_result = slug.build_lines(
        &["Welcome", "to", "font", "rendering"],
        Offset2D { x: 0, y: line_distance * -2 },
        line_distance,
        world.next_quad,
        &mut indices,
        &extract,
    );

    let simulate_result = slug.simulate_build_text("17", Offset2D::default(), &extract);
    assert!(!simulate_result.new_glyphs);

    // unknown glyphs are replaced by the font's "notdef" glyph
    slug.build_text("c̷̦̮̀r̸̡̩̲̒a̵̪̺̼̾̆͝z̴̛̘̜y̸̢͖̌̌,  魚", Offset2D::default(), multiline_result.next_quad, &mut indices, &extract);

    let _textures = slug.get_texture_data();
}

#[test]
fn shaping_gives_font_glyphs_and_advances() {
    let bytes = font_bytes();
    let font_ref = harfrust::FontRef::from_index(&bytes, 0).expect("Failed to read font data");
    let shaper_data = harfrust::ShaperData::new(&font_ref);
    let face = ttf_parser::Face::parse(&bytes, 0).expect("Failed to parse font face from font data");
    let shaper = shaper_data.shaper(&font_ref).build();
    let mut slug = SlugRendering::new(&face, shaper);
    assert_eq!(slug.font_ascender(), 800);

    let glyphs = slug.shape_text("A b");
    let ids: Vec<u32> = glyphs.iter().map(|g| g.glyph_id).collect();
    assert_eq!(ids, vec![0x41 - 0x20, 95, 0x62 - 0x20]);
    // advance = box width + 100, box width = 100 + (code % 7) * 50
    assert_eq!(glyphs[0].x_advance, 100 + (0x41 % 7) * 50 + 100);
    assert_eq!(glyphs[1].x_advance, 300);
    assert_eq!(glyphs[2].y_advance, 0);
    // the buffer is reused for the next text
    let again = slug.shape_text("b");
    assert_eq!(again.len(), 1);
    assert_eq!(again[0].glyph_id, 0x62 - 0x20);
}

#[test]
fn rendering_places_glyphs_after_advances() {
    let bytes = font_bytes();
    let font_ref = harfrust::FontRef::from_index(&bytes, 0).expect("Failed to read font data");
    let shaper_data = harfrust::ShaperData::new(&font_ref);
    let face = ttf_parser::Face::parse(&bytes, 0).expect("Failed to parse font face from font data");
    let extract = |id: u16| outline_of(&face, id);
    let shaper = shaper_data.shaper(&font_ref).build();
    let mut slug = SlugRendering::new(&face, shaper);

    let mut indices = Vec::new();
    let layout = slug.build_text("a a", Offset2D { x: 10, y: 20 }, 0, &mut indices, &extract);
    let adv_a = 100 + (0x61 % 7) * 50 + 100;
    assert_eq!(layout.quads.len(), 2);
    assert_eq!(layout.quads[0].x0, 10 + 50);
    assert_eq!(layout.quads[1].x0, 10 + adv_a + 300 + 50);
    assert_eq!(layout.result.end_offset, Offset2D { x: 10 + 2 * adv_a + 300, y: 20 });
    assert_eq!(layout.quads[0].glyph.band_loc_x, layout.quads[1].glyph.band_loc_x);
    let textures = slug.get_texture_data();
    assert_eq!(textures.curve_tex_height, 1);
    // one glyph with four curves
    assert_eq!(textures.curve_tex_size(), 4096 * 16);
    assert_eq!(textures.band_tex_data[0], [4, 16, 0, 0]);
}

#[test]
fn building_a_text_twice_changes_nothing() {
    let bytes = font_bytes();
    let font_ref = harfrust::FontRef::from_index(&bytes, 0).expect("Failed to read font data");
    let shaper_data = harfrust::ShaperData::new(&font_ref);
    let face = ttf_parser::Face::parse(&bytes, 0).expect("Failed to parse font face from font data");
    let extract = |id: u16| outline_of(&face, id);
    let mut slug = SlugRendering::new(&face, shaper_data.shaper(&font_ref).build());

    let mut indices: Vec<u32> = Vec::new();
    let first = slug.build_text("A b", Offset2D::default(), 0, &mut indices, &extract);
    assert!(first.result.new_glyphs);
    let curve_data = slug.get_texture_data().curve_tex_data.to_vec();
    let band_data = slug.get_texture_data().band_tex_data.to_vec();
    let first_indices = indices.clone();

    let second = slug.build_text("A b", Offset2D::default(), first.next_quad, &mut indices, &extract);
    assert!(!second.result.new_glyphs);
    assert_eq!(second.result.end_offset, first.result.end_offset);
    let (r1, r2) = (first.result.rect.unwrap(), second.result.rect.unwrap());
    assert_eq!((r1.x_min, r1.y_min, r1.x_max, r1.y_max), (r2.x_min, r2.y_min, r2.x_max, r2.y_max));
    assert_eq!(second.quads.len(), first.quads.len());
    assert_eq!(indices.len(), 2 * first_indices.len());
    assert_eq!(slug.get_texture_data().curve_tex_data, &curve_data[..]);
    assert_eq!(slug.get_texture_data().band_tex_data, &band_data[..]);
}
