//! Text processing for Lengyel's Slug font rendering algorithm.
//!
//! The library shapes text, extracts glyph curves into a curve texture and a
//! band texture, and lays out one quad (four vertices, six indices) for every
//! visible glyph of a text.
//!
//! Every texel is four 32-bit words. Coordinates of curve control points are
//! stored as the bit patterns of their IEEE-754 single precision values, so
//! that the textures can be uploaded as they are.
use vstd::prelude::*;

/// Sorting and band assignment of the curves of one glyph
pub mod bands;
/// Curve and band texture storage
pub mod textures;
/// Glyph cache and text layout
pub mod text_layout;
/// Shaping and individual glyph storage
pub mod slug_rendering;
/// Declarations of the outside types and calls that the library relies on
pub mod shaping;

verus! {

/// Number of vertices generated for each processed glyph
pub const VERTICES_PER_GLYPH: usize = 4;

/// Number of indices generated for each processed glyph
pub const INDICES_PER_GLYPH: usize = 6;

/// Width of the curve/band texture in texels/pixels
pub const TEX_WIDTH: usize = 4096;

/// Number of horizontal bands (and of vertical bands) of every glyph; the shader
/// depends on it
pub const BAND_COUNT: usize = 8;

/// Number of band headers written for every glyph (horizontal then vertical)
pub const BAND_HEADER_COUNT: usize = 16;

/// Texel of the curve texture: the bit patterns of four single precision values
pub type CurveTexel = [u32; 4];

/// Texel of the band texture
pub type BandTexel = [u32; 4];

/// Integer 2D offset, in font units
#[derive(Copy, Clone, Debug, Default, PartialEq, Eq)]
pub struct Offset2D {
    pub x: i32,
    pub y: i32,
}

/// Location of glyph data in band texture
#[derive(Debug, Clone, Copy)]
pub struct SlugVertexGlyphInBandLocation {
    pub x: u16,
    pub y: u16,
}

/// Max band indices (usually equal to BAND_COUNT - 1)
#[derive(Debug, Clone, Copy)]
pub struct SlugVertexMaxBandIndices {
    pub max_band_x: u16,
    pub max_band_y: u16,
}

/// Bounding box of a glyph outline, in font units
#[derive(Debug, Clone, Copy, Default)]
pub struct GlyphBox {
    pub x_min: i16,
    pub y_min: i16,
    pub x_max: i16,
    pub y_max: i16,
}

/// Result of processing a glyph
#[derive(Debug, Clone, Copy)]
pub struct ProcessedGlyphData {
    pub bounding_box: GlyphBox,
    pub band_loc_x: u16,
    pub band_loc_y: u16,
}

/// One quadratic Bezier curve of a glyph outline, with what the band
/// assignment needs to know of it.
///
/// `p0x` .. `p2y` are the bit patterns of the single precision coordinates
/// of the three control points. The band ranges give, for the horizontal and
/// for the vertical bands, the first and the last band that the curve's
/// bounding box reaches (a range with `first > last` reaches no band).
/// `max_x_bits` and `max_y_bits` are the bit patterns of the largest x and
/// the largest y coordinate of the control points.
#[derive(Debug, Clone, Copy)]
pub struct CurveRecord {
    pub p0x: u32,
    pub p0y: u32,
    pub p1x: u32,
    pub p1y: u32,
    pub p2x: u32,
    pub p2y: u32,
    pub h_band_first: usize,
    pub h_band_last: usize,
    pub v_band_first: usize,
    pub v_band_last: usize,
    pub max_x_bits: u32,
    pub max_y_bits: u32,
}

/// A glyph of shaped text: its id in the font, how far the pen moves after
/// it, and how far the glyph is moved from the pen, in font units
#[derive(Debug, Clone, Copy)]
pub struct ShapedGlyph {
    pub glyph_id: u32,
    pub x_advance: i32,
    pub y_advance: i32,
    pub x_offset: i32,
    pub y_offset: i32,
}

/// The outline of a non-empty glyph: its bounding box and its curves
#[derive(Debug, Clone)]
pub struct GlyphOutline {
    pub bounding_box: GlyphBox,
    pub curves: Vec<CurveRecord>,
}

} // verus!
