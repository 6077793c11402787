use vstd::prelude::*;

use harfrust::{Shaper, UnicodeBuffer};
use ttf_parser::Face;

use crate::shaping::{
    ascender_of, clear_glyph_buffer, face_ascender, glyph_count, glyph_id_at, glyph_position_at,
    has_default_settings, new_text_buffer, push_text, set_left_to_right, shape_buffer,
    shaped_glyphs, shaped_ltr, unicode_text, BUFFER_MAX_LEN,
};
pub use crate::text_layout::{
    GlyphCacheView, GlyphQuad, MultilineBuildResult, MultilineLayout, SlugGlyphCache, TextBounds,
    TextBuildResult, TextLayout,
};
use crate::text_layout::{
    caches_glyphs, outlines_taken, layouts_quad_count, line_quads, lines_glyphs,
    multiline_build_result, quad_indices, quad_number, text_build_result, text_built,
    glyph_ids_fit,
};
use crate::{BandTexel, CurveRecord, CurveTexel, GlyphOutline, Offset2D, ProcessedGlyphData, ShapedGlyph, TEX_WIDTH};
use crate::textures::{empty_textures, textures_of_log};

verus! {

/// A text within harfrust's buffer limit of 0x3FFF_FFFF characters is
/// shaped whole: its glyphs are the shaper's glyphs for all its characters.
pub proof fn lemma_text_shaping_is_whole_text(shaper: Shaper<'_>, text: Seq<char>)
    requires
        text.len() <= 0x3FFF_FFFF,
    ensures
        text_shaping(shaper, text) == shaped_ltr(shaper, text),
{
}

/// Size in bytes of one texel of either texture
pub const TEXEL_BYTES: u64 = 16;

/// The glyphs of `text` shaped left to right by `shaper`: those of the text
/// itself, or those of no text where the text passes the buffer's length
/// limit (the buffer then takes none of it)
pub open spec fn text_shaping(shaper: Shaper<'_>, text: Seq<char>) -> Seq<ShapedGlyph> {
    if text.len() <= BUFFER_MAX_LEN {
        shaped_ltr(shaper, text)
    } else {
        shaped_ltr(shaper, Seq::empty())
    }
}

/// The texture data of a `SlugRendering`, ready to be copied to graphics API
/// buffers
pub struct SlugTextureData<'a> {
    /// Control point / curves texture data
    ///
    /// Length will always be equal to TEX_WIDTH * curve_tex_height
    pub curve_tex_data: &'a [CurveTexel],
    /// Band data texture data
    ///
    /// Length will always be equal to TEX_WIDTH * band_tex_height
    pub band_tex_data: &'a [BandTexel],
    pub curve_tex_height: usize,
    pub band_tex_height: usize,
}

impl<'a> SlugTextureData<'a> {
    /// Size of the curve texture in bytes
    pub fn curve_tex_size(&self) -> (size: u64)
        requires
            self.curve_tex_data@.len() * TEXEL_BYTES <= u64::MAX,
        ensures
            size == self.curve_tex_data@.len() * TEXEL_BYTES,
    {
        (self.curve_tex_data.len() as u64) * TEXEL_BYTES
    }

    /// Size of the band texture in bytes
    pub fn band_tex_size(&self) -> (size: u64)
        requires
            self.band_tex_data@.len() * TEXEL_BYTES <= u64::MAX,
        ensures
            size == self.band_tex_data@.len() * TEXEL_BYTES,
    {
        (self.band_tex_data.len() as u64) * TEXEL_BYTES
    }
}

/// Shapes text and stores processed glyphs in a HashMap
pub struct SlugRendering<'a> {
    text_buffer: Option<UnicodeBuffer>,
    pub shaper: Shaper<'a>,
    pub font_face: &'a Face<'a>,
    font_ascender: i16,
    glyphs: SlugGlyphCache,
}

impl<'a> View for SlugRendering<'a> {
    type V = GlyphCacheView;

    closed spec fn view(&self) -> GlyphCacheView {
        self.glyphs@
    }
}

impl<'a> SlugRendering<'a> {
    /// The text buffer waits, empty, for the next text, and the cache keeps
    /// its invariant.
    pub closed spec fn inv(&self) -> bool {
        &&& self.text_buffer is Some
        &&& unicode_text(self.text_buffer->0) == Seq::<char>::empty()
        &&& has_default_settings(self.text_buffer->0)
        &&& self.glyphs.inv()
    }

    /// The textures hold every cached visible glyph (its curve texels, band
    /// headers and band lists at its band location), are well formed, and
    /// are what writing the glyphs of their log, in order, to empty textures
    /// gives.
    pub proof fn lemma_glyphs_stored(&self)
        requires
            self.inv(),
        ensures
            self@.glyphs_stored(),
            self@.textures.wf(),
            self@.textures == textures_of_log(self@.textures.glyph_log),
    {
        self.glyphs.lemma_glyphs_stored();
    }

    /// The font's ascender, as read when the rendering was made
    pub closed spec fn ascender(&self) -> i16 {
        self.font_ascender
    }

    /// The shaper that shapes the texts
    pub closed spec fn text_shaper(&self) -> Shaper<'a> {
        self.shaper
    }

    /// The font face that the glyph outlines are read from
    pub closed spec fn face(&self) -> &'a Face<'a> {
        self.font_face
    }

    /// Note: make sure font_face and shaper target the same font (and index,
    /// if font is a collection)
    pub fn new(font_face: &'a Face<'a>, shaper: Shaper<'a>) -> (r: Self)
        ensures
            r.inv(),
            r@.glyphs == Map::<u16, Option<ProcessedGlyphData>>::empty(),
            r@.textures.curve_data.len() == 0,
            r@.textures.band_data.len() == 0,
            r@.textures == empty_textures(),
            r@.outlines == Map::<u16, (Seq<CurveRecord>, int)>::empty(),
            r.text_shaper() == shaper,
            r.face() == font_face,
            r.ascender() == ascender_of(*font_face),
    {
        let text_buffer = new_text_buffer();
        let font_ascender = face_ascender(font_face);
        SlugRendering {
            text_buffer: Some(text_buffer),
            font_face,
            font_ascender,
            glyphs: SlugGlyphCache::new(),
            shaper,
        }
    }

    /// The font's ascender in font units
    pub fn font_ascender(&self) -> (a: i16)
        ensures
            a == self.ascender(),
    {
        self.font_ascender
    }

    /// The glyph cache and its textures
    pub fn glyph_cache(&self) -> (c: &SlugGlyphCache)
        ensures
            c@ == self@,
    {
        &self.glyphs
    }

    /// Shapes `text` left to right with the shaper's font.
    pub fn shape_text(&mut self, text: &str) -> (glyphs: Vec<ShapedGlyph>)
        requires
            old(self).inv(),
        ensures
            final(self).inv(),
            final(self)@ == old(self)@,
            final(self).ascender() == old(self).ascender(),
            final(self).text_shaper() == old(self).text_shaper(),
            final(self).face() == old(self).face(),
            glyphs@ == text_shaping(old(self).text_shaper(), text@),
            text@.len() <= 0x3FFF_FFFF ==> glyphs@ == shaped_ltr(old(self).text_shaper(), text@),
            glyph_ids_fit(glyphs@),
    {
        let mut text_buffer = self.text_buffer.take().unwrap();
        // past the limit the buffer would take none of the text
        if text.unicode_len() <= BUFFER_MAX_LEN {
            push_text(&mut text_buffer, text);
        }
        set_left_to_right(&mut text_buffer);
        assert(unicode_text(text_buffer) =~= (if text@.len() <= BUFFER_MAX_LEN {
            text@
        } else {
            Seq::<char>::empty()
        }));
        let glyph_buffer = shape_buffer(&self.shaper, text_buffer);
        let count = glyph_count(&glyph_buffer);
        let mut glyphs: Vec<ShapedGlyph> = Vec::new();
        let mut i: usize = 0;
        while i < count
            invariant
                i <= count,
                count == shaped_glyphs(glyph_buffer).len(),
                glyphs@.len() == i,
                forall|j: int| 0 <= j < shaped_glyphs(glyph_buffer).len() ==> #[trigger] shaped_glyphs(glyph_buffer)[j].glyph_id <= u16::MAX,
                forall|j: int| 0 <= j < i ==> #[trigger] glyphs@[j] == shaped_glyphs(glyph_buffer)[j],
            decreases count - i,
        {
            let glyph_id = glyph_id_at(&glyph_buffer, i);
            let pos = glyph_position_at(&glyph_buffer, i);
            glyphs.push(
                ShapedGlyph {
                    glyph_id,
                    x_advance: pos.x_advance,
                    y_advance: pos.y_advance,
                    x_offset: pos.x_offset,
                    y_offset: pos.y_offset,
                },
            );
            i = i + 1;
        }
        proof {
            assert(glyphs@ =~= text_shaping(self.shaper, text@));
        }
        self.text_buffer = Some(clear_glyph_buffer(glyph_buffer));
        glyphs
    }

    /// Process glyphs in the passed string and adds them to the HashMap /
    /// textures, without returning vertices / indices for the text.
    ///
    /// `extract` gives the outline of a glyph of the font, None for empty
    /// space.
    pub fn add_glyphs_in_str<F: Fn(u16) -> Option<GlyphOutline>>(&mut self, text: &str, extract: &F)
        requires
            old(self).inv(),
            forall|g: u16| extract.requires((g,)),
        ensures
            final(self).inv(),
            final(self).ascender() == old(self).ascender(),
            final(self).text_shaper() == old(self).text_shaper(),
            final(self).face() == old(self).face(),
            glyph_ids_fit(text_shaping(old(self).text_shaper(), text@)),
            caches_glyphs(old(self)@, final(self)@, text_shaping(old(self).text_shaper(), text@)),
            outlines_taken(
                old(self)@,
                final(self)@,
                text_shaping(old(self).text_shaper(), text@),
                text_shaping(old(self).text_shaper(), text@).len() as int,
                *extract,
            ),
            text@.len() <= 0x3FFF_FFFF ==> forall|i: int|
                0 <= i < shaped_ltr(old(self).text_shaper(), text@).len() ==> final(self)@.glyphs.contains_key(
                    #[trigger] shaped_ltr(old(self).text_shaper(), text@)[i].glyph_id as u16,
                ),
    {
        let glyphs = self.shape_text(text);
        self.glyphs.add_glyphs(&glyphs, extract);
    }

    /// Shape text, process new glyphs and append the text's indices to
    /// `indices`; returns the text's quads, numbered from `first_quad` on
    /// (four vertices each).
    pub fn build_text<F: Fn(u16) -> Option<GlyphOutline>>(
        &mut self,
        text: &str,
        offset: Offset2D,
        first_quad: u32,
        indices: &mut Vec<u32>,
        extract: &F,
    ) -> (layout: TextLayout)
        requires
            old(self).inv(),
            forall|g: u16| extract.requires((g,)),
        ensures
            final(self).inv(),
            layout.result.new_glyphs == (final(self)@.textures.glyph_log.len() > old(self)@.textures.glyph_log.len()),
            final(self).ascender() == old(self).ascender(),
            final(self).text_shaper() == old(self).text_shaper(),
            final(self).face() == old(self).face(),
            glyph_ids_fit(text_shaping(old(self).text_shaper(), text@)),
            text_built(
                old(self)@,
                final(self)@,
                text_shaping(old(self).text_shaper(), text@),
                offset,
                first_quad,
                old(indices)@,
                final(indices)@,
                layout,
            ),
            outlines_taken(
                old(self)@,
                final(self)@,
                text_shaping(old(self).text_shaper(), text@),
                text_shaping(old(self).text_shaper(), text@).len() as int,
                *extract,
            ),
    {
        let glyphs = self.shape_text(text);
        let layout = self.glyphs.build_glyphs(&glyphs, offset, first_quad, indices, extract);
        layout
    }

    /// Same as build_text but do not add vertices/indices
    pub fn simulate_build_text<F: Fn(u16) -> Option<GlyphOutline>>(
        &mut self,
        text: &str,
        offset: Offset2D,
        extract: &F,
    ) -> (result: TextBuildResult)
        requires
            old(self).inv(),
            forall|g: u16| extract.requires((g,)),
        ensures
            final(self).inv(),
            result.new_glyphs == (final(self)@.textures.glyph_log.len() > old(self)@.textures.glyph_log.len()),
            final(self).ascender() == old(self).ascender(),
            final(self).text_shaper() == old(self).text_shaper(),
            final(self).face() == old(self).face(),
            glyph_ids_fit(text_shaping(old(self).text_shaper(), text@)),
            caches_glyphs(old(self)@, final(self)@, text_shaping(old(self).text_shaper(), text@)),
            result == text_build_result(
                old(self)@.glyphs,
                final(self)@.glyphs,
                text_shaping(old(self).text_shaper(), text@),
                offset,
            ),
            outlines_taken(
                old(self)@,
                final(self)@,
                text_shaping(old(self).text_shaper(), text@),
                text_shaping(old(self).text_shaper(), text@).len() as int,
                *extract,
            ),
    {
        let glyphs = self.shape_text(text);
        let result = self.glyphs.simulate_glyphs(&glyphs, offset, extract);
        result
    }

    /// Perform build_text on multiple lines, the first at `offset`, each next
    /// one `line_distance` font units lower.
    ///
    /// Reports no rectangle if no lines are specified.
    pub fn build_lines<F: Fn(u16) -> Option<GlyphOutline>>(
        &mut self,
        text: &[&str],
        offset: Offset2D,
        line_distance: i32,
        first_quad: u32,
        indices: &mut Vec<u32>,
        extract: &F,
    ) -> (layout: MultilineLayout)
        requires
            old(self).inv(),
            forall|g: u16| extract.requires((g,)),
        ensures
            final(self).inv(),
            layout.result.total.new_glyphs == (final(self)@.textures.glyph_log.len() > old(self)@.textures.glyph_log.len()),
            final(self).ascender() == old(self).ascender(),
            final(self).text_shaper() == old(self).text_shaper(),
            final(self).face() == old(self).face(),
            layout.lines.len() == text@.len(),
            exists|lines: Seq<Vec<ShapedGlyph>>|
                lines.len() == text@.len() && (forall|k: int|
                    0 <= k < lines.len() ==> #[trigger] lines[k]@ == text_shaping(old(self).text_shaper(), text@[k]@))
                    && caches_glyphs(
                    old(self)@,
                    final(self)@,
                    lines_glyphs(lines, lines.len() as int),
                ) && layout.result == multiline_build_result(
                    old(self)@.glyphs,
                    final(self)@.glyphs,
                    lines,
                    offset,
                    line_distance,
                ) && (forall|k: int|
                    0 <= k < lines.len() ==> (#[trigger] layout.lines@[k]).quads@ == line_quads(
                        final(self)@.glyphs,
                        lines,
                        offset,
                        line_distance,
                        k,
                    )) && final(indices)@ == old(indices)@ + quad_indices(
                    first_quad,
                    layouts_quad_count(layout.lines@, lines.len() as int),
                ) && layout.next_quad == quad_number(
                    first_quad,
                    layouts_quad_count(layout.lines@, lines.len() as int),
                ) && outlines_taken(
                    old(self)@,
                    final(self)@,
                    lines_glyphs(lines, lines.len() as int),
                    lines_glyphs(lines, lines.len() as int).len() as int,
                    *extract,
                ),
    {
        let mut lines: Vec<Vec<ShapedGlyph>> = Vec::new();
        let mut k: usize = 0;
        while k < text.len()
            invariant
                k <= text@.len(),
                lines@.len() == k,
                self.inv(),
                self@ == old(self)@,
                self.ascender() == old(self).ascender(),
                self.shaper == old(self).shaper,
                self.font_face == old(self).font_face,
                forall|l: int| 0 <= l < k ==> #[trigger] lines@[l]@ == text_shaping(old(self).text_shaper(), text@[l]@),
            decreases text@.len() - k,
        {
            let glyphs = self.shape_text(text[k]);
            lines.push(glyphs);
            k = k + 1;
        }
        let layout = self.glyphs.build_glyph_lines(&lines, offset, line_distance, first_quad, indices, extract);
        proof {
            let ls = lines@;
            assert(ls.len() == text@.len() && (forall|k: int|
                0 <= k < ls.len() ==> #[trigger] ls[k]@ == text_shaping(old(self).text_shaper(), text@[k]@))
                && caches_glyphs(old(self)@, self@, lines_glyphs(ls, ls.len() as int))
                && layout.result == multiline_build_result(old(self)@.glyphs, self@.glyphs, ls, offset, line_distance)
                && (forall|k: int| 0 <= k < ls.len() ==> (#[trigger] layout.lines@[k]).quads@ == line_quads(
                    self@.glyphs, ls, offset, line_distance, k))
                && indices@ == old(indices)@ + quad_indices(first_quad, layouts_quad_count(layout.lines@, ls.len() as int))
                && layout.next_quad == quad_number(first_quad, layouts_quad_count(layout.lines@, ls.len() as int))
                && outlines_taken(old(self)@, self@, lines_glyphs(ls, ls.len() as int),
                    lines_glyphs(ls, ls.len() as int).len() as int, *extract));
        }
        layout
    }

    /// Get a reference to the entire texture data
    pub fn get_texture_data(&self) -> (data: SlugTextureData<'_>)
        requires
            self.inv(),
        ensures
            data.curve_tex_data@.len() == TEX_WIDTH * data.curve_tex_height,
            data.band_tex_data@.len() == TEX_WIDTH * data.band_tex_height,
            data.curve_tex_data@ == self@.textures.curve_data,
            data.band_tex_data@ == self@.textures.band_data,
            data.curve_tex_height == self@.textures.curve_height,
            data.band_tex_height == self@.textures.band_height,
    {
        proof {
            self.glyphs.lemma_glyphs_stored();
        }
        self.glyphs.texture_data()
    }
}

} // verus!

