use vstd::prelude::*;

use harfrust::{GlyphBuffer, Shaper, UnicodeBuffer};
use ttf_parser::Face;

use crate::ShapedGlyph;

verus! {

/// The shaper of `harfrust`, configured for one font
#[verifier::external_type_specification]
#[verifier::external_body]
pub struct ExShaper<'a>(Shaper<'a>);

/// A `harfrust` buffer of Unicode text waiting to be shaped
#[verifier::external_type_specification]
#[verifier::external_body]
pub struct ExUnicodeBuffer(UnicodeBuffer);

/// A `harfrust` buffer of shaped glyphs
#[verifier::external_type_specification]
#[verifier::external_body]
pub struct ExGlyphBuffer(GlyphBuffer);

/// A font face parsed by `ttf_parser`
#[verifier::external_type_specification]
#[verifier::external_body]
pub struct ExFace<'a>(Face<'a>);

/// The glyphs that a `GlyphBuffer` holds, in order: for glyph `i`, its id
/// from `glyph_infos()[i]` and its advances and offsets from
/// `glyph_positions()[i]`.
pub uninterp spec fn shaped_glyphs(buffer: GlyphBuffer) -> Seq<ShapedGlyph>;

/// Most characters a `UnicodeBuffer` with default settings takes
/// (`MAX_LEN_DEFAULT` of harfrust's buffer)
pub const BUFFER_MAX_LEN: usize = 0x3FFF_FFFF;

/// The characters that a `UnicodeBuffer` holds, in order
pub uninterp spec fn unicode_text(buffer: UnicodeBuffer) -> Seq<char>;

/// `UnicodeBuffer::direction` is `Direction::LeftToRight`.
pub uninterp spec fn is_left_to_right(buffer: UnicodeBuffer) -> bool;

/// Every setting of the buffer but its characters and its direction is as
/// `UnicodeBuffer::new` makes it: script, language, flags, cluster level,
/// pre- and post-context, invisible and not-found glyphs, length and
/// operation limits, and the success flag of its allocations.
pub uninterp spec fn has_default_settings(buffer: UnicodeBuffer) -> bool;

/// The flags, the invisible glyph and the length limit of a `GlyphBuffer`
/// are as `UnicodeBuffer::new` makes them: the settings that
/// `GlyphBuffer::clear` keeps.
pub uninterp spec fn glyph_buffer_kept_defaults(buffer: GlyphBuffer) -> bool;

/// The glyphs that `Shaper::shape`, with default `ShapeOptions`, gives for a
/// buffer that holds `text`, set left to right, with default settings
pub uninterp spec fn shaped_ltr(shaper: Shaper<'_>, text: Seq<char>) -> Seq<ShapedGlyph>;

/// `UnicodeBuffer::new`: a new, empty buffer with default settings.
#[verifier::external_body]
pub(crate) fn new_text_buffer() -> (buffer: UnicodeBuffer)
    ensures
        unicode_text(buffer) == Seq::<char>::empty(),
        has_default_settings(buffer),
{
    UnicodeBuffer::new()
}

/// `UnicodeBuffer::push_str`: on a buffer with default settings, whose
/// length limit is `BUFFER_MAX_LEN`, appends the characters of `text` when
/// they fit within the limit, keeping the settings and the direction. What
/// it does past the limit is not stated.
#[verifier::external_body]
pub(crate) fn push_text(buffer: &mut UnicodeBuffer, text: &str)
    ensures
        has_default_settings(*old(buffer)) && unicode_text(*old(buffer)).len() + text@.len()
            <= BUFFER_MAX_LEN ==> {
            &&& unicode_text(*final(buffer)) == unicode_text(*old(buffer)) + text@
            &&& has_default_settings(*final(buffer))
            &&& is_left_to_right(*final(buffer)) == is_left_to_right(*old(buffer))
        },
{
    buffer.push_str(text);
}

/// `UnicodeBuffer::set_direction` with `Direction::LeftToRight`: sets the
/// direction and keeps the characters and the other settings.
#[verifier::external_body]
pub(crate) fn set_left_to_right(buffer: &mut UnicodeBuffer)
    ensures
        is_left_to_right(*final(buffer)),
        unicode_text(*final(buffer)) == unicode_text(*old(buffer)),
        has_default_settings(*final(buffer)) == has_default_settings(*old(buffer)),
{
    buffer.set_direction(harfrust::Direction::LeftToRight);
}

/// `Shaper::shape` with default `ShapeOptions`, on a buffer whose direction
/// is set (the shape plan rejects an invalid direction). On a buffer with
/// default settings the glyphs are named by `shaped_ltr`, a function of the
/// shaper and the characters, and the glyph buffer keeps default flags,
/// invisible glyph and length limit (`leave` restores the limit). Of each
/// glyph, `harfrust` documents that its id is at most `u16::MAX`
/// (`GlyphInfo::glyph_id`).
#[verifier::external_body]
pub(crate) fn shape_buffer(shaper: &Shaper, buffer: UnicodeBuffer) -> (glyphs: GlyphBuffer)
    requires
        is_left_to_right(buffer),
    ensures
        has_default_settings(buffer) ==> shaped_glyphs(glyphs) == shaped_ltr(*shaper, unicode_text(buffer))
            && glyph_buffer_kept_defaults(glyphs),
        forall|i: int|
            0 <= i < shaped_glyphs(glyphs).len() ==> #[trigger] shaped_glyphs(glyphs)[i].glyph_id
                <= u16::MAX,
{
    shaper.shape(buffer, harfrust::ShapeOptions::new())
}

/// `GlyphBuffer::len`: the number of shaped glyphs, which is the length of
/// both `glyph_infos()` and `glyph_positions()`.
#[verifier::external_body]
pub(crate) fn glyph_count(buffer: &GlyphBuffer) -> (n: usize)
    ensures
        n == shaped_glyphs(*buffer).len(),
{
    buffer.len()
}

/// `GlyphBuffer::glyph_infos`, entry `i`: the id of glyph `i`.
#[verifier::external_body]
pub(crate) fn glyph_id_at(buffer: &GlyphBuffer, i: usize) -> (id: u32)
    requires
        i < shaped_glyphs(*buffer).len(),
    ensures
        id == shaped_glyphs(*buffer)[i as int].glyph_id,
{
    buffer.glyph_infos()[i].glyph_id
}

/// `GlyphBuffer::glyph_positions`, entry `i`: the advances and offsets of
/// glyph `i`, with its id left at 0.
#[verifier::external_body]
pub(crate) fn glyph_position_at(buffer: &GlyphBuffer, i: usize) -> (p: ShapedGlyph)
    requires
        i < shaped_glyphs(*buffer).len(),
    ensures
        p.x_advance == shaped_glyphs(*buffer)[i as int].x_advance,
        p.y_advance == shaped_glyphs(*buffer)[i as int].y_advance,
        p.x_offset == shaped_glyphs(*buffer)[i as int].x_offset,
        p.y_offset == shaped_glyphs(*buffer)[i as int].y_offset,
{
    let pos = buffer.glyph_positions()[i];
    ShapedGlyph {
        glyph_id: 0,
        x_advance: pos.x_advance,
        y_advance: pos.y_advance,
        x_offset: pos.x_offset,
        y_offset: pos.y_offset,
    }
}

/// `GlyphBuffer::clear`: an empty `UnicodeBuffer` that reuses the glyph
/// buffer's allocation. It resets every setting but the flags, the invisible
/// glyph and the length limit, so those kept at their defaults give a
/// buffer with default settings.
#[verifier::external_body]
pub(crate) fn clear_glyph_buffer(buffer: GlyphBuffer) -> (text_buffer: UnicodeBuffer)
    ensures
        unicode_text(text_buffer) == Seq::<char>::empty(),
        glyph_buffer_kept_defaults(buffer) ==> has_default_settings(text_buffer),
{
    buffer.clear()
}

/// The ascender that `Face::ascender` reads from a face's tables
pub uninterp spec fn ascender_of(face: Face<'_>) -> i16;

/// `Face::ascender`: the font's ascender in font units, named by
/// `ascender_of`, a function of the face.
#[verifier::external_body]
pub(crate) fn face_ascender(face: &Face) -> (a: i16)
    ensures
        a == ascender_of(*face),
{
    face.ascender()
}

} // verus!
