use std::collections::HashMap;

use vstd::prelude::*;

use crate::slug_rendering::SlugTextureData;
use crate::textures::{
    band_glyph_start, empty_textures, lemma_band_offset_mono, textures_of_log, SlugGlyphProcessor, TextureView,
};
use crate::{
    CurveRecord, GlyphOutline, Offset2D, ProcessedGlyphData, ShapedGlyph, BAND_HEADER_COUNT, TEX_WIDTH,
    VERTICES_PER_GLYPH,
};

verus! {

broadcast use vstd::std_specs::hash::group_hash_axioms;

/// Rectangle of text in font units, y up: the smallest that holds the
/// bounding boxes of its glyphs
#[derive(Clone, Copy, Debug)]
pub struct TextBounds {
    pub x_min: i32,
    pub y_min: i32,
    pub x_max: i32,
    pub y_max: i32,
}

/// Where one glyph of a text is drawn: the corners of its bounding box in
/// font units (y up), and its processed data
#[derive(Clone, Copy, Debug)]
pub struct GlyphQuad {
    pub x0: i32,
    pub y0: i32,
    pub x1: i32,
    pub y1: i32,
    pub glyph: ProcessedGlyphData,
}

/// Result of a text processing
#[derive(Clone, Copy, Debug)]
pub struct TextBuildResult {
    /// Unscaled final offset at the end of the text
    pub end_offset: Offset2D,
    /// Dimensions and position of the text, in font units; None if no glyph
    /// of the text is visible
    pub rect: Option<TextBounds>,
    /// True if the operation required updating textures with new glyphs
    pub new_glyphs: bool,
}

/// The quads of a text, with its result and the index of the quad that
/// follows its last one
#[derive(Clone, Debug)]
pub struct TextLayout {
    pub result: TextBuildResult,
    pub quads: Vec<GlyphQuad>,
    pub next_quad: u32,
}

/// Result of processing several lines of text
#[derive(Clone, Copy, Debug)]
pub struct MultilineBuildResult {
    /// Dimensions and position of the first line
    pub first_line_rect: Option<TextBounds>,
    pub total: TextBuildResult,
}

/// The layouts of several lines of text
#[derive(Clone, Debug)]
pub struct MultilineLayout {
    pub result: MultilineBuildResult,
    pub lines: Vec<TextLayout>,
    pub next_quad: u32,
}

/// Key under which a shaped glyph is cached
pub open spec fn glyph_key(g: ShapedGlyph) -> u16 {
    g.glyph_id as u16
}

/// Pen position before glyph `i` of `glyphs`: `offset` moved by the advances
/// of the glyphs before it (wrapping on 32-bit overflow)
pub open spec fn glyph_cursor(glyphs: Seq<ShapedGlyph>, offset: Offset2D, i: int) -> Offset2D
    decreases i,
{
    if i <= 0 {
        offset
    } else {
        let c = glyph_cursor(glyphs, offset, i - 1);
        Offset2D {
            x: c.x.wrapping_add(glyphs[i - 1].x_advance),
            y: c.y.wrapping_add(glyphs[i - 1].y_advance),
        }
    }
}

/// Quad of glyph `g` drawn with the pen at `cursor`
pub open spec fn glyph_quad(g: ShapedGlyph, cursor: Offset2D, d: ProcessedGlyphData) -> GlyphQuad {
    let ox = cursor.x.wrapping_add(g.x_offset);
    let oy = cursor.y.wrapping_add(g.y_offset);
    GlyphQuad {
        x0: ox.wrapping_add(d.bounding_box.x_min as i32),
        y0: oy.wrapping_add(d.bounding_box.y_min as i32),
        x1: ox.wrapping_add(d.bounding_box.x_max as i32),
        y1: oy.wrapping_add(d.bounding_box.y_max as i32),
        glyph: d,
    }
}

/// Quads of the first `i` glyphs of a text: one for every glyph that the
/// cache `map` holds as visible, in text order
pub open spec fn text_quads(
    map: Map<u16, Option<ProcessedGlyphData>>,
    glyphs: Seq<ShapedGlyph>,
    offset: Offset2D,
    i: int,
) -> Seq<GlyphQuad>
    decreases i,
{
    if i <= 0 {
        Seq::empty()
    } else {
        let prev = text_quads(map, glyphs, offset, i - 1);
        match map[glyph_key(glyphs[i - 1])] {
            Some(d) => prev.push(glyph_quad(glyphs[i - 1], glyph_cursor(glyphs, offset, i - 1), d)),
            None => prev,
        }
    }
}

pub open spec fn quad_bounds(q: GlyphQuad) -> TextBounds {
    TextBounds { x_min: q.x0, y_min: q.y0, x_max: q.x1, y_max: q.y1 }
}

pub open spec fn min_i32(a: i32, b: i32) -> i32 {
    if a <= b {
        a
    } else {
        b
    }
}

pub open spec fn max_i32(a: i32, b: i32) -> i32 {
    if a >= b {
        a
    } else {
        b
    }
}

/// Smallest rectangle that holds both
pub open spec fn bounds_union(a: Option<TextBounds>, b: Option<TextBounds>) -> Option<TextBounds> {
    match a {
        None => b,
        Some(ra) => match b {
            None => a,
            Some(rb) => Some(
                TextBounds {
                    x_min: min_i32(ra.x_min, rb.x_min),
                    y_min: min_i32(ra.y_min, rb.y_min),
                    x_max: max_i32(ra.x_max, rb.x_max),
                    y_max: max_i32(ra.y_max, rb.y_max),
                },
            ),
        },
    }
}

/// Smallest rectangle that holds all the quads
pub open spec fn quads_bounds(quads: Seq<GlyphQuad>) -> Option<TextBounds>
    decreases quads.len(),
{
    if quads.len() == 0 {
        None
    } else {
        bounds_union(quads_bounds(quads.drop_last()), Some(quad_bounds(quads.last())))
    }
}

/// Some glyph of the text was not in the cache `before` and is visible in
/// the cache `after`.
pub open spec fn has_new_glyph(
    before: Map<u16, Option<ProcessedGlyphData>>,
    after: Map<u16, Option<ProcessedGlyphData>>,
    glyphs: Seq<ShapedGlyph>,
) -> bool {
    exists|i: int|
        0 <= i < glyphs.len() && !before.contains_key(glyph_key(#[trigger] glyphs[i]))
            && after[glyph_key(glyphs[i])] is Some
}

/// What building or simulating a text reports, given the cache before and
/// after
pub open spec fn text_build_result(
    before: Map<u16, Option<ProcessedGlyphData>>,
    after: Map<u16, Option<ProcessedGlyphData>>,
    glyphs: Seq<ShapedGlyph>,
    offset: Offset2D,
) -> TextBuildResult {
    TextBuildResult {
        end_offset: glyph_cursor(glyphs, offset, glyphs.len() as int),
        rect: quads_bounds(text_quads(after, glyphs, offset, glyphs.len() as int)),
        new_glyphs: has_new_glyph(before, after, glyphs),
    }
}

/// Index of quad `k` counted from `first`, wrapping modulo 2^32
pub open spec fn quad_number(first: u32, k: int) -> u32 {
    ((first + k) % 0x1_0000_0000) as u32
}

/// The six indices of a quad whose first vertex is `base`: two triangles
pub open spec fn quad_triangle_indices(base: u32) -> Seq<u32> {
    seq![
        base,
        base.wrapping_add(1),
        base.wrapping_add(2),
        base,
        base.wrapping_add(2),
        base.wrapping_add(3),
    ]
}

/// Indices of `count` quads numbered from `first`: quad `q` has vertices
/// `4 q .. 4 q + 3` (wrapping modulo 2^32)
pub open spec fn quad_indices(first: u32, count: int) -> Seq<u32>
    decreases count,
{
    if count <= 0 {
        Seq::empty()
    } else {
        quad_indices(first, count - 1) + quad_triangle_indices(
            quad_number(first, count - 1).wrapping_mul(VERTICES_PER_GLYPH as u32),
        )
    }
}

/// Mathematical model of the glyph cache: the processed glyphs by id (None
/// for a glyph that is empty space) and the textures
pub struct GlyphCacheView {
    pub glyphs: Map<u16, Option<ProcessedGlyphData>>,
    pub textures: TextureView,
    /// For every cached visible glyph: its curves, and where its curve
    /// texels start
    pub outlines: Map<u16, (Seq<CurveRecord>, int)>,
}

impl GlyphCacheView {
    /// The textures hold every cached visible glyph: its curve texels, and
    /// its band headers and lists at its band location. Outlines are kept
    /// for cached glyphs only.
    pub open spec fn glyphs_stored(self) -> bool {
        &&& forall|k: u16|
            #[trigger] self.glyphs.contains_key(k) && self.glyphs[k] is Some ==> {
                let d = self.glyphs[k]->0;
                &&& self.outlines.contains_key(k)
                &&& self.textures.holds_glyph(
                    d.band_loc_y * TEX_WIDTH + d.band_loc_x,
                    self.outlines[k].0,
                    self.outlines[k].1,
                )
            }
        &&& forall|k: u16| #[trigger] self.outlines.contains_key(k) ==> self.glyphs.contains_key(k)
    }
}

/// No glyph before `i` has the id of the glyph at `i`.
pub open spec fn first_with_id(glyphs: Seq<ShapedGlyph>, i: int) -> bool {
    forall|j: int| 0 <= j < i ==> glyph_key(#[trigger] glyphs[j]) != glyph_key(glyphs[i])
}

/// The glyph at `i` is written to the textures on the way from `before` to
/// `after`: `before` does not hold its id, no glyph before it has that id,
/// and `after` holds it as visible.
pub open spec fn glyph_added(
    before: GlyphCacheView,
    after: GlyphCacheView,
    glyphs: Seq<ShapedGlyph>,
    i: int,
) -> bool {
    &&& !before.glyphs.contains_key(glyph_key(glyphs[i]))
    &&& first_with_id(glyphs, i)
    &&& after.glyphs[glyph_key(glyphs[i])] is Some
}

/// The curves of the glyphs among the first `i` of a text that are written
/// to the textures, in text order
pub open spec fn added_curves(
    before: GlyphCacheView,
    after: GlyphCacheView,
    glyphs: Seq<ShapedGlyph>,
    i: int,
) -> Seq<Seq<CurveRecord>>
    decreases i,
{
    if i <= 0 {
        Seq::empty()
    } else {
        let prev = added_curves(before, after, glyphs, i - 1);
        if glyph_added(before, after, glyphs, i - 1) {
            prev.push(after.outlines[glyph_key(glyphs[i - 1])].0)
        } else {
            prev
        }
    }
}

/// `after` holds what `before` held, and the glyphs of the text besides;
/// its textures extend those of `before`, by the curves of the new visible
/// glyphs in text order; and if `before` held every glyph of the text
/// already, nothing changed.
pub open spec fn caches_glyphs(before: GlyphCacheView, after: GlyphCacheView, glyphs: Seq<ShapedGlyph>) -> bool {
    &&& forall|k: u16|
        #[trigger] after.glyphs.contains_key(k) <==> before.glyphs.contains_key(k) || exists|i: int|
            0 <= i < glyphs.len() && glyph_key(#[trigger] glyphs[i]) == k
    &&& forall|k: u16| #[trigger] before.glyphs.contains_key(k) ==> after.glyphs[k] == before.glyphs[k]
    &&& forall|k: u16|
        #[trigger] before.outlines.contains_key(k) ==> after.outlines.contains_key(k)
            && after.outlines[k] == before.outlines[k]
    &&& before.textures.extends(after.textures)
    &&& after.textures.glyph_log == before.textures.glyph_log + added_curves(
        before,
        after,
        glyphs,
        glyphs.len() as int,
    )
    &&& (forall|i: int| 0 <= i < glyphs.len() ==> before.glyphs.contains_key(glyph_key(#[trigger] glyphs[i])))
        ==> after == before
}

/// The glyph with id `k` that `after` holds was taken from the outline `o`
/// against the textures `tex` it was processed into: it is visible exactly
/// when the outline is Some and fits `tex`, and then it has the outline's
/// bounding box, its band data starts where `tex` places the next glyph's,
/// and the textures hold the outline's curves for it from the first curve
/// texel that `tex` left free.
pub open spec fn outline_taken(tex: TextureView, after: GlyphCacheView, k: u16, o: Option<GlyphOutline>) -> bool {
    &&& (after.glyphs[k] is Some <==> (o is Some && tex.glyph_fits(o->0.curves@)))
    &&& (after.glyphs[k] is Some ==> {
        let d = after.glyphs[k]->0;
        &&& d.bounding_box == o->0.bounding_box
        &&& d.band_loc_x == band_glyph_start(tex.band_used) % TEX_WIDTH as int
        &&& d.band_loc_y == band_glyph_start(tex.band_used) / TEX_WIDTH as int
        &&& after.outlines[k] == (o->0.curves@, tex.curve_used)
    })
}

/// The glyph at `j` is the first of the text with its id, and `before` does
/// not hold that id.
pub open spec fn glyph_is_new(before: GlyphCacheView, glyphs: Seq<ShapedGlyph>, j: int) -> bool {
    &&& !before.glyphs.contains_key(glyph_key(glyphs[j]))
    &&& first_with_id(glyphs, j)
}

/// The textures as the glyph at `j` comes up: those of `before`, written on
/// with the curves of the new visible glyphs before it
pub open spec fn textures_at(
    before: GlyphCacheView,
    after: GlyphCacheView,
    glyphs: Seq<ShapedGlyph>,
    j: int,
) -> TextureView {
    textures_of_log(before.textures.glyph_log + added_curves(before, after, glyphs, j))
}

/// The glyph at `j` was taken from an outline that `extract` gave for its id,
/// against the textures as it came up.
pub open spec fn outline_taken_at<F: Fn(u16) -> Option<GlyphOutline>>(
    before: GlyphCacheView,
    after: GlyphCacheView,
    glyphs: Seq<ShapedGlyph>,
    j: int,
    extract: F,
) -> bool {
    exists|o: Option<GlyphOutline>|
        #[trigger] call_ensures(extract, (glyph_key(glyphs[j]),), o) && outline_taken(
            textures_at(before, after, glyphs, j),
            after,
            glyph_key(glyphs[j]),
            o,
        )
}

/// Every new glyph among the first `n` of the text was taken from the outline
/// that `extract` gave for its id: visible exactly when that outline is Some
/// and fits the textures as the glyph comes up.
pub open spec fn outlines_taken<F: Fn(u16) -> Option<GlyphOutline>>(
    before: GlyphCacheView,
    after: GlyphCacheView,
    glyphs: Seq<ShapedGlyph>,
    n: int,
    extract: F,
) -> bool {
    forall|j: int|
        0 <= j < n && #[trigger] glyph_is_new(before, glyphs, j) ==> outline_taken_at(
            before,
            after,
            glyphs,
            j,
            extract,
        )
}

/// The quads of the first `i` glyphs depend only on what the cache holds for
/// those glyphs.
pub proof fn lemma_text_quads_agree(
    m1: Map<u16, Option<ProcessedGlyphData>>,
    m2: Map<u16, Option<ProcessedGlyphData>>,
    glyphs: Seq<ShapedGlyph>,
    offset: Offset2D,
    i: int,
)
    requires
        forall|j: int| 0 <= j < i ==> m1[glyph_key(#[trigger] glyphs[j])] == m2[glyph_key(glyphs[j])],
    ensures
        text_quads(m1, glyphs, offset, i) == text_quads(m2, glyphs, offset, i),
    decreases i,
{
    if i > 0 {
        lemma_text_quads_agree(m1, m2, glyphs, offset, i - 1);
        assert(m1[glyph_key(glyphs[i - 1])] == m2[glyph_key(glyphs[i - 1])]);
    }
}

proof fn lemma_quad_number_next(first: u32, n: int)
    requires
        n >= 0,
    ensures
        quad_number(first, n).wrapping_add(1) == quad_number(first, n + 1),
{
    let m: int = 0x1_0000_0000;
    let x = (first + n) % m;
    vstd::arithmetic::div_mod::lemma_add_mod_noop(first + n, 1, m);
    vstd::arithmetic::div_mod::lemma_mod_bound(first + n, m);
    if x + 1 == m {
        vstd::arithmetic::div_mod::lemma_mod_self_0(m);
    } else {
        vstd::arithmetic::div_mod::lemma_small_mod((x + 1) as nat, m as nat);
    }
}

proof fn lemma_quads_bounds_push(quads: Seq<GlyphQuad>, q: GlyphQuad)
    ensures
        quads_bounds(quads.push(q)) == bounds_union(quads_bounds(quads), Some(quad_bounds(q))),
{
    assert(quads.push(q).drop_last() =~= quads);
}

proof fn lemma_quad_indices_next(first: u32, n: int)
    requires
        n >= 0,
    ensures
        quad_indices(first, n + 1) == quad_indices(first, n) + quad_triangle_indices(
            quad_number(first, n).wrapping_mul(VERTICES_PER_GLYPH as u32),
        ),
{
}

/// The curves added by the first `i` glyphs depend only on what the caches
/// after hold for those glyphs.
proof fn lemma_added_curves_agree(
    before: GlyphCacheView,
    a1: GlyphCacheView,
    a2: GlyphCacheView,
    glyphs: Seq<ShapedGlyph>,
    i: int,
)
    requires
        forall|j: int| 0 <= j < i ==> a1.glyphs[glyph_key(#[trigger] glyphs[j])] == a2.glyphs[glyph_key(glyphs[j])],
        forall|j: int|
            0 <= j < i && glyph_added(before, a1, glyphs, j) ==> a1.outlines[glyph_key(#[trigger] glyphs[j])]
                == a2.outlines[glyph_key(glyphs[j])],
    ensures
        added_curves(before, a1, glyphs, i) == added_curves(before, a2, glyphs, i),
    decreases i,
{
    if i > 0 {
        lemma_added_curves_agree(before, a1, a2, glyphs, i - 1);
        assert(a1.glyphs[glyph_key(glyphs[i - 1])] == a2.glyphs[glyph_key(glyphs[i - 1])]);
        if glyph_added(before, a1, glyphs, i - 1) {
            assert(a1.outlines[glyph_key(glyphs[i - 1])] == a2.outlines[glyph_key(glyphs[i - 1])]);
        }
    }
}

/// The curves added by the first `i` glyphs depend only on those glyphs.
proof fn lemma_added_curves_prefix(
    before: GlyphCacheView,
    after: GlyphCacheView,
    g: Seq<ShapedGlyph>,
    h: Seq<ShapedGlyph>,
    i: int,
)
    requires
        0 <= i <= g.len(),
        i <= h.len(),
        forall|j: int| 0 <= j < i ==> g[j] == h[j],
    ensures
        added_curves(before, after, g, i) == added_curves(before, after, h, i),
    decreases i,
{
    if i > 0 {
        lemma_added_curves_prefix(before, after, g, h, i - 1);
        assert(g[i - 1] == h[i - 1]);
        assert(first_with_id(g, i - 1) == first_with_id(h, i - 1)) by {
            assert forall|j: int| 0 <= j < i - 1 implies g[j] == h[j] by {}
        }
    }
}

/// The glyphs of a second text that add curves on the way from `a` to `c`
/// are those that add curves on the way from `b`, where `b` holds the
/// glyphs of the first text.
proof fn lemma_added_curves_suffix(
    a: GlyphCacheView,
    b: GlyphCacheView,
    c: GlyphCacheView,
    g1: Seq<ShapedGlyph>,
    g2: Seq<ShapedGlyph>,
    t: int,
)
    requires
        0 <= t <= g2.len(),
        forall|k: u16|
            #[trigger] b.glyphs.contains_key(k) <==> a.glyphs.contains_key(k) || exists|i: int|
                0 <= i < g1.len() && glyph_key(#[trigger] g1[i]) == k,
    ensures
        added_curves(a, c, g1 + g2, g1.len() + t) == added_curves(a, c, g1 + g2, g1.len() as int)
            + added_curves(b, c, g2, t),
    decreases t,
{
    let g = g1 + g2;
    let n1 = g1.len() as int;
    if t == 0 {
        assert(added_curves(a, c, g, n1) + added_curves(b, c, g2, 0) =~= added_curves(a, c, g, n1));
    } else {
        lemma_added_curves_suffix(a, b, c, g1, g2, t - 1);
        let m = n1 + t - 1;
        assert(g[m] == g2[t - 1]);
        let k = glyph_key(g2[t - 1]);
        assert(glyph_added(a, c, g, m) == glyph_added(b, c, g2, t - 1)) by {
            if glyph_added(a, c, g, m) {
                assert forall|j: int| 0 <= j < t - 1 implies glyph_key(#[trigger] g2[j]) != glyph_key(g2[t - 1]) by {
                    assert(g[n1 + j] == g2[j]);
                }
                if b.glyphs.contains_key(k) {
                    let i = choose|i: int| 0 <= i < g1.len() && glyph_key(#[trigger] g1[i]) == k;
                    assert(g[i] == g1[i]);
                }
            }
            if glyph_added(b, c, g2, t - 1) {
                assert forall|j: int| 0 <= j < m implies glyph_key(#[trigger] g[j]) != glyph_key(g[m]) by {
                    if j < n1 {
                        assert(g[j] == g1[j]);
                        if glyph_key(g1[j]) == k {
                            assert(b.glyphs.contains_key(k));
                        }
                    } else {
                        assert(g[j] == g2[j - n1]);
                    }
                }
            }
        }
        if glyph_added(a, c, g, m) {
            assert(added_curves(a, c, g, n1 + t) =~= added_curves(a, c, g, n1) + added_curves(b, c, g2, t));
        }
    }
}


/// One step of caching the glyphs of a text: looking up the glyph at `i` in
/// `cur` gave `next`, and the textures took its curves if it was new and
/// visible.
proof fn lemma_added_curves_step(
    start: GlyphCacheView,
    cur: GlyphCacheView,
    next: GlyphCacheView,
    glyphs: Seq<ShapedGlyph>,
    i: int,
)
    requires
        0 <= i < glyphs.len(),
        cur.glyphs_stored(),
        forall|k: u16|
            #[trigger] cur.glyphs.contains_key(k) <==> start.glyphs.contains_key(k) || exists|j: int|
                0 <= j < i && glyph_key(#[trigger] glyphs[j]) == k,
        forall|k: u16| #[trigger] cur.glyphs.contains_key(k) ==> next.glyphs[k] == cur.glyphs[k],
        forall|k: u16| #[trigger] cur.outlines.contains_key(k) ==> next.outlines[k] == cur.outlines[k],
        cur.textures.glyph_log == start.textures.glyph_log + added_curves(start, cur, glyphs, i),
        ({
            let key = glyph_key(glyphs[i]);
            if !cur.glyphs.contains_key(key) && next.glyphs[key] is Some {
                next.textures.glyph_log == cur.textures.glyph_log.push(next.outlines[key].0)
            } else {
                next.textures.glyph_log == cur.textures.glyph_log
            }
        }),
    ensures
        next.textures.glyph_log == start.textures.glyph_log + added_curves(start, next, glyphs, i + 1),
{
    assert forall|j: int| 0 <= j < i implies cur.glyphs[glyph_key(#[trigger] glyphs[j])] == next.glyphs[glyph_key(
        glyphs[j],
    )] by {
        assert(cur.glyphs.contains_key(glyph_key(glyphs[j])));
    }
    assert forall|j: int|
        0 <= j < i && glyph_added(start, cur, glyphs, j) implies cur.outlines[glyph_key(#[trigger] glyphs[j])]
            == next.outlines[glyph_key(glyphs[j])] by {
        assert(cur.glyphs.contains_key(glyph_key(glyphs[j])));
        assert(cur.outlines.contains_key(glyph_key(glyphs[j])));
    }
    lemma_added_curves_agree(start, cur, next, glyphs, i);
    let key = glyph_key(glyphs[i]);
    assert(glyph_added(start, next, glyphs, i) == (!cur.glyphs.contains_key(key) && next.glyphs[key] is Some)) by {
        if cur.glyphs.contains_key(key) && !start.glyphs.contains_key(key) {
            let j = choose|j: int| 0 <= j < i && glyph_key(#[trigger] glyphs[j]) == key;
            assert(glyph_key(glyphs[j]) == key);
        }
        if !cur.glyphs.contains_key(key) {
            assert forall|j: int| 0 <= j < i implies glyph_key(#[trigger] glyphs[j]) != key by {
                if glyph_key(glyphs[j]) == key {
                    assert(cur.glyphs.contains_key(key));
                }
            }
        }
    }
    if glyph_added(start, next, glyphs, i) {
        assert(next.textures.glyph_log =~= start.textures.glyph_log + added_curves(start, next, glyphs, i + 1));
    }
}


/// One step of caching the glyphs of a text keeps what the earlier new
/// glyphs were taken from, and the glyph at `i`, if new, was taken from the
/// outline that its lookup got.
proof fn lemma_outlines_taken_step<F: Fn(u16) -> Option<GlyphOutline>>(
    start: GlyphCacheView,
    cur: GlyphCacheView,
    next: GlyphCacheView,
    glyphs: Seq<ShapedGlyph>,
    i: int,
    extract: F,
)
    requires
        0 <= i < glyphs.len(),
        outlines_taken(start, cur, glyphs, i, extract),
        cur.glyphs_stored(),
        forall|k: u16|
            #[trigger] cur.glyphs.contains_key(k) <==> start.glyphs.contains_key(k) || exists|j: int|
                0 <= j < i && glyph_key(#[trigger] glyphs[j]) == k,
        forall|k: u16| #[trigger] cur.glyphs.contains_key(k) ==> next.glyphs[k] == cur.glyphs[k],
        forall|k: u16| #[trigger] cur.outlines.contains_key(k) ==> next.outlines[k] == cur.outlines[k],
        cur.textures == textures_of_log(cur.textures.glyph_log),
        cur.textures.glyph_log == start.textures.glyph_log + added_curves(start, cur, glyphs, i),
        !cur.glyphs.contains_key(glyph_key(glyphs[i])) ==> exists|o: Option<GlyphOutline>|
            #[trigger] call_ensures(extract, (glyph_key(glyphs[i]),), o) && outline_taken(
                cur.textures,
                next,
                glyph_key(glyphs[i]),
                o,
            ),
    ensures
        outlines_taken(start, next, glyphs, i + 1, extract),
{
    assert forall|j: int| 0 <= j <= i implies added_curves(start, cur, glyphs, j) == added_curves(
        start,
        next,
        glyphs,
        j,
    ) by {
        assert forall|m: int| 0 <= m < j implies cur.glyphs[glyph_key(#[trigger] glyphs[m])]
            == next.glyphs[glyph_key(glyphs[m])] by {
            assert(cur.glyphs.contains_key(glyph_key(glyphs[m])));
        }
        assert forall|m: int|
            0 <= m < j && glyph_added(start, cur, glyphs, m) implies cur.outlines[glyph_key(#[trigger] glyphs[m])]
                == next.outlines[glyph_key(glyphs[m])] by {
            assert(cur.glyphs.contains_key(glyph_key(glyphs[m])));
            assert(cur.outlines.contains_key(glyph_key(glyphs[m])));
        }
        lemma_added_curves_agree(start, cur, next, glyphs, j);
    }
    assert forall|j: int|
        0 <= j < i + 1 && #[trigger] glyph_is_new(start, glyphs, j) implies outline_taken_at(
            start,
            next,
            glyphs,
            j,
            extract,
        ) by {
        let k = glyph_key(glyphs[j]);
        assert(added_curves(start, cur, glyphs, j) == added_curves(start, next, glyphs, j));
        if j < i {
            assert(outline_taken_at(start, cur, glyphs, j, extract));
            let o = choose|o: Option<GlyphOutline>|
                #[trigger] call_ensures(extract, (k,), o) && outline_taken(
                    textures_at(start, cur, glyphs, j),
                    cur,
                    k,
                    o,
                );
            assert(cur.glyphs.contains_key(k));
            if cur.glyphs[k] is Some {
                assert(cur.outlines.contains_key(k));
            }
            assert(outline_taken(textures_at(start, next, glyphs, j), next, k, o));
        } else {
            if cur.glyphs.contains_key(k) {
                let m = choose|m: int| 0 <= m < i && glyph_key(#[trigger] glyphs[m]) == k;
                assert(glyph_key(glyphs[m]) == k);
            }
            let o = choose|o: Option<GlyphOutline>|
                #[trigger] call_ensures(extract, (k,), o) && outline_taken(cur.textures, next, k, o);
            assert(textures_at(start, next, glyphs, i) == cur.textures);
            assert(outline_taken(textures_at(start, next, glyphs, j), next, k, o));
        }
    }
}

/// Caching one text after another takes the new glyphs of both from their
/// outlines.
proof fn lemma_outlines_taken_compose<F: Fn(u16) -> Option<GlyphOutline>>(
    a: GlyphCacheView,
    b: GlyphCacheView,
    c: GlyphCacheView,
    g1: Seq<ShapedGlyph>,
    g2: Seq<ShapedGlyph>,
    extract: F,
)
    requires
        caches_glyphs(a, b, g1),
        caches_glyphs(b, c, g2),
        b.glyphs_stored(),
        outlines_taken(a, b, g1, g1.len() as int, extract),
        outlines_taken(b, c, g2, g2.len() as int, extract),
    ensures
        outlines_taken(a, c, g1 + g2, (g1 + g2).len() as int, extract),
{
    let g = g1 + g2;
    let n1 = g1.len() as int;
    assert forall|j: int| 0 <= j <= n1 implies added_curves(a, c, g, j) == added_curves(a, b, g1, j) by {
        assert forall|m: int| 0 <= m < j implies g[m] == g1[m] by {}
        lemma_added_curves_prefix(a, c, g, g1, j);
        assert forall|m: int| 0 <= m < j implies b.glyphs[glyph_key(#[trigger] g1[m])] == c.glyphs[glyph_key(
            g1[m],
        )] by {
            assert(b.glyphs.contains_key(glyph_key(g1[m])));
        }
        assert forall|m: int|
            0 <= m < j && glyph_added(a, b, g1, m) implies b.outlines[glyph_key(#[trigger] g1[m])]
                == c.outlines[glyph_key(g1[m])] by {
            assert(b.glyphs.contains_key(glyph_key(g1[m])));
            assert(b.outlines.contains_key(glyph_key(g1[m])));
        }
        lemma_added_curves_agree(a, b, c, g1, j);
    }
    assert forall|j: int|
        0 <= j < g.len() && #[trigger] glyph_is_new(a, g, j) implies outline_taken_at(a, c, g, j, extract) by {
        let k = glyph_key(g[j]);
        if j < n1 {
            assert(g[j] == g1[j]);
            assert forall|m: int| 0 <= m < j implies glyph_key(#[trigger] g1[m]) != glyph_key(g1[j]) by {
                assert(g[m] == g1[m]);
            }
            assert(glyph_is_new(a, g1, j));
            assert(outline_taken_at(a, b, g1, j, extract));
            let o = choose|o: Option<GlyphOutline>|
                #[trigger] call_ensures(extract, (k,), o) && outline_taken(
                    textures_at(a, b, g1, j),
                    b,
                    k,
                    o,
                );
            assert(b.glyphs.contains_key(k));
            if b.glyphs[k] is Some {
                assert(b.outlines.contains_key(k));
            }
            assert(added_curves(a, c, g, j) == added_curves(a, b, g1, j));
            assert(outline_taken(textures_at(a, c, g, j), c, k, o));
        } else {
            let t = j - n1;
            assert(g[j] == g2[t]);
            if b.glyphs.contains_key(k) {
                let m = choose|m: int| 0 <= m < g1.len() && glyph_key(#[trigger] g1[m]) == k;
                assert(g[m] == g1[m]);
            }
            assert forall|m: int| 0 <= m < t implies glyph_key(#[trigger] g2[m]) != glyph_key(g2[t]) by {
                assert(g[n1 + m] == g2[m]);
            }
            assert(glyph_is_new(b, g2, t));
            assert(outline_taken_at(b, c, g2, t, extract));
            let o = choose|o: Option<GlyphOutline>|
                #[trigger] call_ensures(extract, (k,), o) && outline_taken(
                    textures_at(b, c, g2, t),
                    c,
                    k,
                    o,
                );
            lemma_added_curves_suffix(a, b, c, g1, g2, t);
            assert(added_curves(a, c, g, n1) == added_curves(a, b, g1, n1));
            assert(a.textures.glyph_log + added_curves(a, c, g, j) =~= b.textures.glyph_log + added_curves(
                b,
                c,
                g2,
                t,
            ));
            assert(outline_taken(textures_at(a, c, g, j), c, k, o));
        }
    }
}

/// `extract` gives one outline for each id.
pub open spec fn extract_is_function<F: Fn(u16) -> Option<GlyphOutline>>(extract: F) -> bool {
    forall|k: u16, o1: Option<GlyphOutline>, o2: Option<GlyphOutline>|
        #![trigger call_ensures(extract, (k,), o1), call_ensures(extract, (k,), o2)]
        call_ensures(extract, (k,), o1) && call_ensures(extract, (k,), o2) ==> o1 == o2
}

/// Two cachings of the same text from the same cache agree on the first `m`
/// glyphs, when `extract` gives one outline per id.
proof fn lemma_caching_determined_upto<F: Fn(u16) -> Option<GlyphOutline>>(
    start: GlyphCacheView,
    a1: GlyphCacheView,
    a2: GlyphCacheView,
    g: Seq<ShapedGlyph>,
    m: int,
    extract: F,
)
    requires
        0 <= m <= g.len(),
        extract_is_function(extract),
        caches_glyphs(start, a1, g),
        caches_glyphs(start, a2, g),
        outlines_taken(start, a1, g, g.len() as int, extract),
        outlines_taken(start, a2, g, g.len() as int, extract),
    ensures
        added_curves(start, a1, g, m) == added_curves(start, a2, g, m),
        forall|j: int| 0 <= j < m ==> a1.glyphs[glyph_key(#[trigger] g[j])] == a2.glyphs[glyph_key(g[j])],
        forall|j: int|
            0 <= j < m && glyph_added(start, a1, g, j) ==> a1.outlines[glyph_key(#[trigger] g[j])]
                == a2.outlines[glyph_key(g[j])],
    decreases m,
{
    if m > 0 {
        lemma_caching_determined_upto(start, a1, a2, g, m - 1, extract);
        let j = m - 1;
        let k = glyph_key(g[j]);
        if glyph_is_new(start, g, j) {
            assert(outline_taken_at(start, a1, g, j, extract));
            assert(outline_taken_at(start, a2, g, j, extract));
            let o1 = choose|o: Option<GlyphOutline>|
                #[trigger] call_ensures(extract, (k,), o) && outline_taken(textures_at(start, a1, g, j), a1, k, o);
            let o2 = choose|o: Option<GlyphOutline>|
                #[trigger] call_ensures(extract, (k,), o) && outline_taken(textures_at(start, a2, g, j), a2, k, o);
            assert(o1 == o2);
            assert(textures_at(start, a1, g, j) == textures_at(start, a2, g, j));
            if a1.glyphs[k] is Some {
                assert(a1.glyphs[k]->0 == a2.glyphs[k]->0);
            }
            assert(a1.glyphs[k] == a2.glyphs[k]);
        } else if start.glyphs.contains_key(k) {
            assert(a1.glyphs[k] == start.glyphs[k]);
            assert(a2.glyphs[k] == start.glyphs[k]);
        } else {
            let j0 = choose|j0: int| 0 <= j0 < j && glyph_key(#[trigger] g[j0]) == glyph_key(g[j]);
            assert(a1.glyphs[glyph_key(g[j0])] == a2.glyphs[glyph_key(g[j0])]);
        }
        assert(glyph_added(start, a1, g, j) == glyph_added(start, a2, g, j));
    }
}

/// Caching the same text from the same cache twice, with an `extract` that
/// gives one outline per id, leads to the same glyphs and the same textures:
/// building, simulating and adding a text leave equal caches.
pub proof fn lemma_caching_is_determined<F: Fn(u16) -> Option<GlyphOutline>>(
    start: GlyphCacheView,
    a1: GlyphCacheView,
    a2: GlyphCacheView,
    glyphs: Seq<ShapedGlyph>,
    extract: F,
)
    requires
        extract_is_function(extract),
        caches_glyphs(start, a1, glyphs),
        caches_glyphs(start, a2, glyphs),
        outlines_taken(start, a1, glyphs, glyphs.len() as int, extract),
        outlines_taken(start, a2, glyphs, glyphs.len() as int, extract),
        a1.textures == textures_of_log(a1.textures.glyph_log),
        a2.textures == textures_of_log(a2.textures.glyph_log),
    ensures
        a1.glyphs == a2.glyphs,
        a1.textures == a2.textures,
{
    lemma_caching_determined_upto(start, a1, a2, glyphs, glyphs.len() as int, extract);
    assert(a1.glyphs =~= a2.glyphs) by {
        assert forall|k: u16| a1.glyphs.contains_key(k) implies a1.glyphs[k] == a2.glyphs[k] by {
            if !start.glyphs.contains_key(k) {
                let j = choose|j: int| 0 <= j < glyphs.len() && glyph_key(#[trigger] glyphs[j]) == k;
                assert(a1.glyphs[glyph_key(glyphs[j])] == a2.glyphs[glyph_key(glyphs[j])]);
            }
        }
        assert forall|k: u16| a1.glyphs.contains_key(k) <==> a2.glyphs.contains_key(k) by {
            assert(a1.glyphs.contains_key(k) == a2.glyphs.contains_key(k));
        }
    }
}

/// The pen position before glyph `i` depends only on the glyphs before it.
proof fn lemma_cursor_prefix(g: Seq<ShapedGlyph>, h: Seq<ShapedGlyph>, offset: Offset2D, i: int)
    requires
        i <= g.len(),
        i <= h.len(),
        forall|j: int| 0 <= j < i ==> g[j] == h[j],
    ensures
        glyph_cursor(g, offset, i) == glyph_cursor(h, offset, i),
    decreases i,
{
    if i > 0 {
        lemma_cursor_prefix(g, h, offset, i - 1);
        assert(g[i - 1] == h[i - 1]);
    }
}

/// The quads of the first `i` glyphs depend only on those glyphs.
proof fn lemma_quads_prefix(
    map: Map<u16, Option<ProcessedGlyphData>>,
    g: Seq<ShapedGlyph>,
    h: Seq<ShapedGlyph>,
    offset: Offset2D,
    i: int,
)
    requires
        i <= g.len(),
        i <= h.len(),
        forall|j: int| 0 <= j < i ==> g[j] == h[j],
    ensures
        text_quads(map, g, offset, i) == text_quads(map, h, offset, i),
    decreases i,
{
    if i > 0 {
        lemma_quads_prefix(map, g, h, offset, i - 1);
        lemma_cursor_prefix(g, h, offset, i - 1);
        assert(g[i - 1] == h[i - 1]);
    }
}

/// Past the glyphs of `g1`, the pen moves over those of `g2` as it would
/// from the end of `g1`.
proof fn lemma_cursor_suffix(g1: Seq<ShapedGlyph>, g2: Seq<ShapedGlyph>, offset: Offset2D, k: int)
    requires
        0 <= k <= g2.len(),
    ensures
        glyph_cursor(g1 + g2, offset, g1.len() + k) == glyph_cursor(
            g2,
            glyph_cursor(g1, offset, g1.len() as int),
            k,
        ),
    decreases k,
{
    if k == 0 {
        assert forall|j: int| 0 <= j < g1.len() implies (g1 + g2)[j] == g1[j] by {}
        lemma_cursor_prefix(g1 + g2, g1, offset, g1.len() as int);
    } else {
        lemma_cursor_suffix(g1, g2, offset, k - 1);
        assert((g1 + g2)[g1.len() + k - 1] == g2[k - 1]);
    }
}

/// Past the glyphs of `g1`, the quads of `g2` follow as laid out from the
/// end of `g1`.
proof fn lemma_quads_suffix(
    map: Map<u16, Option<ProcessedGlyphData>>,
    g1: Seq<ShapedGlyph>,
    g2: Seq<ShapedGlyph>,
    offset: Offset2D,
    k: int,
)
    requires
        0 <= k <= g2.len(),
    ensures
        text_quads(map, g1 + g2, offset, g1.len() + k) == text_quads(map, g1, offset, g1.len() as int)
            + text_quads(map, g2, glyph_cursor(g1, offset, g1.len() as int), k),
    decreases k,
{
    let g = g1 + g2;
    let n1 = g1.len() as int;
    let end1 = glyph_cursor(g1, offset, n1);
    if k == 0 {
        assert forall|j: int| 0 <= j < n1 implies g[j] == g1[j] by {}
        lemma_quads_prefix(map, g, g1, offset, n1);
        assert(text_quads(map, g1, offset, n1) + text_quads(map, g2, end1, 0) =~= text_quads(map, g1, offset, n1));
    } else {
        lemma_quads_suffix(map, g1, g2, offset, k - 1);
        lemma_cursor_suffix(g1, g2, offset, k - 1);
        assert(g[n1 + k - 1] == g2[k - 1]);
        assert(text_quads(map, g, offset, n1 + k) =~= text_quads(map, g1, offset, n1) + text_quads(
            map,
            g2,
            end1,
            k,
        ));
    }
}

/// Taking the union of bounds is associative.
proof fn lemma_bounds_union_assoc(a: Option<TextBounds>, b: Option<TextBounds>, c: Option<TextBounds>)
    ensures
        bounds_union(bounds_union(a, b), c) == bounds_union(a, bounds_union(b, c)),
{
}

/// The bounds of two runs of quads are the union of their bounds.
proof fn lemma_quads_bounds_concat(a: Seq<GlyphQuad>, b: Seq<GlyphQuad>)
    ensures
        quads_bounds(a + b) == bounds_union(quads_bounds(a), quads_bounds(b)),
    decreases b.len(),
{
    if b.len() == 0 {
        assert(a + b =~= a);
        assert(bounds_union(quads_bounds(a), None) == quads_bounds(a));
    } else {
        lemma_quads_bounds_concat(a, b.drop_last());
        assert((a + b).drop_last() =~= a + b.drop_last());
        assert((a + b).last() == b.last());
        lemma_bounds_union_assoc(quads_bounds(a), quads_bounds(b.drop_last()), Some(quad_bounds(b.last())));
    }
}

/// A text laid out from the end offset of another continues it: the pen
/// ends where it ends for both texts' glyphs laid out as one, the quads are
/// those of the first followed by those of the second, and the bounds are
/// the union of both texts' bounds.
pub proof fn lemma_text_continues_at_end_offset(
    map: Map<u16, Option<ProcessedGlyphData>>,
    g1: Seq<ShapedGlyph>,
    g2: Seq<ShapedGlyph>,
    offset: Offset2D,
)
    ensures
        ({
            let end1 = glyph_cursor(g1, offset, g1.len() as int);
            let all = g1 + g2;
            let n = all.len() as int;
            &&& glyph_cursor(all, offset, n) == glyph_cursor(g2, end1, g2.len() as int)
            &&& text_quads(map, all, offset, n) == text_quads(map, g1, offset, g1.len() as int)
                + text_quads(map, g2, end1, g2.len() as int)
            &&& quads_bounds(text_quads(map, all, offset, n)) == bounds_union(
                quads_bounds(text_quads(map, g1, offset, g1.len() as int)),
                quads_bounds(text_quads(map, g2, end1, g2.len() as int)),
            )
        }),
{
    lemma_cursor_suffix(g1, g2, offset, g2.len() as int);
    lemma_quads_suffix(map, g1, g2, offset, g2.len() as int);
    lemma_quads_bounds_concat(
        text_quads(map, g1, offset, g1.len() as int),
        text_quads(map, g2, glyph_cursor(g1, offset, g1.len() as int), g2.len() as int),
    );
}

/// How far line `k` lies below the first: `k` line distances (wrapping)
pub open spec fn line_shift(line_distance: i32, k: int) -> i32
    decreases k,
{
    if k <= 0 {
        0
    } else {
        line_shift(line_distance, k - 1).wrapping_add(line_distance)
    }
}

/// Pen position at the start of line `k`
pub open spec fn line_offset(offset: Offset2D, line_distance: i32, k: int) -> Offset2D {
    Offset2D { x: offset.x, y: offset.y.wrapping_sub(line_shift(line_distance, k)) }
}

/// The glyphs of the first `k` lines, one line after the other
pub open spec fn lines_glyphs(lines: Seq<Vec<ShapedGlyph>>, k: int) -> Seq<ShapedGlyph>
    decreases k,
{
    if k <= 0 {
        Seq::empty()
    } else {
        lines_glyphs(lines, k - 1) + lines[k - 1]@
    }
}

/// Quads of line `k`
pub open spec fn line_quads(
    map: Map<u16, Option<ProcessedGlyphData>>,
    lines: Seq<Vec<ShapedGlyph>>,
    offset: Offset2D,
    line_distance: i32,
    k: int,
) -> Seq<GlyphQuad> {
    text_quads(map, lines[k]@, line_offset(offset, line_distance, k), lines[k]@.len() as int)
}

/// Smallest rectangle that holds the first `k` lines
pub open spec fn lines_bounds(
    map: Map<u16, Option<ProcessedGlyphData>>,
    lines: Seq<Vec<ShapedGlyph>>,
    offset: Offset2D,
    line_distance: i32,
    k: int,
) -> Option<TextBounds>
    decreases k,
{
    if k <= 0 {
        None
    } else {
        bounds_union(
            lines_bounds(map, lines, offset, line_distance, k - 1),
            quads_bounds(line_quads(map, lines, offset, line_distance, k - 1)),
        )
    }
}

/// What building several lines reports, given the cache before and after
pub open spec fn multiline_build_result(
    before: Map<u16, Option<ProcessedGlyphData>>,
    after: Map<u16, Option<ProcessedGlyphData>>,
    lines: Seq<Vec<ShapedGlyph>>,
    offset: Offset2D,
    line_distance: i32,
) -> MultilineBuildResult {
    let n = lines.len() as int;
    MultilineBuildResult {
        first_line_rect: if n == 0 {
            None
        } else {
            quads_bounds(line_quads(after, lines, offset, line_distance, 0))
        },
        total: TextBuildResult {
            end_offset: if n == 0 {
                offset
            } else {
                glyph_cursor(
                    lines[n - 1]@,
                    line_offset(offset, line_distance, n - 1),
                    lines[n - 1]@.len() as int,
                )
            },
            rect: lines_bounds(after, lines, offset, line_distance, n),
            new_glyphs: has_new_glyph(before, after, lines_glyphs(lines, n)),
        },
    }
}

/// Number of quads in the first `k` layouts
pub open spec fn layouts_quad_count(layouts: Seq<TextLayout>, k: int) -> int
    decreases k,
{
    if k <= 0 {
        0
    } else {
        layouts_quad_count(layouts, k - 1) + layouts[k - 1].quads@.len()
    }
}

proof fn lemma_layouts_quad_count_prefix(a: Seq<TextLayout>, b: Seq<TextLayout>, k: int)
    requires
        0 <= k <= b.len(),
        b.len() <= a.len(),
        forall|l: int| 0 <= l < b.len() ==> a[l] == b[l],
    ensures
        layouts_quad_count(a, k) == layouts_quad_count(b, k),
    decreases k,
{
    if k > 0 {
        lemma_layouts_quad_count_prefix(a, b, k - 1);
    }
}

proof fn lemma_quad_number_add(first: u32, a: int, b: int)
    requires
        a >= 0,
        b >= 0,
    ensures
        quad_number(quad_number(first, a), b) == quad_number(first, a + b),
{
    let m: int = 0x1_0000_0000;
    vstd::arithmetic::div_mod::lemma_add_mod_noop(first + a, b, m);
    vstd::arithmetic::div_mod::lemma_mod_bound(first + a, m);
    vstd::arithmetic::div_mod::lemma_mod_bound(b, m);
    vstd::arithmetic::div_mod::lemma_mod_twice(b, m);
    vstd::arithmetic::div_mod::lemma_add_mod_noop((first + a) % m, b, m);
}

/// The indices of `a` quads followed by those of `b` more are the indices of
/// `a + b` quads.
proof fn lemma_quad_indices_concat(first: u32, a: int, b: int)
    requires
        a >= 0,
        b >= 0,
    ensures
        quad_indices(first, a) + quad_indices(quad_number(first, a), b) == quad_indices(first, a + b),
    decreases b,
{
    if b == 0 {
        assert(quad_indices(first, a) + quad_indices(quad_number(first, a), 0) =~= quad_indices(first, a));
    } else {
        lemma_quad_indices_concat(first, a, b - 1);
        lemma_quad_number_add(first, a, b - 1);
        assert(quad_indices(first, a) + quad_indices(quad_number(first, a), b) =~= quad_indices(first, a)
            + quad_indices(quad_number(first, a), b - 1) + quad_triangle_indices(
            quad_number(quad_number(first, a), b - 1).wrapping_mul(VERTICES_PER_GLYPH as u32),
        ));
    }
}

/// Caching one text after another caches both.
pub proof fn lemma_caches_glyphs_compose(
    a: GlyphCacheView,
    b: GlyphCacheView,
    c: GlyphCacheView,
    g1: Seq<ShapedGlyph>,
    g2: Seq<ShapedGlyph>,
)
    requires
        caches_glyphs(a, b, g1),
        caches_glyphs(b, c, g2),
        b.glyphs_stored(),
    ensures
        caches_glyphs(a, c, g1 + g2),
        has_new_glyph(a.glyphs, c.glyphs, g1 + g2) == (has_new_glyph(a.glyphs, b.glyphs, g1)
            || has_new_glyph(b.glyphs, c.glyphs, g2)),
{
    let g = g1 + g2;
    let n1 = g1.len() as int;
    a.textures.lemma_extends_trans(b.textures, c.textures);
    lemma_added_curves_suffix(a, b, c, g1, g2, g2.len() as int);
    assert forall|j: int| 0 <= j < n1 implies g[j] == g1[j] by {}
    lemma_added_curves_prefix(a, c, g, g1, n1);
    assert forall|j: int| 0 <= j < n1 implies b.glyphs[glyph_key(#[trigger] g1[j])] == c.glyphs[glyph_key(g1[j])] by {
        assert(b.glyphs.contains_key(glyph_key(g1[j])));
    }
    assert forall|j: int|
        0 <= j < n1 && glyph_added(a, b, g1, j) implies b.outlines[glyph_key(#[trigger] g1[j])]
            == c.outlines[glyph_key(g1[j])] by {
        assert(b.glyphs.contains_key(glyph_key(g1[j])));
        assert(b.outlines.contains_key(glyph_key(g1[j])));
    }
    lemma_added_curves_agree(a, b, c, g1, n1);
    assert(c.textures.glyph_log =~= a.textures.glyph_log + added_curves(a, c, g, g.len() as int));
    assert forall|k: u16| #[trigger] a.glyphs.contains_key(k) implies c.glyphs[k] == a.glyphs[k] by {
        assert(b.glyphs.contains_key(k));
    }
    assert forall|k: u16|
        #[trigger] c.glyphs.contains_key(k) <==> a.glyphs.contains_key(k) || exists|i: int|
            0 <= i < g.len() && glyph_key(#[trigger] g[i]) == k by {
        if c.glyphs.contains_key(k) && !a.glyphs.contains_key(k) {
            if b.glyphs.contains_key(k) {
                let i = choose|i: int| 0 <= i < g1.len() && glyph_key(#[trigger] g1[i]) == k;
                assert(g[i] == g1[i]);
            } else {
                let i = choose|i: int| 0 <= i < g2.len() && glyph_key(#[trigger] g2[i]) == k;
                assert(g[g1.len() + i] == g2[i]);
            }
        }
        if exists|i: int| 0 <= i < g.len() && glyph_key(#[trigger] g[i]) == k {
            let i = choose|i: int| 0 <= i < g.len() && glyph_key(#[trigger] g[i]) == k;
            if i < g1.len() {
                assert(g[i] == g1[i]);
                assert(b.glyphs.contains_key(k));
            } else {
                assert(g[i] == g2[i - g1.len()]);
            }
        }
    }
    if forall|i: int| 0 <= i < g.len() ==> a.glyphs.contains_key(glyph_key(#[trigger] g[i])) {
        assert forall|i: int| 0 <= i < g1.len() implies a.glyphs.contains_key(glyph_key(#[trigger] g1[i])) by {
            assert(g[i] == g1[i]);
        }
        assert forall|i: int| 0 <= i < g2.len() implies b.glyphs.contains_key(glyph_key(#[trigger] g2[i])) by {
            assert(g[g1.len() + i] == g2[i]);
        }
        assert(b == a);
        assert(c == b);
    }
    if has_new_glyph(a.glyphs, c.glyphs, g) {
        let i = choose|i: int|
            0 <= i < g.len() && !a.glyphs.contains_key(glyph_key(#[trigger] g[i])) && c.glyphs[glyph_key(g[i])] is Some;
        let k = glyph_key(g[i]);
        if i < g1.len() {
            assert(g[i] == g1[i]);
            assert(b.glyphs.contains_key(k));
            assert(c.glyphs[k] == b.glyphs[k]);
        } else {
            assert(g[i] == g2[i - g1.len()]);
            if b.glyphs.contains_key(k) {
                assert(c.glyphs[k] == b.glyphs[k]);
                let i1 = choose|i1: int| 0 <= i1 < g1.len() && glyph_key(#[trigger] g1[i1]) == k;
                assert(glyph_key(g1[i1]) == k);
            }
        }
    }
    if has_new_glyph(a.glyphs, b.glyphs, g1) {
        let i = choose|i: int|
            0 <= i < g1.len() && !a.glyphs.contains_key(glyph_key(#[trigger] g1[i])) && b.glyphs[glyph_key(g1[i])] is Some;
        assert(g[i] == g1[i]);
        assert(b.glyphs.contains_key(glyph_key(g1[i])));
    }
    if has_new_glyph(b.glyphs, c.glyphs, g2) {
        let i = choose|i: int|
            0 <= i < g2.len() && !b.glyphs.contains_key(glyph_key(#[trigger] g2[i])) && c.glyphs[glyph_key(g2[i])] is Some;
        assert(g[g1.len() + i] == g2[i]);
    }
}

proof fn lemma_lines_bounds_agree(
    m1: Map<u16, Option<ProcessedGlyphData>>,
    m2: Map<u16, Option<ProcessedGlyphData>>,
    lines: Seq<Vec<ShapedGlyph>>,
    offset: Offset2D,
    line_distance: i32,
    k: int,
)
    requires
        forall|l: int| 0 <= l < k ==> line_quads(m1, lines, offset, line_distance, l) == #[trigger] line_quads(
            m2,
            lines,
            offset,
            line_distance,
            l,
        ),
    ensures
        lines_bounds(m1, lines, offset, line_distance, k) == lines_bounds(m2, lines, offset, line_distance, k),
    decreases k,
{
    if k > 0 {
        lemma_lines_bounds_agree(m1, m2, lines, offset, line_distance, k - 1);
        assert(line_quads(m1, lines, offset, line_distance, k - 1) == line_quads(m2, lines, offset, line_distance, k - 1));
    }
}


/// All glyph ids are at most `u16::MAX`, as shaping gives them.
pub open spec fn glyph_ids_fit(glyphs: Seq<ShapedGlyph>) -> bool {
    forall|i: int| 0 <= i < glyphs.len() ==> #[trigger] glyphs[i].glyph_id <= u16::MAX
}

/// `layout` and the cache and index changes are what `build_glyphs` makes of
/// `glyphs`.
pub open spec fn text_built(
    before: GlyphCacheView,
    after: GlyphCacheView,
    glyphs: Seq<ShapedGlyph>,
    offset: Offset2D,
    first_quad: u32,
    indices_before: Seq<u32>,
    indices_after: Seq<u32>,
    layout: TextLayout,
) -> bool {
    &&& caches_glyphs(before, after, glyphs)
    &&& layout.result == text_build_result(before.glyphs, after.glyphs, glyphs, offset)
    &&& layout.quads@ == text_quads(after.glyphs, glyphs, offset, glyphs.len() as int)
    &&& indices_after == indices_before + quad_indices(first_quad, layout.quads.len() as int)
    &&& layout.next_quad == quad_number(first_quad, layout.quads.len() as int)
}

/// The cache key of a shaped glyph is its glyph id, cut to 16 bits: for the
/// ids that shaping gives (at most `u16::MAX`), the id itself.
pub proof fn lemma_glyph_key_is_glyph_id(g: ShapedGlyph)
    ensures
        glyph_key(g) == g.glyph_id as u16,
        g.glyph_id <= u16::MAX ==> glyph_key(g) as int == g.glyph_id as int,
{
}

/// Every glyph has a first glyph of the text with the same id, at or before
/// it.
proof fn lemma_first_occurrence(glyphs: Seq<ShapedGlyph>, j: int) -> (m: int)
    requires
        0 <= j < glyphs.len(),
    ensures
        0 <= m <= j,
        glyph_key(glyphs[m]) == glyph_key(glyphs[j]),
        first_with_id(glyphs, m),
    decreases j,
{
    if first_with_id(glyphs, j) {
        j
    } else {
        let m = choose|m: int| 0 <= m < j && glyph_key(#[trigger] glyphs[m]) == glyph_key(glyphs[j]);
        lemma_first_occurrence(glyphs, m)
    }
}

/// The curves added by the first `i` glyphs are some exactly when one of
/// them was written to the textures.
proof fn lemma_added_curves_nonempty(
    before: GlyphCacheView,
    after: GlyphCacheView,
    glyphs: Seq<ShapedGlyph>,
    i: int,
)
    requires
        0 <= i <= glyphs.len(),
    ensures
        added_curves(before, after, glyphs, i).len() > 0 <==> exists|j: int|
            0 <= j < i && #[trigger] glyph_added(before, after, glyphs, j),
    decreases i,
{
    if i > 0 {
        lemma_added_curves_nonempty(before, after, glyphs, i - 1);
        if exists|j: int| 0 <= j < i - 1 && #[trigger] glyph_added(before, after, glyphs, j) {
            let j = choose|j: int| 0 <= j < i - 1 && #[trigger] glyph_added(before, after, glyphs, j);
            assert(0 <= j < i && glyph_added(before, after, glyphs, j));
        }
        if glyph_added(before, after, glyphs, i - 1) {
            assert(0 <= i - 1 < i && glyph_added(before, after, glyphs, i - 1));
        }
    }
}

/// Caching a text reports new glyphs exactly when it wrote glyphs to the
/// textures: some glyph of the text, of any id, was not cached before and is
/// visible after exactly when the textures' glyph log grew.
pub proof fn lemma_new_glyphs_iff_log_grows(before: GlyphCacheView, after: GlyphCacheView, glyphs: Seq<ShapedGlyph>)
    requires
        caches_glyphs(before, after, glyphs),
    ensures
        has_new_glyph(before.glyphs, after.glyphs, glyphs) <==> after.textures.glyph_log.len()
            > before.textures.glyph_log.len(),
        (exists|i: int|
            0 <= i < glyphs.len() && !before.glyphs.contains_key(#[trigger] glyphs[i].glyph_id as u16)
                && after.glyphs[glyphs[i].glyph_id as u16] is Some) <==> after.textures.glyph_log.len()
            > before.textures.glyph_log.len(),
{
    lemma_added_curves_nonempty(before, after, glyphs, glyphs.len() as int);
    if has_new_glyph(before.glyphs, after.glyphs, glyphs) {
        let i = choose|i: int|
            0 <= i < glyphs.len() && !before.glyphs.contains_key(glyph_key(#[trigger] glyphs[i]))
                && after.glyphs[glyph_key(glyphs[i])] is Some;
        let m = lemma_first_occurrence(glyphs, i);
        assert(glyph_added(before, after, glyphs, m));
    }
    if after.textures.glyph_log.len() > before.textures.glyph_log.len() {
        let j = choose|j: int| 0 <= j < glyphs.len() && #[trigger] glyph_added(before, after, glyphs, j);
        assert(!before.glyphs.contains_key(glyph_key(glyphs[j])) && after.glyphs[glyph_key(glyphs[j])] is Some);
    }
}

/// After caching a text, the cache holds the id of every glyph of it.
pub proof fn lemma_caches_every_glyph_id(before: GlyphCacheView, after: GlyphCacheView, glyphs: Seq<ShapedGlyph>)
    requires
        caches_glyphs(before, after, glyphs),
    ensures
        forall|i: int| 0 <= i < glyphs.len() ==> after.glyphs.contains_key(#[trigger] glyphs[i].glyph_id as u16),
{
    assert forall|i: int| 0 <= i < glyphs.len() implies after.glyphs.contains_key(#[trigger] glyphs[i].glyph_id as u16) by {
        assert(glyph_key(glyphs[i]) == glyphs[i].glyph_id as u16);
    }
}

/// If the cache holds every glyph of a text already, building or simulating
/// the text changes nothing and reports no new glyphs.
pub proof fn lemma_cached_text_changes_nothing(
    before: GlyphCacheView,
    after: GlyphCacheView,
    glyphs: Seq<ShapedGlyph>,
)
    requires
        caches_glyphs(before, after, glyphs),
        forall|i: int| 0 <= i < glyphs.len() ==> before.glyphs.contains_key(glyph_key(#[trigger] glyphs[i])),
    ensures
        after == before,
        !has_new_glyph(before.glyphs, after.glyphs, glyphs),
{
}

/// Once the glyphs of one text were added, a text made of some of its
/// glyphs needs no new glyphs: building it changes nothing and reports no
/// new glyphs.
pub proof fn lemma_added_glyphs_are_not_new(
    start: GlyphCacheView,
    added: GlyphCacheView,
    built: GlyphCacheView,
    added_glyphs: Seq<ShapedGlyph>,
    text: Seq<ShapedGlyph>,
)
    requires
        caches_glyphs(start, added, added_glyphs),
        caches_glyphs(added, built, text),
        forall|j: int|
            0 <= j < text.len() ==> exists|i: int|
                0 <= i < added_glyphs.len() && glyph_key(#[trigger] added_glyphs[i]) == glyph_key(
                    #[trigger] text[j],
                ),
    ensures
        built == added,
        !has_new_glyph(added.glyphs, built.glyphs, text),
{
    assert forall|j: int| 0 <= j < text.len() implies added.glyphs.contains_key(glyph_key(#[trigger] text[j])) by {
        let i = choose|i: int|
            0 <= i < added_glyphs.len() && glyph_key(#[trigger] added_glyphs[i]) == glyph_key(text[j]);
        assert(glyph_key(added_glyphs[i]) == glyph_key(text[j]));
    }
}

/// Building the same glyphs a second time changes nothing: the cache stays
/// as the first build left it, no glyph is new, and the quads, rectangle and
/// end offset are those of the first build.
pub proof fn lemma_repeated_text_changes_nothing(
    before: GlyphCacheView,
    mid: GlyphCacheView,
    after: GlyphCacheView,
    glyphs: Seq<ShapedGlyph>,
    offset: Offset2D,
    q1: u32,
    q2: u32,
    i0: Seq<u32>,
    i1: Seq<u32>,
    i2: Seq<u32>,
    l1: TextLayout,
    l2: TextLayout,
)
    requires
        text_built(before, mid, glyphs, offset, q1, i0, i1, l1),
        text_built(mid, after, glyphs, offset, q2, i1, i2, l2),
    ensures
        after == mid,
        !l2.result.new_glyphs,
        l2.quads@ == l1.quads@,
        l2.result.rect == l1.result.rect,
        l2.result.end_offset == l1.result.end_offset,
        i2 == i1 + quad_indices(q2, l1.quads@.len() as int),
{
    assert forall|i: int| 0 <= i < glyphs.len() implies mid.glyphs.contains_key(glyph_key(#[trigger] glyphs[i])) by {
        assert(glyph_key(glyphs[i]) == glyph_key(glyphs[i]));
    }
}

/// Building and simulating a text report the same result when they end
/// with the same cache.
pub proof fn lemma_simulate_reports_build(
    before: GlyphCacheView,
    after: GlyphCacheView,
    glyphs: Seq<ShapedGlyph>,
    offset: Offset2D,
    first_quad: u32,
    indices_before: Seq<u32>,
    indices_after: Seq<u32>,
    layout: TextLayout,
    simulated: TextBuildResult,
)
    requires
        text_built(before, after, glyphs, offset, first_quad, indices_before, indices_after, layout),
        simulated == text_build_result(before.glyphs, after.glyphs, glyphs, offset),
    ensures
        layout.result == simulated,
        layout.result.rect == quads_bounds(layout.quads@),
{
}

/// Every quad gets six indices, two triangles over its own four vertices:
/// `4 q, 4 q + 1, 4 q + 2` and `4 q, 4 q + 2, 4 q + 3` for quad number `q`
/// (wrapping modulo 2^32).
pub proof fn lemma_quad_indices_shape(first: u32, count: int)
    requires
        count >= 0,
    ensures
        quad_indices(first, count).len() == 6 * count,
        forall|k: int, c: int|
            0 <= k < count && 0 <= c < 6 ==> #[trigger] quad_indices(first, count)[6 * k + c]
                == quad_triangle_indices(
                quad_number(first, k).wrapping_mul(VERTICES_PER_GLYPH as u32),
            )[c],
    decreases count,
{
    if count > 0 {
        lemma_quad_indices_shape(first, count - 1);
        let prev = quad_indices(first, count - 1);
        assert forall|k: int, c: int| 0 <= k < count && 0 <= c < 6 implies #[trigger] quad_indices(first, count)[6 * k + c]
            == quad_triangle_indices(quad_number(first, k).wrapping_mul(VERTICES_PER_GLYPH as u32))[c] by {
            if k < count - 1 {
                assert(quad_indices(first, count)[6 * k + c] == prev[6 * k + c]);
            }
        }
    }
}

/// The rectangle of all lines holds the rectangle of the first line.
pub proof fn lemma_total_rect_holds_first_line(
    map: Map<u16, Option<ProcessedGlyphData>>,
    lines: Seq<Vec<ShapedGlyph>>,
    offset: Offset2D,
    line_distance: i32,
    k: int,
)
    requires
        1 <= k,
        quads_bounds(line_quads(map, lines, offset, line_distance, 0)) is Some,
    ensures
        lines_bounds(map, lines, offset, line_distance, k) is Some,
        ({
            let first = quads_bounds(line_quads(map, lines, offset, line_distance, 0))->0;
            let total = lines_bounds(map, lines, offset, line_distance, k)->0;
            &&& total.x_min <= first.x_min
            &&& total.y_min <= first.y_min
            &&& first.x_max <= total.x_max
            &&& first.y_max <= total.y_max
        }),
    decreases k,
{
    if k > 1 {
        lemma_total_rect_holds_first_line(map, lines, offset, line_distance, k - 1);
    }
}

/// Smallest rectangle that holds `bounds` and quad `q`
fn bounds_union_exec(bounds: Option<TextBounds>, q: GlyphQuad) -> (r: Option<TextBounds>)
    ensures
        r == bounds_union(bounds, Some(quad_bounds(q))),
{
    match bounds {
        None => Some(TextBounds { x_min: q.x0, y_min: q.y0, x_max: q.x1, y_max: q.y1 }),
        Some(b) => Some(
            TextBounds {
                x_min: if b.x_min <= q.x0 { b.x_min } else { q.x0 },
                y_min: if b.y_min <= q.y0 { b.y_min } else { q.y0 },
                x_max: if b.x_max >= q.x1 { b.x_max } else { q.x1 },
                y_max: if b.y_max >= q.y1 { b.y_max } else { q.y1 },
            },
        ),
    }
}

/// Smallest rectangle that holds both
fn bounds_union_opt(a: Option<TextBounds>, b: Option<TextBounds>) -> (r: Option<TextBounds>)
    ensures
        r == bounds_union(a, b),
{
    match a {
        None => b,
        Some(ra) => match b {
            None => a,
            Some(rb) => Some(
                TextBounds {
                    x_min: if ra.x_min <= rb.x_min { ra.x_min } else { rb.x_min },
                    y_min: if ra.y_min <= rb.y_min { ra.y_min } else { rb.y_min },
                    x_max: if ra.x_max >= rb.x_max { ra.x_max } else { rb.x_max },
                    y_max: if ra.y_max >= rb.y_max { ra.y_max } else { rb.y_max },
                },
            ),
        },
    }
}

/// Glyph storage: the processed glyphs by id, and the textures that hold
/// their curves and bands
pub struct SlugGlyphCache {
    // None for glyphs with no bounding box (like empty space)
    processed_glyph_map: HashMap<u16, Option<ProcessedGlyphData>>,
    glyph_processor: SlugGlyphProcessor,
    stored_outlines: Ghost<Map<u16, (Seq<CurveRecord>, int)>>,
}

impl View for SlugGlyphCache {
    type V = GlyphCacheView;

    closed spec fn view(&self) -> GlyphCacheView {
        GlyphCacheView {
            glyphs: self.processed_glyph_map@,
            textures: self.glyph_processor@,
            outlines: self.stored_outlines@,
        }
    }
}

impl SlugGlyphCache {
    pub closed spec fn inv(&self) -> bool {
        &&& self.glyph_processor.inv()
        &&& self@.glyphs_stored()
    }

    /// The textures hold every cached visible glyph, are well formed, and
    /// are what writing the glyphs of their log, in order, to empty textures
    /// gives.
    pub proof fn lemma_glyphs_stored(&self)
        requires
            self.inv(),
        ensures
            self@.glyphs_stored(),
            self@.textures.wf(),
            self@.textures == textures_of_log(self@.textures.glyph_log),
    {
        self.glyph_processor.lemma_inv_wf();
    }

    /// The texture data of the cache
    pub fn texture_data(&self) -> (data: SlugTextureData<'_>)
        requires
            self.inv(),
        ensures
            data.curve_tex_data@.len() == TEX_WIDTH * data.curve_tex_height,
            data.band_tex_data@.len() == TEX_WIDTH * data.band_tex_height,
            data.curve_tex_data@ == self@.textures.curve_data,
            data.band_tex_data@ == self@.textures.band_data,
            data.curve_tex_height == self@.textures.curve_height,
            data.band_tex_height == self@.textures.band_height,
    {
        proof {
            self.glyph_processor.lemma_inv_wf();
        }
        SlugTextureData {
            curve_tex_data: self.glyph_processor.curve_tex_data().as_slice(),
            band_tex_data: self.glyph_processor.band_tex_data().as_slice(),
            curve_tex_height: self.glyph_processor.curve_tex_height(),
            band_tex_height: self.glyph_processor.band_tex_height(),
        }
    }

    /// An empty cache with empty textures
    pub fn new() -> (c: Self)
        ensures
            c.inv(),
            c@.glyphs == Map::<u16, Option<ProcessedGlyphData>>::empty(),
            c@.textures.curve_data.len() == 0,
            c@.textures.band_data.len() == 0,
            c@.textures.curve_used == 0,
            c@.textures.band_used == 0,
            c@.textures == empty_textures(),
            c@.outlines == Map::<u16, (Seq<CurveRecord>, int)>::empty(),
    {
        SlugGlyphCache {
            processed_glyph_map: HashMap::new(),
            glyph_processor: SlugGlyphProcessor::new(),
            stored_outlines: Ghost(Map::empty()),
        }
    }

    /// The cached data of a glyph, processing it first if the cache does not
    /// hold it yet. Returns the data, and whether the glyph was processed
    /// now and is visible.
    fn glyph_data<F: Fn(u16) -> Option<GlyphOutline>>(&mut self, glyph_id: u16, extract: &F) -> (r: (
        Option<ProcessedGlyphData>,
        bool,
    ))
        requires
            old(self).inv(),
            forall|g: u16| extract.requires((g,)),
        ensures
            final(self).inv(),
            final(self)@.glyphs == old(self)@.glyphs.insert(glyph_id, r.0),
            old(self)@.glyphs.contains_key(glyph_id) ==> r.0 == old(self)@.glyphs[glyph_id]
                && final(self)@ == old(self)@,
            r.1 == (!old(self)@.glyphs.contains_key(glyph_id) && r.0 is Some),
            r.1 ==> final(self)@.outlines.contains_key(glyph_id) && final(self)@.textures.glyph_log
                == old(self)@.textures.glyph_log.push(final(self)@.outlines[glyph_id].0),
            !r.1 ==> final(self)@.textures.glyph_log == old(self)@.textures.glyph_log,
            old(self)@.textures.extends(final(self)@.textures),
            forall|k: u16|
                #[trigger] old(self)@.outlines.contains_key(k) ==> final(self)@.outlines.contains_key(k)
                    && final(self)@.outlines[k] == old(self)@.outlines[k],
            !old(self)@.glyphs.contains_key(glyph_id) ==> exists|o: Option<GlyphOutline>|
                #[trigger] call_ensures(*extract, (glyph_id,), o) && outline_taken(
                    old(self)@.textures,
                    final(self)@,
                    glyph_id,
                    o,
                ),
    {
        proof {
            self.glyph_processor.lemma_inv_wf();
        }
        match self.processed_glyph_map.get(&glyph_id) {
            Some(opt) => {
                let r = *opt;
                proof {
                    assert(self@.glyphs.insert(glyph_id, r) =~= self@.glyphs);
                    self@.textures.lemma_extends_refl();
                }
                (r, false)
            },
            None => {
                // add new glyph to map
                let outline = extract(glyph_id);
                let ghost before = self@;
                let ghost o = outline;
                let processed = self.glyph_processor.process_new_glyph(outline);
                if processed.is_some() {
                    self.stored_outlines = Ghost(
                        self.stored_outlines@.insert(glyph_id, (o->0.curves@, before.textures.curve_used)),
                    );
                }
                proof {
                    if processed is Some {
                        before.textures.lemma_glyph_written_extends(self.glyph_processor@, o->0.curves@);
                        before.textures.lemma_glyph_written_holds(self.glyph_processor@, o->0.curves@);
                        crate::textures::lemma_band_glyph_start(before.textures.band_used);
                        lemma_band_offset_mono(o->0.curves@, 0, BAND_HEADER_COUNT as int);
                        vstd::arithmetic::div_mod::lemma_fundamental_div_mod(
                            band_glyph_start(before.textures.band_used),
                            TEX_WIDTH as int,
                        );
                    } else {
                        before.textures.lemma_extends_refl();
                    }
                }
                self.processed_glyph_map.insert(glyph_id, processed);
                proof {
                    let after = self@;
                    assert forall|k: u16|
                        #[trigger] after.glyphs.contains_key(k) && after.glyphs[k] is Some implies {
                        let d = after.glyphs[k]->0;
                        &&& after.outlines.contains_key(k)
                        &&& after.textures.holds_glyph(
                            d.band_loc_y * TEX_WIDTH + d.band_loc_x,
                            after.outlines[k].0,
                            after.outlines[k].1,
                        )
                    } by {
                        if k != glyph_id {
                            assert(before.glyphs.contains_key(k) && before.glyphs[k] is Some);
                            let d = before.glyphs[k]->0;
                            before.textures.lemma_holds_glyph_extends(
                                after.textures,
                                d.band_loc_y * TEX_WIDTH + d.band_loc_x,
                                before.outlines[k].0,
                                before.outlines[k].1,
                            );
                        }
                    }
                    assert forall|k: u16| #[trigger] after.outlines.contains_key(k) implies after.glyphs.contains_key(k) by {
                        if k != glyph_id {
                            assert(before.outlines.contains_key(k));
                        }
                    }
                    assert forall|k: u16|
                        #[trigger] before.outlines.contains_key(k) implies after.outlines.contains_key(k)
                            && after.outlines[k] == before.outlines[k] by {
                        assert(before.glyphs.contains_key(k));
                    }
                    assert(call_ensures(*extract, (glyph_id,), o) && outline_taken(before.textures, after, glyph_id, o));
                }
                (processed, processed.is_some())
            },
        }
    }

    /// Lays out the glyphs of a shaped text, processing the glyphs that the
    /// cache does not hold yet, and appends the indices of its quads to
    /// `indices`.
    ///
    /// The pen starts at `offset` and moves by each glyph's advance; every
    /// visible glyph gets a quad, numbered from `first_quad` on, whose six
    /// indices form two triangles over its four vertices.
    pub fn build_glyphs<F: Fn(u16) -> Option<GlyphOutline>>(
        &mut self,
        glyphs: &Vec<ShapedGlyph>,
        offset: Offset2D,
        first_quad: u32,
        indices: &mut Vec<u32>,
        extract: &F,
    ) -> (layout: TextLayout)
        requires
            old(self).inv(),
            forall|g: u16| extract.requires((g,)),
        ensures
            final(self).inv(),
            caches_glyphs(old(self)@, final(self)@, glyphs@),
            outlines_taken(old(self)@, final(self)@, glyphs@, glyphs@.len() as int, *extract),
            layout.result == text_build_result(old(self)@.glyphs, final(self)@.glyphs, glyphs@, offset),
            layout.quads@ == text_quads(final(self)@.glyphs, glyphs@, offset, glyphs.len() as int),
            final(indices)@ == old(indices)@ + quad_indices(first_quad, layout.quads.len() as int),
            layout.next_quad == quad_number(first_quad, layout.quads.len() as int),
            layout.result.new_glyphs == (final(self)@.textures.glyph_log.len() > old(self)@.textures.glyph_log.len()),
            forall|i: int|
                0 <= i < glyphs.len() ==> final(self)@.glyphs.contains_key(#[trigger] glyphs@[i].glyph_id as u16),
    {
        let ghost start = self@;
        let mut quads: Vec<GlyphQuad> = Vec::new();
        let mut new_glyphs = false;
        let mut cursor_x = offset.x;
        let mut cursor_y = offset.y;
        let mut quad_idx: u32 = first_quad;
        let mut full_text_bounds: Option<TextBounds> = None;
        proof {
            self.glyph_processor.lemma_inv_wf();
            start.textures.lemma_extends_refl();
            assert(quad_number(first_quad, 0) == first_quad);
        }
        let mut i: usize = 0;
        while i < glyphs.len()
            invariant
                i <= glyphs.len(),
                self.inv(),
                forall|g: u16| extract.requires((g,)),
                forall|k: u16|
                    #[trigger] self@.glyphs.contains_key(k) <==> start.glyphs.contains_key(k) || exists|j: int|
                        0 <= j < i && glyph_key(#[trigger] glyphs@[j]) == k,
                forall|k: u16| #[trigger] start.glyphs.contains_key(k) ==> self@.glyphs[k] == start.glyphs[k],
                forall|k: u16|
                    #[trigger] start.outlines.contains_key(k) ==> self@.outlines.contains_key(k)
                        && self@.outlines[k] == start.outlines[k],
                start.textures.extends(self@.textures),
                (forall|j: int| 0 <= j < i ==> start.glyphs.contains_key(glyph_key(#[trigger] glyphs@[j])))
                    ==> self@ == start,
                outlines_taken(start, self@, glyphs@, i as int, *extract),
                self@.textures.glyph_log == start.textures.glyph_log + added_curves(start, self@, glyphs@, i as int),
                cursor_x == glyph_cursor(glyphs@, offset, i as int).x,
                cursor_y == glyph_cursor(glyphs@, offset, i as int).y,
                quads@ == text_quads(self@.glyphs, glyphs@, offset, i as int),
                full_text_bounds == quads_bounds(quads@),
                new_glyphs == exists|j: int|
                    0 <= j < i && !start.glyphs.contains_key(glyph_key(#[trigger] glyphs@[j]))
                        && self@.glyphs[glyph_key(glyphs@[j])] is Some,
                indices@ == old(indices)@ + quad_indices(first_quad, quads.len() as int),
                quad_idx == quad_number(first_quad, quads.len() as int),
                start == old(self)@,
            decreases glyphs.len() - i,
        {
            let g = glyphs[i];
            let glyph_id = g.glyph_id as u16;
            proof {
                self.lemma_glyphs_stored();
            }
            let ghost cur = self@;
            // None if glyph is empty space (has no bounding box)
            let (glyph_processed_opt, fresh) = self.glyph_data(glyph_id, extract);
            if fresh {
                new_glyphs = true;
            }
            let ghost quads_before = quads@;
            proof {
                assert forall|j: int| 0 <= j < i implies self@.glyphs[glyph_key(#[trigger] glyphs@[j])]
                    == cur.glyphs[glyph_key(glyphs@[j])] by {
                    assert(cur.glyphs.contains_key(glyph_key(glyphs@[j])));
                }
                lemma_text_quads_agree(self@.glyphs, cur.glyphs, glyphs@, offset, i as int);
            }
            match glyph_processed_opt {
                None => {},
                Some(glyph_processed_data) => {
                    let bbox = glyph_processed_data.bounding_box;
                    // Object-space position (Y-up, font units)
                    let ox: i32 = cursor_x.wrapping_add(g.x_offset);
                    let oy: i32 = cursor_y.wrapping_add(g.y_offset);
                    let quad = GlyphQuad {
                        x0: ox.wrapping_add(bbox.x_min as i32),
                        y0: oy.wrapping_add(bbox.y_min as i32),
                        x1: ox.wrapping_add(bbox.x_max as i32),
                        y1: oy.wrapping_add(bbox.y_max as i32),
                        glyph: glyph_processed_data,
                    };
                    proof {
                        lemma_quads_bounds_push(quads@, quad);
                        lemma_quad_indices_next(first_quad, quads.len() as int);
                        lemma_quad_number_next(first_quad, quads.len() as int);
                    }
                    full_text_bounds = bounds_union_exec(full_text_bounds, quad);
                    let base = quad_idx.wrapping_mul(VERTICES_PER_GLYPH as u32);
                    indices.push(base);
                    indices.push(base.wrapping_add(1));
                    indices.push(base.wrapping_add(2));
                    indices.push(base);
                    indices.push(base.wrapping_add(2));
                    indices.push(base.wrapping_add(3));
                    quads.push(quad);
                    quad_idx = quad_idx.wrapping_add(1);
                    proof {
                        assert(indices@ =~= old(indices)@ + quad_indices(first_quad, quads.len() as int));
                    }
                },
            }
            cursor_x = cursor_x.wrapping_add(g.x_advance);
            cursor_y = cursor_y.wrapping_add(g.y_advance);
            proof {
                start.textures.lemma_extends_trans(cur.textures, self@.textures);
                assert forall|k: u16| #[trigger] cur.glyphs.contains_key(k) implies self@.glyphs[k] == cur.glyphs[k] by {}
                lemma_outlines_taken_step(start, cur, self@, glyphs@, i as int, *extract);
                lemma_added_curves_step(start, cur, self@, glyphs@, i as int);
                let key = glyph_key(glyphs@[i as int]);
                assert forall|k: u16|
                    #[trigger] self@.glyphs.contains_key(k) <==> start.glyphs.contains_key(k) || exists|j: int|
                        0 <= j < i + 1 && glyph_key(#[trigger] glyphs@[j]) == k by {
                    if k == key {
                        assert(glyph_key(glyphs@[i as int]) == k);
                    }
                    if exists|j: int| 0 <= j < i + 1 && glyph_key(#[trigger] glyphs@[j]) == k {
                        let j = choose|j: int| 0 <= j < i + 1 && glyph_key(#[trigger] glyphs@[j]) == k;
                        if j < i {
                            assert(cur.glyphs.contains_key(k));
                        }
                    }
                }
                let was_new = !start.glyphs.contains_key(key) && self@.glyphs[key] is Some;
                if cur.glyphs.contains_key(key) && !start.glyphs.contains_key(key) {
                    let j0 = choose|j: int| 0 <= j < i && glyph_key(#[trigger] glyphs@[j]) == key;
                    assert(glyph_key(glyphs@[j0]) == key);
                }
                assert(new_glyphs == exists|j: int|
                    0 <= j < i + 1 && !start.glyphs.contains_key(glyph_key(#[trigger] glyphs@[j]))
                        && self@.glyphs[glyph_key(glyphs@[j])] is Some) by {
                    if new_glyphs {
                        if fresh {
                            assert(glyph_key(glyphs@[i as int]) == key);
                        } else {
                            let j = choose|j: int|
                                0 <= j < i && !start.glyphs.contains_key(glyph_key(#[trigger] glyphs@[j]))
                                    && cur.glyphs[glyph_key(glyphs@[j])] is Some;
                            assert(self@.glyphs[glyph_key(glyphs@[j])] == cur.glyphs[glyph_key(glyphs@[j])]);
                        }
                    }
                    if exists|j: int|
                        0 <= j < i + 1 && !start.glyphs.contains_key(glyph_key(#[trigger] glyphs@[j]))
                            && self@.glyphs[glyph_key(glyphs@[j])] is Some {
                        let j = choose|j: int|
                            0 <= j < i + 1 && !start.glyphs.contains_key(glyph_key(#[trigger] glyphs@[j]))
                                && self@.glyphs[glyph_key(glyphs@[j])] is Some;
                        if j < i {
                            assert(self@.glyphs[glyph_key(glyphs@[j])] == cur.glyphs[glyph_key(glyphs@[j])]);
                        }
                    }
                }
                if forall|j: int| 0 <= j < i + 1 ==> start.glyphs.contains_key(glyph_key(#[trigger] glyphs@[j])) {
                    assert(start.glyphs.contains_key(glyph_key(glyphs@[i as int])));
                }
            }
            i = i + 1;
        }
        proof {
            assert(glyphs@.len() == glyphs.len());
            lemma_new_glyphs_iff_log_grows(start, self@, glyphs@);
            lemma_caches_every_glyph_id(start, self@, glyphs@);
        }
        TextLayout {
            result: TextBuildResult {
                end_offset: Offset2D { x: cursor_x, y: cursor_y },
                rect: full_text_bounds,
                new_glyphs,
            },
            quads,
            next_quad: quad_idx,
        }
    }

    /// Same as `build_glyphs` but adds no indices: processes the glyphs that
    /// the cache does not hold yet and reports the text's end offset, bounds
    /// and whether new glyphs were needed.
    pub fn simulate_glyphs<F: Fn(u16) -> Option<GlyphOutline>>(
        &mut self,
        glyphs: &Vec<ShapedGlyph>,
        offset: Offset2D,
        extract: &F,
    ) -> (result: TextBuildResult)
        requires
            old(self).inv(),
            forall|g: u16| extract.requires((g,)),
        ensures
            final(self).inv(),
            caches_glyphs(old(self)@, final(self)@, glyphs@),
            outlines_taken(old(self)@, final(self)@, glyphs@, glyphs@.len() as int, *extract),
            result == text_build_result(old(self)@.glyphs, final(self)@.glyphs, glyphs@, offset),
            result.new_glyphs == (final(self)@.textures.glyph_log.len() > old(self)@.textures.glyph_log.len()),
            forall|i: int|
                0 <= i < glyphs.len() ==> final(self)@.glyphs.contains_key(#[trigger] glyphs@[i].glyph_id as u16),
    {
        let mut scratch_indices: Vec<u32> = Vec::new();
        let layout = self.build_glyphs(glyphs, offset, 0, &mut scratch_indices, extract);
        layout.result
    }

    /// Processes the glyphs that the cache does not hold yet, without laying
    /// them out.
    pub fn add_glyphs<F: Fn(u16) -> Option<GlyphOutline>>(
        &mut self,
        glyphs: &Vec<ShapedGlyph>,
        extract: &F,
    )
        requires
            old(self).inv(),
            forall|i: int| 0 <= i < glyphs.len() ==> #[trigger] glyphs[i].glyph_id <= u16::MAX,
            forall|g: u16| extract.requires((g,)),
        ensures
            final(self).inv(),
            caches_glyphs(old(self)@, final(self)@, glyphs@),
            outlines_taken(old(self)@, final(self)@, glyphs@, glyphs@.len() as int, *extract),
            forall|i: int|
                0 <= i < glyphs.len() ==> final(self)@.glyphs.contains_key(#[trigger] glyphs@[i].glyph_id as u16),
    {
        let ghost start = self@;
        proof {
            self.glyph_processor.lemma_inv_wf();
            start.textures.lemma_extends_refl();
        }
        let mut i: usize = 0;
        while i < glyphs.len()
            invariant
                i <= glyphs.len(),
                self.inv(),
                forall|j: int| 0 <= j < glyphs.len() ==> #[trigger] glyphs[j].glyph_id <= u16::MAX,
                forall|g: u16| extract.requires((g,)),
                forall|k: u16|
                    #[trigger] self@.glyphs.contains_key(k) <==> start.glyphs.contains_key(k) || exists|j: int|
                        0 <= j < i && glyph_key(#[trigger] glyphs@[j]) == k,
                forall|k: u16| #[trigger] start.glyphs.contains_key(k) ==> self@.glyphs[k] == start.glyphs[k],
                forall|k: u16|
                    #[trigger] start.outlines.contains_key(k) ==> self@.outlines.contains_key(k)
                        && self@.outlines[k] == start.outlines[k],
                start.textures.extends(self@.textures),
                (forall|j: int| 0 <= j < i ==> start.glyphs.contains_key(glyph_key(#[trigger] glyphs@[j])))
                    ==> self@ == start,
                outlines_taken(start, self@, glyphs@, i as int, *extract),
                self@.textures.glyph_log == start.textures.glyph_log + added_curves(start, self@, glyphs@, i as int),
                start == old(self)@,
            decreases glyphs.len() - i,
        {
            let glyph_id: u16 = glyphs[i].glyph_id as u16;
            proof {
                self.lemma_glyphs_stored();
            }
            let ghost cur = self@;
            proof {
                self.glyph_processor.lemma_inv_wf();
            }
            if !self.processed_glyph_map.contains_key(&glyph_id) {
                self.glyph_data(glyph_id, extract);
            }
            proof {
                if cur.glyphs.contains_key(glyph_id) {
                    cur.textures.lemma_extends_refl();
                }
                start.textures.lemma_extends_trans(cur.textures, self@.textures);
                assert forall|k: u16| #[trigger] cur.glyphs.contains_key(k) implies self@.glyphs[k] == cur.glyphs[k] by {}
                lemma_outlines_taken_step(start, cur, self@, glyphs@, i as int, *extract);
                lemma_added_curves_step(start, cur, self@, glyphs@, i as int);
                let key = glyph_key(glyphs@[i as int]);
                assert forall|k: u16|
                    #[trigger] self@.glyphs.contains_key(k) <==> start.glyphs.contains_key(k) || exists|j: int|
                        0 <= j < i + 1 && glyph_key(#[trigger] glyphs@[j]) == k by {
                    if k == key {
                        assert(glyph_key(glyphs@[i as int]) == k);
                    }
                    if exists|j: int| 0 <= j < i + 1 && glyph_key(#[trigger] glyphs@[j]) == k {
                        let j = choose|j: int| 0 <= j < i + 1 && glyph_key(#[trigger] glyphs@[j]) == k;
                        if j < i {
                            assert(cur.glyphs.contains_key(k));
                        }
                    }
                }
                if forall|j: int| 0 <= j < i + 1 ==> start.glyphs.contains_key(glyph_key(#[trigger] glyphs@[j])) {
                    assert(start.glyphs.contains_key(glyph_key(glyphs@[i as int])));
                }
            }
            i = i + 1;
        }
        proof {
            lemma_caches_every_glyph_id(start, self@, glyphs@);
        }
    }

    /// Lays out several lines of shaped text, the first at `offset` and each
    /// next one `line_distance` lower, with quads numbered on from one line to
    /// the next, and appends their indices to `indices`.
    ///
    /// With no lines, reports no rectangle, `offset` as end offset and no
    /// new glyphs.
    pub fn build_glyph_lines<F: Fn(u16) -> Option<GlyphOutline>>(
        &mut self,
        lines: &Vec<Vec<ShapedGlyph>>,
        offset: Offset2D,
        line_distance: i32,
        first_quad: u32,
        indices: &mut Vec<u32>,
        extract: &F,
    ) -> (layout: MultilineLayout)
        requires
            old(self).inv(),
            forall|g: u16| extract.requires((g,)),
        ensures
            final(self).inv(),
            caches_glyphs(old(self)@, final(self)@, lines_glyphs(lines@, lines.len() as int)),
            outlines_taken(
                old(self)@,
                final(self)@,
                lines_glyphs(lines@, lines.len() as int),
                lines_glyphs(lines@, lines.len() as int).len() as int,
                *extract,
            ),
            layout.result == multiline_build_result(
                old(self)@.glyphs,
                final(self)@.glyphs,
                lines@,
                offset,
                line_distance,
            ),
            layout.lines.len() == lines.len(),
            forall|k: int|
                0 <= k < lines.len() ==> (#[trigger] layout.lines@[k]).quads@ == line_quads(
                    final(self)@.glyphs,
                    lines@,
                    offset,
                    line_distance,
                    k,
                ) && layout.lines@[k].result.rect == quads_bounds(layout.lines@[k].quads@)
                    && layout.lines@[k].result.end_offset == glyph_cursor(
                    lines@[k]@,
                    line_offset(offset, line_distance, k),
                    lines@[k]@.len() as int,
                ),
            final(indices)@ == old(indices)@ + quad_indices(
                first_quad,
                layouts_quad_count(layout.lines@, lines.len() as int),
            ),
            layout.next_quad == quad_number(
                first_quad,
                layouts_quad_count(layout.lines@, lines.len() as int),
            ),
            layout.result.total.new_glyphs == (final(self)@.textures.glyph_log.len()
                > old(self)@.textures.glyph_log.len()),
            forall|k: int, j: int|
                0 <= k < lines.len() && 0 <= j < lines@[k]@.len() ==> final(self)@.glyphs.contains_key(
                    #[trigger] lines@[k]@[j].glyph_id as u16,
                ),
    {
        let ghost start = self@;
        let mut layouts: Vec<TextLayout> = Vec::new();
        let mut line_shift_y: i32 = 0;
        let mut quad: u32 = first_quad;
        let mut first_line_rect: Option<TextBounds> = None;
        let mut total_rect: Option<TextBounds> = None;
        let mut last_offset = offset;
        let mut new_glyphs = false;
        proof {
            self.glyph_processor.lemma_inv_wf();
            start.textures.lemma_extends_refl();
            assert(lines_glyphs(lines@, 0) =~= Seq::<ShapedGlyph>::empty());
            assert(quad_number(first_quad, 0) == first_quad);
            assert(old(indices)@ + quad_indices(first_quad, 0) =~= old(indices)@);
        }
        let mut k: usize = 0;
        while k < lines.len()
            invariant
                k <= lines.len(),
                self.inv(),
                forall|g: u16| extract.requires((g,)),
                start == old(self)@,
                caches_glyphs(start, self@, lines_glyphs(lines@, k as int)),
                outlines_taken(
                    start,
                    self@,
                    lines_glyphs(lines@, k as int),
                    lines_glyphs(lines@, k as int).len() as int,
                    *extract,
                ),
                forall|l: int, j: int|
                    0 <= l < k && 0 <= j < lines@[l]@.len() ==> self@.glyphs.contains_key(
                        glyph_key(#[trigger] lines@[l]@[j]),
                    ),
                layouts.len() == k,
                forall|l: int|
                    0 <= l < k ==> (#[trigger] layouts@[l]).quads@ == line_quads(
                        self@.glyphs,
                        lines@,
                        offset,
                        line_distance,
                        l,
                    ) && layouts@[l].result.rect == quads_bounds(layouts@[l].quads@)
                        && layouts@[l].result.end_offset == glyph_cursor(
                        lines@[l]@,
                        line_offset(offset, line_distance, l),
                        lines@[l]@.len() as int,
                    ),
                line_shift_y == line_shift(line_distance, k as int),
                k > 0 ==> first_line_rect == quads_bounds(
                    line_quads(self@.glyphs, lines@, offset, line_distance, 0),
                ),
                k == 0 ==> first_line_rect is None && last_offset == offset,
                k > 0 ==> last_offset == glyph_cursor(
                    lines@[k - 1]@,
                    line_offset(offset, line_distance, k - 1),
                    lines@[k - 1]@.len() as int,
                ),
                total_rect == lines_bounds(self@.glyphs, lines@, offset, line_distance, k as int),
                new_glyphs == has_new_glyph(start.glyphs, self@.glyphs, lines_glyphs(lines@, k as int)),
                indices@ == old(indices)@ + quad_indices(
                    first_quad,
                    layouts_quad_count(layouts@, k as int),
                ),
                quad == quad_number(first_quad, layouts_quad_count(layouts@, k as int)),
                layouts_quad_count(layouts@, k as int) >= 0,
            decreases lines.len() - k,
        {
            proof {
                self.lemma_glyphs_stored();
            }
            let ghost cur = self@;
            let ghost count = layouts_quad_count(layouts@, k as int);
            let ghost indices_before = indices@;
            let line_start = Offset2D { x: offset.x, y: offset.y.wrapping_sub(line_shift_y) };
            let layout = self.build_glyphs(&lines[k], line_start, quad, indices, extract);
            proof {
                let next = self@;
                lemma_caches_glyphs_compose(start, cur, next, lines_glyphs(lines@, k as int), lines@[k as int]@);
                lemma_outlines_taken_compose(start, cur, next, lines_glyphs(lines@, k as int), lines@[k as int]@, *extract);
                lemma_quad_indices_concat(first_quad, count, layout.quads@.len() as int);
                lemma_quad_number_add(first_quad, count, layout.quads@.len() as int);
                // the cache keeps what it held, so earlier lines keep their quads
                assert forall|l: int| 0 <= l < k implies line_quads(cur.glyphs, lines@, offset, line_distance, l)
                    == #[trigger] line_quads(next.glyphs, lines@, offset, line_distance, l) by {
                    assert forall|j: int| 0 <= j < lines@[l]@.len() implies cur.glyphs[glyph_key(#[trigger] lines@[l]@[j])]
                        == next.glyphs[glyph_key(lines@[l]@[j])] by {
                        assert(cur.glyphs.contains_key(glyph_key(lines@[l]@[j])));
                    }
                    lemma_text_quads_agree(cur.glyphs, next.glyphs, lines@[l]@, line_offset(offset, line_distance, l), lines@[l]@.len() as int);
                }
                lemma_lines_bounds_agree(cur.glyphs, next.glyphs, lines@, offset, line_distance, k as int);
                assert forall|j: int| 0 <= j < lines@[k as int]@.len() implies next.glyphs.contains_key(
                    glyph_key(#[trigger] lines@[k as int]@[j])) by {
                    assert(glyph_key(lines@[k as int]@[j]) == glyph_key(lines@[k as int]@[j]));
                }
                assert(lines_glyphs(lines@, k + 1) == lines_glyphs(lines@, k as int) + lines@[k as int]@);
            }
            if k == 0 {
                first_line_rect = layout.result.rect;
            }
            total_rect = bounds_union_opt(total_rect, layout.result.rect);
            last_offset = layout.result.end_offset;
            if layout.result.new_glyphs {
                new_glyphs = true;
            }
            quad = layout.next_quad;
            line_shift_y = line_shift_y.wrapping_add(line_distance);
            let ghost pushed = layout;
            let ghost old_layouts = layouts@;
            layouts.push(layout);
            proof {
                assert(layouts@[k as int] == pushed);
                lemma_layouts_quad_count_prefix(layouts@, old_layouts, k as int);
                assert(layouts_quad_count(layouts@, k + 1) == count + pushed.quads@.len());
                assert(indices@ =~= old(indices)@ + quad_indices(first_quad, count + pushed.quads@.len()));
                assert forall|l: int| 0 <= l < k + 1 implies (#[trigger] layouts@[l]).quads@ == line_quads(
                        self@.glyphs, lines@, offset, line_distance, l) && layouts@[l].result.rect == quads_bounds(layouts@[l].quads@)
                        && layouts@[l].result.end_offset == glyph_cursor(
                        lines@[l]@, line_offset(offset, line_distance, l), lines@[l]@.len() as int) by {
                    if l < k {
                        assert(layouts@[l] == old_layouts[l]);
                    }
                }
            }
            k = k + 1;
        }
        proof {
            lemma_new_glyphs_iff_log_grows(start, self@, lines_glyphs(lines@, lines.len() as int));
            assert forall|l: int, j: int|
                0 <= l < lines.len() && 0 <= j < lines@[l]@.len() implies self@.glyphs.contains_key(
                    #[trigger] lines@[l]@[j].glyph_id as u16,
                ) by {
                assert(glyph_key(lines@[l]@[j]) == lines@[l]@[j].glyph_id as u16);
            }
        }
        MultilineLayout {
            result: MultilineBuildResult {
                first_line_rect,
                total: TextBuildResult { end_offset: last_offset, rect: total_rect, new_glyphs },
            },
            lines: layouts,
            next_quad: quad,
        }
    }
}


} // verus!
