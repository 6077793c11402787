use vstd::prelude::*;

use crate::bands::{band_list, band_list_correct, build_glyph_bands, glyph_bands_correct};
use crate::{
    BandTexel, CurveRecord, CurveTexel, GlyphOutline, ProcessedGlyphData, BAND_HEADER_COUNT,
    TEX_WIDTH,
};

verus! {

/// A texel of four zero words, as texture rows are allocated
pub open spec fn zero_texel() -> [u32; 4] {
    [0u32, 0u32, 0u32, 0u32]
}

/// Texel `t` of the curve data of a glyph: every curve takes two texels,
/// `(p0x, p0y, p1x, p1y)` and `(p2x, p2y, 0, 0)`.
pub open spec fn curve_texel(curves: Seq<CurveRecord>, t: int) -> [u32; 4] {
    let c = curves[t / 2];
    if t % 2 == 0 {
        [c.p0x, c.p0y, c.p1x, c.p1y]
    } else {
        [c.p2x, c.p2y, 0u32, 0u32]
    }
}

/// Offset, from the glyph's location in the band texture, of the curve list
/// of band `i`: the lists follow the headers, one after the other.
pub open spec fn band_offset(curves: Seq<CurveRecord>, i: int) -> int
    decreases i,
{
    if i <= 0 {
        BAND_HEADER_COUNT as int
    } else {
        band_offset(curves, i - 1) + band_list(curves, i - 1).len()
    }
}

/// Number of band texels that a glyph takes: its headers and its lists
pub open spec fn band_block_len(curves: Seq<CurveRecord>) -> int {
    band_offset(curves, BAND_HEADER_COUNT as int)
}

/// Header texel of band `i`: `(curveCount, offsetFromGlyphLoc, 0, 0)`
pub open spec fn band_header(curves: Seq<CurveRecord>, i: int) -> [u32; 4] {
    [band_list(curves, i).len() as u32, band_offset(curves, i) as u32, 0u32, 0u32]
}

/// Curve reference texel: `(curveTexX, curveTexY, 0, 0)` of the first texel of
/// a curve in the curve texture
pub open spec fn curve_ref_texel(curve_texel_index: int) -> [u32; 4] {
    [
        (curve_texel_index % TEX_WIDTH as int) as u32,
        (curve_texel_index / TEX_WIDTH as int) as u32,
        0u32,
        0u32,
    ]
}

/// Where the band data of the next glyph starts when `used` band texels are
/// taken: right there, or at the start of the next row where the headers
/// would straddle the row boundary.
pub open spec fn band_glyph_start(used: int) -> int {
    if used % TEX_WIDTH as int + BAND_HEADER_COUNT > TEX_WIDTH {
        (used / TEX_WIDTH as int + 1) * TEX_WIDTH
    } else {
        used
    }
}

/// Height in rows of a texture whose first `used` texels are taken
pub open spec fn height_for(used: int) -> int {
    used / TEX_WIDTH as int + 1
}

/// A texture of `height` rows of 16-byte texels stays within `isize::MAX`
/// bytes, the limit of a `Vec`.
pub open spec fn height_within_limit(height: int) -> bool {
    TEX_WIDTH * height * 16 <= isize::MAX
}

/// Mathematical model of the two textures
pub struct TextureView {
    pub curve_data: Seq<CurveTexel>,
    pub band_data: Seq<BandTexel>,
    pub curve_height: int,
    pub band_height: int,
    /// Texels of the curve texture taken by the glyphs processed so far
    pub curve_used: int,
    /// Texels of the band texture taken by the glyphs processed so far
    pub band_used: int,
    /// The curves of the glyphs processed so far, in order
    pub glyph_log: Seq<Seq<CurveRecord>>,
}

/// The textures before any glyph
pub open spec fn empty_textures() -> TextureView {
    TextureView {
        curve_data: Seq::empty(),
        band_data: Seq::empty(),
        curve_height: 0,
        band_height: 0,
        curve_used: 0,
        band_used: 0,
        glyph_log: Seq::empty(),
    }
}

/// The textures after writing a glyph with these curves to `v`: the one
/// state that `glyph_written` admits (see `lemma_glyph_written_unique`)
pub open spec fn write_glyph(v: TextureView, curves: Seq<CurveRecord>) -> TextureView {
    choose|next: TextureView| v.glyph_written(next, curves)
}

/// The textures after writing the glyphs of `log`, one after the other, to
/// empty textures
pub open spec fn textures_of_log(log: Seq<Seq<CurveRecord>>) -> TextureView
    decreases log.len(),
{
    if log.len() == 0 {
        empty_textures()
    } else {
        write_glyph(textures_of_log(log.drop_last()), log.last())
    }
}

/// Every offset from the first band list on to the end of a glyph's band
/// block lies in one of its band lists.
pub proof fn lemma_band_position_covered(curves: Seq<CurveRecord>, r: int, i: int)
    requires
        0 <= i <= BAND_HEADER_COUNT,
        band_offset(curves, i) <= r < band_block_len(curves),
    ensures
        exists|k: int|
            i <= k < BAND_HEADER_COUNT && #[trigger] band_offset(curves, k) <= r < band_offset(curves, k)
                + band_list(curves, k).len(),
    decreases BAND_HEADER_COUNT - i,
{
    if i < BAND_HEADER_COUNT {
        if r < band_offset(curves, i + 1) {
            assert(band_offset(curves, i) <= r < band_offset(curves, i) + band_list(curves, i).len());
        } else {
            lemma_band_position_covered(curves, r, i + 1);
        }
    }
}

impl TextureView {
    /// Each texture holds `TEX_WIDTH * height` texels, its height is the
    /// smallest that holds one texel more than it uses (or 0 before the first
    /// glyph), and every texel past the used ones is zero.
    pub open spec fn wf(self) -> bool {
        &&& self.curve_data.len() == TEX_WIDTH * self.curve_height
        &&& self.band_data.len() == TEX_WIDTH * self.band_height
        &&& (self.curve_height == 0 && self.curve_used == 0) || (self.curve_used >= 0
            && self.curve_height == height_for(self.curve_used))
        &&& (self.band_height == 0 && self.band_used == 0) || (self.band_used >= 0
            && self.band_height == height_for(self.band_used))
        &&& height_within_limit(self.curve_height)
        &&& height_within_limit(self.band_height)
        &&& forall|t: int|
            self.curve_used <= t < self.curve_data.len() ==> #[trigger] self.curve_data[t]
                == zero_texel()
        &&& forall|t: int|
            self.band_used <= t < self.band_data.len() ==> #[trigger] self.band_data[t]
                == zero_texel()
    }

    /// `next` keeps every texel that `self` used, and uses at least as many.
    pub open spec fn extends(self, next: Self) -> bool {
        &&& self.curve_used <= next.curve_used
        &&& self.band_used <= next.band_used
        &&& self.curve_used <= next.curve_data.len()
        &&& self.band_used <= next.band_data.len()
        &&& forall|t: int| 0 <= t < self.curve_used ==> #[trigger] next.curve_data[t] == self.curve_data[t]
        &&& forall|t: int| 0 <= t < self.band_used ==> #[trigger] next.band_data[t] == self.band_data[t]
    }

    /// A well formed model extends itself.
    pub proof fn lemma_extends_refl(self)
        requires
            self.wf(),
        ensures
            self.extends(self),
    {
        lemma_used_within(self);
    }

    /// Extending is transitive.
    pub proof fn lemma_extends_trans(self, b: Self, c: Self)
        requires
            self.extends(b),
            b.extends(c),
        ensures
            self.extends(c),
    {
    }

    /// Writing a glyph keeps what was written before: the textures only grow.
    pub proof fn lemma_glyph_written_extends(self, next: Self, curves: Seq<CurveRecord>)
        requires
            self.wf(),
            self.glyph_written(next, curves),
        ensures
            self.extends(next),
    {
        lemma_used_within(self);
        lemma_band_glyph_start(self.band_used);
        lemma_band_offset_mono(curves, 0, BAND_HEADER_COUNT as int);
        lemma_height_facts(next.curve_used);
        lemma_height_facts(next.band_used);
        assert forall|t: int| 0 <= t < self.curve_used implies #[trigger] next.curve_data[t] == self.curve_data[t] by {
            assert(next.curve_data[t] == self.curve_data[t]);
        }
        assert forall|t: int| 0 <= t < self.band_used implies #[trigger] next.band_data[t] == self.band_data[t] by {
            assert(next.band_data[t] == self.band_data[t]);
        }
    }

    /// The textures hold a glyph with these curves at band location `loc`
    /// (`band_loc_y * TEX_WIDTH + band_loc_x`), its curve texels from
    /// `curve_start` on: its curve texels, its band headers and its band
    /// lists, within the used texels.
    pub open spec fn holds_glyph(self, loc: int, curves: Seq<CurveRecord>, curve_start: int) -> bool {
        &&& 0 <= curve_start
        &&& curve_start + 2 * curves.len() <= self.curve_used
        &&& 0 <= loc
        &&& loc + band_block_len(curves) <= self.band_used
        &&& forall|t: int|
            0 <= t < 2 * curves.len() ==> #[trigger] self.curve_data[curve_start + t] == curve_texel(
                curves,
                t,
            )
        &&& forall|i: int|
            0 <= i < BAND_HEADER_COUNT ==> self.band_data[loc + i] == #[trigger] band_header(curves, i)
        &&& forall|i: int, j: int|
            0 <= i < BAND_HEADER_COUNT && 0 <= j < band_list(curves, i).len() ==> self.band_data[loc
                + band_offset(curves, i) + j] == curve_ref_texel(
                curve_start + 2 * #[trigger] band_list(curves, i)[j],
            )
        &&& forall|b: int|
            0 <= b < BAND_HEADER_COUNT ==> band_list_correct(curves, b, #[trigger] band_list(curves, b))
    }

    /// Writing a glyph leads to one state only: the textures after a glyph
    /// are determined by the textures before and the glyph's curves.
    pub proof fn lemma_glyph_written_unique(self, n1: Self, n2: Self, curves: Seq<CurveRecord>)
        requires
            self.wf(),
            self.glyph_written(n1, curves),
            self.glyph_written(n2, curves),
        ensures
            n1 == n2,
    {
        let g = band_glyph_start(self.band_used);
        lemma_band_offset_mono(curves, 0, BAND_HEADER_COUNT as int);
        assert(n1.curve_data =~= n2.curve_data) by {
            assert forall|t: int| 0 <= t < n1.curve_data.len() implies n1.curve_data[t] == n2.curve_data[t] by {
                assert(n1.curve_data[t] == n2.curve_data[t]);
            }
        }
        assert(n1.band_data =~= n2.band_data) by {
            assert forall|t: int| 0 <= t < n1.band_data.len() implies n1.band_data[t] == n2.band_data[t] by {
                if g <= t < g + BAND_HEADER_COUNT {
                    assert(n1.band_data[g + (t - g)] == band_header(curves, t - g));
                    assert(n2.band_data[g + (t - g)] == band_header(curves, t - g));
                } else if g + BAND_HEADER_COUNT <= t < g + band_block_len(curves) {
                    assert(band_offset(curves, 0) == BAND_HEADER_COUNT);
                    lemma_band_position_covered(curves, t - g, 0);
                    let k = choose|k: int|
                        0 <= k < BAND_HEADER_COUNT && #[trigger] band_offset(curves, k) <= t - g < band_offset(
                            curves,
                            k,
                        ) + band_list(curves, k).len();
                    let j = t - g - band_offset(curves, k);
                    assert(n1.band_data[g + band_offset(curves, k) + j] == curve_ref_texel(
                        self.curve_used + 2 * band_list(curves, k)[j]));
                    assert(n2.band_data[g + band_offset(curves, k) + j] == curve_ref_texel(
                        self.curve_used + 2 * band_list(curves, k)[j]));
                } else {
                    assert(n1.band_data[t] == n2.band_data[t]);
                }
            }
        }
    }

    /// A glyph just written is held at its band location.
    pub proof fn lemma_glyph_written_holds(self, next: Self, curves: Seq<CurveRecord>)
        requires
            self.wf(),
            self.glyph_written(next, curves),
            forall|b: int|
                0 <= b < BAND_HEADER_COUNT ==> band_list_correct(curves, b, #[trigger] band_list(curves, b)),
        ensures
            next.holds_glyph(band_glyph_start(self.band_used), curves, self.curve_used),
    {
        lemma_used_within(self);
        lemma_band_glyph_start(self.band_used);
        lemma_band_offset_mono(curves, 0, BAND_HEADER_COUNT as int);
        assert forall|t: int| 0 <= t < 2 * curves.len() implies #[trigger] next.curve_data[self.curve_used + t]
            == curve_texel(curves, t) by {
            lemma_height_facts(next.curve_used);
            assert(next.curve_data[self.curve_used + t] == curve_texel(curves, self.curve_used + t - self.curve_used));
        }
    }

    /// A glyph held stays held as the textures are extended.
    pub proof fn lemma_holds_glyph_extends(self, next: Self, loc: int, curves: Seq<CurveRecord>, curve_start: int)
        requires
            self.holds_glyph(loc, curves, curve_start),
            self.extends(next),
        ensures
            next.holds_glyph(loc, curves, curve_start),
    {
        lemma_band_offset_mono(curves, 0, BAND_HEADER_COUNT as int);
        assert forall|t: int| 0 <= t < 2 * curves.len() implies #[trigger] next.curve_data[curve_start + t]
            == curve_texel(curves, t) by {
            assert(next.curve_data[curve_start + t] == self.curve_data[curve_start + t]);
        }
        assert forall|i: int| 0 <= i < BAND_HEADER_COUNT implies next.band_data[loc + i] == #[trigger] band_header(curves, i) by {
            assert(next.band_data[loc + i] == self.band_data[loc + i]);
        }
        assert forall|i: int, j: int|
            0 <= i < BAND_HEADER_COUNT && 0 <= j < band_list(curves, i).len() implies next.band_data[loc
                + band_offset(curves, i) + j] == curve_ref_texel(
                curve_start + 2 * #[trigger] band_list(curves, i)[j],
            ) by {
            lemma_band_offset_mono(curves, i + 1, BAND_HEADER_COUNT as int);
            lemma_band_offset_mono(curves, 0, i);
            assert(band_offset(curves, i + 1) == band_offset(curves, i) + band_list(curves, i).len());
            assert(loc + band_offset(curves, i) + j < self.band_used);
            assert(next.band_data[loc + band_offset(curves, i) + j] == self.band_data[loc + band_offset(curves, i) + j]);
        }
    }

    /// Adding a glyph with these curves keeps both textures within `isize::MAX`
    /// bytes and its band location within 16-bit rows.
    pub open spec fn glyph_fits(self, curves: Seq<CurveRecord>) -> bool {
        &&& height_within_limit(height_for(self.curve_used + 2 * curves.len()))
        &&& height_within_limit(
            height_for(band_glyph_start(self.band_used) + band_block_len(curves)),
        )
        &&& band_glyph_start(self.band_used) / TEX_WIDTH as int <= u16::MAX
    }

    /// `next` is `self` after the curves of a glyph were appended to the curve
    /// texture, and its band headers and curve lists to the band texture.
    pub open spec fn glyph_written(self, next: Self, curves: Seq<CurveRecord>) -> bool {
        let c0 = self.curve_used;
        let n = curves.len() as int;
        let g = band_glyph_start(self.band_used);
        &&& next.glyph_log == self.glyph_log.push(curves)
        &&& next.curve_used == c0 + 2 * n
        &&& next.curve_height == height_for(next.curve_used)
        &&& next.curve_data.len() == TEX_WIDTH * next.curve_height
        &&& forall|t: int|
            0 <= t < next.curve_data.len() ==> #[trigger] next.curve_data[t] == if c0 <= t < c0 + 2
                * n {
                curve_texel(curves, t - c0)
            } else if t < self.curve_data.len() {
                self.curve_data[t]
            } else {
                zero_texel()
            }
        &&& next.band_used == g + band_block_len(curves)
        &&& next.band_height == height_for(next.band_used)
        &&& next.band_data.len() == TEX_WIDTH * next.band_height
        &&& forall|i: int|
            0 <= i < BAND_HEADER_COUNT ==> next.band_data[g + i] == #[trigger] band_header(
                curves,
                i,
            )
        &&& forall|i: int, j: int|
            0 <= i < BAND_HEADER_COUNT && 0 <= j < band_list(curves, i).len() ==> next.band_data[g
                + band_offset(curves, i) + j] == curve_ref_texel(
                c0 + 2 * #[trigger] band_list(curves, i)[j],
            )
        &&& forall|t: int|
            0 <= t < next.band_data.len() && !(g <= t < g + band_block_len(curves))
                ==> #[trigger] next.band_data[t] == if t < self.band_data.len() {
                self.band_data[t]
            } else {
                zero_texel()
            }
    }
}

/// Offsets of band lists grow with the band index, from the header count on.
pub proof fn lemma_band_offset_mono(curves: Seq<CurveRecord>, i: int, j: int)
    requires
        0 <= i <= j,
    ensures
        BAND_HEADER_COUNT <= band_offset(curves, i) <= band_offset(curves, j),
    decreases j,
{
    if j > i {
        lemma_band_offset_mono(curves, i, j - 1);
    } else if i > 0 {
        lemma_band_offset_mono(curves, 0, i - 1);
    }
}

/// The used texels lie within the textures.
proof fn lemma_used_within(v: TextureView)
    requires
        v.wf(),
    ensures
        v.curve_used <= v.curve_data.len(),
        v.band_used <= v.band_data.len(),
        v.curve_used >= 0,
        v.band_used >= 0,
{
    if v.curve_height != 0 {
        lemma_height_facts(v.curve_used);
    }
    if v.band_height != 0 {
        lemma_height_facts(v.band_used);
    }
}

proof fn lemma_height_facts(used: int)
    requires
        used >= 0,
    ensures
        used < TEX_WIDTH * height_for(used),
        height_for(used) >= 1,
{
    assert(used < TEX_WIDTH * height_for(used)) by (nonlinear_arith)
        requires
            used >= 0,
    ;
}

proof fn lemma_height_limit(height: int)
    requires
        height >= 0,
    ensures
        height_within_limit(height) <==> height <= (isize::MAX as int) / (TEX_WIDTH as int * 16),
{
    let m = isize::MAX as int;
    let d = TEX_WIDTH as int * 16;
    vstd::arithmetic::div_mod::lemma_fundamental_div_mod(m, d);
    assert(TEX_WIDTH * height * 16 == d * height);
    if height <= m / d {
        vstd::arithmetic::mul::lemma_mul_inequality(height, m / d, d);
        vstd::arithmetic::mul::lemma_mul_is_commutative(height, d);
        vstd::arithmetic::mul::lemma_mul_is_commutative(m / d, d);
    } else {
        vstd::arithmetic::mul::lemma_mul_inequality(m / d + 1, height, d);
        vstd::arithmetic::mul::lemma_mul_is_commutative(height, d);
        vstd::arithmetic::mul::lemma_mul_is_distributive_add_other_way(d, m / d, 1);
    }
}

proof fn lemma_height_mono(a: int, b: int)
    requires
        0 <= a <= b,
    ensures
        height_for(a) <= height_for(b),
{
    vstd::arithmetic::div_mod::lemma_div_is_ordered(a, b, TEX_WIDTH as int);
}

pub proof fn lemma_band_glyph_start(used: int)
    requires
        used >= 0,
    ensures
        used <= band_glyph_start(used),
        band_glyph_start(used) % TEX_WIDTH as int + BAND_HEADER_COUNT <= TEX_WIDTH,
        band_glyph_start(used) < used + TEX_WIDTH,
{
    let w = TEX_WIDTH as int;
    vstd::arithmetic::div_mod::lemma_fundamental_div_mod(used, w);
    if used % w + BAND_HEADER_COUNT > w {
        vstd::arithmetic::div_mod::lemma_mod_multiples_basic(used / w + 1, w);
    }
}

/// A glyph whose band data takes at most 2^20 texels, with at most 2^20
/// curves, fits textures that use at most 2^20 texels of each kind, wherever
/// in its band row it lands: only its 16 headers must stay in one row, its
/// curve lists may run on into the next.
pub proof fn lemma_small_glyph_fits(v: TextureView, curves: Seq<CurveRecord>)
    requires
        0 <= v.curve_used <= 0x10_0000,
        0 <= v.band_used <= 0x10_0000,
        curves.len() <= 0x10_0000,
        band_block_len(curves) <= 0x10_0000,
    ensures
        v.glyph_fits(curves),
{
    let w = TEX_WIDTH as int;
    lemma_band_glyph_start(v.band_used);
    lemma_band_offset_mono(curves, 0, BAND_HEADER_COUNT as int);
    let c = v.curve_used + 2 * curves.len();
    let g = band_glyph_start(v.band_used);
    let b = g + band_block_len(curves);
    assert(0 <= c <= 0x40_0000);
    assert(0 <= b <= 0x40_0000);
    vstd::arithmetic::div_mod::lemma_div_is_ordered(c, 0x40_0000, w);
    vstd::arithmetic::div_mod::lemma_div_is_ordered(b, 0x40_0000, w);
    vstd::arithmetic::div_mod::lemma_div_is_ordered(g, 0x40_0000, w);
    assert(0x40_0000int / w == 1024);
    vstd::arithmetic::div_mod::lemma_div_pos_is_pos(c, w);
    vstd::arithmetic::div_mod::lemma_div_pos_is_pos(b, w);
    lemma_height_limit(height_for(c));
    lemma_height_limit(height_for(b));
    assert((0x7FFF_FFFFint) / (w * 16) == 32767);
    vstd::arithmetic::div_mod::lemma_div_is_ordered(0x7FFF_FFFFint, isize::MAX as int, w * 16);
}

/// Curve and band texture storage: extracts band lists from glyph curves and
/// appends both to the textures.
#[derive(Clone)]
pub struct SlugGlyphProcessor {
    curve_tex_data: Vec<CurveTexel>,
    band_tex_data: Vec<BandTexel>,
    total_curve_texels: usize,
    curve_tex_height: usize,
    total_band_texels: usize,
    band_tex_height: usize,
    curve_texel_i: usize,
    band_texel_i: usize,
    glyph_log: Ghost<Seq<Seq<CurveRecord>>>,
}

impl View for SlugGlyphProcessor {
    type V = TextureView;

    closed spec fn view(&self) -> TextureView {
        TextureView {
            curve_data: self.curve_tex_data@,
            band_data: self.band_tex_data@,
            curve_height: self.curve_tex_height as int,
            band_height: self.band_tex_height as int,
            curve_used: self.curve_texel_i as int,
            band_used: self.band_texel_i as int,
            glyph_log: self.glyph_log@,
        }
    }
}

/// Appends `count` zero texels to `data`.
fn push_zero_texels(data: &mut Vec<[u32; 4]>, count: usize)
    ensures
        final(data)@.len() == old(data)@.len() + count,
        forall|t: int| 0 <= t < old(data)@.len() ==> #[trigger] final(data)@[t] == old(data)@[t],
        forall|t: int|
            old(data)@.len() <= t < final(data)@.len() ==> #[trigger] final(data)@[t]
                == zero_texel(),
{
    let mut k: usize = 0;
    while k < count
        invariant
            k <= count,
            data@.len() == old(data)@.len() + k,
            forall|t: int| 0 <= t < old(data)@.len() ==> #[trigger] data@[t] == old(data)@[t],
            forall|t: int| old(data)@.len() <= t < data@.len() ==> #[trigger] data@[t] == zero_texel(),
        decreases count - k,
    {
        data.push([0u32, 0u32, 0u32, 0u32]);
        k = k + 1;
    }
}

impl SlugGlyphProcessor {
    /// The fields agree with each other: the reserved totals are the used
    /// texels, and the model is well formed.
    pub closed spec fn inv(&self) -> bool {
        &&& self.fields_agree()
        &&& self@ == textures_of_log(self@.glyph_log)
    }

    /// The reserved totals are the used texels, and the model is well formed.
    closed spec fn fields_agree(&self) -> bool {
        &&& self@.wf()
        &&& self.total_curve_texels == self.curve_texel_i
        &&& self.total_band_texels == self.band_texel_i
    }

    /// The model of a processor that keeps its invariant is well formed, and
    /// is what writing the glyphs of its log, in order, to empty textures
    /// gives.
    pub proof fn lemma_inv_wf(&self)
        requires
            self.inv(),
        ensures
            self@.wf(),
            self@ == textures_of_log(self@.glyph_log),
    {
    }

    /// Initialize an empty processor
    pub fn new() -> (p: Self)
        ensures
            p.inv(),
            p@.curve_data.len() == 0,
            p@.band_data.len() == 0,
            p@.curve_height == 0,
            p@.band_height == 0,
            p@.curve_used == 0,
            p@.band_used == 0,
            p@ == empty_textures(),
    {
        SlugGlyphProcessor {
            curve_tex_data: Vec::new(),
            band_tex_data: Vec::new(),
            total_curve_texels: 0,
            curve_tex_height: 0,
            total_band_texels: 0,
            band_tex_height: 0,
            curve_texel_i: 0,
            band_texel_i: 0,
            glyph_log: Ghost(Seq::empty()),
        }
    }

    /// Control point / curves texture data
    ///
    /// Length will always be equal to TEX_WIDTH * curve_tex_height
    pub fn curve_tex_data(&self) -> (r: &Vec<CurveTexel>)
        ensures
            r@ == self@.curve_data,
    {
        &self.curve_tex_data
    }

    /// Band data texture data
    ///
    /// Length will always be equal to TEX_WIDTH * band_tex_height
    pub fn band_tex_data(&self) -> (r: &Vec<BandTexel>)
        ensures
            r@ == self@.band_data,
    {
        &self.band_tex_data
    }

    /// Height of Control point / curves texture in texels/pixels
    pub fn curve_tex_height(&self) -> (r: usize)
        ensures
            r == self@.curve_height,
    {
        self.curve_tex_height
    }

    /// Height of band data texture in texels/pixels
    pub fn band_tex_height(&self) -> (r: usize)
        ensures
            r == self@.band_height,
    {
        self.band_tex_height
    }

    /// Reserves the curve texels of a glyph with `curve_count` curves, growing
    /// the curve texture by zero rows where it needs more.
    fn expand_curve_data_new_glyph(&mut self, curve_count: usize)
        requires
            old(self).fields_agree(),
            height_within_limit(height_for(old(self).curve_texel_i + 2 * curve_count)),
        ensures
            final(self).total_curve_texels == old(self).total_curve_texels + 2 * curve_count,
            final(self).curve_tex_height == height_for(final(self).total_curve_texels as int),
            final(self).curve_tex_data@.len() == TEX_WIDTH * final(self).curve_tex_height,
            forall|t: int|
                0 <= t < old(self).curve_tex_data@.len() ==> #[trigger] final(self).curve_tex_data@[t]
                    == old(self).curve_tex_data@[t],
            forall|t: int|
                old(self).curve_tex_data@.len() <= t < final(self).curve_tex_data@.len()
                    ==> #[trigger] final(self).curve_tex_data@[t] == zero_texel(),
            final(self).curve_texel_i == old(self).curve_texel_i,
            final(self).band_tex_data == old(self).band_tex_data,
            final(self).total_band_texels == old(self).total_band_texels,
            final(self).band_tex_height == old(self).band_tex_height,
            final(self).band_texel_i == old(self).band_texel_i,
            final(self).glyph_log == old(self).glyph_log,
    {
        proof {
            lemma_height_facts(self.curve_texel_i + 2 * curve_count);
            lemma_height_mono(self.curve_texel_i as int, self.curve_texel_i + 2 * curve_count);
        }
        self.total_curve_texels = self.total_curve_texels + curve_count * 2;
        let new_curve_tex_height = (self.total_curve_texels / TEX_WIDTH) + 1;
        if new_curve_tex_height > self.curve_tex_height {
            let expand_len = TEX_WIDTH * (new_curve_tex_height - self.curve_tex_height);
            push_zero_texels(&mut self.curve_tex_data, expand_len);
            self.curve_tex_height = new_curve_tex_height;
        }
    }

    /// Reserves the band texels of a glyph with these band lists: padding to
    /// the next row where the headers would straddle a row boundary, the
    /// headers and the lists. Grows the band texture by zero rows where it
    /// needs more.
    fn expand_band_data_new_glyph(
        &mut self,
        glyph_band_curve_indices: &Vec<Vec<usize>>,
        Ghost(curves): Ghost<Seq<CurveRecord>>,
    )
        requires
            old(self).fields_agree(),
            glyph_bands_correct(curves, glyph_band_curve_indices@),
            height_within_limit(
                height_for(band_glyph_start(old(self).band_texel_i as int) + band_block_len(curves)),
            ),
        ensures
            final(self).total_band_texels == band_glyph_start(old(self).band_texel_i as int)
                + band_block_len(curves),
            final(self).band_tex_height == height_for(final(self).total_band_texels as int),
            final(self).band_tex_data@.len() == TEX_WIDTH * final(self).band_tex_height,
            forall|t: int|
                0 <= t < old(self).band_tex_data@.len() ==> #[trigger] final(self).band_tex_data@[t]
                    == old(self).band_tex_data@[t],
            forall|t: int|
                old(self).band_tex_data@.len() <= t < final(self).band_tex_data@.len()
                    ==> #[trigger] final(self).band_tex_data@[t] == zero_texel(),
            final(self).band_texel_i == old(self).band_texel_i,
            final(self).curve_tex_data == old(self).curve_tex_data,
            final(self).total_curve_texels == old(self).total_curve_texels,
            final(self).curve_tex_height == old(self).curve_tex_height,
            final(self).curve_texel_i == old(self).curve_texel_i,
            final(self).glyph_log == old(self).glyph_log,
    {
        let ghost g = band_glyph_start(self.band_texel_i as int);
        proof {
            lemma_band_glyph_start(self.band_texel_i as int);
            lemma_band_offset_mono(curves, 0, BAND_HEADER_COUNT as int);
            lemma_height_facts(g + band_block_len(curves));
            lemma_height_mono(self.band_texel_i as int, g + band_block_len(curves));
            vstd::arithmetic::div_mod::lemma_fundamental_div_mod(
                self.total_band_texels as int,
                TEX_WIDTH as int,
            );
        }
        let header_count = glyph_band_curve_indices.len();
        // Pad to avoid header wrapping at row boundary
        let padded = TEX_WIDTH - (self.total_band_texels % TEX_WIDTH);
        if padded < header_count && padded < TEX_WIDTH {
            self.total_band_texels = self.total_band_texels + padded;
        }
        self.total_band_texels = self.total_band_texels + header_count;
        let mut i: usize = 0;
        while i < glyph_band_curve_indices.len()
            invariant
                i <= BAND_HEADER_COUNT,
                glyph_band_curve_indices@.len() == BAND_HEADER_COUNT,
                glyph_bands_correct(curves, glyph_band_curve_indices@),
                self.total_band_texels == g + band_offset(curves, i as int),
                g + band_block_len(curves) < TEX_WIDTH * height_for(g + band_block_len(curves)),
                height_within_limit(height_for(g + band_block_len(curves))),
                self.band_tex_data == old(self).band_tex_data,
                self.band_tex_height == old(self).band_tex_height,
                self.band_texel_i == old(self).band_texel_i,
                self.curve_tex_data == old(self).curve_tex_data,
                self.total_curve_texels == old(self).total_curve_texels,
                self.curve_tex_height == old(self).curve_tex_height,
                self.curve_texel_i == old(self).curve_texel_i,
                self.glyph_log == old(self).glyph_log,
            decreases BAND_HEADER_COUNT - i,
        {
            proof {
                lemma_band_offset_mono(curves, i + 1, BAND_HEADER_COUNT as int);
                assert(glyph_band_curve_indices@[i as int]@ == band_list(curves, i as int));
            }
            self.total_band_texels = self.total_band_texels + glyph_band_curve_indices[i].len();
            i = i + 1;
        }
        let new_band_tex_height = (self.total_band_texels / TEX_WIDTH) + 1;
        if new_band_tex_height > self.band_tex_height {
            let expand_len = TEX_WIDTH * (new_band_tex_height - self.band_tex_height);
            push_zero_texels(&mut self.band_tex_data, expand_len);
            self.band_tex_height = new_band_tex_height;
        }
    }

    // Curve texture (RGBA32Float, width 4096):
    // each curve takes 2 texels, (p0x, p0y, p1x, p1y) and (p2x, p2y, 0, 0).
    fn write_curves_new_glyph(&mut self, curves: &Vec<CurveRecord>)
        requires
            old(self).fields_agree(),
            height_within_limit(height_for(old(self).curve_texel_i + 2 * curves.len())),
        ensures
            final(self).curve_texel_i == old(self).curve_texel_i + 2 * curves.len(),
            final(self).total_curve_texels == final(self).curve_texel_i,
            final(self).curve_tex_height == height_for(final(self).curve_texel_i as int),
            final(self).curve_tex_data@.len() == TEX_WIDTH * final(self).curve_tex_height,
            forall|t: int|
                0 <= t < final(self).curve_tex_data@.len() ==> #[trigger] final(self).curve_tex_data@[t]
                    == if old(self).curve_texel_i <= t < old(self).curve_texel_i + 2 * curves.len() {
                    curve_texel(curves@, t - old(self).curve_texel_i)
                } else if t < old(self).curve_tex_data@.len() {
                    old(self).curve_tex_data@[t]
                } else {
                    zero_texel()
                },
            final(self).band_tex_data == old(self).band_tex_data,
            final(self).total_band_texels == old(self).total_band_texels,
            final(self).band_tex_height == old(self).band_tex_height,
            final(self).band_texel_i == old(self).band_texel_i,
            final(self).glyph_log == old(self).glyph_log,
    {
        let ghost c0 = self.curve_texel_i as int;
        let ghost n = curves.len() as int;
        self.expand_curve_data_new_glyph(curves.len());
        let ghost before = self.curve_tex_data@;
        proof {
            lemma_height_facts(c0 + 2 * n);
        }
        let mut k: usize = 0;
        while k < curves.len()
            invariant
                k <= curves.len(),
                n == curves.len(),
                self.curve_texel_i == c0 + 2 * k,
                c0 + 2 * n < self.curve_tex_data@.len(),
                self.curve_tex_data@.len() == before.len(),
                self.curve_tex_data@.len() == TEX_WIDTH * self.curve_tex_height,
                height_within_limit(self.curve_tex_height as int),
                forall|t: int|
                    0 <= t < before.len() ==> #[trigger] self.curve_tex_data@[t] == if c0 <= t < c0
                        + 2 * k {
                        curve_texel(curves@, t - c0)
                    } else {
                        before[t]
                    },
                self.total_curve_texels == old(self).total_curve_texels + 2 * curves.len(),
                self.curve_tex_height == height_for(self.total_curve_texels as int),
                self.band_tex_data == old(self).band_tex_data,
                self.total_band_texels == old(self).total_band_texels,
                self.band_tex_height == old(self).band_tex_height,
                self.band_texel_i == old(self).band_texel_i,
                self.glyph_log == old(self).glyph_log,
            decreases curves.len() - k,
        {
            let c = curves[k];
            // Texel 0: (p0x, p0y, p1x, p1y)
            let i0 = self.curve_texel_i;
            self.curve_tex_data.set(i0, [c.p0x, c.p0y, c.p1x, c.p1y]);
            // Texel 1: (p2x, p2y, 0, 0)
            let i1 = self.curve_texel_i + 1;
            self.curve_tex_data.set(i1, [c.p2x, c.p2y, 0u32, 0u32]);
            proof {
                assert((2 * k) / 2 == k as int && (2 * k) % 2 == 0);
                assert((2 * k + 1) / 2 == k as int && (2 * k + 1) % 2 == 1);
            }
            self.curve_texel_i = self.curve_texel_i + 2;
            k = k + 1;
        }
    }

    // Band texture (RGBA32Uint, width 4096).
    // Per glyph: [hBand headers...] [vBand headers...] [curve index lists...]
    // Each header texel: (curveCount, offsetFromGlyphLoc, 0, 0)
    // Each curve ref texel: (curveTexX, curveTexY, 0, 0)
    //
    // Returns the glyph's location in the band texture.
    fn write_bands_new_glyph(
        &mut self,
        glyph_curve_start_i: usize,
        glyph_band_curve_indices: &Vec<Vec<usize>>,
        Ghost(curves): Ghost<Seq<CurveRecord>>,
    ) -> (loc: (u16, u16))
        requires
            old(self).fields_agree(),
            glyph_bands_correct(curves, glyph_band_curve_indices@),
            glyph_curve_start_i + 2 * curves.len() <= usize::MAX,
            height_within_limit(
                height_for(band_glyph_start(old(self).band_texel_i as int) + band_block_len(curves)),
            ),
            band_glyph_start(old(self).band_texel_i as int) / TEX_WIDTH as int <= u16::MAX,
        ensures
            ({
                let g = band_glyph_start(old(self).band_texel_i as int);
                &&& loc.0 == g % TEX_WIDTH as int
                &&& loc.1 == g / TEX_WIDTH as int
                &&& final(self).band_texel_i == g + band_block_len(curves)
                &&& final(self).total_band_texels == final(self).band_texel_i
                &&& final(self).band_tex_height == height_for(final(self).band_texel_i as int)
                &&& final(self).band_tex_data@.len() == TEX_WIDTH * final(self).band_tex_height
                &&& forall|i: int|
                    0 <= i < BAND_HEADER_COUNT ==> final(self).band_tex_data@[g + i]
                        == #[trigger] band_header(curves, i)
                &&& forall|i: int, j: int|
                    0 <= i < BAND_HEADER_COUNT && 0 <= j < band_list(curves, i).len()
                        ==> final(self).band_tex_data@[g + band_offset(curves, i) + j]
                        == curve_ref_texel(
                        glyph_curve_start_i + 2 * #[trigger] band_list(curves, i)[j],
                    )
                &&& forall|t: int|
                    0 <= t < final(self).band_tex_data@.len() && !(g <= t < g + band_block_len(
                        curves,
                    )) ==> #[trigger] final(self).band_tex_data@[t] == if t < old(
                        self,
                    ).band_tex_data@.len() {
                        old(self).band_tex_data@[t]
                    } else {
                        zero_texel()
                    }
            }),
            final(self).curve_tex_data == old(self).curve_tex_data,
            final(self).total_curve_texels == old(self).total_curve_texels,
            final(self).curve_tex_height == old(self).curve_tex_height,
            final(self).curve_texel_i == old(self).curve_texel_i,
            final(self).glyph_log == old(self).glyph_log,
    {
        let ghost g = band_glyph_start(self.band_texel_i as int);
        let ghost old_len = self.band_tex_data@.len();
        self.expand_band_data_new_glyph(glyph_band_curve_indices, Ghost(curves));
        let ghost before = self.band_tex_data@;
        let ghost total = g + band_block_len(curves);
        proof {
            lemma_band_glyph_start(self.band_texel_i as int);
            lemma_height_facts(total);
            lemma_band_offset_mono(curves, 0, BAND_HEADER_COUNT as int);
            vstd::arithmetic::div_mod::lemma_fundamental_div_mod(
                self.band_texel_i as int,
                TEX_WIDTH as int,
            );
        }
        let header_count = glyph_band_curve_indices.len();

        // Ensure headers don't straddle a row boundary
        let mut band_loc_x = self.band_texel_i % TEX_WIDTH;
        let mut band_loc_y = self.band_texel_i / TEX_WIDTH;
        if band_loc_x + header_count > TEX_WIDTH {
            band_loc_x = 0;
            band_loc_y = band_loc_y + 1;
            self.band_texel_i = band_loc_y * TEX_WIDTH;
            proof {
                vstd::arithmetic::div_mod::lemma_mod_multiples_basic(band_loc_y as int, TEX_WIDTH as int);
                vstd::arithmetic::div_mod::lemma_div_multiples_vanish(band_loc_y as int, TEX_WIDTH as int);
            }
        }
        assert(self.band_texel_i == g);
        assert(band_loc_x == g % TEX_WIDTH as int && band_loc_y == g / TEX_WIDTH as int);

        // Write band headers
        let mut curve_list_offset = header_count;
        let mut i: usize = 0;
        while i < glyph_band_curve_indices.len()
            invariant
                i <= BAND_HEADER_COUNT,
                header_count == BAND_HEADER_COUNT,
                glyph_band_curve_indices@.len() == BAND_HEADER_COUNT,
                glyph_bands_correct(curves, glyph_band_curve_indices@),
                glyph_curve_start_i + 2 * curves.len() <= usize::MAX,
                self.band_texel_i == g,
                curve_list_offset == band_offset(curves, i as int),
                total < self.band_tex_data@.len(),
                self.band_tex_data@.len() == before.len(),
                self.band_tex_data@.len() <= usize::MAX,
                total == g + band_block_len(curves),
                forall|k: int|
                    0 <= k < i ==> self.band_tex_data@[g + k] == #[trigger] band_header(curves, k),
                forall|k: int, j: int|
                    0 <= k < i && 0 <= j < band_list(curves, k).len() ==> self.band_tex_data@[g
                        + band_offset(curves, k) + j] == curve_ref_texel(
                        glyph_curve_start_i + 2 * #[trigger] band_list(curves, k)[j],
                    ),
                forall|t: int|
                    0 <= t < before.len() && !(g <= t < g + i) && !(g + BAND_HEADER_COUNT <= t < g
                        + band_offset(curves, i as int)) ==> #[trigger] self.band_tex_data@[t]
                        == before[t],
                self.total_band_texels == total,
                self.band_tex_height == height_for(total),
                self.band_tex_data@.len() == TEX_WIDTH * self.band_tex_height,
                self.curve_tex_data == old(self).curve_tex_data,
                self.total_curve_texels == old(self).total_curve_texels,
                self.curve_tex_height == old(self).curve_tex_height,
                self.curve_texel_i == old(self).curve_texel_i,
                self.glyph_log == old(self).glyph_log,
            decreases BAND_HEADER_COUNT - i,
        {
            let band_indices = &glyph_band_curve_indices[i];
            proof {
                assert(band_indices@ == band_list(curves, i as int));
                lemma_band_offset_mono(curves, i + 1, BAND_HEADER_COUNT as int);
                lemma_band_offset_mono(curves, 0, i as int);
                assert(band_list_correct(curves, i as int, band_indices@));
            }
            let ghost prev = self.band_tex_data@;
            let texel_offset = self.band_texel_i + i;
            // header texel: (curveCount, offsetFromGlyphLoc, 0, 0)
            self.band_tex_data.set(
                texel_offset,
                [band_indices.len() as u32, curve_list_offset as u32, 0u32, 0u32],
            );
            let ghost mid = self.band_tex_data@;

            // Write curve ref texels
            let list_start = self.band_texel_i + curve_list_offset;
            let mut j: usize = 0;
            while j < band_indices.len()
                invariant
                    j <= band_indices@.len(),
                    i < BAND_HEADER_COUNT,
                    band_indices@ == band_list(curves, i as int),
                    band_list_correct(curves, i as int, band_indices@),
                    glyph_curve_start_i + 2 * curves.len() <= usize::MAX,
                    list_start == g + band_offset(curves, i as int),
                    list_start + band_indices@.len() <= total,
                    total < self.band_tex_data@.len(),
                    self.band_tex_data@.len() == mid.len(),
                    self.band_tex_data@.len() <= usize::MAX,
                    forall|jj: int|
                        0 <= jj < j ==> self.band_tex_data@[list_start + jj] == curve_ref_texel(
                            glyph_curve_start_i + 2 * #[trigger] band_indices@[jj],
                        ),
                    forall|t: int|
                        0 <= t < mid.len() && !(list_start <= t < list_start + j)
                            ==> #[trigger] self.band_tex_data@[t] == mid[t],
                    self.band_texel_i == g,
                    self.total_band_texels == total,
                    self.band_tex_height == height_for(total),
                    self.band_tex_data@.len() == TEX_WIDTH * self.band_tex_height,
                    self.curve_tex_data == old(self).curve_tex_data,
                    self.total_curve_texels == old(self).total_curve_texels,
                    self.curve_tex_height == old(self).curve_tex_height,
                    self.curve_texel_i == old(self).curve_texel_i,
                    self.glyph_log == old(self).glyph_log,
                decreases band_indices@.len() - j,
            {
                let curve_i = band_indices[j];
                let curve_texel = glyph_curve_start_i + curve_i * 2;
                let curve_tex_x = curve_texel % TEX_WIDTH;
                let curve_tex_y = curve_texel / TEX_WIDTH;

                let texel_offset = list_start + j;
                // curve ref texel: (curveTexX, curveTexY, 0, 0)
                self.band_tex_data.set(
                    texel_offset,
                    [curve_tex_x as u32, curve_tex_y as u32, 0u32, 0u32],
                );
                j = j + 1;
            }
            proof {
                assert forall|k: int, jj: int|
                    0 <= k < i + 1 && 0 <= jj < band_list(curves, k).len() implies self.band_tex_data@[g
                    + band_offset(curves, k) + jj] == curve_ref_texel(
                    glyph_curve_start_i + 2 * #[trigger] band_list(curves, k)[jj],
                ) by {
                    let pos = g + band_offset(curves, k) + jj;
                    if k < i {
                        lemma_band_offset_mono(curves, k + 1, i as int);
                        lemma_band_offset_mono(curves, 0, k);
                        assert(pos < list_start);
                        assert(self.band_tex_data@[pos] == mid[pos]);
                        assert(mid[pos] == prev[pos]);
                    } else {
                        assert(self.band_tex_data@[list_start + jj] == curve_ref_texel(
                            glyph_curve_start_i + 2 * band_indices@[jj]));
                    }
                }
                assert forall|k: int| 0 <= k < i + 1 implies self.band_tex_data@[g + k] == #[trigger] band_header(curves, k) by {
                    assert(self.band_tex_data@[g + k] == mid[g + k]);
                    if k == i {
                        assert(mid[g + k] == band_header(curves, k));
                    }
                }
                assert forall|t: int|
                    0 <= t < before.len() && !(g <= t < g + i + 1) && !(g + BAND_HEADER_COUNT <= t < g
                        + band_offset(curves, i + 1)) implies #[trigger] self.band_tex_data@[t]
                        == before[t] by {
                    assert(self.band_tex_data@[t] == mid[t]);
                    assert(mid[t] == prev[t]);
                }
            }
            curve_list_offset = curve_list_offset + band_indices.len();
            i = i + 1;
        }

        self.band_texel_i = self.band_texel_i + curve_list_offset;

        (band_loc_x as u16, band_loc_y as u16)
    }

    /// Whether a glyph with these band lists fits in the textures; the exact
    /// check of `TextureView::glyph_fits`.
    fn glyph_fits_exec(
        &self,
        curve_count: usize,
        glyph_band_curve_indices: &Vec<Vec<usize>>,
        Ghost(curves): Ghost<Seq<CurveRecord>>,
    ) -> (r: bool)
        requires
            self.inv(),
            curve_count == curves.len(),
            glyph_bands_correct(curves, glyph_band_curve_indices@),
        ensures
            r == self@.glyph_fits(curves),
    {
        let w: u128 = TEX_WIDTH as u128;
        // the largest height that keeps a texture within isize::MAX bytes
        let max_height: u128 = (isize::MAX as u128) / (w * 16);
        proof {
            lemma_height_limit(height_for(self.curve_texel_i + 2 * curves.len()));
        }
        let curve_total: u128 = self.curve_texel_i as u128 + 2 * (curve_count as u128);
        let curve_height: u128 = curve_total / w + 1;

        let used: u128 = self.band_texel_i as u128;
        let glyph_start: u128 = if used % w + 16 > w {
            (used / w + 1) * w
        } else {
            used
        };
        let mut block_len: u128 = 16;
        let mut i: usize = 0;
        while i < glyph_band_curve_indices.len()
            invariant
                i <= BAND_HEADER_COUNT,
                glyph_band_curve_indices@.len() == BAND_HEADER_COUNT,
                glyph_bands_correct(curves, glyph_band_curve_indices@),
                block_len == band_offset(curves, i as int),
                block_len <= 16 + i * 0x1_0000_0000_0000_0000,
            decreases BAND_HEADER_COUNT - i,
        {
            proof {
                assert(glyph_band_curve_indices@[i as int]@ == band_list(curves, i as int));
            }
            block_len = block_len + glyph_band_curve_indices[i].len() as u128;
            i = i + 1;
        }
        proof {
            lemma_height_limit(height_for(glyph_start + block_len));
        }
        let band_height: u128 = (glyph_start + block_len) / w + 1;
        curve_height <= max_height && band_height <= max_height && glyph_start / w <= 0xFFFF
    }

    /// Appends the curves of a glyph to the curve texture and its band lists
    /// to the band texture. Returns where its data starts in the band
    /// texture, with its bounding box.
    ///
    /// Returns None, and changes nothing, if the outline is None (the glyph
    /// is empty space), or if the glyph does not fit: the textures would
    /// exceed `isize::MAX` bytes, or its band location would not fit in 16
    /// bits.
    ///
    /// Note: this does not check if the glyph was already processed before,
    /// so adding duplicate glyphs is possible.
    pub fn process_new_glyph(&mut self, outline: Option<GlyphOutline>) -> (r: Option<
        ProcessedGlyphData,
    >)
        requires
            old(self).inv(),
        ensures
            final(self).inv(),
            r is Some <==> (outline is Some && old(self)@.glyph_fits(outline->0.curves@)),
            outline is Some && old(self)@.curve_used <= 0x10_0000 && old(self)@.band_used <= 0x10_0000
                && outline->0.curves@.len() <= 0x10_0000 && band_block_len(outline->0.curves@) <= 0x10_0000
                ==> r is Some,
            r is None ==> final(self)@ == old(self)@,
            r is Some ==> {
                let o = outline->0;
                let g = band_glyph_start(old(self)@.band_used);
                &&& old(self)@.glyph_written(final(self)@, o.curves@)
                &&& r->0.bounding_box == o.bounding_box
                &&& r->0.band_loc_x == g % TEX_WIDTH as int
                &&& r->0.band_loc_y == g / TEX_WIDTH as int
                &&& r->0.band_loc_x + BAND_HEADER_COUNT <= TEX_WIDTH
                &&& forall|b: int|
                    0 <= b < BAND_HEADER_COUNT ==> band_list_correct(
                        o.curves@,
                        b,
                        #[trigger] band_list(o.curves@, b),
                    )
            },
    {
        proof {
            if outline is Some && self@.curve_used <= 0x10_0000 && self@.band_used <= 0x10_0000
                && outline->0.curves@.len() <= 0x10_0000 && band_block_len(outline->0.curves@) <= 0x10_0000 {
                lemma_small_glyph_fits(self@, outline->0.curves@);
            }
        }
        match outline {
            None => None,
            Some(o) => {
                let band_curve_indices = build_glyph_bands(&o.curves);
                if !self.glyph_fits_exec(o.curves.len(), &band_curve_indices, Ghost(o.curves@)) {
                    return None;
                }
                let ghost old_view = self@;
                proof {
                    lemma_height_facts(self.curve_texel_i + 2 * o.curves.len());
                }
                let glyph_curve_start_i = self.curve_texel_i;
                self.write_curves_new_glyph(&o.curves);
                let (band_loc_x, band_loc_y) = self.write_bands_new_glyph(
                    glyph_curve_start_i,
                    &band_curve_indices,
                    Ghost(o.curves@),
                );
                self.glyph_log = Ghost(self.glyph_log@.push(o.curves@));
                proof {
                    assert(self@.glyph_log.drop_last() =~= old_view.glyph_log);
                    assert forall|b: int| 0 <= b < BAND_HEADER_COUNT implies band_list_correct(
                        o.curves@, b, #[trigger] band_list(o.curves@, b)) by {
                        assert(band_curve_indices@[b]@ == band_list(o.curves@, b));
                    }
                    let g = band_glyph_start(old_view.band_used);
                    lemma_band_glyph_start(old_view.band_used);
                    lemma_band_offset_mono(o.curves@, 0, BAND_HEADER_COUNT as int);
                    assert(old_view.glyph_written(self@, o.curves@));
                    let chosen = write_glyph(old_view, o.curves@);
                    assert(old_view.glyph_written(chosen, o.curves@));
                    old_view.lemma_glyph_written_unique(self@, chosen, o.curves@);
                    assert(self@.glyph_log.drop_last() == old_view.glyph_log);
                    assert(self@ == textures_of_log(self@.glyph_log));
                    assert forall|t: int|
                        self@.curve_used <= t < self@.curve_data.len() implies #[trigger] self@.curve_data[t]
                        == zero_texel() by {
                        if t < old_view.curve_data.len() {
                            assert(old_view.curve_data[t] == zero_texel());
                        }
                    }
                    assert forall|t: int|
                        self@.band_used <= t < self@.band_data.len() implies #[trigger] self@.band_data[t]
                        == zero_texel() by {
                        if t < old_view.band_data.len() {
                            assert(old_view.band_data[t] == zero_texel());
                        }
                    }
                }
                Some(
                    ProcessedGlyphData {
                        bounding_box: o.bounding_box,
                        band_loc_x: band_loc_x,
                        band_loc_y: band_loc_y,
                    },
                )
            },
        }
    }
}

} // verus!
