use vstd::prelude::*;

use crate::{CurveRecord, BAND_COUNT, BAND_HEADER_COUNT};

verus! {

/// Position of a single precision value, given by its bit pattern, in the
/// IEEE-754 total order (the order of `f32::total_cmp`): positive values keep
/// their bit pattern, negative values are mirrored below zero.
pub open spec fn total_order_key_spec(bits: u32) -> int {
    if bits < 0x8000_0000 {
        bits as int
    } else {
        0x7FFF_FFFF - bits as int
    }
}

/// Key of `bits` in the IEEE-754 total order, as `f32::total_cmp` compares it.
pub fn total_order_key(bits: u32) -> (key: i32)
    ensures
        key == total_order_key_spec(bits),
{
    if bits < 0x8000_0000 {
        bits as i32
    } else {
        -1i32 - ((bits - 0x8000_0000) as i32)
    }
}

/// Whether `curve` lies in band `band`: bands `0..8` are the horizontal
/// bands, bands `8..16` the vertical ones.
pub open spec fn curve_in_band(curve: CurveRecord, band: int) -> bool {
    if band < BAND_COUNT {
        curve.h_band_first <= band && band <= curve.h_band_last
    } else {
        curve.v_band_first <= band - BAND_COUNT && band - BAND_COUNT <= curve.v_band_last
    }
}

/// Sort key of `curve` in band `band`: its largest x in horizontal bands,
/// its largest y in vertical bands.
pub open spec fn band_sort_key(curve: CurveRecord, band: int) -> int {
    if band < BAND_COUNT {
        total_order_key_spec(curve.max_x_bits)
    } else {
        total_order_key_spec(curve.max_y_bits)
    }
}

/// Curve `i` comes before curve `j` in band `band`: larger key first, and
/// among equal keys the curve that comes first in the outline.
pub open spec fn band_precedes(curves: Seq<CurveRecord>, band: int, i: int, j: int) -> bool {
    let ki = band_sort_key(curves[i], band);
    let kj = band_sort_key(curves[j], band);
    ki > kj || (ki == kj && i < j)
}

/// `list` holds exactly the curves of `curves` that lie in `band`, each once,
/// ordered by `band_precedes`.
pub open spec fn band_list_correct(curves: Seq<CurveRecord>, band: int, list: Seq<usize>) -> bool {
    &&& forall|i: int|
        0 <= i < list.len() ==> #[trigger] list[i] < curves.len() && curve_in_band(
            curves[list[i] as int],
            band,
        )
    &&& forall|c: int| 0 <= c < curves.len() && curve_in_band(#[trigger] curves[c], band) ==> list.contains(c as usize)
    &&& forall|i: int, j: int|
        0 <= i < j < list.len() ==> band_precedes(curves, band, #[trigger] list[i] as int, #[trigger] list[j] as int)
}

/// The list of band `band` of a glyph with curves `curves`: the one list that
/// `band_list_correct` admits (see `lemma_band_list_unique`).
pub open spec fn band_list(curves: Seq<CurveRecord>, band: int) -> Seq<usize> {
    choose|list: Seq<usize>| band_list_correct(curves, band, list)
}

/// The band lists of a glyph: horizontal bands sorted by descending largest
/// x, vertical bands by descending largest y.
pub open spec fn glyph_bands_correct(curves: Seq<CurveRecord>, bands: Seq<Vec<usize>>) -> bool {
    &&& bands.len() == BAND_HEADER_COUNT
    &&& forall|b: int|
        0 <= b < BAND_HEADER_COUNT ==> #[trigger] bands[b]@ == band_list(curves, b)
            && band_list_correct(curves, b, bands[b]@)
}

proof fn lemma_precedes_asymmetric(curves: Seq<CurveRecord>, band: int, x: int, y: int)
    ensures
        !(band_precedes(curves, band, x, y) && band_precedes(curves, band, y, x)),
        !band_precedes(curves, band, x, x),
{
}

/// Two lists that agree on their first `k` entries and both satisfy
/// `band_list_correct` agree on their first `k + 1` entries too, as far as
/// both reach.
proof fn lemma_band_lists_agree_up_to(curves: Seq<CurveRecord>, band: int, l1: Seq<usize>, l2: Seq<usize>, k: int)
    requires
        band_list_correct(curves, band, l1),
        band_list_correct(curves, band, l2),
        0 <= k,
        k <= l1.len(),
        k <= l2.len(),
    ensures
        forall|i: int| 0 <= i < k ==> l1[i] == l2[i],
    decreases k,
{
    if k > 0 {
        lemma_band_lists_agree_up_to(curves, band, l1, l2, k - 1);
        let m = k - 1;
        let x = l1[m];
        let y = l2[m];
        assert(curve_in_band(curves[x as int], band));
        assert(l2.contains(x));
        let p = choose|p: int| 0 <= p < l2.len() && l2[p] == x;
        assert(curve_in_band(curves[y as int], band));
        assert(l1.contains(y));
        let q = choose|q: int| 0 <= q < l1.len() && l1[q] == y;
        if x != y {
            if p < m {
                assert(l1[p] == l2[p]);
                assert(band_precedes(curves, band, l1[p] as int, l1[m] as int));
                lemma_precedes_asymmetric(curves, band, x as int, x as int);
            } else if q < m {
                assert(l1[q] == l2[q]);
                assert(band_precedes(curves, band, l2[q] as int, l2[m] as int));
                lemma_precedes_asymmetric(curves, band, y as int, y as int);
            } else {
                assert(p != m && q != m);
                assert(band_precedes(curves, band, l2[m] as int, l2[p] as int));
                assert(band_precedes(curves, band, l1[m] as int, l1[q] as int));
                lemma_precedes_asymmetric(curves, band, x as int, y as int);
            }
        }
    }
}

/// The lists that `band_list_correct` admits for one band are all equal:
/// the content and order of a band are determined by the curves alone.
pub proof fn lemma_band_list_unique(curves: Seq<CurveRecord>, band: int, l1: Seq<usize>, l2: Seq<usize>)
    requires
        band_list_correct(curves, band, l1),
        band_list_correct(curves, band, l2),
    ensures
        l1 == l2,
{
    if l1.len() <= l2.len() {
        lemma_band_lists_agree_up_to(curves, band, l1, l2, l1.len() as int);
        if l1.len() < l2.len() {
            let x = l2[l1.len() as int];
            assert(curve_in_band(curves[x as int], band));
            assert(l1.contains(x));
            let p = choose|p: int| 0 <= p < l1.len() && l1[p] == x;
            assert(l2[p] == x);
            assert(band_precedes(curves, band, l2[p] as int, l2[l1.len() as int] as int));
            lemma_precedes_asymmetric(curves, band, x as int, x as int);
        }
    } else {
        lemma_band_lists_agree_up_to(curves, band, l1, l2, l2.len() as int);
        let x = l1[l2.len() as int];
        assert(curve_in_band(curves[x as int], band));
        assert(l2.contains(x));
        let p = choose|p: int| 0 <= p < l2.len() && l2[p] == x;
        assert(l1[p] == x);
        assert(band_precedes(curves, band, l1[p] as int, l1[l2.len() as int] as int));
        lemma_precedes_asymmetric(curves, band, x as int, x as int);
    }
    assert(l1 =~= l2);
}

/// A list that satisfies `band_list_correct` is `band_list`.
pub proof fn lemma_band_list_is(curves: Seq<CurveRecord>, band: int, list: Seq<usize>)
    requires
        band_list_correct(curves, band, list),
    ensures
        band_list(curves, band) == list,
{
    let chosen = band_list(curves, band);
    assert(band_list_correct(curves, band, chosen));
    lemma_band_list_unique(curves, band, chosen, list);
}

fn curve_in_band_exec(curve: &CurveRecord, band: usize) -> (r: bool)
    requires
        band < BAND_HEADER_COUNT,
    ensures
        r == curve_in_band(*curve, band as int),
{
    if band < BAND_COUNT {
        curve.h_band_first <= band && band <= curve.h_band_last
    } else {
        curve.v_band_first <= band - BAND_COUNT && band - BAND_COUNT <= curve.v_band_last
    }
}

fn band_sort_key_exec(curve: &CurveRecord, band: usize) -> (k: i32)
    ensures
        k == band_sort_key(*curve, band as int),
{
    if band < BAND_COUNT {
        total_order_key(curve.max_x_bits)
    } else {
        total_order_key(curve.max_y_bits)
    }
}

/// Inserts curve `c` into `list`, which holds the curves of the band that
/// come before `c` in the outline, keeping the band order.
fn insert_in_band(list: &mut Vec<usize>, curves: &Vec<CurveRecord>, band: usize, c: usize)
    requires
        c < curves.len(),
        forall|i: int| 0 <= i < old(list).len() ==> #[trigger] old(list)[i] < c,
        forall|i: int, j: int|
            0 <= i < j < old(list).len() ==> band_precedes(
                curves@,
                band as int,
                #[trigger] old(list)[i] as int,
                #[trigger] old(list)[j] as int,
            ),
    ensures
        exists|p: int| 0 <= p <= old(list).len() && final(list)@ == old(list)@.insert(p, c),
        forall|i: int, j: int|
            0 <= i < j < final(list).len() ==> band_precedes(
                curves@,
                band as int,
                #[trigger] final(list)[i] as int,
                #[trigger] final(list)[j] as int,
            ),
{
    let key = band_sort_key_exec(&curves[c], band);
    let mut p: usize = 0;
    while p < list.len()
        invariant
            p <= list.len(),
            c < curves.len(),
            key == band_sort_key(curves@[c as int], band as int),
            forall|i: int| 0 <= i < list.len() ==> #[trigger] list[i] < curves.len(),
            forall|i: int|
                0 <= i < p ==> band_sort_key(curves@[#[trigger] list[i] as int], band as int) >= key,
        ensures
            p <= list.len(),
            forall|i: int|
                0 <= i < p ==> band_sort_key(curves@[#[trigger] list[i] as int], band as int) >= key,
            p == list.len() || band_sort_key(curves@[list[p as int] as int], band as int) < key,
        decreases list.len() - p,
    {
        let e = list[p];
        if band_sort_key_exec(&curves[e], band) < key {
            break;
        }
        p = p + 1;
    }
    proof {
        assert forall|i: int| p <= i < list.len() implies band_sort_key(curves@[#[trigger] list[i] as int], band as int) < key by {
            if i > p {
                assert(band_precedes(curves@, band as int, list[p as int] as int, list[i] as int));
            }
        }
    }
    let ghost before = list@;
    list.insert(p, c);
    proof {
        assert(list@ == before.insert(p as int, c));
        assert forall|i: int, j: int| 0 <= i < j < list.len() implies band_precedes(
            curves@,
            band as int,
            #[trigger] list[i] as int,
            #[trigger] list[j] as int,
        ) by {
            if j < p {
                assert(list[i] == before[i] && list[j] == before[j]);
            } else if j == p {
                assert(list[i] == before[i]);
            } else if i < p {
                assert(list[i] == before[i] && list[j] == before[j - 1]);
            } else if i == p {
                assert(list[j] == before[j - 1]);
            } else {
                assert(list[i] == before[i - 1] && list[j] == before[j - 1]);
            }
        }
    }
}

/// Lists, in band order, the curves that lie in band `band`.
fn build_band(curves: &Vec<CurveRecord>, band: usize) -> (list: Vec<usize>)
    requires
        band < BAND_HEADER_COUNT,
    ensures
        band_list_correct(curves@, band as int, list@),
{
    let mut list: Vec<usize> = Vec::new();
    let mut c: usize = 0;
    while c < curves.len()
        invariant
            c <= curves.len(),
            band < BAND_HEADER_COUNT,
            forall|i: int|
                0 <= i < list.len() ==> #[trigger] list[i] < c && curve_in_band(
                    curves@[list[i] as int],
                    band as int,
                ),
            forall|d: int|
                0 <= d < c && curve_in_band(#[trigger] curves@[d], band as int) ==> list@.contains(
                    d as usize,
                ),
            forall|i: int, j: int|
                0 <= i < j < list.len() ==> band_precedes(
                    curves@,
                    band as int,
                    #[trigger] list[i] as int,
                    #[trigger] list[j] as int,
                ),
        decreases curves.len() - c,
    {
        if curve_in_band_exec(&curves[c], band) {
            let ghost before = list@;
            insert_in_band(&mut list, curves, band, c);
            proof {
                let p = choose|p: int| 0 <= p <= before.len() && list@ == before.insert(p, c);
                assert(list@[p] == c);
                assert forall|d: int|
                    0 <= d < c + 1 && curve_in_band(#[trigger] curves@[d], band as int) implies list@.contains(
                    d as usize,
                ) by {
                    if d < c {
                        let k = choose|k: int| 0 <= k < before.len() && before[k] == d as usize;
                        if k < p {
                            assert(list@[k] == before[k]);
                        } else {
                            assert(list@[k + 1] == before[k]);
                        }
                    }
                }
                assert forall|i: int| 0 <= i < list.len() implies #[trigger] list[i] < c + 1 && curve_in_band(
                    curves@[list[i] as int],
                    band as int,
                ) by {
                    if i < p {
                        assert(list[i] == before[i]);
                    } else if i > p {
                        assert(list[i] == before[i - 1]);
                    }
                }
            }
        }
        c = c + 1;
    }
    list
}

/// Assigns the curves of a glyph to its bands.
///
/// List `b` for `b < 8` holds the curves that reach horizontal band `b`,
/// sorted by descending largest x; list `8 + b` holds those that reach
/// vertical band `b`, sorted by descending largest y. Curves with equal keys
/// keep their order in the outline.
pub fn build_glyph_bands(curves: &Vec<CurveRecord>) -> (bands: Vec<Vec<usize>>)
    ensures
        glyph_bands_correct(curves@, bands@),
{
    let mut bands: Vec<Vec<usize>> = Vec::new();
    let mut b: usize = 0;
    while b < BAND_HEADER_COUNT
        invariant
            b <= BAND_HEADER_COUNT,
            bands.len() == b,
            forall|i: int|
                0 <= i < b ==> #[trigger] bands@[i]@ == band_list(curves@, i) && band_list_correct(
                    curves@,
                    i,
                    bands@[i]@,
                ),
        decreases BAND_HEADER_COUNT - b,
    {
        let list = build_band(curves, b);
        proof {
            lemma_band_list_is(curves@, b as int, list@);
        }
        bands.push(list);
        b = b + 1;
    }
    bands
}

} // verus!
