//! Software rasterization into the owned pixel buffer: scanline polygon
//! fill, anti-aliased line drawing, outlined strokes, and the frosted
//! textured blend.  Geometry arrives in fixed-point units; color writes
//! compose with what is already present by source-over blending.

use vstd::prelude::*;

use crate::geometry::{FxPoint, div256, lemma_mul_range, lemma_round_fx_close, round_fx, spec_round_fx};
use crate::pixel::{PixelBuf, alpha_of, spec_blend};

verus! {

/// Largest coordinate magnitude the rasterizer accepts, in fixed-point
/// units.
pub const RASTER_LIMIT: i64 = 0x20000000;

/// All points of a sequence lie within the rasterizer's coordinate limit.
pub open spec fn raster_bounded(s: Seq<FxPoint>) -> bool {
    forall|i: int| 0 <= i < s.len()
        ==> -RASTER_LIMIT <= (#[trigger] s[i]).x <= RASTER_LIMIT && -RASTER_LIMIT <= s[i].y
            <= RASTER_LIMIT
}

/// Color channels of a pixel without its alpha.
pub open spec fn rgb_of(p: u32) -> int {
    p as int % 0x1000000
}

/// One raster pass may leave a pixel alone or blend onto it some color
/// that carries the pass's color channels (its alpha scaled by coverage
/// or pass attenuation).
#[verifier::opaque]
pub open spec fn pixel_written(old_px: u32, new_px: u32, color: u32) -> bool {
    new_px == old_px || (exists|a: u32, c: u32|
        alpha_of(c) > 0 && rgb_of(c) == rgb_of(color) && new_px == spec_blend(a, c))
}

/// An untouched pixel meets the write discipline.
pub proof fn lemma_pixel_unchanged(px: u32, color: u32)
    ensures
        pixel_written(px, px, color),
{
    reveal(pixel_written);
}

/// A pixel last written by blending a color with the pass's channels
/// meets the write discipline.
pub proof fn lemma_pixel_blended(old_px: u32, a: u32, c: u32, new_px: u32, color: u32)
    requires
        alpha_of(c) > 0,
        rgb_of(c) == rgb_of(color),
        new_px == spec_blend(a, c),
    ensures
        pixel_written(old_px, new_px, color),
{
    reveal(pixel_written);
}

/// Write discipline of a raster pass: the grid keeps its size, and every
/// pixel is either untouched or was last written by blending the pass's
/// color onto something.
pub open spec fn raster_step(old: Seq<u32>, new: Seq<u32>, color: u32) -> bool {
    &&& new.len() == old.len()
    &&& forall|i: int| 0 <= i < new.len() ==> pixel_written(old[i], new[i], color)
}

/// The write discipline composes across consecutive passes of one color.
pub proof fn lemma_raster_step_trans(a: Seq<u32>, b: Seq<u32>, c: Seq<u32>, color: u32)
    requires
        raster_step(a, b, color),
        raster_step(b, c, color),
    ensures
        raster_step(a, c, color),
{
    reveal(pixel_written);
    assert forall|i: int| 0 <= i < c.len() implies pixel_written(a[i], c[i], color) by {
        assert(pixel_written(a[i], b[i], color));
        assert(pixel_written(b[i], c[i], color));
    }
}

/// The color of one anti-aliased sample: the base color with its alpha
/// scaled by the sample's coverage, in 256ths.
pub open spec fn spec_aa_color(color: u32, cov: int) -> int {
    (alpha_of(color) * cov / 256) * 0x1000000 + rgb_of(color)
}

/// Scales a color's alpha by a coverage fraction in 256ths.
pub fn aa_color(color: u32, cov: u32) -> (r: u32)
    requires
        cov <= 256,
    ensures
        r == spec_aa_color(color, cov as int),
        rgb_of(r) == rgb_of(color),
{
    let a = color / 0x1000000;
    proof {
        assert(a * cov <= 255 * 256) by (nonlinear_arith)
            requires
                a <= 255 && cov <= 256,
        ;
        assert(a == alpha_of(color));
        let na = alpha_of(color) * cov / 256;
        assert(0 <= na <= 255) by {
            vstd::arithmetic::div_mod::lemma_div_pos_is_pos(alpha_of(color) * (cov as int), 256);
            vstd::arithmetic::div_mod::lemma_div_is_ordered(alpha_of(color) * (cov as int), 255 * 256int, 256);
        }
        assert((na * 0x1000000 + rgb_of(color)) % 0x1000000 == rgb_of(color)) by {
            vstd::arithmetic::div_mod::lemma_mod_multiples_vanish(na, color as int % 0x1000000, 0x1000000);
            vstd::arithmetic::div_mod::lemma_small_mod((color as int % 0x1000000) as nat, 0x1000000);
            vstd::arithmetic::div_mod::lemma_mod_bound(color as int, 0x1000000);
        }
    }
    let na = (a * cov) / 256;
    na * 0x1000000 + color % 0x1000000
}

/// A pixel grid after one anti-aliased sample: the pixel at an in-grid
/// coordinate with effective coverage takes the coverage-scaled color
/// blended over it; everything else — a sample off the grid or with no
/// effective alpha — leaves the grid as it was.
pub open spec fn seq_plotted(s: Seq<u32>, w: int, h: int, x: int, y: int, color: u32, cov: int) -> Seq<u32> {
    if 0 <= x < w && 0 <= y < h && alpha_of(color) * cov / 256 > 0 {
        s.update(y * w + x, spec_blend(s[y * w + x], spec_aa_color(color, cov) as u32) as u32)
    } else {
        s
    }
}

/// The buffer after one anti-aliased sample.
pub open spec fn spec_plotted(old_buf: PixelBuf, x: int, y: int, color: u32, cov: int) -> Seq<u32> {
    seq_plotted(old_buf.px@, old_buf.width as int, old_buf.height as int, x, y, color, cov)
}

/// One anti-aliased sample: a pixel coordinate and its coverage in
/// 256ths.
pub struct AaSample {
    pub x: int,
    pub y: int,
    pub cov: int,
}

/// A pixel grid after a sequence of samples of one color, applied in
/// order.
pub open spec fn apply_samples(s: Seq<u32>, w: int, h: int, color: u32, t: Seq<AaSample>) -> Seq<u32>
    decreases t.len(),
{
    if t.len() == 0 {
        s
    } else {
        apply_samples(seq_plotted(s, w, h, t[0].x, t[0].y, color, t[0].cov), w, h, color, t.drop_first())
    }
}

/// Applying one more sample extends the application by one step.
pub proof fn lemma_apply_samples_snoc(
    s: Seq<u32>,
    w: int,
    h: int,
    color: u32,
    t: Seq<AaSample>,
    last: AaSample,
)
    ensures
        apply_samples(s, w, h, color, t.push(last)) == seq_plotted(
            apply_samples(s, w, h, color, t),
            w,
            h,
            last.x,
            last.y,
            color,
            last.cov,
        ),
    decreases t.len(),
{
    let stepped = seq_plotted(s, w, h, t.push(last)[0].x, t.push(last)[0].y, color, t.push(last)[0].cov);
    assert(apply_samples(s, w, h, color, t.push(last)) == apply_samples(
        stepped,
        w,
        h,
        color,
        t.push(last).drop_first(),
    ));
    if t.len() == 0 {
        assert(t.push(last)[0] == last);
        assert(t.push(last).drop_first() =~= Seq::<AaSample>::empty());
        assert(apply_samples(stepped, w, h, color, Seq::<AaSample>::empty()) == stepped);
    } else {
        assert(t.push(last)[0] == t[0]);
        assert(t.push(last).drop_first() =~= t.drop_first().push(last));
        lemma_apply_samples_snoc(
            seq_plotted(s, w, h, t[0].x, t[0].y, color, t[0].cov),
            w,
            h,
            color,
            t.drop_first(),
            last,
        );
    }
}

/// Applying a concatenation of samples applies the parts in order.
pub proof fn lemma_apply_samples_concat(
    s: Seq<u32>,
    w: int,
    h: int,
    color: u32,
    t1: Seq<AaSample>,
    t2: Seq<AaSample>,
)
    ensures
        apply_samples(s, w, h, color, t1 + t2) == apply_samples(
            apply_samples(s, w, h, color, t1),
            w,
            h,
            color,
            t2,
        ),
    decreases t1.len(),
{
    if t1.len() == 0 {
        assert(t1 + t2 =~= t2);
    } else {
        assert((t1 + t2)[0] == t1[0]);
        assert((t1 + t2).drop_first() =~= t1.drop_first() + t2);
        lemma_apply_samples_concat(
            seq_plotted(s, w, h, t1[0].x, t1[0].y, color, t1[0].cov),
            w,
            h,
            color,
            t1.drop_first(),
            t2,
        );
    }
}

/// A sample on the line's major axis: with the axes swapped for a steep
/// line, `major` is the stepped coordinate and `minor` the blended one.
pub open spec fn sample_at(steep: bool, major: int, minor: int, cov: int) -> AaSample {
    if steep {
        AaSample { x: minor, y: major, cov }
    } else {
        AaSample { x: major, y: minor, cov }
    }
}

/// The two interior samples of each stepped column: the accumulated
/// crossing height splits the coverage across the two nearest rows.
pub open spec fn wu_interior(steep: bool, xpxl1: int, yend1: int, gradient: int, n: int) -> Seq<AaSample> {
    Seq::new(
        (if n >= 0 { 2 * n } else { 0 }) as nat,
        |j: int|
            {
                let m = j / 2;
                let iy = yend1 + gradient * (m + 1);
                if j % 2 == 0 {
                    sample_at(steep, xpxl1 + 1 + m, iy / 256, 256 - iy % 256)
                } else {
                    sample_at(steep, xpxl1 + 1 + m, iy / 256 + 1, iy % 256)
                }
            },
    )
}

/// A line's endpoints normalized for stepping: axes swapped when the
/// line is steep, endpoints swapped so the major coordinate ascends.
/// The result carries `(x0, y0, x1, y1, steep)`.
pub open spec fn wu_norm(ax0: int, ay0: int, ax1: int, ay1: int) -> (int, int, int, int, bool) {
    let adx = if ax1 >= ax0 { ax1 - ax0 } else { ax0 - ax1 };
    let ady = if ay1 >= ay0 { ay1 - ay0 } else { ay0 - ay1 };
    let steep = ady > adx;
    let sx0 = if steep { ay0 } else { ax0 };
    let sy0 = if steep { ax0 } else { ay0 };
    let sx1 = if steep { ay1 } else { ax1 };
    let sy1 = if steep { ax1 } else { ay1 };
    if sx0 > sx1 {
        (sx1, sy1, sx0, sy0, steep)
    } else {
        (sx0, sy0, sx1, sy1, steep)
    }
}

/// The slope of a normalized line in 256ths; a degenerate line steps one
/// unit per column.
pub open spec fn wu_gradient(x0: int, y0: int, x1: int, y1: int) -> int {
    if x1 - x0 == 0 {
        256
    } else {
        spec_tdiv((y1 - y0) * 256, x1 - x0)
    }
}

/// Height of the line over an endpoint's rounded column.
pub open spec fn wu_yend(xe: int, ye: int, gradient: int) -> int {
    ye + spec_tdiv(gradient * (spec_round_fx(xe) * 256 - xe), 256)
}

/// The two samples of one endpoint: its coverage gap split across the
/// two nearest rows.
pub open spec fn wu_endpoint(steep: bool, xp: int, yend: int, xgap: int) -> Seq<AaSample> {
    seq![
        sample_at(steep, xp, yend / 256, (256 - yend % 256) * xgap / 256),
        sample_at(steep, xp, yend / 256 + 1, (yend % 256) * xgap / 256),
    ]
}

/// The Wu samples of a line in the order they are written: the two rows
/// of the first endpoint, the two rows of the second, then the two rows
/// of every interior column along the major axis.
pub open spec fn wu_samples(ax0: int, ay0: int, ax1: int, ay1: int) -> Seq<AaSample> {
    let nrm = wu_norm(ax0, ay0, ax1, ay1);
    let x0 = nrm.0;
    let y0 = nrm.1;
    let x1 = nrm.2;
    let y1 = nrm.3;
    let steep = nrm.4;
    let gradient = wu_gradient(x0, y0, x1, y1);
    let xpxl1 = spec_round_fx(x0);
    let yend1 = wu_yend(x0, y0, gradient);
    let xpxl2 = spec_round_fx(x1);
    let yend2 = wu_yend(x1, y1, gradient);
    wu_endpoint(steep, xpxl1, yend1, 256 - (x0 + 128) % 256) + wu_endpoint(
        steep,
        xpxl2,
        yend2,
        (x1 + 128) % 256,
    ) + wu_interior(steep, xpxl1, yend1, gradient, xpxl2 - xpxl1 - 1)
}

/// Blends one anti-aliased sample at a pixel; samples outside the grid or
/// with no coverage are ignored.
pub fn plot_aa(buf: &mut PixelBuf, x: i64, y: i64, color: u32, cov: u32)
    requires
        old(buf).wf(),
        cov <= 256,
    ensures
        final(buf).wf(),
        final(buf).width == old(buf).width,
        final(buf).height == old(buf).height,
        final(buf).px@ == spec_plotted(*old(buf), x as int, y as int, color, cov as int),
        raster_step(old(buf).px@, final(buf).px@, color),
{
    let a = color / 0x1000000;
    proof {
        assert(a * cov <= 255 * 256) by (nonlinear_arith)
            requires
                a <= 255 && cov <= 256,
        ;
    }
    let aa_alpha = (a * cov) / 256;
    if aa_alpha == 0 {
        proof {
            assert forall|i: int| 0 <= i < buf.px@.len() implies pixel_written(
                buf.px@[i],
                buf.px@[i],
                color,
            ) by {
                lemma_pixel_unchanged(buf.px@[i], color);
            }
        }
        return;
    }
    let c = aa_color(color, cov);
    let ghost prev = buf.px@;
    buf.blend_at(x, y, c);
    proof {
        if 0 <= x < old(buf).width && 0 <= y < old(buf).height {
            let idx = (y as int) * old(buf).width + x;
            crate::pixel::lemma_index_in_bounds(x as int, y as int, old(buf).width as int, old(buf).height as int);
            crate::pixel::lemma_blend_in_range(prev[idx], c);
            assert(buf.px@ == prev.update(idx, spec_blend(prev[idx], c) as u32));
            assert forall|i: int| 0 <= i < buf.px@.len() implies pixel_written(
                prev[i],
                buf.px@[i],
                color,
            ) by {
                if i == idx {
                    lemma_pixel_blended(prev[i], prev[idx], c, buf.px@[i], color);
                } else {
                    assert(buf.px@[i] == prev[i]);
                    lemma_pixel_unchanged(prev[i], color);
                }
            }
        } else {
            assert(buf.px@ == prev);
            assert forall|i: int| 0 <= i < buf.px@.len() implies pixel_written(
                prev[i],
                buf.px@[i],
                color,
            ) by {
                lemma_pixel_unchanged(prev[i], color);
            }
        }
    }
}

/// Truncating division of a fixed-point value by one unit: the integer
/// pixel index a coordinate falls in, rounded toward zero.
pub open spec fn spec_tdiv256(a: int) -> int {
    if a >= 0 {
        a / 256
    } else {
        -((-a) / 256)
    }
}

/// Fixed-point coordinate to pixel index, truncated toward zero.
pub fn tdiv256(a: i64) -> (r: i64)
    requires
        -0x4000000000000000 <= a <= 0x4000000000000000,
    ensures
        r == spec_tdiv256(a as int),
        a >= 0 ==> 0 <= r <= a,
        a < 0 ==> a <= r <= 0,
{
    proof {
        if a >= 0 {
            vstd::arithmetic::div_mod::lemma_div_pos_is_pos(a as int, 256);
            vstd::arithmetic::div_mod::lemma_div_nonincreasing(a as int, 256);
        } else {
            vstd::arithmetic::div_mod::lemma_div_pos_is_pos(-(a as int), 256);
            vstd::arithmetic::div_mod::lemma_div_nonincreasing(-(a as int), 256);
        }
    }
    if a >= 0 {
        a / 256
    } else {
        -((-a) / 256)
    }
}

/// Truncating signed division, as the intersection stepping uses it.
pub open spec fn spec_tdiv(a: int, b: int) -> int {
    let q = (if a >= 0 { a } else { -a }) / (if b >= 0 { b } else { -b });
    if (a >= 0) == (b >= 0) {
        q
    } else {
        -q
    }
}

/// Truncating signed division.
pub fn tdiv(a: i64, b: i64) -> (r: i64)
    requires
        b != 0,
        -0x4000000000000000 <= a <= 0x4000000000000000,
        -0x4000000000000000 <= b <= 0x4000000000000000,
    ensures
        r == spec_tdiv(a as int, b as int),
        -0x4000000000000000 <= r <= 0x4000000000000000,
        (if a >= 0 { -(a as int) <= r <= a as int } else { a as int <= r <= -(a as int) }),
{
    let am: i64 = if a >= 0 { a } else { -a };
    let bm: i64 = if b >= 0 { b } else { -b };
    proof {
        vstd::arithmetic::div_mod::lemma_div_pos_is_pos(am as int, bm as int);
        vstd::arithmetic::div_mod::lemma_div_nonincreasing(am as int, bm as int);
    }
    let q = am / bm;
    if (a >= 0) == (b >= 0) {
        q
    } else {
        -q
    }
}

/// Sorts intersection coordinates in place.
fn sort_i64(v: &mut Vec<i64>)
    ensures
        final(v)@.len() == old(v)@.len(),
        final(v)@.to_multiset() == old(v)@.to_multiset(),
        forall|i: int, j: int| 0 <= i < j < final(v)@.len() ==> final(v)@[i] <= final(v)@[j],
{
    let n = v.len();
    if n < 2 {
        return;
    }
    let mut i: usize = 1;
    while i < n
        invariant
            n == v@.len(),
            1 <= i <= n,
            v@.to_multiset() == old(v)@.to_multiset(),
            forall|a: int, b: int| 0 <= a < b < i ==> v@[a] <= v@[b],
        decreases n - i,
    {
        let mut j: usize = i;
        while j > 0 && v[j - 1] > v[j]
            invariant
                j <= i < n == v@.len(),
                v@.to_multiset() == old(v)@.to_multiset(),
                forall|a: int, b: int| 0 <= a < b <= i && b != j ==> v@[a] <= v@[b],
                forall|a: int| j < a <= i ==> v@[j as int] <= v@[a],
            decreases j,
        {
            let ghost prev = v@;
            let tmp = v[j];
            let tmp2 = v[j - 1];
            v.set(j, tmp2);
            v.set(j - 1, tmp);
            proof {
                assert(v@ =~= prev.update(j as int, prev[j - 1]).update(j - 1, prev[j as int]));
                lemma_swap_multiset(prev, v@, j - 1, j as int);
            }
            j = j - 1;
        }
        proof {
            assert forall|a: int, b: int| 0 <= a < b <= i implies v@[a] <= v@[b] by {
                if b == j && j > 0 {
                    assert(v@[j - 1] <= v@[j as int]);
                    if a < j - 1 {
                        assert(v@[a] <= v@[j - 1]);
                    }
                }
            }
        }
        i = i + 1;
    }
}

/// Swapping two positions leaves the multiset of values unchanged.
proof fn lemma_swap_multiset(s1: Seq<i64>, s2: Seq<i64>, i: int, j: int)
    requires
        0 <= i < j < s1.len(),
        s2 =~= s1.update(j, s1[i]).update(i, s1[j]),
    ensures
        s2.to_multiset() == s1.to_multiset(),
{
    broadcast use vstd::multiset::group_multiset_axioms;

    let mid = s1.update(j, s1[i]);
    vstd::seq_lib::to_multiset_update(s1, j, s1[i]);
    vstd::seq_lib::to_multiset_update(mid, i, s1[j]);
    vstd::seq_lib::to_multiset_contains(s1, s1[i]);
    vstd::seq_lib::to_multiset_contains(s1, s1[j]);
    assert(s1.contains(s1[i]));
    assert(s1.contains(s1[j]));
    assert(mid[i] == s1[i]);
    assert(s2.to_multiset() =~= s1.to_multiset());
}

/// Leaving every pixel alone meets the write discipline.
pub proof fn lemma_raster_step_refl(s: Seq<u32>, color: u32)
    ensures
        raster_step(s, s, color),
{
    assert forall|i: int| 0 <= i < s.len() implies pixel_written(s[i], s[i], color) by {
        lemma_pixel_unchanged(s[i], color);
    }
}

/// Fractional part of a fixed-point coordinate.
fn emod256(a: i64) -> (r: i64)
    requires
        -0x4000000000000000 <= a <= 0x4000000000000000,
    ensures
        r == a as int % 256,
        0 <= r < 256,
{
    let f = div256(a);
    proof {
        vstd::arithmetic::div_mod::lemma_fundamental_div_mod(a as int, 256);
        vstd::arithmetic::div_mod::lemma_mod_bound(a as int, 256);
    }
    a - 256 * f
}

/// Product of two coverages, rescaled to a single coverage fraction.
fn cov_mul(a: i64, b: i64) -> (r: u32)
    requires
        0 <= a <= 256,
        0 <= b <= 256,
    ensures
        r == a * b / 256,
        r <= 256,
{
    proof {
        lemma_mul_range(a as int, 256, b as int, 256);
        vstd::arithmetic::div_mod::lemma_div_pos_is_pos(a as int * b as int, 256);
        vstd::arithmetic::div_mod::lemma_div_is_ordered(a as int * b as int, 256 * 256int, 256);
    }
    ((a * b) / 256) as u32
}

/// Least offset Y coordinate of a nonempty point sequence.
pub open spec fn min_off_y(s: Seq<FxPoint>, oy: int) -> int
    decreases s.len(),
{
    if s.len() <= 1 {
        s[0].y + oy
    } else {
        let rest = min_off_y(s.drop_last(), oy);
        if s.last().y + oy < rest {
            s.last().y + oy
        } else {
            rest
        }
    }
}

/// Greatest offset Y coordinate of a nonempty point sequence.
pub open spec fn max_off_y(s: Seq<FxPoint>, oy: int) -> int
    decreases s.len(),
{
    if s.len() <= 1 {
        s[0].y + oy
    } else {
        let rest = max_off_y(s.drop_last(), oy);
        if s.last().y + oy > rest {
            s.last().y + oy
        } else {
            rest
        }
    }
}

/// First pixel row of a polygon's vertical span, clamped into the grid.
pub open spec fn span_row_lo(s: Seq<FxPoint>, oy: int) -> int {
    let lo = spec_tdiv256(min_off_y(s, oy));
    if lo < 0 {
        0
    } else {
        lo
    }
}

/// Last pixel row of a polygon's vertical span, clamped into the grid.
pub open spec fn span_row_hi(s: Seq<FxPoint>, oy: int, h: int) -> int {
    let hi = spec_tdiv256(max_off_y(s, oy));
    if hi > h - 1 {
        h - 1
    } else {
        hi
    }
}

/// Scanline fill of a polygon offset by `(ox, oy)`: for each pixel row in
/// the polygon's vertical span, the crossings of the polygon's edges with
/// the row's center line are collected and sorted, and the spans between
/// successive pairs are blended with the fill color (even-odd rule).
#[verifier::loop_isolation(false)]
#[verifier::rlimit(60)]
pub fn fill_polygon(buf: &mut PixelBuf, points: &Vec<FxPoint>, ox: i64, oy: i64, color: u32)
    requires
        old(buf).wf(),
        raster_bounded(points@),
        points@.len() <= 0x10000,
        -RASTER_LIMIT <= ox <= RASTER_LIMIT,
        -RASTER_LIMIT <= oy <= RASTER_LIMIT,
    ensures
        final(buf).wf(),
        final(buf).width == old(buf).width,
        final(buf).height == old(buf).height,
        raster_step(old(buf).px@, final(buf).px@, color),
        points@.len() == 0 ==> final(buf).px@ == old(buf).px@,
        points@.len() > 0 ==> (forall|i: int|
            (0 <= i < final(buf).px@.len() && !(span_row_lo(points@, oy as int) <= i / (
            old(buf).width as int) <= span_row_hi(points@, oy as int, old(buf).height as int)))
                ==> final(buf).px@[i] == old(buf).px@[i]),
{
    proof {
        lemma_raster_step_refl(buf.px@, color);
    }
    let n = points.len();
    proof {
        assert(n <= 0x10000);
    }
    if n == 0 {
        return;
    }
    proof {
        assert(-RASTER_LIMIT <= points@[0].y <= RASTER_LIMIT && -RASTER_LIMIT <= points@[0].x <= RASTER_LIMIT);
    }
    // vertical span of the offset polygon, in pixel rows
    let mut min_fy: i64 = points[0].y + oy;
    let mut max_fy: i64 = min_fy;
    let mut i: usize = 1;
    while i < n
        invariant
            n == points@.len(),
            1 <= i <= n,
            -0x40000000 <= min_fy <= 0x40000000,
            -0x40000000 <= max_fy <= 0x40000000,
            min_fy == min_off_y(points@.take(i as int), oy as int),
            max_fy == max_off_y(points@.take(i as int), oy as int),
        decreases n - i,
    {
        let fy = points[i].y + oy;
        proof {
            assert(points@.take(i + 1).drop_last() =~= points@.take(i as int));
            assert(points@.take(i + 1).last() == points@[i as int]);
        }
        if fy < min_fy {
            min_fy = fy;
        }
        if fy > max_fy {
            max_fy = fy;
        }
        i = i + 1;
    }
    proof {
        assert(points@.take(n as int) =~= points@);
    }
    let mut y: i64 = tdiv256(min_fy);
    let y_hi0 = tdiv256(max_fy);
    if y < 0 {
        y = 0;
    }
    let height = buf.height as i64;
    let width = buf.width as i64;
    let y_hi: i64 = if y_hi0 > height - 1 { height - 1 } else { y_hi0 };
    let ghost row_lo = span_row_lo(points@, oy as int);
    let ghost row_hi = span_row_hi(points@, oy as int, old(buf).height as int);
    proof {
        assert(y == row_lo);
        assert(y_hi == row_hi);
    }
    let ghost entry = buf.px@;
    while y <= y_hi
        invariant
            buf.wf(),
            buf.width == old(buf).width,
            buf.height == old(buf).height,
            raster_step(entry, buf.px@, color),
            0 <= y,
            row_lo <= y,
            y_hi == row_hi,
            y_hi < height,
            forall|q: int|
                (0 <= q < buf.px@.len() && !(row_lo <= q / (old(buf).width as int) <= row_hi))
                    ==> buf.px@[q] == entry[q],
        decreases y_hi + 1 - y,
    {
        let yf = y * 256 + 128;
        // crossings of every edge with this row's center line
        let mut xs: Vec<i64> = Vec::new();
        let mut e: usize = 0;
        while e < n
            invariant
                n == points@.len(),
                e <= n,
                xs@.len() <= e,
                forall|k: int| 0 <= k < xs@.len() ==> -0x80000000 <= #[trigger] xs@[k] <= 0x80000000,
            decreases n - e,
        {
            let x1 = points[e].x + ox;
            let y1 = points[e].y + oy;
            let nxt = if e + 1 == n { 0 } else { e + 1 };
            let x2 = points[nxt].x + ox;
            let y2 = points[nxt].y + oy;
            if (y1 <= yf && y2 > yf) || (y2 <= yf && y1 > yf) {
                proof {
                    lemma_mul_range(yf - y1, 0x80000000, x2 - x1, 0x80000000);
                }
                let x = x1 + tdiv(checked_mul_fill(yf - y1, x2 - x1), y2 - y1);
                let xc = if x < -0x80000000 {
                    -0x80000000
                } else if x > 0x80000000 {
                    0x80000000
                } else {
                    x
                };
                xs.push(xc);
            }
            e = e + 1;
        }
        let ghost unsorted = xs@;
        sort_i64(&mut xs);
        proof {
            lemma_multiset_keeps_bounds(unsorted, xs@, -0x80000000i64, 0x80000000i64);
        }
        // fill between successive crossing pairs
        let m = xs.len();
        let mut j: usize = 0;
        while j + 1 < m
            invariant
                buf.wf(),
                buf.width == old(buf).width,
                buf.height == old(buf).height,
                raster_step(entry, buf.px@, color),
                0 <= y < height,
                row_lo <= y <= row_hi,
                m == xs@.len() <= 0x10000,
                j <= m + 1,
                forall|k: int| 0 <= k < xs@.len() ==> -0x80000000 <= #[trigger] xs@[k] <= 0x80000000,
                forall|q: int|
                    (0 <= q < buf.px@.len() && !(row_lo <= q / (old(buf).width as int) <= row_hi))
                        ==> buf.px@[q] == entry[q],
            decreases m - j,
        {
            let c0 = xs[j];
            let c1 = xs[j + 1];
            let x_lo = tdiv256(if c0 > 0 { c0 } else { 0 });
            let c1c = if c1 < (width - 1) * 256 { c1 } else { (width - 1) * 256 };
            let x_hi = tdiv256(c1c);
            if x_lo <= x_hi {
                let mut x = x_lo;
                while x <= x_hi
                    invariant
                        buf.wf(),
                        buf.width == old(buf).width,
                        buf.height == old(buf).height,
                        raster_step(entry, buf.px@, color),
                        0 <= x,
                        x_hi < width,
                        0 <= y < height,
                        row_lo <= y <= row_hi,
                        forall|q: int|
                            (0 <= q < buf.px@.len() && !(row_lo <= q / (old(buf).width as int)
                                <= row_hi)) ==> buf.px@[q] == entry[q],
                    decreases x_hi + 1 - x,
                {
                    let ghost before = buf.px@;
                    plot_aa(buf, x, y, color, 256);
                    proof {
                        lemma_raster_step_trans(entry, before, buf.px@, color);
                        let w = old(buf).width as int;
                        let gh = old(buf).height as int;
                        assert forall|q: int|
                            (0 <= q < buf.px@.len() && !(row_lo <= q / w <= row_hi)) implies buf.px@[q]
                            == entry[q] by {
                            if 0 <= (x as int) < w && 0 <= (y as int) < gh && alpha_of(color) * 256
                                / 256 > 0 {
                                let idx = (y as int) * w + x;
                                crate::pixel::lemma_index_in_bounds(x as int, y as int, w, gh);
                                assert(before.len() == w * gh);
                                assert(buf.px@ == before.update(
                                    idx,
                                    spec_blend(before[idx], spec_aa_color(color, 256) as u32) as u32,
                                ));
                                vstd::arithmetic::div_mod::lemma_fundamental_div_mod_converse(
                                    idx,
                                    w,
                                    y as int,
                                    x as int,
                                );
                                assert(idx / w == y as int);
                                assert(q != idx);
                                assert(buf.px@[q] == before[q]);
                            } else {
                                assert(buf.px@ == before);
                            }
                        }
                    }
                    x = x + 1;
                }
            }
            j = j + 2;
        }
        y = y + 1;
    }
}

/// Product of a row offset and an edge extent.
fn checked_mul_fill(a: i64, b: i64) -> (r: i64)
    requires
        -0x80000000 <= a <= 0x80000000,
        -0x80000000 <= b <= 0x80000000,
    ensures
        r == a * b,
{
    proof {
        lemma_mul_range(a as int, 0x80000000, b as int, 0x80000000);
    }
    a * b
}

/// A reordering of bounded values stays bounded.
proof fn lemma_multiset_keeps_bounds(a: Seq<i64>, b: Seq<i64>, lo: i64, hi: i64)
    requires
        a.to_multiset() == b.to_multiset(),
        forall|k: int| 0 <= k < a.len() ==> lo <= #[trigger] a[k] <= hi,
    ensures
        forall|k: int| 0 <= k < b.len() ==> lo <= #[trigger] b[k] <= hi,
{
    assert forall|k: int| 0 <= k < b.len() implies lo <= #[trigger] b[k] <= hi by {
        vstd::seq_lib::to_multiset_contains(b, b[k]);
        assert(b.contains(b[k]));
        vstd::seq_lib::to_multiset_contains(a, b[k]);
        assert(a.contains(b[k]));
        let idx = choose|i: int| 0 <= i < a.len() && a[i] == b[k];
        assert(lo <= a[idx] <= hi);
    }
}

/// The write discipline is about color channels only: two passes whose
/// colors share channels share it.
pub proof fn lemma_raster_step_recolor(a: Seq<u32>, b: Seq<u32>, c1: u32, c2: u32)
    requires
        raster_step(a, b, c1),
        rgb_of(c1) == rgb_of(c2),
    ensures
        raster_step(a, b, c2),
{
    reveal(pixel_written);
}

/// Anti-aliased line from `(x0, y0)` to `(x1, y1)`, all in fixed-point
/// units: the line is stepped along its major axis and every sample is
/// split across the two nearest rows or columns in proportion to its
/// fractional position.
#[verifier::loop_isolation(false)]
#[verifier::rlimit(100)]
#[verifier::spinoff_prover]
pub fn line_aa(buf: &mut PixelBuf, ax0: i64, ay0: i64, ax1: i64, ay1: i64, color: u32)
    requires
        old(buf).wf(),
        -RASTER_LIMIT - 0x10000 <= ax0 <= RASTER_LIMIT + 0x10000,
        -RASTER_LIMIT - 0x10000 <= ay0 <= RASTER_LIMIT + 0x10000,
        -RASTER_LIMIT - 0x10000 <= ax1 <= RASTER_LIMIT + 0x10000,
        -RASTER_LIMIT - 0x10000 <= ay1 <= RASTER_LIMIT + 0x10000,
    ensures
        final(buf).wf(),
        final(buf).width == old(buf).width,
        final(buf).height == old(buf).height,
        final(buf).px@ == apply_samples(
            old(buf).px@,
            old(buf).width as int,
            old(buf).height as int,
            color,
            wu_samples(ax0 as int, ay0 as int, ax1 as int, ay1 as int),
        ),
        raster_step(old(buf).px@, final(buf).px@, color),
{
    let ghost entry = buf.px@;
    let ghost gw = old(buf).width as int;
    let ghost gh = old(buf).height as int;
    let ghost trace = wu_samples(ax0 as int, ay0 as int, ax1 as int, ay1 as int);
    proof {
        lemma_raster_step_refl(buf.px@, color);
    }
    let adx = if ax1 >= ax0 { ax1 - ax0 } else { ax0 - ax1 };
    let ady = if ay1 >= ay0 { ay1 - ay0 } else { ay0 - ay1 };
    let steep = ady > adx;
    let (sx0, sy0, sx1, sy1) = if steep {
        (ay0, ax0, ay1, ax1)
    } else {
        (ax0, ay0, ax1, ay1)
    };
    let (x0, y0, x1, y1) = if sx0 > sx1 {
        (sx1, sy1, sx0, sy0)
    } else {
        (sx0, sy0, sx1, sy1)
    };
    let dx = x1 - x0;
    let dy = y1 - y0;
    // after normalization the major axis is x, so the slope is at most one
    let gradient: i64 = if dx == 0 {
        256
    } else {
        proof {
            lemma_mul_range(dy as int, 0x40100000, 256, 256);
        }
        let g = tdiv(dy * 256, dx);
        proof {
            let dya: int = if dy >= 0 { dy as int } else { -(dy as int) };
            assert(dya <= dx);
            vstd::arithmetic::div_mod::lemma_div_is_ordered(dya * 256, (dx as int) * 256, dx as int);
            vstd::arithmetic::div_mod::lemma_div_multiples_vanish(256, dx as int);
            assert(dya * 256 <= (dx as int) * 256) by (nonlinear_arith)
                requires
                    dya <= dx,
            ;
        }
        g
    };
    assert(-256 <= gradient <= 256);
    let xpxl1 = round_fx(x0);
    proof {
        lemma_round_fx_close(x0 as int);
        lemma_mul_range(gradient as int, 256, xpxl1 * 256 - x0, 128);
    }
    let yend1 = y0 + tdiv(gradient * (xpxl1 * 256 - x0), 256);
    let xgap1 = 256 - emod256(x0 + 128);
    let xpxl2 = round_fx(x1);
    proof {
        lemma_round_fx_close(x1 as int);
        lemma_mul_range(gradient as int, 256, xpxl2 * 256 - x1, 128);
    }
    let yend2 = y1 + tdiv(gradient * (xpxl2 * 256 - x1), 256);
    let xgap2 = emod256(x1 + 128);
    let ghost interior_n: int = if xpxl2 - xpxl1 - 1 >= 0 { xpxl2 - xpxl1 - 1 } else { 0 };
    let ghost e1 = wu_endpoint(steep, xpxl1 as int, yend1 as int, xgap1 as int);
    let ghost e2 = wu_endpoint(steep, xpxl2 as int, yend2 as int, xgap2 as int);
    let ghost inter = wu_interior(
        steep,
        xpxl1 as int,
        yend1 as int,
        gradient as int,
        xpxl2 - xpxl1 - 1,
    );
    proof {
        let nrm = wu_norm(ax0 as int, ay0 as int, ax1 as int, ay1 as int);
        assert(nrm == (x0 as int, y0 as int, x1 as int, y1 as int, steep));
        assert(gradient as int == wu_gradient(x0 as int, y0 as int, x1 as int, y1 as int));
        assert(yend1 as int == wu_yend(x0 as int, y0 as int, gradient as int));
        assert(yend2 as int == wu_yend(x1 as int, y1 as int, gradient as int));
        assert(trace == e1 + e2 + inter);
        assert(inter.len() == 2 * interior_n);
    }
    // both endpoints
    plot_endpoint(buf, steep, xpxl1, yend1, xgap1, color);
    let ghost after_e1 = buf.px@;
    plot_endpoint(buf, steep, xpxl2, yend2, xgap2, color);
    let ghost base = buf.px@;
    proof {
        lemma_raster_step_trans(entry, after_e1, base, color);
        lemma_apply_samples_concat(entry, gw, gh, color, e1, e2);
        assert(base == apply_samples(entry, gw, gh, color, e1 + e2));
        assert(apply_samples(base, gw, gh, color, inter.take(0)) == base);
    }
    // interior samples
    let mut intery = yend1 + gradient;
    let mut x = xpxl1 + 1;
    proof {
        assert(gradient * ((xpxl1 + 1) - xpxl1) == gradient as int) by (nonlinear_arith);
        assert(intery == yend1 + gradient * ((xpxl1 + 1) - xpxl1));
    }
    #[verifier::loop_isolation(true)]
    while x < xpxl2
        invariant
            buf.wf(),
            buf.width == old(buf).width,
            buf.height == old(buf).height,
            gw == old(buf).width as int,
            gh == old(buf).height as int,
            raster_step(entry, buf.px@, color),
            -256 <= gradient <= 256,
            xpxl1 + 1 <= x,
            x <= xpxl2 || x == xpxl1 + 1,
            xpxl2 <= 0x200200,
            intery == yend1 + gradient * (x - xpxl1),
            -0x20020000 - (x - xpxl1) * 256 <= intery <= 0x20020000 + (x - xpxl1) * 256,
            -0x200200 <= xpxl1,
            inter == wu_interior(
                steep,
                xpxl1 as int,
                yend1 as int,
                gradient as int,
                xpxl2 - xpxl1 - 1,
            ),
            buf.px@ == apply_samples(base, gw, gh, color, inter.take(2 * (x - xpxl1 - 1))),
        decreases xpxl2 - x,
    {
        let ghost m = x - xpxl1 - 1;
        let fyi = emod256(intery);
        let yfl = div256(intery);
        proof {
            assert((2 * m) / 2 == m && (2 * m) % 2 == 0 && (2 * m + 1) / 2 == m && (2 * m + 1) % 2
                == 1) by (nonlinear_arith)
                requires
                    m >= 0,
            ;
            assert(inter[2 * m] == sample_at(steep, x as int, intery as int / 256, 256 - intery as int % 256));
            assert(inter[2 * m + 1] == sample_at(steep, x as int, intery as int / 256 + 1, intery as int % 256));
        }
        let (ixa, iya) = if steep { (yfl, x) } else { (x, yfl) };
        let ghost before_a = buf.px@;
        plot_aa(buf, ixa, iya, color, (256 - fyi) as u32);
        proof {
            lemma_raster_step_trans(entry, before_a, buf.px@, color);
            assert(inter.take(2 * m + 1) =~= inter.take(2 * m).push(inter[2 * m]));
            lemma_apply_samples_snoc(base, gw, gh, color, inter.take(2 * m), inter[2 * m]);
            assert(buf.px@ == apply_samples(base, gw, gh, color, inter.take(2 * m + 1)));
        }
        let (ixb, iyb) = if steep { (yfl + 1, x) } else { (x, yfl + 1) };
        let ghost before_b = buf.px@;
        plot_aa(buf, ixb, iyb, color, fyi as u32);
        proof {
            lemma_raster_step_trans(entry, before_b, buf.px@, color);
            assert(inter.take(2 * m + 2) =~= inter.take(2 * m + 1).push(inter[2 * m + 1]));
            lemma_apply_samples_snoc(base, gw, gh, color, inter.take(2 * m + 1), inter[2 * m + 1]);
            assert(buf.px@ == apply_samples(base, gw, gh, color, inter.take(2 * m + 2)));
            assert(gradient * ((x - xpxl1) + 1) == gradient * (x - xpxl1) + gradient)
                by (nonlinear_arith);
        }
        intery = intery + gradient;
        x = x + 1;
    }
    proof {
        assert(inter.take(2 * (x - xpxl1 - 1)) =~= inter);
        lemma_apply_samples_concat(entry, gw, gh, color, e1 + e2, inter);
        assert(buf.px@ == apply_samples(entry, gw, gh, color, (e1 + e2) + inter));
        assert((e1 + e2) + inter =~= trace);
    }
}

/// Writes the two samples of one endpoint of an anti-aliased line.
#[verifier::loop_isolation(false)]
fn plot_endpoint(buf: &mut PixelBuf, steep: bool, xp: i64, yend: i64, xgap: i64, color: u32)
    requires
        old(buf).wf(),
        0 <= xgap <= 256,
        -0x40000000 <= yend <= 0x40000000,
        -0x40000000 <= xp <= 0x40000000,
    ensures
        final(buf).wf(),
        final(buf).width == old(buf).width,
        final(buf).height == old(buf).height,
        final(buf).px@ == apply_samples(
            old(buf).px@,
            old(buf).width as int,
            old(buf).height as int,
            color,
            wu_endpoint(steep, xp as int, yend as int, xgap as int),
        ),
        raster_step(old(buf).px@, final(buf).px@, color),
{
    let ghost entry = buf.px@;
    let ghost gw = old(buf).width as int;
    let ghost gh = old(buf).height as int;
    let ghost t = wu_endpoint(steep, xp as int, yend as int, xgap as int);
    let ypxl = div256(yend);
    let f = emod256(yend);
    proof {
        assert(t[0] == sample_at(steep, xp as int, ypxl as int, (256 - f) * xgap / 256));
        assert(t[1] == sample_at(steep, xp as int, ypxl + 1, f * xgap / 256));
        assert(apply_samples(entry, gw, gh, color, t.take(0)) == entry);
    }
    let (exa, eya) = if steep { (ypxl, xp) } else { (xp, ypxl) };
    plot_aa(buf, exa, eya, color, cov_mul(256 - f, xgap));
    proof {
        assert(t.take(1) =~= t.take(0).push(t[0]));
        lemma_apply_samples_snoc(entry, gw, gh, color, t.take(0), t[0]);
        assert(buf.px@ == apply_samples(entry, gw, gh, color, t.take(1)));
    }
    let (exb, eyb) = if steep { (ypxl + 1, xp) } else { (xp, ypxl + 1) };
    let ghost mid = buf.px@;
    plot_aa(buf, exb, eyb, color, cov_mul(f, xgap));
    proof {
        lemma_raster_step_trans(entry, mid, buf.px@, color);
        assert(t.take(2) =~= t.take(1).push(t[1]));
        lemma_apply_samples_snoc(entry, gw, gh, color, t.take(1), t[1]);
        assert(t.take(2) =~= t);
        assert(buf.px@ == apply_samples(entry, gw, gh, color, t.take(2)));
    }
}

/// The integer square root: the greatest `r` with `r * r <= n`.
pub open spec fn spec_isqrt(n: int) -> int {
    choose|r: int| 0 <= r && #[trigger] (r * r) <= n && (r + 1) * (r + 1) > n
}

/// A value meeting the square-root bounds is the integer square root.
pub proof fn lemma_isqrt_unique(n: int, r: int)
    requires
        0 <= r,
        r * r <= n,
        (r + 1) * (r + 1) > n,
    ensures
        spec_isqrt(n) == r,
{
    assert(exists|q: int| 0 <= q && #[trigger] (q * q) <= n && (q + 1) * (q + 1) > n) by {
        assert(0 <= r && r * r <= n && (r + 1) * (r + 1) > n);
    }
    let s = spec_isqrt(n);
    assert(0 <= s && s * s <= n && (s + 1) * (s + 1) > n);
    if s < r {
        assert((s + 1) * (s + 1) <= r * r) by (nonlinear_arith)
            requires
                s + 1 <= r && s >= 0,
        ;
    }
    if r < s {
        assert((r + 1) * (r + 1) <= s * s) by (nonlinear_arith)
            requires
                r + 1 <= s && r >= 0,
        ;
    }
}

/// Integer square root: the greatest `r` with `r * r <= n`.
pub fn isqrt(n: u64) -> (r: u64)
    requires
        n < 0x4000000000000000,
    ensures
        r == spec_isqrt(n as int),
        r * r <= n,
        (r + 1) * (r + 1) > n,
        r < 0x80000000,
{
    if n == 0 {
        proof {
            lemma_isqrt_unique(0, 0);
        }
        return 0;
    }
    let mut lo: u64 = 0;
    let mut hi: u64 = 0x80000000;
    proof {
        assert(hi * hi > n) by (nonlinear_arith)
            requires
                hi == 0x80000000u64 && n < 0x4000000000000000,
        ;
    }
    while lo + 1 < hi
        invariant
            lo < hi <= 0x80000000,
            lo * lo <= n,
            hi * hi > n,
        decreases hi - lo,
    {
        let mid = lo + (hi - lo) / 2;
        proof {
            assert(mid * mid < 0x8000000000000000) by (nonlinear_arith)
                requires
                    mid <= 0x80000000u64,
            ;
        }
        if mid * mid <= n {
            lo = mid;
        } else {
            hi = mid;
        }
    }
    proof {
        lemma_isqrt_unique(n as int, lo as int);
    }
    lo
}

/// A normal shift component clamped into the stroke range.
pub open spec fn spec_clamp_shift(v: int) -> int {
    if v < -2560 {
        -2560
    } else if v > 2560 {
        2560
    } else {
        v
    }
}

/// The outward-normal shift of one edge under an outline pass: the edge
/// vector's normal, scaled to the pass offset over the edge length.
pub open spec fn spec_edge_shift(x1: int, y1: int, x2: int, y2: int, offset: int) -> (int, int) {
    let dx = x2 - x1;
    let dy = y2 - y1;
    let root = spec_isqrt(dx * dx + dy * dy);
    let len = if root == 0 { 1int } else { root };
    (spec_clamp_shift(spec_tdiv(-dy * offset, len)), spec_clamp_shift(spec_tdiv(dx * offset, len)))
}

/// The Wu samples of one polygon edge, shifted along its normal when the
/// pass carries an offset.
pub open spec fn spec_edge_samples(pts: Seq<FxPoint>, ox: int, oy: int, offset: int, i: int) -> Seq<AaSample> {
    let x1 = pts[i].x + ox;
    let y1 = pts[i].y + oy;
    let nxt = if i + 1 == pts.len() { 0int } else { i + 1 };
    let x2 = pts[nxt].x + ox;
    let y2 = pts[nxt].y + oy;
    if offset > 0 {
        let sh = spec_edge_shift(x1, y1, x2, y2, offset);
        wu_samples(x1 + sh.0, y1 + sh.1, x2 + sh.0, y2 + sh.1)
    } else {
        wu_samples(x1, y1, x2, y2)
    }
}

/// The samples of every edge from `i` on, in drawing order.
pub open spec fn spec_edges_trace(pts: Seq<FxPoint>, ox: int, oy: int, offset: int, i: int) -> Seq<AaSample>
    decreases pts.len() - i,
{
    if i < 0 || i >= pts.len() {
        Seq::empty()
    } else {
        spec_edge_samples(pts, ox, oy, offset, i) + spec_edges_trace(pts, ox, oy, offset, i + 1)
    }
}

/// The color of one outline pass: the base color for the first, the
/// attenuated alphas for the widening passes.
pub open spec fn spec_pass_color(color: u32, pass: int) -> int {
    if pass == 0 {
        color as int
    } else {
        let a = (alpha_of(color) * (100 - pass * 25)) / 100;
        let a2 = if a > 30 { a } else { 30 };
        a2 * 0x1000000 + rgb_of(color)
    }
}

/// The pixel grid after the outline passes from `pass` on, each drawing
/// every edge shifted by half a pixel more than the one before.
pub open spec fn spec_outline_passes(
    s: Seq<u32>,
    w: int,
    h: int,
    pts: Seq<FxPoint>,
    ox: int,
    oy: int,
    color: u32,
    pass: int,
    passes: int,
) -> Seq<u32>
    decreases passes - pass,
{
    if pass < 0 || pass >= passes {
        s
    } else {
        spec_outline_passes(
            apply_samples(
                s,
                w,
                h,
                spec_pass_color(color, pass) as u32,
                spec_edges_trace(pts, ox, oy, pass * 128, 0),
            ),
            w,
            h,
            pts,
            ox,
            oy,
            color,
            pass + 1,
            passes,
        )
    }
}

/// The pixel grid after a full outline stroke: the thickness passes, then
/// the soft glow shifted further out along the normals.
pub open spec fn spec_outline(
    s: Seq<u32>,
    w: int,
    h: int,
    pts: Seq<FxPoint>,
    ox: int,
    oy: int,
    color: u32,
    thickness: int,
    cfg_thickness: int,
) -> Seq<u32> {
    let actual = if thickness > 0 {
        thickness
    } else if cfg_thickness > 0 {
        cfg_thickness
    } else {
        256int
    };
    let passes = (actual + 255) / 256;
    let glow_color = (alpha_of(color) * 35) / 100 * 0x1000000 + rgb_of(color);
    let glow_offset = actual / 2 + (actual * 2) / 5;
    apply_samples(
        spec_outline_passes(s, w, h, pts, ox, oy, color, 0, passes),
        w,
        h,
        glow_color as u32,
        spec_edges_trace(pts, ox, oy, glow_offset, 0),
    )
}

/// Polygon outline with configurable thickness: each edge is drawn as an
/// anti-aliased line; thickness beyond one pixel adds attenuated parallel
/// passes shifted along the edge normal, and a soft outward glow pass
/// completes the stroke.  The thickness override and the configured
/// default are in fixed-point units; zero falls back to one pixel.
#[verifier::loop_isolation(false)]
#[verifier::rlimit(60)]
pub fn outline_polygon(
    buf: &mut PixelBuf,
    points: &Vec<FxPoint>,
    ox: i64,
    oy: i64,
    color: u32,
    thickness_fx: i64,
    config_thickness_fx: i64,
)
    requires
        old(buf).wf(),
        raster_bounded(points@),
        -0x10000000 <= ox <= 0x10000000,
        -0x10000000 <= oy <= 0x10000000,
        forall|i: int| 0 <= i < points@.len()
            ==> -0x10000000 <= (#[trigger] points@[i]).x <= 0x10000000 && -0x10000000 <= points@[i].y
                <= 0x10000000,
        0 <= thickness_fx <= 1280,
        0 <= config_thickness_fx <= 1280,
    ensures
        final(buf).wf(),
        final(buf).width == old(buf).width,
        final(buf).height == old(buf).height,
        points@.len() == 0 ==> final(buf).px@ == old(buf).px@,
        points@.len() > 0 ==> final(buf).px@ == spec_outline(
            old(buf).px@,
            old(buf).width as int,
            old(buf).height as int,
            points@,
            ox as int,
            oy as int,
            color,
            thickness_fx as int,
            config_thickness_fx as int,
        ),
        raster_step(old(buf).px@, final(buf).px@, color),
{
    let ghost entry = buf.px@;
    let ghost gw = old(buf).width as int;
    let ghost gh = old(buf).height as int;
    proof {
        lemma_raster_step_refl(buf.px@, color);
    }
    let n = points.len();
    if n == 0 {
        return;
    }
    let actual: i64 = if thickness_fx > 0 {
        thickness_fx
    } else if config_thickness_fx > 0 {
        config_thickness_fx
    } else {
        256
    };
    let base_alpha = color / 0x1000000;
    let rgb = color % 0x1000000;
    let passes: i64 = (actual + 255) / 256;
    let ghost passes_total = spec_outline_passes(
        entry,
        gw,
        gh,
        points@,
        ox as int,
        oy as int,
        color,
        0,
        passes as int,
    );
    let mut pass: i64 = 0;
    while pass < passes
        invariant
            buf.wf(),
            buf.width == old(buf).width,
            buf.height == old(buf).height,
            raster_step(entry, buf.px@, color),
            0 <= pass,
            passes <= 5,
            n == points@.len(),
            base_alpha == color / 0x1000000,
            rgb == color % 0x1000000,
            spec_outline_passes(
                buf.px@,
                gw,
                gh,
                points@,
                ox as int,
                oy as int,
                color,
                pass as int,
                passes as int,
            ) == passes_total,
        decreases passes - pass,
    {
        let offset = pass * 128;
        let pass_alpha: u32 = if pass == 0 {
            base_alpha
        } else {
            let fade_pct: u32 = 100 - (pass as u32) * 25;
            proof {
                assert(base_alpha * fade_pct <= 255 * 100) by (nonlinear_arith)
                    requires
                        base_alpha <= 255 && fade_pct <= 100,
                ;
                vstd::arithmetic::div_mod::lemma_div_is_ordered(
                    (base_alpha * fade_pct) as int,
                    255 * 100int,
                    100,
                );
            }
            let scaled = (base_alpha * fade_pct) / 100;
            if scaled > 30 {
                scaled
            } else {
                30
            }
        };
        let pass_color = pass_alpha * 0x1000000 + rgb;
        proof {
            lemma_same_rgb(pass_alpha as int, color, pass_color);
            vstd::arithmetic::div_mod::lemma_fundamental_div_mod(color as int, 0x1000000);
            assert(pass_color as int == spec_pass_color(color, pass as int));
        }
        let ghost bp = buf.px@;
        outline_edges(buf, points, ox, oy, pass_color, offset);
        proof {
            lemma_raster_step_recolor(bp, buf.px@, pass_color, color);
            lemma_raster_step_trans(entry, bp, buf.px@, color);
            assert(buf.px@ == apply_samples(
                bp,
                gw,
                gh,
                spec_pass_color(color, pass as int) as u32,
                spec_edges_trace(points@, ox as int, oy as int, (pass as int) * 128, 0),
            ));
            assert(spec_outline_passes(
                buf.px@,
                gw,
                gh,
                points@,
                ox as int,
                oy as int,
                color,
                pass + 1,
                passes as int,
            ) == passes_total);
        }
        pass = pass + 1;
    }
    // soft glow shifted further out along the normal
    let glow_alpha = (base_alpha * 35) / 100;
    let glow_color = glow_alpha * 0x1000000 + rgb;
    let glow_offset = actual / 2 + (actual * 2) / 5;
    proof {
        lemma_same_rgb(glow_alpha as int, color, glow_color);
    }
    let ghost bg = buf.px@;
    outline_edges(buf, points, ox, oy, glow_color, glow_offset);
    proof {
        lemma_raster_step_recolor(bg, buf.px@, glow_color, color);
        lemma_raster_step_trans(entry, bg, buf.px@, color);
        assert(bg == passes_total);
        assert(buf.px@ == spec_outline(
            entry,
            gw,
            gh,
            points@,
            ox as int,
            oy as int,
            color,
            thickness_fx as int,
            config_thickness_fx as int,
        ));
    }
}

/// A color rebuilt from another's channels under a new alpha shares the
/// channels.
proof fn lemma_same_rgb(a: int, c2: u32, c1: u32)
    requires
        0 <= a <= 255,
        c1 == a * 0x1000000 + c2 as int % 0x1000000,
    ensures
        rgb_of(c1) == rgb_of(c2),
{
    vstd::arithmetic::div_mod::lemma_mod_bound(c2 as int, 0x1000000);
    vstd::arithmetic::div_mod::lemma_mod_multiples_vanish(a, c2 as int % 0x1000000, 0x1000000);
    vstd::arithmetic::div_mod::lemma_small_mod((c2 as int % 0x1000000) as nat, 0x1000000);
}

/// One pass over every edge of a polygon, each drawn shifted by `offset`
/// along its outward normal.
#[verifier::loop_isolation(false)]
#[verifier::rlimit(60)]
fn outline_edges(buf: &mut PixelBuf, points: &Vec<FxPoint>, ox: i64, oy: i64, color: u32, offset: i64)
    requires
        old(buf).wf(),
        forall|i: int| 0 <= i < points@.len()
            ==> -0x10000000 <= (#[trigger] points@[i]).x <= 0x10000000 && -0x10000000 <= points@[i].y
                <= 0x10000000,
        -0x10000000 <= ox <= 0x10000000,
        -0x10000000 <= oy <= 0x10000000,
        0 <= offset <= 2560,
    ensures
        final(buf).wf(),
        final(buf).width == old(buf).width,
        final(buf).height == old(buf).height,
        final(buf).px@ == apply_samples(
            old(buf).px@,
            old(buf).width as int,
            old(buf).height as int,
            color,
            spec_edges_trace(points@, ox as int, oy as int, offset as int, 0),
        ),
        raster_step(old(buf).px@, final(buf).px@, color),
{
    let ghost entry = buf.px@;
    let ghost gw = old(buf).width as int;
    let ghost gh = old(buf).height as int;
    let ghost total = apply_samples(
        entry,
        gw,
        gh,
        color,
        spec_edges_trace(points@, ox as int, oy as int, offset as int, 0),
    );
    proof {
        lemma_raster_step_refl(buf.px@, color);
    }
    let n = points.len();
    let mut i: usize = 0;
    while i < n
        invariant
            buf.wf(),
            buf.width == old(buf).width,
            buf.height == old(buf).height,
            raster_step(entry, buf.px@, color),
            n == points@.len(),
            i <= n,
            apply_samples(
                buf.px@,
                gw,
                gh,
                color,
                spec_edges_trace(points@, ox as int, oy as int, offset as int, i as int),
            ) == total,
        decreases n - i,
    {
        let x1 = points[i].x + ox;
        let y1 = points[i].y + oy;
        let nxt = if i + 1 == n { 0 } else { i + 1 };
        let x2 = points[nxt].x + ox;
        let y2 = points[nxt].y + oy;
        let (sx1, sy1, sx2, sy2) = if offset > 0 {
            let dx = x2 - x1;
            let dy = y2 - y1;
            proof {
                lemma_mul_range(dx as int, 0x40000000, dx as int, 0x40000000);
                lemma_mul_range(dy as int, 0x40000000, dy as int, 0x40000000);
                assert(dx * dx >= 0 && dy * dy >= 0) by (nonlinear_arith);
            }
            let dd = (dx * dx) as u64 + (dy * dy) as u64;
            let len_raw = isqrt(dd);
            let len: i64 = if len_raw == 0 { 1 } else { len_raw as i64 };
            proof {
                lemma_mul_range(-(dy as int), 0x40000000, offset as int, 2560);
                lemma_mul_range(dx as int, 0x40000000, offset as int, 2560);
            }
            let ndy = -dy;
            let nx0 = tdiv(ndy * offset, len);
            let ny0 = tdiv(dx * offset, len);
            let nx = clamp_i64(nx0, -2560, 2560);
            let ny = clamp_i64(ny0, -2560, 2560);
            proof {
                assert((nx as int, ny as int) == spec_edge_shift(
                    x1 as int,
                    y1 as int,
                    x2 as int,
                    y2 as int,
                    offset as int,
                ));
            }
            (x1 + nx, y1 + ny, x2 + nx, y2 + ny)
        } else {
            (x1, y1, x2, y2)
        };
        proof {
            assert(wu_samples(sx1 as int, sy1 as int, sx2 as int, sy2 as int) == spec_edge_samples(
                points@,
                ox as int,
                oy as int,
                offset as int,
                i as int,
            ));
        }
        let ghost be = buf.px@;
        line_aa(buf, sx1, sy1, sx2, sy2, color);
        proof {
            lemma_raster_step_trans(entry, be, buf.px@, color);
            let edge = spec_edge_samples(points@, ox as int, oy as int, offset as int, i as int);
            let rest = spec_edges_trace(points@, ox as int, oy as int, offset as int, i + 1);
            lemma_apply_samples_concat(be, gw, gh, color, edge, rest);
            assert(spec_edges_trace(points@, ox as int, oy as int, offset as int, i as int)
                == edge + rest);
            assert(apply_samples(buf.px@, gw, gh, color, rest) == total);
        }
        i = i + 1;
    }
}

/// `v` clamped into `lo ..= hi`.
fn clamp_i64(v: i64, lo: i64, hi: i64) -> (r: i64)
    requires
        lo <= hi,
    ensures
        lo <= r <= hi,
        r == (if v < lo { lo } else if v > hi { hi } else { v }),
{
    if v < lo {
        lo
    } else if v > hi {
        hi
    } else {
        v
    }
}

/// Deterministic position-hashed noise word for the frosted texture.
fn frost_hash(cx: i64, cy: i64) -> (r: u64)
    requires
        -0x100000000 <= cx <= 0x100000000,
        -0x100000000 <= cy <= 0x100000000,
    ensures
        r < 0x100000000,
{
    let ux: u64 = ((cx + 0x100000000) as u64) % 0x100000000;
    let uy: u64 = ((cy + 0x100000000) as u64) % 0x100000000;
    proof {
        lemma_mul_range(ux as int, 0x100000000, 374761393, 374761393);
        lemma_mul_range(uy as int, 0x100000000, 668265263, 668265263);
        vstd::arithmetic::div_mod::lemma_mod_bound((ux * 374761393) as int, 0x100000000);
        vstd::arithmetic::div_mod::lemma_mod_bound((uy * 668265263) as int, 0x100000000);
        lemma_mul_range(((ux + uy) % 0x100000000) as int, 0x100000000, 1274126177, 1274126177);
    }
    let a = (ux * 374761393) % 0x100000000;
    let b = (uy * 668265263) % 0x100000000;
    let c = (((ux + uy) % 0x100000000) * 1274126177) % 0x100000000;
    let ab = (a + b) % 0x100000000;
    proof {
        assert(ab ^ c < 0x100000000) by (bit_vector)
            requires
                ab < 0x100000000 && c < 0x100000000,
        ;
    }
    ab ^ c
}

/// Signed noise in fixed-point units derived from a hash word, in the
/// open interval of one unit either way.
fn frost_noise(h: u64) -> (r: i64)
    ensures
        -256 <= r <= 256,
{
    let m = (h % 1000) as i64;
    (m * 256) / 500 - 256
}

/// Frosted glass over a polygon: a scanline fill whose color and alpha
/// are perturbed per grid cell by stable position-hashed noise, blended
/// half-and-half over any content already present.
#[verifier::loop_isolation(false)]
#[verifier::rlimit(100)]
pub fn frosted_glass(
    buf: &mut PixelBuf,
    points: &Vec<FxPoint>,
    ox: i64,
    oy: i64,
    tint_color: u32,
    blur_fx: i64,
)
    requires
        old(buf).wf(),
        raster_bounded(points@),
        points@.len() <= 0x10000,
        -RASTER_LIMIT <= ox <= RASTER_LIMIT,
        -RASTER_LIMIT <= oy <= RASTER_LIMIT,
        0 <= blur_fx <= 25600,
    ensures
        final(buf).wf(),
        final(buf).width == old(buf).width,
        final(buf).height == old(buf).height,
{
    let n = points.len();
    if n == 0 {
        return;
    }
    let base_alpha = (tint_color / 0x1000000) as i64;
    let tint_r = ((tint_color / 0x10000) % 256) as i64;
    let tint_g = ((tint_color / 0x100) % 256) as i64;
    let tint_b = (tint_color % 256) as i64;
    // smaller cells make a finer grain
    let cell_shrink = (blur_fx * 3) / 20;
    let cell_fx: i64 = if 640 - cell_shrink > 307 { 640 - cell_shrink } else { 307 };
    let avm: i64 = if blur_fx * 25 < 25600 { blur_fx * 25 } else { 25600 };
    let cvm: i64 = if blur_fx * 10 < 12800 { blur_fx * 10 } else { 12800 };
    proof {
        assert(-RASTER_LIMIT <= points@[0].y <= RASTER_LIMIT && -RASTER_LIMIT <= points@[0].x <= RASTER_LIMIT);
    }
    let mut min_fy: i64 = points[0].y + oy;
    let mut max_fy: i64 = min_fy;
    let mut i: usize = 1;
    while i < n
        invariant
            n == points@.len(),
            i <= n,
            -0x40000000 <= min_fy <= 0x40000000,
            -0x40000000 <= max_fy <= 0x40000000,
        decreases n - i,
    {
        let fy = points[i].y + oy;
        if fy < min_fy {
            min_fy = fy;
        }
        if fy > max_fy {
            max_fy = fy;
        }
        i = i + 1;
    }
    let mut y: i64 = tdiv256(min_fy);
    let y_hi0 = tdiv256(max_fy);
    if y < 0 {
        y = 0;
    }
    let height = buf.height as i64;
    let width = buf.width as i64;
    let y_hi: i64 = if y_hi0 > height - 1 { height - 1 } else { y_hi0 };
    while y <= y_hi
        invariant
            buf.wf(),
            buf.width == old(buf).width,
            buf.height == old(buf).height,
            0 <= y,
            y_hi < height,
            width == buf.width,
            n == points@.len(),
            307 <= cell_fx <= 640,
            0 <= avm <= 25600,
            0 <= cvm <= 12800,
            0 <= base_alpha <= 255 && 0 <= tint_r <= 255 && 0 <= tint_g <= 255 && 0 <= tint_b <= 255,
        decreases y_hi + 1 - y,
    {
        let yf = y * 256 + 128;
        let mut xs: Vec<i64> = Vec::new();
        let mut e: usize = 0;
        while e < n
            invariant
                n == points@.len(),
                e <= n,
                xs@.len() <= e,
                forall|k: int| 0 <= k < xs@.len() ==> -0x80000000 <= #[trigger] xs@[k] <= 0x80000000,
            decreases n - e,
        {
            let x1 = points[e].x + ox;
            let y1 = points[e].y + oy;
            let nxt = if e + 1 == n { 0 } else { e + 1 };
            let x2 = points[nxt].x + ox;
            let y2 = points[nxt].y + oy;
            if (y1 <= yf && y2 > yf) || (y2 <= yf && y1 > yf) {
                proof {
                    lemma_mul_range(yf - y1, 0x80000000, x2 - x1, 0x80000000);
                }
                let x = x1 + tdiv(checked_mul_fill(yf - y1, x2 - x1), y2 - y1);
                let xc = if x < -0x80000000 {
                    -0x80000000
                } else if x > 0x80000000 {
                    0x80000000
                } else {
                    x
                };
                xs.push(xc);
            }
            e = e + 1;
        }
        let ghost unsorted = xs@;
        sort_i64(&mut xs);
        proof {
            lemma_multiset_keeps_bounds(unsorted, xs@, -0x80000000i64, 0x80000000i64);
        }
        let m = xs.len();
        let mut j: usize = 0;
        while j + 1 < m
            invariant
                buf.wf(),
                buf.width == old(buf).width,
                buf.height == old(buf).height,
                0 <= y < height,
                width == buf.width,
                m == xs@.len() <= 0x10000,
                j <= m + 1,
                307 <= cell_fx <= 640,
                0 <= avm <= 25600,
                0 <= cvm <= 12800,
                0 <= base_alpha <= 255 && 0 <= tint_r <= 255 && 0 <= tint_g <= 255 && 0 <= tint_b <= 255,
                forall|k: int| 0 <= k < xs@.len() ==> -0x80000000 <= #[trigger] xs@[k] <= 0x80000000,
            decreases m - j,
        {
            let c0 = xs[j];
            let c1 = xs[j + 1];
            let x_lo = tdiv256(if c0 > 0 { c0 } else { 0 });
            let c1c = if c1 < (width - 1) * 256 { c1 } else { (width - 1) * 256 };
            let x_hi = tdiv256(c1c);
            if x_lo <= x_hi {
                let mut x = x_lo;
                while x <= x_hi
                    invariant
                        buf.wf(),
                        buf.width == old(buf).width,
                        buf.height == old(buf).height,
                        0 <= x,
                        0 <= y < height,
                        width == buf.width,
                        x_hi < width,
                        307 <= cell_fx <= 640,
                        0 <= avm <= 25600,
                        0 <= cvm <= 12800,
                        0 <= base_alpha <= 255 && 0 <= tint_r <= 255 && 0 <= tint_g <= 255
                            && 0 <= tint_b <= 255,
                    decreases x_hi + 1 - x,
                {
                    let cx = tdiv(x * 256, cell_fx);
                    let cy = tdiv(y * 256, cell_fx);
                    let h = frost_hash(cx, cy);
                    let noise1 = frost_noise(h);
                    let h2 = (h * 16807) % 0x100000000;
                    let noise2 = frost_noise(h2);
                    let noise = clamp_i64((noise1 * 7 + noise2 * 3) / 10, -256, 256);
                    proof {
                        lemma_mul_range(noise as int, 256, avm as int, 25600);
                        lemma_mul_range(noise as int, 256, cvm as int, 12800);
                    }
                    let alpha_variation = (noise * avm) / 65536;
                    let fa = clamp_i64(base_alpha + alpha_variation, 15, 240);
                    let shift = (noise * cvm) / 65536;
                    let fr = clamp_i64(tint_r + shift, 0, 255);
                    let fg = clamp_i64(tint_g + shift, 0, 255);
                    let fb = clamp_i64(tint_b + shift / 2, 0, 255);
                    let existing = buf.at(x, y);
                    let ea = (existing / 0x1000000) as i64;
                    if ea > 0 {
                        let er = ((existing / 0x10000) % 256) as i64;
                        let eg = ((existing / 0x100) % 256) as i64;
                        let eb = (existing % 256) as i64;
                        let br = (er + fr) / 2;
                        let bg = (eg + fg) / 2;
                        let bb = (eb + fb) / 2;
                        let ba = (ea + fa) / 2;
                        let px = (ba * 0x1000000 + br * 0x10000 + bg * 0x100 + bb) as u32;
                        buf.put(x, y, px);
                    } else {
                        let px = (fa * 0x1000000 + fr * 0x10000 + fg * 0x100 + fb) as u32;
                        buf.put(x, y, px);
                    }
                    x = x + 1;
                }
            }
            j = j + 2;
        }
        y = y + 1;
    }
}

/// Frosted outline: each edge is stepped pixel by pixel and stamped with
/// noise-varied alpha and color, for a textured stroke.
#[verifier::loop_isolation(false)]
#[verifier::rlimit(100)]
pub fn outline_spiral_blur(
    buf: &mut PixelBuf,
    points: &Vec<FxPoint>,
    ox: i64,
    oy: i64,
    color: u32,
    blur_fx: i64,
)
    requires
        old(buf).wf(),
        raster_bounded(points@),
        points@.len() <= 0x10000,
        -0x10000000 <= ox <= 0x10000000,
        -0x10000000 <= oy <= 0x10000000,
        forall|i: int| 0 <= i < points@.len()
            ==> -0x10000000 <= (#[trigger] points@[i]).x <= 0x10000000 && -0x10000000 <= points@[i].y
                <= 0x10000000,
        0 <= blur_fx <= 25600,
    ensures
        final(buf).wf(),
        final(buf).width == old(buf).width,
        final(buf).height == old(buf).height,
{
    let n = points.len();
    if n == 0 {
        return;
    }
    let base_alpha = (color / 0x1000000) as i64;
    let base_r = ((color / 0x10000) % 256) as i64;
    let base_g = ((color / 0x100) % 256) as i64;
    let base_b = (color % 256) as i64;
    let ns0 = (blur_fx * 6) / 256;
    let noise_strength: i64 = if ns0 < 60 { ns0 } else { 60 };
    let mut i: usize = 0;
    while i < n
        invariant
            buf.wf(),
            buf.width == old(buf).width,
            buf.height == old(buf).height,
            n == points@.len(),
            i <= n,
            0 <= base_alpha <= 255 && 0 <= base_r <= 255 && 0 <= base_g <= 255 && 0 <= base_b <= 255,
            0 <= noise_strength <= 60,
        decreases n - i,
    {
        let x1 = points[i].x + ox;
        let y1 = points[i].y + oy;
        let nxt = if i + 1 == n { 0 } else { i + 1 };
        let x2 = points[nxt].x + ox;
        let y2 = points[nxt].y + oy;
        let adx = if x2 >= x1 { x2 - x1 } else { x1 - x2 };
        let ady = if y2 >= y1 { y2 - y1 } else { y1 - y2 };
        let major = if adx > ady { adx } else { ady };
        let steps0 = tdiv256(major);
        let steps: i64 = if steps0 < 1 { 1 } else { steps0 };
        let mut step: i64 = 0;
        while step <= steps
            invariant
                buf.wf(),
                buf.width == old(buf).width,
                buf.height == old(buf).height,
                0 <= step,
                1 <= steps <= 0x400000,
                -0x20000000 <= x1 <= 0x20000000 && -0x20000000 <= y1 <= 0x20000000,
                -0x20000000 <= x2 <= 0x20000000 && -0x20000000 <= y2 <= 0x20000000,
                0 <= base_alpha <= 255 && 0 <= base_r <= 255 && 0 <= base_g <= 255 && 0 <= base_b
                    <= 255,
                0 <= noise_strength <= 60,
            decreases steps + 1 - step,
        {
            proof {
                lemma_mul_range(step as int, 0x400001, x2 - x1, 0x40000000);
                lemma_mul_range(step as int, 0x400001, y2 - y1, 0x40000000);
            }
            let px = tdiv256(x1 + tdiv(step * (x2 - x1), steps));
            let py = tdiv256(y1 + tdiv(step * (y2 - y1), steps));
            if px >= 0 && py >= 0 && px < buf.width as i64 && py < buf.height as i64 {
                let h = frost_hash(px, py);
                let noise = frost_noise(h);
                proof {
                    lemma_mul_range(noise as int, 256, noise_strength as int, 60);
                }
                let alpha_var = (noise * noise_strength) / 256;
                let fa = clamp_i64(base_alpha + alpha_var, 30, 255);
                let cn = ((h / 1024) % 16) as i64 - 8;
                let fr = clamp_i64(base_r + cn, 0, 255);
                let fg = clamp_i64(base_g + cn, 0, 255);
                let fb = clamp_i64(base_b + cn, 0, 255);
                let frosted = (fa * 0x1000000 + fr * 0x10000 + fg * 0x100 + fb) as u32;
                buf.blend_at(px, py, frosted);
            }
            step = step + 1;
        }
        i = i + 1;
    }
}

} // verus!
