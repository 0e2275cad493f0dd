//! The layered cursor description: one drawable layer with its point
//! sequence, colors, stroke and blur attributes, and the parsers that read
//! layers out of the two description dialects.

use vstd::prelude::*;

use crate::geometry::{points_bounded, FxPoint, COORD_LIMIT};
use crate::parse::{
    find_from, find_sub, parse_bool_in, parse_color_in, parse_fixed_at, parse_fixed_in,
    parse_int_in, spec_fixed_value_at, spec_parse_bool, spec_parse_color, spec_parse_fixed,
    spec_parse_int,
};

verus! {

/// Most points one layer may carry.
pub const LAYER_POINT_CAP: usize = 0x10000;

/// Most layers one description may carry.
pub const LAYER_CAP: usize = 64;

/// One drawable unit of a multi-layer cursor design.
pub struct CursorLayer {
    /// Outline point sequence, cubic curves already expanded to segments.
    pub points: Vec<FxPoint>,
    pub fill_color: u32,
    pub outline_color: u32,
    /// Outline stroke width in fixed-point units; zero means the default.
    pub outline_width: i64,
    pub shadow_color: u32,
    /// Shadow displacement in fixed-point units.
    pub shadow_offset: i64,
    /// Frost/blur intensity in fixed-point units.
    pub blur: i64,
    /// Whether the blur also applies to the outline stroke.
    pub blur_outline: bool,
    /// Index of the layer this one tints through, or -1 for an opaque
    /// shape.
    pub passthrough_to: i32,
}

impl CursorLayer {
    /// Bounds every drawing routine relies on.
    pub open spec fn wf(&self) -> bool {
        &&& points_bounded(self.points@)
        &&& self.points@.len() <= LAYER_POINT_CAP
        &&& 0 <= self.outline_width <= 1280
        &&& 0 <= self.shadow_offset <= COORD_LIMIT
        &&& 0 <= self.blur <= 25600
    }
}

/// `v` clamped into `lo ..= hi`.
fn clamp_fx(v: i64, lo: i64, hi: i64) -> (r: i64)
    requires
        lo <= hi,
    ensures
        lo <= r <= hi,
        r == (if v < lo { lo } else if v > hi { hi } else { v }),
{
    if v < lo {
        lo
    } else if v > hi {
        hi
    } else {
        v
    }
}

/// The alpha byte a percentage field denotes: the percentage of full
/// opacity, truncated, capped at the full byte, and floored at zero.
pub open spec fn alpha_byte_of_percent(pct_fx: int) -> int {
    let raw = pct_fx * 255 / 25600;
    if raw < 0 {
        0
    } else if raw > 255 {
        255
    } else {
        raw
    }
}

/// Converts a percentage in fixed-point units to an alpha byte.
fn alpha_byte(pct_fx: i64) -> (r: u32)
    requires
        -0x10000000000 <= pct_fx <= 0x10000000000,
    ensures
        r == alpha_byte_of_percent(pct_fx as int),
{
    if pct_fx <= 0 {
        proof {
            if pct_fx < 0 {
                vstd::arithmetic::div_mod::lemma_div_is_ordered(pct_fx * 255, 0, 25600);
                crate::geometry::lemma_mul_range(pct_fx as int, 0x10000000000, 255, 255);
            }
        }
        return 0;
    }
    proof {
        crate::geometry::lemma_mul_range(pct_fx as int, 0x10000000000, 255, 255);
        vstd::arithmetic::div_mod::lemma_div_pos_is_pos(pct_fx * 255, 25600);
    }
    let raw = (pct_fx * 255) / 25600;
    if raw > 255 {
        255
    } else {
        raw as u32
    }
}

/// A color with its alpha byte replaced.
pub open spec fn with_alpha(alpha: int, base: u32) -> int {
    alpha * 0x1000000 + base as int % 0x1000000
}

/// Replaces the alpha byte of a color.
fn set_alpha(alpha: u32, base: u32) -> (r: u32)
    requires
        alpha <= 255,
    ensures
        r == with_alpha(alpha as int, base),
{
    alpha * 0x1000000 + base % 0x1000000
}

/// Cubic Bézier interpolation at parameter `t/8`, in fixed-point units:
/// the classic cubic blend of the previous point, the two control points,
/// and the end point, with weights summing to a full share.
pub open spec fn bezier_at(p0: int, c1: int, c2: int, p3: int, t: int) -> int {
    let mt = 8 - t;
    (mt * mt * mt * p0 + 3 * mt * mt * t * c1 + 3 * mt * t * t * c2 + t * t * t * p3) / 512
}

/// Cubic Bézier interpolation at parameter `t/8`.
fn bezier_point(p0: i64, c1: i64, c2: i64, p3: i64, t: i64) -> (r: i64)
    requires
        1 <= t <= 8,
        -COORD_LIMIT <= p0 <= COORD_LIMIT,
        -COORD_LIMIT <= c1 <= COORD_LIMIT,
        -COORD_LIMIT <= c2 <= COORD_LIMIT,
        -COORD_LIMIT <= p3 <= COORD_LIMIT,
    ensures
        r == bezier_at(p0 as int, c1 as int, c2 as int, p3 as int, t as int),
        -COORD_LIMIT <= r <= COORD_LIMIT,
{
    let mt = 8 - t;
    proof {
        assert(0 <= mt * mt <= 64 && 0 <= t * t <= 64 && 0 <= mt * mt * mt <= 512 && 0 <= 3 * (mt
            * mt) * t <= 1536 && 0 <= 3 * mt * (t * t) <= 1536 && 0 <= t * t * t <= 512)
            by (nonlinear_arith)
            requires
                0 <= mt <= 8 && 0 <= t <= 8,
        ;
    }
    let w0 = mt * mt * mt;
    let w1 = 3 * (mt * mt) * t;
    let w2 = 3 * mt * (t * t);
    let w3 = t * t * t;
    proof {
        crate::geometry::lemma_mul_range(w0 as int, 512, p0 as int, COORD_LIMIT as int);
        crate::geometry::lemma_mul_range(w1 as int, 1536int, c1 as int, COORD_LIMIT as int);
        crate::geometry::lemma_mul_range(w2 as int, 1536int, c2 as int, COORD_LIMIT as int);
        crate::geometry::lemma_mul_range(w3 as int, 512, p3 as int, COORD_LIMIT as int);
        assert(w0 + w1 + w2 + w3 == 512) by (nonlinear_arith)
            requires
                mt == 8 - t && w0 == mt * mt * mt && w1 == 3 * (mt * mt) * t && w2 == 3 * mt * (t
                    * t) && w3 == t * t * t,
        ;
        assert(w0 * p0 + w1 * c1 + w2 * c2 + w3 * p3 == mt * mt * mt * p0 + 3 * mt * mt * t * c1
            + 3 * mt * t * t * c2 + t * t * t * p3) by (nonlinear_arith)
            requires
                w0 == mt * mt * mt && w1 == 3 * (mt * mt) * t && w2 == 3 * mt * (t * t) && w3 == t
                    * t * t,
        ;
    }
    let num = w0 * p0 + w1 * c1 + w2 * c2 + w3 * p3;
    proof {
        assert(-512 * (COORD_LIMIT as int) <= w0 * p0 + w1 * c1 + w2 * c2 + w3 * p3 <= 512 * (
        COORD_LIMIT as int)) by (nonlinear_arith)
            requires
                w0 >= 0 && w1 >= 0 && w2 >= 0 && w3 >= 0 && w0 + w1 + w2 + w3 == 512
                    && -COORD_LIMIT <= p0 <= COORD_LIMIT && -COORD_LIMIT <= c1 <= COORD_LIMIT
                    && -COORD_LIMIT <= c2 <= COORD_LIMIT && -COORD_LIMIT <= p3 <= COORD_LIMIT,
        ;
        vstd::arithmetic::div_mod::lemma_div_is_ordered(num as int, 512 * COORD_LIMIT as int, 512);
        vstd::arithmetic::div_mod::lemma_div_is_ordered(-512 * (COORD_LIMIT as int), num as int, 512);
        vstd::arithmetic::div_mod::lemma_div_multiples_vanish(COORD_LIMIT as int, 512);
        vstd::arithmetic::div_mod::lemma_div_multiples_vanish(-(COORD_LIMIT as int), 512);
        assert(512 * (COORD_LIMIT as int) / 512 == COORD_LIMIT as int);
        assert((-512 * (COORD_LIMIT as int)) == 512 * (-(COORD_LIMIT as int))) by (nonlinear_arith);
    }
    if num >= 0 {
        num / 512
    } else {
        proof {
            lemma_floor_div_neg(num as int, 512);
        }
        -((-num + 511) / 512)
    }
}

/// Euclidean division of a negative value by a positive divisor, phrased
/// with nonnegative operands.
proof fn lemma_floor_div_neg(p: int, d: int)
    requires
        p < 0,
        d > 0,
    ensures
        -((-p + d - 1) / d) == p / d,
{
    let q = p / d;
    let r = p % d;
    vstd::arithmetic::div_mod::lemma_fundamental_div_mod(p, d);
    vstd::arithmetic::div_mod::lemma_mod_bound(p, d);
    assert(-p + d - 1 == (-q) * d + (d - 1 - r)) by (nonlinear_arith)
        requires
            p == d * q + r,
    ;
    vstd::arithmetic::div_mod::lemma_fundamental_div_mod_converse(-p + d - 1, d, -q, d - 1 - r);
}

/// The field name `fill` as bytes.
pub open spec fn key_fill() -> Seq<u8> {
    seq![102u8, 105, 108, 108]
}

/// The field name `outline` as bytes.
pub open spec fn key_outline() -> Seq<u8> {
    seq![111u8, 117, 116, 108, 105, 110, 101]
}

/// The field name `shadow` as bytes.
pub open spec fn key_shadow() -> Seq<u8> {
    seq![115u8, 104, 97, 100, 111, 119]
}

/// The field name `fillAlpha` as bytes.
pub open spec fn key_fill_alpha() -> Seq<u8> {
    seq![102u8, 105, 108, 108, 65, 108, 112, 104, 97]
}

/// The field name `outlineAlpha` as bytes.
pub open spec fn key_outline_alpha() -> Seq<u8> {
    seq![111u8, 117, 116, 108, 105, 110, 101, 65, 108, 112, 104, 97]
}

/// The field name `outlineWidth` as bytes.
pub open spec fn key_outline_width() -> Seq<u8> {
    seq![111u8, 117, 116, 108, 105, 110, 101, 87, 105, 100, 116, 104]
}

/// The field name `shadowOffset` as bytes.
pub open spec fn key_shadow_offset() -> Seq<u8> {
    seq![115u8, 104, 97, 100, 111, 119, 79, 102, 102, 115, 101, 116]
}

/// The field name `blur` as bytes.
pub open spec fn key_blur() -> Seq<u8> {
    seq![98u8, 108, 117, 114]
}

/// The field name `blurOutline` as bytes.
pub open spec fn key_blur_outline() -> Seq<u8> {
    seq![98u8, 108, 117, 114, 79, 117, 116, 108, 105, 110, 101]
}

/// The field name `passthroughTo` as bytes.
pub open spec fn key_passthrough_to() -> Seq<u8> {
    seq![112u8, 97, 115, 115, 116, 104, 114, 111, 117, 103, 104, 84, 111]
}

/// The field name `passthrough` as bytes.
pub open spec fn key_passthrough() -> Seq<u8> {
    seq![112u8, 97, 115, 115, 116, 104, 114, 111, 117, 103, 104]
}

/// A parsed color field, or its default where the key is absent.
pub open spec fn spec_color_field(h: Seq<u8>, key: Seq<u8>, dflt: u32) -> u32 {
    match spec_parse_color(h, key) {
        Some(c) => c,
        None => dflt,
    }
}

/// A parsed number field, or its default where the key is absent.
pub open spec fn spec_fixed_field(h: Seq<u8>, key: Seq<u8>, dflt: i64) -> i64 {
    match spec_parse_fixed(h, key) {
        Some(v) => v,
        None => dflt,
    }
}

/// A parsed flag field, or its default where the key is absent.
pub open spec fn spec_bool_field(h: Seq<u8>, key: Seq<u8>, dflt: bool) -> bool {
    match spec_parse_bool(h, key) {
        Some(v) => v,
        None => dflt,
    }
}

/// A value clamped into a range.
pub open spec fn spec_clamp(v: int, lo: int, hi: int) -> int {
    if v < lo {
        lo
    } else if v > hi {
        hi
    } else {
        v
    }
}

/// The color a layer field and its percentage alpha field combine to.
pub open spec fn spec_layer_color(h: Seq<u8>, color_key: Seq<u8>, alpha_key: Seq<u8>, dflt: u32) -> int {
    let base = spec_color_field(h, color_key, dflt);
    let pct = spec_clamp(spec_fixed_field(h, alpha_key, 25600) as int, -0x10000000000, 0x10000000000);
    with_alpha(alpha_byte_of_percent(pct), base)
}

/// A coordinate clamped into the drawable range.
pub open spec fn spec_clamp_coord(v: int) -> int {
    spec_clamp(v, -COORD_LIMIT as int, COORD_LIMIT as int)
}

/// Clamps a parsed coordinate into the drawable range.
fn clamp_coord(v: i64) -> (r: i64)
    ensures
        r == spec_clamp_coord(v as int),
        -COORD_LIMIT <= r <= COORD_LIMIT,
{
    clamp_fx(v, -COORD_LIMIT, COORD_LIMIT)
}

/// The field name `x` as bytes.
pub open spec fn key_x() -> Seq<u8> {
    seq![120u8]
}

/// The field name `y` as bytes.
pub open spec fn key_y() -> Seq<u8> {
    seq![121u8]
}

/// The field name `cx1` as bytes.
pub open spec fn key_cx1() -> Seq<u8> {
    seq![99u8, 120, 49]
}

/// The field name `cy1` as bytes.
pub open spec fn key_cy1() -> Seq<u8> {
    seq![99u8, 121, 49]
}

/// The field name `cx2` as bytes.
pub open spec fn key_cx2() -> Seq<u8> {
    seq![99u8, 120, 50]
}

/// The field name `cy2` as bytes.
pub open spec fn key_cy2() -> Seq<u8> {
    seq![99u8, 121, 50]
}

/// The search pattern `"points"`, quotes included.
pub open spec fn pat_points() -> Seq<u8> {
    seq![34u8, 112, 111, 105, 110, 116, 115, 34]
}

/// The search pattern `"type"`, quotes included.
pub open spec fn pat_type_quoted() -> Seq<u8> {
    seq![34u8, 116, 121, 112, 101, 34]
}

/// The search pattern `curve`.
pub open spec fn pat_curve() -> Seq<u8> {
    seq![99u8, 117, 114, 118, 101]
}

/// A control-point field, defaulting to the end point's coordinate where
/// the key is absent.
pub open spec fn spec_ctrl_field(obj: Seq<u8>, key: Seq<u8>, dflt: int) -> int {
    match spec_parse_fixed(obj, key) {
        Some(v) => v as int,
        None => dflt,
    }
}

/// Position of the close bracket matching the array whose bytes start at
/// `i` with `depth` brackets already open.
pub open spec fn spec_array_end(h: Seq<u8>, i: int, depth: int) -> Option<int>
    decreases h.len() - i,
{
    if i < 0 || i >= h.len() {
        None
    } else if h[i] == 93 && depth <= 1 {
        Some(i)
    } else if h[i] == 93 {
        spec_array_end(h, i + 1, depth - 1)
    } else if h[i] == 91 {
        spec_array_end(h, i + 1, depth + 1)
    } else {
        spec_array_end(h, i + 1, depth)
    }
}

/// The points one point object appends to a sequence already holding
/// `acc`: a plain object contributes its clamped coordinate; an object
/// marked as a cubic curve, when a predecessor exists and the cap leaves
/// room, contributes the eight Bezier samples from the predecessor
/// through its control points, the eighth landing on its end point; an
/// object missing either coordinate contributes nothing.
pub open spec fn spec_object_points(obj: Seq<u8>, acc: Seq<FxPoint>) -> Seq<FxPoint> {
    match spec_parse_fixed(obj, key_x()) {
        None => Seq::empty(),
        Some(px0) => match spec_parse_fixed(obj, key_y()) {
            None => Seq::empty(),
            Some(py0) => {
                let px = spec_clamp_coord(px0 as int);
                let py = spec_clamp_coord(py0 as int);
                let curve = find_from(obj, pat_type_quoted(), 0) is Some && find_from(
                    obj,
                    pat_curve(),
                    0,
                ) is Some;
                if curve && acc.len() > 0 {
                    if acc.len() + 8 > LAYER_POINT_CAP {
                        Seq::empty()
                    } else {
                        let cx1 = spec_clamp_coord(spec_ctrl_field(obj, key_cx1(), px));
                        let cy1 = spec_clamp_coord(spec_ctrl_field(obj, key_cy1(), py));
                        let cx2 = spec_clamp_coord(spec_ctrl_field(obj, key_cx2(), px));
                        let cy2 = spec_clamp_coord(spec_ctrl_field(obj, key_cy2(), py));
                        let prev = acc.last();
                        Seq::new(
                            8,
                            |j: int|
                                FxPoint {
                                    x: bezier_at(prev.x as int, cx1, cx2, px, j + 1) as i64,
                                    y: bezier_at(prev.y as int, cy1, cy2, py, j + 1) as i64,
                                },
                        )
                    }
                } else if acc.len() < LAYER_POINT_CAP {
                    seq![FxPoint { x: px as i64, y: py as i64 }]
                } else {
                    Seq::empty()
                }
            },
        },
    }
}

/// The walk over the bytes of a points array: braces delimit point
/// objects at nesting depth one; each closed object appends its points.
pub open spec fn spec_walk_points(
    h: Seq<u8>,
    k: int,
    arr_end: int,
    obj_depth: int,
    obj_start: int,
    acc: Seq<FxPoint>,
) -> Seq<FxPoint>
    decreases arr_end - k,
{
    if k < 0 || k >= arr_end || arr_end > h.len() {
        acc
    } else {
        let b = h[k];
        if b == 123 {
            if obj_depth == 0 {
                spec_walk_points(h, k + 1, arr_end, 1, k, acc)
            } else {
                spec_walk_points(h, k + 1, arr_end, obj_depth + 1, obj_start, acc)
            }
        } else if b == 125 {
            if obj_depth == 1 {
                spec_walk_points(
                    h,
                    k + 1,
                    arr_end,
                    0,
                    obj_start,
                    acc + spec_object_points(h.subrange(obj_start, k + 1), acc),
                )
            } else if obj_depth > 1 {
                spec_walk_points(h, k + 1, arr_end, obj_depth - 1, obj_start, acc)
            } else {
                spec_walk_points(h, k + 1, arr_end, obj_depth, obj_start, acc)
            }
        } else {
            spec_walk_points(h, k + 1, arr_end, obj_depth, obj_start, acc)
        }
    }
}

/// The point sequence a layer's `points` array denotes: the array is the
/// first bracket after the first `"points"` occurrence, up to its
/// matching close bracket, and its point objects contribute in order.
pub open spec fn spec_layer_points(h: Seq<u8>) -> Seq<FxPoint> {
    match find_from(h, pat_points(), 0) {
        None => Seq::empty(),
        Some(p) => match find_from(h, seq![91u8], p) {
            None => Seq::empty(),
            Some(arr_start) => match spec_array_end(h, arr_start, 0) {
                None => Seq::empty(),
                Some(arr_end) => if arr_end <= arr_start {
                    Seq::empty()
                } else {
                    spec_walk_points(h, arr_start + 1, arr_end, 0, arr_start, Seq::empty())
                },
            },
        },
    }
}

/// Parses the `points` array of one layer: each point object contributes
/// its coordinate, and a point marked as a cubic curve is expanded into
/// eight line segments from the previous point through its two control
/// points.  Coordinates are clamped into the drawable range; at most
/// `LAYER_POINT_CAP` points are kept.
#[verifier::loop_isolation(false)]
pub fn parse_layer_points(layer: &[u8]) -> (r: Vec<FxPoint>)
    ensures
        r@ == spec_layer_points(layer@),
        points_bounded(r@),
        r@.len() <= LAYER_POINT_CAP,
{
    let mut out: Vec<FxPoint> = Vec::new();
    let points_marker: [u8; 8] = [34u8, 112, 111, 105, 110, 116, 115, 34];
    let open_bracket: [u8; 1] = [91u8];
    proof {
        assert(points_marker@ =~= pat_points());
        assert(open_bracket@ =~= seq![91u8]);
        assert(out@ =~= Seq::<FxPoint>::empty());
    }
    let start = match find_sub(layer, points_marker.as_slice(), 0) {
        Some(p) => p,
        None => {
            return out;
        },
    };
    let arr_start = match find_sub(layer, open_bracket.as_slice(), start) {
        Some(p) => p,
        None => {
            return out;
        },
    };
    let hl = layer.len();
    proof {
        crate::parse::lemma_find_from_found(layer@, open_bracket@, start as int);
        assert(arr_start < hl);
    }
    // locate the matching close bracket of the array
    let mut depth: usize = 0;
    let mut i: usize = arr_start;
    let mut arr_end: usize = arr_start;
    let mut found_end = false;
    while i < hl && !found_end
        invariant
            hl == layer@.len(),
            arr_start <= i <= hl,
            depth <= i - arr_start,
            found_end ==> arr_start <= arr_end < hl && spec_array_end(
                layer@,
                arr_start as int,
                0,
            ) == Some(arr_end as int),
            !found_end ==> spec_array_end(layer@, arr_start as int, 0) == spec_array_end(
                layer@,
                i as int,
                depth as int,
            ),
        decreases hl - i,
    {
        let b = layer[i];
        if b == 91 {
            depth = depth + 1;
        } else if b == 93 {
            if depth <= 1 {
                arr_end = i;
                found_end = true;
            } else {
                depth = depth - 1;
            }
        }
        i = i + 1;
    }
    if !found_end {
        proof {
            assert(spec_array_end(layer@, i as int, depth as int) is None);
        }
        return out;
    }
    if arr_end <= arr_start {
        return out;
    }
    // walk the point objects inside the array
    let ghost total = spec_walk_points(
        layer@,
        arr_start + 1,
        arr_end as int,
        0,
        arr_start as int,
        Seq::empty(),
    );
    let mut obj_depth: usize = 0;
    let mut obj_start: usize = arr_start;
    let mut k: usize = arr_start + 1;
    while k < arr_end
        invariant
            hl == layer@.len(),
            arr_start < arr_end < hl,
            arr_start < k <= arr_end,
            obj_start < k,
            obj_depth <= k - arr_start,
            points_bounded(out@),
            out@.len() <= LAYER_POINT_CAP,
            total == spec_walk_points(
                layer@,
                k as int,
                arr_end as int,
                obj_depth as int,
                obj_start as int,
                out@,
            ),
        decreases arr_end - k,
    {
        let b = layer[k];
        if b == 123 {
            if obj_depth == 0 {
                obj_start = k;
            }
            obj_depth = obj_depth + 1;
        } else if b == 125 {
            if obj_depth == 1 {
                obj_depth = 0;
                let obj = &layer[obj_start..k + 1];
                parse_point_object(obj, &mut out);
            } else if obj_depth > 0 {
                obj_depth = obj_depth - 1;
            }
        }
        k = k + 1;
    }
    out
}

/// Reads one point object and appends its point, or its expanded curve,
/// to the sequence.
#[verifier::loop_isolation(false)]
fn parse_point_object(obj: &[u8], out: &mut Vec<FxPoint>)
    requires
        points_bounded(old(out)@),
        old(out)@.len() <= LAYER_POINT_CAP,
    ensures
        final(out)@ == old(out)@ + spec_object_points(obj@, old(out)@),
        points_bounded(final(out)@),
        final(out)@.len() <= LAYER_POINT_CAP,
{
    let field_x: [u8; 1] = [120u8];
    let field_y: [u8; 1] = [121u8];
    proof {
        assert(field_x@ =~= key_x());
        assert(field_y@ =~= key_y());
    }
    let px0 = match parse_fixed_in(obj, field_x.as_slice()) {
        Some(v) => v,
        None => {
            proof {
                assert(out@ =~= old(out)@ + spec_object_points(obj@, old(out)@));
            }
            return;
        },
    };
    let py0 = match parse_fixed_in(obj, field_y.as_slice()) {
        Some(v) => v,
        None => {
            proof {
                assert(out@ =~= old(out)@ + spec_object_points(obj@, old(out)@));
            }
            return;
        },
    };
    let px = clamp_coord(px0);
    let py = clamp_coord(py0);
    let type_marker: [u8; 6] = [34u8, 116, 121, 112, 101, 34];
    let curve_marker: [u8; 5] = [99u8, 117, 114, 118, 101];
    proof {
        assert(type_marker@ =~= pat_type_quoted());
        assert(curve_marker@ =~= pat_curve());
    }
    let is_curve = find_sub(obj, type_marker.as_slice(), 0).is_some()
        && find_sub(obj, curve_marker.as_slice(), 0).is_some();
    if is_curve && out.len() > 0 {
        if out.len() + 8 > LAYER_POINT_CAP {
            proof {
                assert(out@ =~= old(out)@ + spec_object_points(obj@, old(out)@));
            }
            return;
        }
        let field_cx1: [u8; 3] = [99u8, 120, 49];
        let field_cy1: [u8; 3] = [99u8, 121, 49];
        let field_cx2: [u8; 3] = [99u8, 120, 50];
        let field_cy2: [u8; 3] = [99u8, 121, 50];
        proof {
            assert(field_cx1@ =~= key_cx1());
            assert(field_cy1@ =~= key_cy1());
            assert(field_cx2@ =~= key_cx2());
            assert(field_cy2@ =~= key_cy2());
        }
        let cx1 = clamp_coord(match parse_fixed_in(obj, field_cx1.as_slice()) {
            Some(v) => v,
            None => px,
        });
        let cy1 = clamp_coord(match parse_fixed_in(obj, field_cy1.as_slice()) {
            Some(v) => v,
            None => py,
        });
        let cx2 = clamp_coord(match parse_fixed_in(obj, field_cx2.as_slice()) {
            Some(v) => v,
            None => px,
        });
        let cy2 = clamp_coord(match parse_fixed_in(obj, field_cy2.as_slice()) {
            Some(v) => v,
            None => py,
        });
        let ghost samples = spec_object_points(obj@, old(out)@);
        proof {
            assert(samples.len() == 8);
        }
        let prev = out[out.len() - 1];
        let mut t: i64 = 1;
        while t <= 8
            invariant
                1 <= t <= 9,
                points_bounded(out@),
                out@ == old(out)@ + samples.take(t - 1),
                out@.len() == old(out)@.len() + t - 1,
                samples == spec_object_points(obj@, old(out)@),
                samples.len() == 8,
                prev == old(out)@.last(),
                -COORD_LIMIT <= prev.x <= COORD_LIMIT,
                -COORD_LIMIT <= prev.y <= COORD_LIMIT,
                -COORD_LIMIT <= cx1 <= COORD_LIMIT && -COORD_LIMIT <= cy1 <= COORD_LIMIT,
                -COORD_LIMIT <= cx2 <= COORD_LIMIT && -COORD_LIMIT <= cy2 <= COORD_LIMIT,
                -COORD_LIMIT <= px <= COORD_LIMIT && -COORD_LIMIT <= py <= COORD_LIMIT,
                cx1 == spec_clamp_coord(spec_ctrl_field(obj@, key_cx1(), px as int)),
                cy1 == spec_clamp_coord(spec_ctrl_field(obj@, key_cy1(), py as int)),
                cx2 == spec_clamp_coord(spec_ctrl_field(obj@, key_cx2(), px as int)),
                cy2 == spec_clamp_coord(spec_ctrl_field(obj@, key_cy2(), py as int)),
                old(out)@.len() + 8 <= LAYER_POINT_CAP,
            decreases 9 - t,
        {
            let bx = bezier_point(prev.x, cx1, cx2, px, t);
            let by = bezier_point(prev.y, cy1, cy2, py, t);
            proof {
                assert(samples[t - 1] == (FxPoint { x: bx, y: by }));
                assert(old(out)@ + samples.take(t as int) =~= (old(out)@ + samples.take(t - 1)).push(
                    samples[t - 1],
                ));
            }
            out.push(FxPoint { x: bx, y: by });
            t = t + 1;
        }
        proof {
            assert(samples.take(8) =~= samples);
        }
    } else {
        if out.len() < LAYER_POINT_CAP {
            out.push(FxPoint { x: px, y: py });
            proof {
                assert(out@ =~= old(out)@ + spec_object_points(obj@, old(out)@));
            }
        } else {
            proof {
                assert(out@ =~= old(out)@ + spec_object_points(obj@, old(out)@));
            }
        }
    }
}

/// Reads one layer object: its point sequence, colors with their separate
/// percentage alpha fields, stroke width, shadow offset, blur intensity
/// and flag, and an optional passthrough target.  A layer without points
/// is nothing.
pub fn parse_single_layer(layer: &[u8]) -> (r: Option<CursorLayer>)
    ensures
        r is Some <==> spec_layer_points(layer@).len() > 0,
        r matches Some(l) ==> {
            &&& l.wf()
            &&& l.points@ == spec_layer_points(layer@)
            &&& l.fill_color == spec_layer_color(layer@, key_fill(), key_fill_alpha(), 0xFFFFFFFF)
            &&& l.outline_color == spec_layer_color(layer@, key_outline(), key_outline_alpha(), 0xFF000000)
            &&& l.shadow_color == spec_color_field(layer@, key_shadow(), 0x80000000)
            &&& l.outline_width == spec_clamp(spec_fixed_field(layer@, key_outline_width(), 256) as int, 0, 1280)
            &&& l.shadow_offset == spec_clamp(spec_fixed_field(layer@, key_shadow_offset(), 256) as int, 0, COORD_LIMIT as int)
            &&& l.blur == spec_clamp(spec_fixed_field(layer@, key_blur(), 0) as int, 0, 25600)
            &&& l.blur_outline == spec_bool_field(layer@, key_blur_outline(), false)
            &&& l.passthrough_to == (match spec_parse_int(layer@, key_passthrough_to()) {
                Some(v) => v as int,
                None => if spec_bool_field(layer@, key_passthrough(), false) { 0int } else { -1int },
            })
        },
{
    let points = parse_layer_points(layer);
    if points.len() == 0 {
        return None;
    }
    let key_fill: [u8; 4] = [102u8, 105, 108, 108];
    let key_outline: [u8; 7] = [111u8, 117, 116, 108, 105, 110, 101];
    let key_shadow: [u8; 6] = [115u8, 104, 97, 100, 111, 119];
    proof {
        assert(key_fill@ =~= crate::layers::key_fill());
        assert(key_outline@ =~= crate::layers::key_outline());
        assert(key_shadow@ =~= crate::layers::key_shadow());
    }
    let fill_base = match parse_color_in(layer, key_fill.as_slice()) {
        Some(c) => c,
        None => 0xFFFFFFFF,
    };
    let outline_base = match parse_color_in(layer, key_outline.as_slice()) {
        Some(c) => c,
        None => 0xFF000000,
    };
    let shadow_color = match parse_color_in(layer, key_shadow.as_slice()) {
        Some(c) => c,
        None => 0x80000000,
    };
    let key_fill_alpha: [u8; 9] = [102u8, 105, 108, 108, 65, 108, 112, 104, 97];
    let key_outline_alpha: [u8; 12] = [111u8, 117, 116, 108, 105, 110, 101, 65, 108, 112, 104, 97];
    proof {
        assert(key_fill_alpha@ =~= crate::layers::key_fill_alpha());
        assert(key_outline_alpha@ =~= crate::layers::key_outline_alpha());
    }
    let fill_alpha = clamp_fx(
        match parse_fixed_in(layer, key_fill_alpha.as_slice()) {
            Some(v) => v,
            None => 25600,
        },
        -0x10000000000,
        0x10000000000,
    );
    let outline_alpha = clamp_fx(
        match parse_fixed_in(layer, key_outline_alpha.as_slice()) {
            Some(v) => v,
            None => 25600,
        },
        -0x10000000000,
        0x10000000000,
    );
    let fill_color = set_alpha(alpha_byte(fill_alpha), fill_base);
    let outline_color = set_alpha(alpha_byte(outline_alpha), outline_base);
    let key_outline_width: [u8; 12] = [111u8, 117, 116, 108, 105, 110, 101, 87, 105, 100, 116, 104];
    let key_shadow_offset: [u8; 12] = [115u8, 104, 97, 100, 111, 119, 79, 102, 102, 115, 101, 116];
    let key_blur: [u8; 4] = [98u8, 108, 117, 114];
    let key_blur_outline: [u8; 11] = [98u8, 108, 117, 114, 79, 117, 116, 108, 105, 110, 101];
    proof {
        assert(key_outline_width@ =~= crate::layers::key_outline_width());
        assert(key_shadow_offset@ =~= crate::layers::key_shadow_offset());
        assert(key_blur@ =~= crate::layers::key_blur());
        assert(key_blur_outline@ =~= crate::layers::key_blur_outline());
    }
    let outline_width = clamp_fx(
        match parse_fixed_in(layer, key_outline_width.as_slice()) {
            Some(v) => v,
            None => 256,
        },
        0,
        1280,
    );
    let shadow_offset = clamp_fx(
        match parse_fixed_in(layer, key_shadow_offset.as_slice()) {
            Some(v) => v,
            None => 256,
        },
        0,
        COORD_LIMIT,
    );
    let blur = clamp_fx(
        match parse_fixed_in(layer, key_blur.as_slice()) {
            Some(v) => v,
            None => 0,
        },
        0,
        25600,
    );
    let blur_outline = match parse_bool_in(layer, key_blur_outline.as_slice()) {
        Some(b) => b,
        None => false,
    };
    let key_passthrough_to: [u8; 13] = [112u8, 97, 115, 115, 116, 104, 114, 111, 117, 103, 104, 84, 111];
    let key_passthrough: [u8; 11] = [112u8, 97, 115, 115, 116, 104, 114, 111, 117, 103, 104];
    proof {
        assert(key_passthrough_to@ =~= crate::layers::key_passthrough_to());
        assert(key_passthrough@ =~= crate::layers::key_passthrough());
    }
    let passthrough_to: i32 = match parse_int_in(layer, key_passthrough_to.as_slice()) {
        Some(v) => v,
        None => {
            let legacy = match parse_bool_in(layer, key_passthrough.as_slice()) {
                Some(b) => b,
                None => false,
            };
            if legacy {
                0
            } else {
                -1
            }
        },
    };
    Some(CursorLayer {
        points,
        fill_color,
        outline_color,
        outline_width,
        shadow_color,
        shadow_offset,
        blur,
        blur_outline,
        passthrough_to,
    })
}

/// The search pattern `"layers"`, quotes included.
pub open spec fn pat_layers() -> Seq<u8> {
    seq![34u8, 108, 97, 121, 101, 114, 115, 34]
}

/// The walk over the bytes of a layers array: braces delimit layer
/// objects at nesting depth one; each closed object whose points parse
/// nonempty is accepted, up to the layer cap.  The result is the byte
/// slice of every accepted layer, in order.
pub open spec fn spec_walk_layers(
    h: Seq<u8>,
    i: int,
    depth: int,
    in_layer: bool,
    ls: int,
    acc: Seq<Seq<u8>>,
) -> Seq<Seq<u8>>
    decreases h.len() - i,
{
    if i < 0 || i >= h.len() {
        acc
    } else {
        let b = h[i];
        if b == 93 && depth == 1 {
            acc
        } else if b == 123 {
            if depth == 1 {
                spec_walk_layers(h, i + 1, 2, true, i, acc)
            } else {
                spec_walk_layers(h, i + 1, depth + 1, in_layer, ls, acc)
            }
        } else if b == 125 {
            let d2 = if depth > 1 { depth - 1 } else { depth };
            if d2 == 1 && in_layer {
                let one = h.subrange(ls, i + 1);
                let acc2 = if spec_layer_points(one).len() > 0 && acc.len() < LAYER_CAP {
                    acc.push(one)
                } else {
                    acc
                };
                spec_walk_layers(h, i + 1, d2, false, ls, acc2)
            } else {
                spec_walk_layers(h, i + 1, d2, in_layer, ls, acc)
            }
        } else {
            spec_walk_layers(h, i + 1, depth, in_layer, ls, acc)
        }
    }
}

/// The byte slices of the accepted layer objects of a description, in
/// order.
pub open spec fn spec_layer_slices(h: Seq<u8>) -> Seq<Seq<u8>> {
    match find_from(h, pat_layers(), 0) {
        None => Seq::empty(),
        Some(p) => match find_from(h, seq![91u8], p) {
            None => Seq::empty(),
            Some(arr_start) => spec_walk_layers(h, arr_start + 1, 1, false, arr_start, Seq::empty()),
        },
    }
}

/// The field name `scale` as bytes.
pub open spec fn key_scale() -> Seq<u8> {
    seq![115u8, 99, 97, 108, 101]
}

/// The field name `version` as bytes.
pub open spec fn key_version() -> Seq<u8> {
    seq![118u8, 101, 114, 115, 105, 111, 110]
}

/// Points appended one at a time under the combined-point cap.
pub open spec fn spec_cap_append(acc: Seq<FxPoint>, pts: Seq<FxPoint>, i: int) -> Seq<FxPoint>
    decreases pts.len() - i,
{
    if i < 0 || i >= pts.len() {
        acc
    } else {
        spec_cap_append(
            if acc.len() < LAYER_POINT_CAP {
                acc.push(pts[i])
            } else {
                acc
            },
            pts,
            i + 1,
        )
    }
}

/// The accepted layers' points from `j` on, appended under the cap.
pub open spec fn spec_concat_layer_points(h: Seq<u8>, j: int, acc: Seq<FxPoint>) -> Seq<FxPoint>
    decreases spec_layer_slices(h).len() - j,
{
    let sl = spec_layer_slices(h);
    if j < 0 || j >= sl.len() {
        acc
    } else {
        spec_concat_layer_points(h, j + 1, spec_cap_append(acc, spec_layer_points(sl[j]), 0))
    }
}

/// The combined point sequence of every accepted layer of a description,
/// in order, capped: the sequence whose transform fixes the design's
/// hotspot.
pub open spec fn spec_all_layer_points(h: Seq<u8>) -> Seq<FxPoint> {
    spec_concat_layer_points(h, 0, Seq::empty())
}

/// The fields a layer slice denotes, as one record-level predicate.
pub open spec fn spec_layer_matches(l: CursorLayer, one: Seq<u8>) -> bool {
    &&& l.points@ == spec_layer_points(one)
    &&& l.fill_color == spec_layer_color(one, key_fill(), key_fill_alpha(), 0xFFFFFFFF)
    &&& l.outline_color == spec_layer_color(one, key_outline(), key_outline_alpha(), 0xFF000000)
    &&& l.shadow_color == spec_color_field(one, key_shadow(), 0x80000000)
    &&& l.outline_width == spec_clamp(spec_fixed_field(one, key_outline_width(), 256) as int, 0, 1280)
    &&& l.shadow_offset == spec_clamp(
        spec_fixed_field(one, key_shadow_offset(), 256) as int,
        0,
        COORD_LIMIT as int,
    )
    &&& l.blur == spec_clamp(spec_fixed_field(one, key_blur(), 0) as int, 0, 25600)
    &&& l.blur_outline == spec_bool_field(one, key_blur_outline(), false)
    &&& l.passthrough_to == (match spec_parse_int(one, key_passthrough_to()) {
        Some(v) => v as int,
        None => if spec_bool_field(one, key_passthrough(), false) {
            0int
        } else {
            -1int
        },
    })
}

/// Reads every layer object of a multi-layer description's `layers`
/// array, in order, skipping layers without usable points and keeping at
/// most `LAYER_CAP` of them.
#[verifier::loop_isolation(false)]
pub fn parse_layers(content: &[u8]) -> (r: Vec<CursorLayer>)
    ensures
        r@.len() == spec_layer_slices(content@).len(),
        forall|i: int| 0 <= i < r@.len() ==> spec_layer_matches(
            #[trigger] r@[i],
            spec_layer_slices(content@)[i],
        ),
        forall|i: int| 0 <= i < r@.len() ==> (#[trigger] r@[i]).wf(),
        r@.len() <= LAYER_CAP,
{
    let mut layers: Vec<CursorLayer> = Vec::new();
    let layers_marker: [u8; 8] = [34u8, 108, 97, 121, 101, 114, 115, 34];
    let open_bracket: [u8; 1] = [91u8];
    proof {
        assert(layers_marker@ =~= pat_layers());
        assert(open_bracket@ =~= seq![91u8]);
    }
    let start = match find_sub(content, layers_marker.as_slice(), 0) {
        Some(p) => p,
        None => {
            return layers;
        },
    };
    let arr_start = match find_sub(content, open_bracket.as_slice(), start) {
        Some(p) => p,
        None => {
            return layers;
        },
    };
    let hl = content.len();
    proof {
        crate::parse::lemma_find_from_found(content@, open_bracket@, start as int);
        assert(arr_start < hl);
    }
    let ghost total = spec_walk_layers(
        content@,
        arr_start + 1,
        1,
        false,
        arr_start as int,
        Seq::empty(),
    );
    let ghost mut accepted: Seq<Seq<u8>> = Seq::empty();
    let mut depth: usize = 1;
    let mut in_layer = false;
    let mut layer_start: usize = arr_start;
    let mut done = false;
    let mut i: usize = arr_start + 1;
    while i < hl && !done
        invariant
            hl == content@.len(),
            arr_start < i <= hl,
            layer_start < i,
            1 <= depth <= i - arr_start,
            layers@.len() == accepted.len(),
            forall|j: int| 0 <= j < layers@.len() ==> spec_layer_matches(
                #[trigger] layers@[j],
                accepted[j],
            ),
            forall|j: int| 0 <= j < layers@.len() ==> (#[trigger] layers@[j]).wf(),
            layers@.len() <= LAYER_CAP,
            done ==> total == accepted,
            !done ==> total == spec_walk_layers(
                content@,
                i as int,
                depth as int,
                in_layer,
                layer_start as int,
                accepted,
            ),
        decreases hl - i,
    {
        let b = content[i];
        if b == 93 && depth == 1 {
            // the close bracket of the layers array itself; brackets inside
            // a layer are balanced within its braces and need no tracking
            done = true;
        } else if b == 123 {
            if depth == 1 {
                in_layer = true;
                layer_start = i;
            }
            depth = depth + 1;
        } else if b == 125 {
            if depth > 1 {
                depth = depth - 1;
            }
            if depth == 1 && in_layer {
                let one = &content[layer_start..i + 1];
                if let Some(l) = parse_single_layer(one) {
                    if layers.len() < LAYER_CAP {
                        layers.push(l);
                        proof {
                            accepted = accepted.push(content@.subrange(layer_start as int, i + 1));
                        }
                    }
                }
                in_layer = false;
            }
        }
        i = i + 1;
    }
    proof {
        if !done {
            assert(spec_walk_layers(
                content@,
                i as int,
                depth as int,
                in_layer,
                layer_start as int,
                accepted,
            ) == accepted);
        }
    }
    layers
}

/// First position of a byte in a half-open range.
pub open spec fn spec_find_byte(h: Seq<u8>, j: int, end: int, byte: u8) -> Option<int>
    decreases end - j,
{
    if j < 0 || j >= end || end > h.len() {
        None
    } else if h[j] == byte {
        Some(j)
    } else {
        spec_find_byte(h, j + 1, end, byte)
    }
}

/// The points one coordinate pair `[x, y]` appends: both halves must
/// read as decimal numbers, and the cap must leave room.
pub open spec fn spec_pair_points(h: Seq<u8>, k: int, close: int, comma: int, acc: Seq<FxPoint>) -> Seq<FxPoint> {
    match spec_fixed_value_at(h, k + 1) {
        None => acc,
        Some(xv) => match spec_fixed_value_at(h, comma + 1) {
            None => acc,
            Some(yv) => if acc.len() < LAYER_POINT_CAP {
                acc.push(
                    FxPoint {
                        x: spec_clamp_coord(xv as int) as i64,
                        y: spec_clamp_coord(yv as int) as i64,
                    },
                )
            } else {
                acc
            },
        },
    }
}

/// The walk over the coordinate pairs of a single-layer points array.
pub open spec fn spec_walk_pairs(h: Seq<u8>, k: int, arr_end: int, acc: Seq<FxPoint>) -> Seq<FxPoint>
    decreases arr_end - k,
{
    if k < 0 || k >= arr_end || arr_end > h.len() {
        acc
    } else if h[k] == 91 {
        match spec_find_byte(h, k + 1, arr_end, 93) {
            None => acc,
            Some(close) => {
                let acc2 = match spec_find_byte(h, k + 1, close, 44) {
                    None => acc,
                    Some(comma) => spec_pair_points(h, k, close, comma, acc),
                };
                if k < close < arr_end {
                    spec_walk_pairs(h, close + 1, arr_end, acc2)
                } else {
                    acc2
                }
            },
        }
    } else {
        spec_walk_pairs(h, k + 1, arr_end, acc)
    }
}

/// The point sequence the single-layer dialect's `points` array denotes:
/// two-element coordinate arrays, clamped, in order.
pub open spec fn spec_custom_points(h: Seq<u8>) -> Seq<FxPoint> {
    match find_from(h, pat_points(), 0) {
        None => Seq::empty(),
        Some(p) => match find_from(h, seq![91u8], p) {
            None => Seq::empty(),
            Some(arr_start) => match spec_array_end(h, arr_start, 0) {
                None => Seq::empty(),
                Some(arr_end) => if arr_end <= arr_start {
                    Seq::empty()
                } else {
                    spec_walk_pairs(h, arr_start + 1, arr_end, Seq::empty())
                },
            },
        },
    }
}

/// Reads the single-layer dialect's point list: a `points` array of
/// two-element coordinate arrays, clamped into the drawable range, at
/// most `LAYER_POINT_CAP` of them.
#[verifier::loop_isolation(false)]
pub fn parse_custom_points(content: &[u8]) -> (r: Vec<FxPoint>)
    ensures
        r@ == spec_custom_points(content@),
        points_bounded(r@),
        r@.len() <= LAYER_POINT_CAP,
{
    let mut out: Vec<FxPoint> = Vec::new();
    let points_marker: [u8; 8] = [34u8, 112, 111, 105, 110, 116, 115, 34];
    let open_bracket: [u8; 1] = [91u8];
    proof {
        assert(points_marker@ =~= pat_points());
        assert(open_bracket@ =~= seq![91u8]);
        assert(out@ =~= Seq::<FxPoint>::empty());
    }
    let start = match find_sub(content, points_marker.as_slice(), 0) {
        Some(p) => p,
        None => {
            return out;
        },
    };
    let arr_start = match find_sub(content, open_bracket.as_slice(), start) {
        Some(p) => p,
        None => {
            return out;
        },
    };
    let hl = content.len();
    proof {
        crate::parse::lemma_find_from_found(content@, open_bracket@, start as int);
        assert(arr_start < hl);
    }
    let mut depth: usize = 0;
    let mut i: usize = arr_start;
    let mut arr_end: usize = arr_start;
    let mut found_end = false;
    while i < hl && !found_end
        invariant
            hl == content@.len(),
            arr_start <= i <= hl,
            depth <= i - arr_start,
            found_end ==> arr_start <= arr_end < hl && spec_array_end(
                content@,
                arr_start as int,
                0,
            ) == Some(arr_end as int),
            !found_end ==> spec_array_end(content@, arr_start as int, 0) == spec_array_end(
                content@,
                i as int,
                depth as int,
            ),
        decreases hl - i,
    {
        let b = content[i];
        if b == 91 {
            depth = depth + 1;
        } else if b == 93 {
            if depth <= 1 {
                arr_end = i;
                found_end = true;
            } else {
                depth = depth - 1;
            }
        }
        i = i + 1;
    }
    if !found_end {
        proof {
            assert(spec_array_end(content@, i as int, depth as int) is None);
        }
        return out;
    }
    if arr_end <= arr_start {
        return out;
    }
    let ghost total = spec_walk_pairs(content@, arr_start + 1, arr_end as int, Seq::empty());
    let mut k: usize = arr_start + 1;
    while k < arr_end
        invariant
            hl == content@.len(),
            arr_start < arr_end < hl,
            arr_start < k,
            points_bounded(out@),
            out@.len() <= LAYER_POINT_CAP,
            k <= arr_end ==> total == spec_walk_pairs(content@, k as int, arr_end as int, out@),
            k > arr_end ==> total == out@,
        decreases arr_end - k,
    {
        if content[k] == 91 {
            // a coordinate pair: [x, y]
            let mut j: usize = k + 1;
            let mut close: usize = arr_end;
            let mut have_close = false;
            while j < arr_end && !have_close
                invariant
                    k < j <= arr_end,
                    arr_end < hl == content@.len(),
                    have_close ==> k < close < arr_end && spec_find_byte(
                        content@,
                        k + 1,
                        arr_end as int,
                        93,
                    ) == Some(close as int),
                    !have_close ==> spec_find_byte(content@, k + 1, arr_end as int, 93)
                        == spec_find_byte(content@, j as int, arr_end as int, 93),
                decreases arr_end - j,
            {
                if content[j] == 93 {
                    close = j;
                    have_close = true;
                }
                j = j + 1;
            }
            if !have_close {
                proof {
                    assert(spec_find_byte(content@, j as int, arr_end as int, 93) is None);
                }
                return out;
            }
            // split the pair at its comma
            let mut c: usize = k + 1;
            let mut comma: usize = close;
            let mut have_comma = false;
            while c < close && !have_comma
                invariant
                    k < c <= close,
                    close < hl == content@.len(),
                    have_comma ==> k < comma < close && spec_find_byte(
                        content@,
                        k + 1,
                        close as int,
                        44,
                    ) == Some(comma as int),
                    !have_comma ==> spec_find_byte(content@, k + 1, close as int, 44)
                        == spec_find_byte(content@, c as int, close as int, 44),
                decreases close - c,
            {
                if content[c] == 44 {
                    comma = c;
                    have_comma = true;
                }
                c = c + 1;
            }
            if have_comma {
                let x = parse_fixed_at(content, k + 1);
                let y = parse_fixed_at(content, comma + 1);
                if let Some(xv) = x {
                    if let Some(yv) = y {
                        if out.len() < LAYER_POINT_CAP {
                            out.push(FxPoint { x: clamp_coord(xv), y: clamp_coord(yv) });
                        }
                    }
                }
            } else {
                proof {
                    assert(spec_find_byte(content@, c as int, close as int, 44) is None);
                }
            }
            k = close + 1;
        } else {
            k = k + 1;
        }
    }
    out
}

} // verus!
