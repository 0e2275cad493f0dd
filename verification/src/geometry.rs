//! Cursor geometry: fixed-point 2D points and the hotspot-relative
//! transform.  Coordinates carry eight fractional bits (`FX_ONE` units per
//! pixel); the first point of a sequence is the logical hotspot.

use vstd::prelude::*;

use crate::parse::FX_ONE;

verus! {

/// Largest coordinate magnitude the transform accepts, in fixed-point
/// units (4096 pixels).
pub const COORD_LIMIT: i64 = 0x100000;

/// Largest scale factor the transform accepts, in fixed-point units
/// (ten-fold).
pub const SCALE_LIMIT: i64 = 2560;

/// A 2D point in fixed-point units.
#[derive(Clone, Copy, PartialEq, Eq, Structural, Debug)]
pub struct FxPoint {
    pub x: i64,
    pub y: i64,
}

/// All points of a sequence lie within the coordinate limit.
pub open spec fn points_bounded(s: Seq<FxPoint>) -> bool {
    forall|i: int| 0 <= i < s.len()
        ==> -COORD_LIMIT <= #[trigger] s[i].x <= COORD_LIMIT && -COORD_LIMIT <= s[i].y <= COORD_LIMIT
}

/// Valid rotation parameters: a cosine/sine pair in fixed-point units,
/// each within one.
pub open spec fn rot_bounded(cos_r: i64, sin_r: i64) -> bool {
    -FX_ONE <= cos_r <= FX_ONE && -FX_ONE <= sin_r <= FX_ONE
}

/// X coordinate of a point translated so the hotspot sits at the origin,
/// scaled uniformly, and rotated by the angle whose cosine and sine are
/// given.
pub open spec fn tf_x(p: FxPoint, h: FxPoint, scale: int, cos_r: int, sin_r: int) -> int {
    let dx = (p.x - h.x) * scale / 256;
    let dy = (p.y - h.y) * scale / 256;
    (dx * cos_r - dy * sin_r) / 256
}

/// Y coordinate of the transformed point.
pub open spec fn tf_y(p: FxPoint, h: FxPoint, scale: int, cos_r: int, sin_r: int) -> int {
    let dx = (p.x - h.x) * scale / 256;
    let dy = (p.y - h.y) * scale / 256;
    (dx * sin_r + dy * cos_r) / 256
}

/// Minimum transformed X over a nonempty prefix.
pub open spec fn min_tf_x(s: Seq<FxPoint>, h: FxPoint, scale: int, cos_r: int, sin_r: int) -> int
    decreases s.len(),
{
    if s.len() <= 1 {
        tf_x(s[0], h, scale, cos_r, sin_r)
    } else {
        let rest = min_tf_x(s.drop_last(), h, scale, cos_r, sin_r);
        let lastx = tf_x(s.last(), h, scale, cos_r, sin_r);
        if lastx < rest {
            lastx
        } else {
            rest
        }
    }
}

/// Minimum transformed Y over a nonempty prefix.
pub open spec fn min_tf_y(s: Seq<FxPoint>, h: FxPoint, scale: int, cos_r: int, sin_r: int) -> int
    decreases s.len(),
{
    if s.len() <= 1 {
        tf_y(s[0], h, scale, cos_r, sin_r)
    } else {
        let rest = min_tf_y(s.drop_last(), h, scale, cos_r, sin_r);
        let lasty = tf_y(s.last(), h, scale, cos_r, sin_r);
        if lasty < rest {
            lasty
        } else {
            rest
        }
    }
}

/// Fixed-point value rounded to the nearest integer, halves away from
/// zero.
pub open spec fn spec_round_fx(a: int) -> int {
    if a >= 0 {
        (a + 128) / 256
    } else {
        -((-a + 128) / 256)
    }
}

/// A rounded fixed-point value sits within half a unit of the original.
pub proof fn lemma_round_fx_close(a: int)
    ensures
        -128 <= spec_round_fx(a) * 256 - a <= 128,
{
    if a >= 0 {
        vstd::arithmetic::div_mod::lemma_fundamental_div_mod(a + 128, 256);
        vstd::arithmetic::div_mod::lemma_mod_bound(a + 128, 256);
    } else {
        vstd::arithmetic::div_mod::lemma_fundamental_div_mod(-a + 128, 256);
        vstd::arithmetic::div_mod::lemma_mod_bound(-a + 128, 256);
    }
}

/// Rounds a fixed-point value to the nearest integer.
pub fn round_fx(a: i64) -> (r: i64)
    requires
        -0x1000000000000 <= a <= 0x1000000000000,
    ensures
        r == spec_round_fx(a as int),
{
    if a >= 0 {
        (a + 128) / 256
    } else {
        -((-a + 128) / 256)
    }
}

/// The transformed X coordinates stay within a comfortable bound.
pub proof fn lemma_tf_bounded(p: FxPoint, h: FxPoint, scale: int, cos_r: int, sin_r: int)
    requires
        -COORD_LIMIT <= p.x <= COORD_LIMIT,
        -COORD_LIMIT <= p.y <= COORD_LIMIT,
        -COORD_LIMIT <= h.x <= COORD_LIMIT,
        -COORD_LIMIT <= h.y <= COORD_LIMIT,
        0 <= scale <= SCALE_LIMIT,
        -256 <= cos_r <= 256,
        -256 <= sin_r <= 256,
    ensures
        -0x8000000 <= tf_x(p, h, scale, cos_r, sin_r) <= 0x8000000,
        -0x8000000 <= tf_y(p, h, scale, cos_r, sin_r) <= 0x8000000,
        -0x2000000 <= (p.x - h.x) * scale / 256 <= 0x2000000,
        -0x2000000 <= (p.y - h.y) * scale / 256 <= 0x2000000,
        -0x400000000 <= ((p.x - h.x) * scale / 256) * cos_r - ((p.y - h.y) * scale / 256) * sin_r <= 0x400000000,
        -0x400000000 <= ((p.x - h.x) * scale / 256) * sin_r + ((p.y - h.y) * scale / 256) * cos_r <= 0x400000000,
{
    let dxn = (p.x - h.x) * scale;
    let dyn_ = (p.y - h.y) * scale;
    lemma_mul_range(p.x - h.x, 0x200000, scale, 2560);
    lemma_mul_range(p.y - h.y, 0x200000, scale, 2560);
    lemma_div256_range(dxn, 0x20000000000);
    lemma_div256_range(dyn_, 0x20000000000);
    let dx = dxn / 256;
    let dy = dyn_ / 256;
    let xn = dx * cos_r - dy * sin_r;
    let yn = dx * sin_r + dy * cos_r;
    lemma_mul_range(dx, 0x2000000, cos_r, 256);
    lemma_mul_range(dy, 0x2000000, sin_r, 256);
    lemma_mul_range(dx, 0x2000000, sin_r, 256);
    lemma_mul_range(dy, 0x2000000, cos_r, 256);
    lemma_div256_range(xn, 0x400000000);
    lemma_div256_range(yn, 0x400000000);
}

/// Bound on a product of two symmetrically bounded factors.
pub proof fn lemma_mul_range(a: int, amax: int, b: int, bmax: int)
    requires
        -amax <= a <= amax,
        -bmax <= b <= bmax,
        0 <= amax,
        0 <= bmax,
    ensures
        -(amax * bmax) <= a * b <= amax * bmax,
{
    assert(-(amax * bmax) <= a * b <= amax * bmax) by (nonlinear_arith)
        requires
            -amax <= a <= amax && -bmax <= b <= bmax && 0 <= amax && 0 <= bmax,
    ;
}

/// Division by 256 keeps a symmetric bound.
proof fn lemma_div256_range(a: int, bound: int)
    requires
        bound >= 0,
        -bound <= a <= bound,
        bound % 256 == 0,
    ensures
        -(bound / 256) <= a / 256 <= bound / 256,
{
    vstd::arithmetic::div_mod::lemma_div_is_ordered(a, bound, 256);
    vstd::arithmetic::div_mod::lemma_div_is_ordered(-bound, a, 256);
    assert((-bound) / 256 == -(bound / 256)) by {
        vstd::arithmetic::div_mod::lemma_div_multiples_vanish(-(bound / 256), 256);
        vstd::arithmetic::div_mod::lemma_div_multiples_vanish(bound / 256, 256);
        vstd::arithmetic::div_mod::lemma_fundamental_div_mod(bound, 256);
    }
}

/// The minimum of the transformed coordinates is itself the transform of
/// some point, hence bounded.
pub proof fn lemma_min_tf_bounded(s: Seq<FxPoint>, h: FxPoint, scale: int, cos_r: int, sin_r: int)
    requires
        s.len() > 0,
        points_bounded(s),
        -COORD_LIMIT <= h.x <= COORD_LIMIT,
        -COORD_LIMIT <= h.y <= COORD_LIMIT,
        0 <= scale <= SCALE_LIMIT,
        -256 <= cos_r <= 256,
        -256 <= sin_r <= 256,
    ensures
        -0x8000000 <= min_tf_x(s, h, scale, cos_r, sin_r) <= 0x8000000,
        -0x8000000 <= min_tf_y(s, h, scale, cos_r, sin_r) <= 0x8000000,
        forall|i: int| 0 <= i < s.len()
            ==> min_tf_x(s, h, scale, cos_r, sin_r) <= #[trigger] tf_x(s[i], h, scale, cos_r, sin_r)
                && min_tf_y(s, h, scale, cos_r, sin_r) <= tf_y(s[i], h, scale, cos_r, sin_r),
    decreases s.len(),
{
    lemma_tf_bounded(s[0], h, scale, cos_r, sin_r);
    lemma_tf_bounded(s[s.len() - 1], h, scale, cos_r, sin_r);
    if s.len() > 1 {
        assert(points_bounded(s.drop_last()));
        lemma_min_tf_bounded(s.drop_last(), h, scale, cos_r, sin_r);
        assert forall|i: int| 0 <= i < s.len() implies min_tf_x(s, h, scale, cos_r, sin_r)
            <= #[trigger] tf_x(s[i], h, scale, cos_r, sin_r)
            && min_tf_y(s, h, scale, cos_r, sin_r) <= tf_y(s[i], h, scale, cos_r, sin_r) by {
            if i < s.len() - 1 {
                assert(s.drop_last()[i] == s[i]);
            }
        }
    }
}

/// Transforms a point sequence: the first point is the hotspot; every
/// point is translated to the hotspot, scaled, rotated, and the whole
/// shifted so the bounding box's minimum corner sits at the origin.  The
/// returned offset, the rounded size of that final shift, must be added
/// to any externally supplied hotspot so clicks still land on the
/// original logical point.
#[verifier::loop_isolation(false)]
pub fn transform_points(points: &Vec<FxPoint>, scale: i64, cos_r: i64, sin_r: i64) -> (r: (Vec<FxPoint>, (i64, i64)))
    requires
        points_bounded(points@),
        0 <= scale <= SCALE_LIMIT,
        rot_bounded(cos_r, sin_r),
    ensures
        r.0@.len() == points@.len(),
        points@.len() == 0 ==> r.1 == (0i64, 0i64),
        points@.len() > 0 ==> {
            let h = points@[0];
            let mx = min_tf_x(points@, h, scale as int, cos_r as int, sin_r as int);
            let my = min_tf_y(points@, h, scale as int, cos_r as int, sin_r as int);
            &&& forall|i: int| 0 <= i < points@.len()
                ==> #[trigger] r.0@[i].x == tf_x(points@[i], h, scale as int, cos_r as int, sin_r as int) - mx
                    && r.0@[i].y == tf_y(points@[i], h, scale as int, cos_r as int, sin_r as int) - my
            &&& forall|i: int| 0 <= i < r.0@.len() ==> #[trigger] r.0@[i].x >= 0 && r.0@[i].y >= 0
            &&& forall|i: int| 0 <= i < r.0@.len() ==> #[trigger] r.0@[i].x <= 0x10000000
                && r.0@[i].y <= 0x10000000
            &&& r.1.0 == spec_round_fx(-mx)
            &&& r.1.1 == spec_round_fx(-my)
        },
        -0x100000 <= r.1.0 <= 0x100000,
        -0x100000 <= r.1.1 <= 0x100000,
{
    if points.len() == 0 {
        return (Vec::new(), (0, 0));
    }
    let h = points[0];
    let ghost sc = scale as int;
    let ghost co = cos_r as int;
    let ghost si = sin_r as int;
    // transform every point and track the running minimum
    let mut out: Vec<FxPoint> = Vec::new();
    let mut mx: i64 = 0;
    let mut my: i64 = 0;
    let mut i: usize = 0;
    while i < points.len()
        invariant
            i <= points@.len(),
            out@.len() == i,
            forall|j: int| 0 <= j < i
                ==> #[trigger] out@[j].x == tf_x(points@[j], h, sc, co, si)
                    && out@[j].y == tf_y(points@[j], h, sc, co, si),
            i > 0 ==> mx == min_tf_x(points@.take(i as int), h, sc, co, si)
                && my == min_tf_y(points@.take(i as int), h, sc, co, si),
            i > 0 ==> -0x8000000 <= mx <= 0x8000000 && -0x8000000 <= my <= 0x8000000,
        decreases points@.len() - i,
    {
        let p = points[i];
        proof {
            lemma_tf_bounded(p, h, sc, co, si);
        }
        let dx = div256(checked_mul(p.x - h.x, scale));
        let dy = div256(checked_mul(p.y - h.y, scale));
        let rx = div256(checked_mul(dx, cos_r) - checked_mul(dy, sin_r));
        let ry = div256(checked_mul(dx, sin_r) + checked_mul(dy, cos_r));
        out.push(FxPoint { x: rx, y: ry });
        if i == 0 {
            mx = rx;
            my = ry;
        } else {
            if rx < mx {
                mx = rx;
            }
            if ry < my {
                my = ry;
            }
        }
        proof {
            assert(points@.take(i + 1).drop_last() =~= points@.take(i as int));
            assert(points@.take(i + 1).last() == points@[i as int]);
            if i > 0 {
                assert(points@.take(i + 1).len() > 1);
            } else {
                assert(points@.take(1).len() == 1);
                assert(points@.take(1)[0] == points@[0]);
            }
        }
        i = i + 1;
    }
    proof {
        assert(points@.take(points@.len() as int) =~= points@);
    }
    // shift everything into positive space
    let n = out.len();
    let mut k: usize = 0;
    while k < n
        invariant
            n == out@.len() == points@.len(),
            k <= n,
            mx == min_tf_x(points@, h, sc, co, si),
            my == min_tf_y(points@, h, sc, co, si),
            forall|j: int| k <= j < n
                ==> #[trigger] out@[j].x == tf_x(points@[j], h, sc, co, si)
                    && out@[j].y == tf_y(points@[j], h, sc, co, si),
            forall|j: int| 0 <= j < k
                ==> #[trigger] out@[j].x == tf_x(points@[j], h, sc, co, si) - mx
                    && out@[j].y == tf_y(points@[j], h, sc, co, si) - my,
            forall|j: int| 0 <= j < k ==> #[trigger] out@[j].x >= 0 && out@[j].y >= 0,
            forall|j: int| 0 <= j < k ==> #[trigger] out@[j].x <= 0x10000000 && out@[j].y
                <= 0x10000000,
        decreases n - k,
    {
        let p = out[k];
        proof {
            lemma_tf_bounded(points@[k as int], h, sc, co, si);
            lemma_min_tf_bounded(points@, h, sc, co, si);
        }
        let q = FxPoint { x: p.x - mx, y: p.y - my };
        let ghost prev = out@;
        out.set(k, q);
        proof {
            assert(out@ == prev.update(k as int, q));
            assert forall|j: int| k + 1 <= j < n implies #[trigger] out@[j].x == tf_x(
                points@[j],
                h,
                sc,
                co,
                si,
            ) && out@[j].y == tf_y(points@[j], h, sc, co, si) by {
                assert(out@[j] == prev[j]);
            }
            assert forall|j: int| 0 <= j < k + 1 implies #[trigger] out@[j].x == tf_x(
                points@[j],
                h,
                sc,
                co,
                si,
            ) - mx && out@[j].y == tf_y(points@[j], h, sc, co, si) - my by {
                if j < k {
                    assert(out@[j] == prev[j]);
                }
            }
            assert forall|j: int| 0 <= j < k + 1 implies #[trigger] out@[j].x >= 0 && out@[j].y
                >= 0 && out@[j].x <= 0x10000000 && out@[j].y <= 0x10000000 by {
                assert(out@[j].x == tf_x(points@[j], h, sc, co, si) - mx);
                assert(out@[j].y == tf_y(points@[j], h, sc, co, si) - my);
                lemma_tf_bounded(points@[j], h, sc, co, si);
            }
        }
        k = k + 1;
    }
    proof {
        lemma_min_tf_bounded(points@, h, sc, co, si);
        lemma_round_fx_close(-mx as int);
        lemma_round_fx_close(-my as int);
    }
    let hot_x = round_fx(-mx);
    let hot_y = round_fx(-my);
    (out, (hot_x, hot_y))
}

/// Product of two bounded fixed-point factors.
fn checked_mul(a: i64, b: i64) -> (r: i64)
    requires
        -0x40000000 <= a <= 0x40000000,
        -0x40000000 <= b <= 0x40000000,
    ensures
        r == a * b,
        -0x1000000000000000 <= r <= 0x1000000000000000,
{
    proof {
        assert(-0x1000000000000000 <= a * b <= 0x1000000000000000) by (nonlinear_arith)
            requires
                -0x40000000 <= a <= 0x40000000 && -0x40000000 <= b <= 0x40000000,
        ;
    }
    a * b
}

/// Floor division of a fixed-point product by one unit.
pub fn div256(a: i64) -> (r: i64)
    requires
        -0x4000000000000000 <= a <= 0x4000000000000000,
    ensures
        r == a as int / 256,
{
    if a >= 0 {
        a / 256
    } else {
        proof {
            lemma_floor_div256_neg(a as int);
        }
        -((-a + 255) / 256)
    }
}

/// Euclidean division by 256 of a negative value, phrased with
/// nonnegative operands.
proof fn lemma_floor_div256_neg(p: int)
    requires
        p < 0,
    ensures
        -((-p + 255) / 256) == p / 256,
{
    let q = p / 256;
    let r = p % 256;
    vstd::arithmetic::div_mod::lemma_fundamental_div_mod(p, 256);
    vstd::arithmetic::div_mod::lemma_mod_bound(p, 256);
    if r == 0 {
        vstd::arithmetic::div_mod::lemma_fundamental_div_mod_converse(-p + 255, 256, -q, 255);
    } else {
        assert(-p + 255 == 256 * (-q - 1) + (511 - r));
        assert(256 <= 511 - r);
        assert(-p + 255 == 256 * (-q) + (255 - r));
        vstd::arithmetic::div_mod::lemma_fundamental_div_mod_converse(-p + 255, 256, -q, 255 - r);
    }
}

/// Under unit scale and no rotation, the transform reproduces the input
/// translated only by its own bounding-box normalization: every output
/// point is the input point minus the least input coordinate.
pub proof fn lemma_transform_identity(points: Seq<FxPoint>, i: int)
    requires
        points.len() > 0,
        points_bounded(points),
        0 <= i < points.len(),
    ensures
        tf_x(points[i], points[0], 256, 256, 0) - min_tf_x(points, points[0], 256, 256, 0)
            == points[i].x - min_plain_x(points),
        tf_y(points[i], points[0], 256, 256, 0) - min_tf_y(points, points[0], 256, 256, 0)
            == points[i].y - min_plain_y(points),
    decreases points.len(),
{
    lemma_tf_identity_pointwise(points[i], points[0]);
    lemma_min_tf_identity(points, points[0]);
}

/// Least raw X coordinate of a nonempty sequence.
pub open spec fn min_plain_x(s: Seq<FxPoint>) -> int
    decreases s.len(),
{
    if s.len() <= 1 {
        s[0].x as int
    } else {
        let rest = min_plain_x(s.drop_last());
        if s.last().x < rest {
            s.last().x as int
        } else {
            rest
        }
    }
}

/// Least raw Y coordinate of a nonempty sequence.
pub open spec fn min_plain_y(s: Seq<FxPoint>) -> int
    decreases s.len(),
{
    if s.len() <= 1 {
        s[0].y as int
    } else {
        let rest = min_plain_y(s.drop_last());
        if s.last().y < rest {
            s.last().y as int
        } else {
            rest
        }
    }
}

/// With unit scale and no rotation a single point transforms to its plain
/// offset from the hotspot.
proof fn lemma_tf_identity_pointwise(p: FxPoint, h: FxPoint)
    requires
        -COORD_LIMIT <= p.x <= COORD_LIMIT,
        -COORD_LIMIT <= p.y <= COORD_LIMIT,
        -COORD_LIMIT <= h.x <= COORD_LIMIT,
        -COORD_LIMIT <= h.y <= COORD_LIMIT,
    ensures
        tf_x(p, h, 256, 256, 0) == p.x - h.x,
        tf_y(p, h, 256, 256, 0) == p.y - h.y,
{
    vstd::arithmetic::div_mod::lemma_div_multiples_vanish(p.x - h.x, 256);
    vstd::arithmetic::div_mod::lemma_div_multiples_vanish(p.y - h.y, 256);
    let dx = (p.x - h.x) * 256 / 256;
    let dy = (p.y - h.y) * 256 / 256;
    assert((p.x - h.x) * 256 == 256 * (p.x - h.x));
    assert((p.y - h.y) * 256 == 256 * (p.y - h.y));
    assert(dx == p.x - h.x);
    assert(dy == p.y - h.y);
    vstd::arithmetic::div_mod::lemma_div_multiples_vanish(dx, 256);
    vstd::arithmetic::div_mod::lemma_div_multiples_vanish(dy, 256);
    assert(dx * 256 - dy * 0 == 256 * dx);
    assert(dx * 0 + dy * 256 == 256 * dy);
}

/// The identity transform preserves minima up to the hotspot offset.
proof fn lemma_min_tf_identity(s: Seq<FxPoint>, h: FxPoint)
    requires
        s.len() > 0,
        points_bounded(s),
        -COORD_LIMIT <= h.x <= COORD_LIMIT,
        -COORD_LIMIT <= h.y <= COORD_LIMIT,
    ensures
        min_tf_x(s, h, 256, 256, 0) == min_plain_x(s) - h.x,
        min_tf_y(s, h, 256, 256, 0) == min_plain_y(s) - h.y,
    decreases s.len(),
{
    lemma_tf_identity_pointwise(s[0], h);
    lemma_tf_identity_pointwise(s[s.len() - 1], h);
    if s.len() > 1 {
        assert(points_bounded(s.drop_last()));
        lemma_min_tf_identity(s.drop_last(), h);
    }
}

} // verus!
