//! Pixel arithmetic and the owned pixel buffer.  Pixels are 32-bit packed
//! color with the 8-bit alpha channel in the most-significant byte; all
//! alpha-weighted blends use integer arithmetic scaled by 255.

use vstd::prelude::*;
use vstd::pervasive::VecAdditionalExecFns;

verus! {

/// Alpha channel of a packed pixel.
pub open spec fn alpha_of(p: u32) -> int {
    p as int / 0x1000000
}

/// Red channel of a packed pixel.
pub open spec fn red_of(p: u32) -> int {
    (p as int / 0x10000) % 256
}

/// Green channel of a packed pixel.
pub open spec fn green_of(p: u32) -> int {
    (p as int / 0x100) % 256
}

/// Blue channel of a packed pixel.
pub open spec fn blue_of(p: u32) -> int {
    p as int % 256
}

/// A packed pixel from its four channels.
pub open spec fn pack(a: int, r: int, g: int, b: int) -> int {
    a * 0x1000000 + r * 0x10000 + g * 0x100 + b
}

/// Source-over blend of `src` onto `dst`, channelwise
/// `(c_src * a_src + c_dst * (255 - a_src)) / 255` with the result alpha
/// `a_src + a_dst * (255 - a_src) / 255`.  A fully opaque source replaces
/// the destination outright; a fully transparent source is a no-op.
pub open spec fn spec_blend(dst: u32, src: u32) -> int {
    let sa = alpha_of(src);
    if sa == 0 {
        dst as int
    } else if sa == 255 {
        src as int
    } else {
        let inv = 255 - sa;
        pack(
            sa + (alpha_of(dst) * inv) / 255,
            (red_of(src) * sa + red_of(dst) * inv) / 255,
            (green_of(src) * sa + green_of(dst) * inv) / 255,
            (blue_of(src) * sa + blue_of(dst) * inv) / 255,
        )
    }
}

/// Both products of a channel mix fit comfortably below the word size.
proof fn lemma_mix_product_bound(c1: int, c2: int, sa: int)
    requires
        0 <= c1 <= 255,
        0 <= c2 <= 255,
        0 <= sa <= 255,
    ensures
        0 <= c1 * sa <= 255 * 255,
        0 <= c2 * (255 - sa) <= 255 * 255,
{
    assert(0 <= c1 * sa <= 255 * 255 && 0 <= c2 * (255 - sa) <= 255 * 255) by (nonlinear_arith)
        requires
            0 <= c1 <= 255 && 0 <= c2 <= 255 && 0 <= sa <= 255,
    ;
}

/// A product `a * b` with both factors bounded by 255 stays, after
/// division by 255, below or at the smaller-style channel bound.
proof fn lemma_channel_mix_bound(c1: int, c2: int, sa: int)
    requires
        0 <= c1 <= 255,
        0 <= c2 <= 255,
        0 <= sa <= 255,
    ensures
        0 <= (c1 * sa + c2 * (255 - sa)) / 255 <= 255,
{
    assert(c1 * sa + c2 * (255 - sa) <= 255 * 255) by (nonlinear_arith)
        requires
            0 <= c1 <= 255 && 0 <= c2 <= 255 && 0 <= sa <= 255,
    ;
    assert(c1 * sa + c2 * (255 - sa) >= 0) by (nonlinear_arith)
        requires
            0 <= c1 <= 255 && 0 <= c2 <= 255 && 0 <= sa <= 255,
    ;
}

/// All four channels of a packed pixel are bytes.
proof fn lemma_channels_bounded(p: u32)
    ensures
        0 <= alpha_of(p) <= 255,
        0 <= red_of(p) <= 255,
        0 <= green_of(p) <= 255,
        0 <= blue_of(p) <= 255,
{
    assert(p < 0x100000000);
}

/// The blend of two pixels is again a packed pixel.
pub proof fn lemma_blend_in_range(dst: u32, src: u32)
    ensures
        0 <= spec_blend(dst, src) <= u32::MAX,
{
    lemma_channels_bounded(dst);
    lemma_channels_bounded(src);
    let sa = alpha_of(src);
    if 0 < sa < 255 {
        let inv = 255 - sa;
        lemma_channel_mix_bound(red_of(src), red_of(dst), sa);
        lemma_channel_mix_bound(green_of(src), green_of(dst), sa);
        lemma_channel_mix_bound(blue_of(src), blue_of(dst), sa);
        lemma_channel_mix_bound(255, alpha_of(dst), sa);
        assert(255 * sa + alpha_of(dst) * inv == sa * 255 + alpha_of(dst) * inv) by (nonlinear_arith);
        assert((sa * 255 + alpha_of(dst) * inv) / 255 == sa + (alpha_of(dst) * inv) / 255);
    }
}

/// Source-over alpha blend of one pixel onto another.
pub fn blend_pixel(dst: u32, src: u32) -> (r: u32)
    ensures
        r == spec_blend(dst, src),
{
    let sa = (src / 0x1000000) % 256;
    if sa == 0 {
        return dst;
    }
    if sa == 255 {
        return src;
    }
    proof {
        lemma_channels_bounded(dst);
        lemma_channels_bounded(src);
        lemma_blend_in_range(dst, src);
    }
    let da = (dst / 0x1000000) % 256;
    let sr = (src / 0x10000) % 256;
    let sg = (src / 0x100) % 256;
    let sb = src % 256;
    let dr = (dst / 0x10000) % 256;
    let dg = (dst / 0x100) % 256;
    let db = dst % 256;

    let inv = 255 - sa;
    proof {
        lemma_mix_product_bound(sr as int, dr as int, sa as int);
        lemma_mix_product_bound(sg as int, dg as int, sa as int);
        lemma_mix_product_bound(sb as int, db as int, sa as int);
        lemma_mix_product_bound(255, da as int, sa as int);
        lemma_channel_mix_bound(sr as int, dr as int, sa as int);
        lemma_channel_mix_bound(sg as int, dg as int, sa as int);
        lemma_channel_mix_bound(sb as int, db as int, sa as int);
        lemma_channel_mix_bound(255, da as int, sa as int);
        assert(255 * sa + da * inv == sa * 255 + da * inv) by (nonlinear_arith);
        assert((sa * 255 + da * inv) / 255 == sa + (da * inv) / 255);
    }
    let out_a = sa + (da * inv) / 255;
    let out_r = (sr * sa + dr * inv) / 255;
    let out_g = (sg * sa + dg * inv) / 255;
    let out_b = (sb * sa + db * inv) / 255;
    out_a * 0x1000000 + out_r * 0x10000 + out_g * 0x100 + out_b
}

/// A pixel with its alpha rescaled to `orig_a * target / 255`, color
/// channels untouched.  Fully transparent pixels stay as they are.
pub open spec fn spec_faded(p: u32, target: u32) -> int {
    let a = alpha_of(p);
    if a == 0 {
        p as int
    } else {
        pack((a * target) / 255, red_of(p), green_of(p), blue_of(p))
    }
}

proof fn lemma_faded_in_range(p: u32, target: u32)
    requires
        target <= 255,
    ensures
        0 <= spec_faded(p, target) <= u32::MAX,
{
    lemma_channels_bounded(p);
    let a = alpha_of(p);
    if a != 0 {
        assert(a * target <= 255 * 255) by (nonlinear_arith)
            requires
                0 <= a <= 255 && 0 <= target <= 255,
        ;
        assert(a * target >= 0) by (nonlinear_arith)
            requires
                a >= 0 && target >= 0,
        ;
    }
}

/// The owned cursor pixel surface: a width-by-height grid of packed pixels
/// stored row-major.
pub struct PixelBuf {
    pub px: Vec<u32>,
    pub width: usize,
    pub height: usize,
}

impl PixelBuf {
    pub open spec fn wf(&self) -> bool {
        &&& self.px@.len() == self.width * self.height
        &&& self.width <= 4096
        &&& self.height <= 4096
    }

    /// The pixel at a coordinate.
    pub open spec fn spec_at(&self, x: int, y: int) -> u32 {
        self.px@[y * self.width + x]
    }

    /// An all-transparent buffer of the given size.
    pub fn new_clear(width: usize, height: usize) -> (r: PixelBuf)
        requires
            width <= 4096,
            height <= 4096,
        ensures
            r.wf(),
            r.width == width,
            r.height == height,
            forall|i: int| 0 <= i < r.px@.len() ==> r.px@[i] == 0,
    {
        proof {
            assert(width * height <= 4096 * 4096) by (nonlinear_arith)
                requires
                    width <= 4096 && height <= 4096,
            ;
        }
        let n = width * height;
        let mut px: Vec<u32> = Vec::new();
        let mut i: usize = 0;
        while i < n
            invariant
                i <= n,
                px@.len() == i,
                forall|j: int| 0 <= j < i ==> px@[j] == 0,
            decreases n - i,
        {
            px.push(0);
            i = i + 1;
        }
        PixelBuf { px, width, height }
    }

    /// Clears every pixel to fully transparent.
    pub fn clear(&mut self)
        requires
            old(self).wf(),
        ensures
            final(self).wf(),
            final(self).width == old(self).width,
            final(self).height == old(self).height,
            final(self).px@.len() == old(self).px@.len(),
            forall|i: int| 0 <= i < final(self).px@.len() ==> final(self).px@[i] == 0,
    {
        let n = self.px.len();
        let mut i: usize = 0;
        while i < n
            invariant
                i <= n,
                self.px@.len() == n,
                self.width == old(self).width,
                self.height == old(self).height,
                forall|j: int| 0 <= j < i ==> self.px@[j] == 0,
            decreases n - i,
        {
            self.px.set(i, 0);
            i = i + 1;
        }
    }

    /// Blends `color` onto the pixel at `(x, y)`; coordinates outside the
    /// buffer are ignored.
    pub fn blend_at(&mut self, x: i64, y: i64, color: u32)
        requires
            old(self).wf(),
        ensures
            final(self).wf(),
            final(self).width == old(self).width,
            final(self).height == old(self).height,
            final(self).px@.len() == old(self).px@.len(),
            (0 <= x < old(self).width && 0 <= y < old(self).height) ==> final(self).px@
                == old(self).px@.update(y * old(self).width + x, (spec_blend(old(self).spec_at(x as int, y as int), color)) as u32),
            !(0 <= x < old(self).width && 0 <= y < old(self).height) ==> final(self).px@ == old(self).px@,
    {
        if x < 0 || y < 0 || x >= self.width as i64 || y >= self.height as i64 {
            return;
        }
        let xi = x as usize;
        let yi = y as usize;
        let n = self.px.len();
        proof {
            lemma_index_in_bounds(xi as int, yi as int, self.width as int, self.height as int);
            assert(yi * self.width + xi < n);
        }
        let idx = yi * self.width + xi;
        let blended = blend_pixel(self.px[idx], color);
        self.px.set(idx, blended);
        proof {
            lemma_blend_in_range(old(self).px@[idx as int], color);
        }
    }

    /// Rescales every pixel's alpha to `alpha * target / 255`, leaving the
    /// color channels untouched: the uniform fade applied each animation
    /// tick.
    pub fn apply_fade(&mut self, target: u32)
        requires
            old(self).wf(),
            target <= 255,
        ensures
            final(self).wf(),
            final(self).width == old(self).width,
            final(self).height == old(self).height,
            final(self).px@.len() == old(self).px@.len(),
            forall|i: int| 0 <= i < final(self).px@.len()
                ==> final(self).px@[i] == spec_faded(old(self).px@[i], target),
    {
        let n = self.px.len();
        let mut i: usize = 0;
        while i < n
            invariant
                i <= n,
                target <= 255,
                self.px@.len() == n == old(self).px@.len(),
                self.width == old(self).width,
                self.height == old(self).height,
                forall|j: int| 0 <= j < i ==> self.px@[j] == spec_faded(old(self).px@[j], target),
                forall|j: int| i <= j < n ==> self.px@[j] == old(self).px@[j],
            decreases n - i,
        {
            let p = self.px[i];
            let a = (p / 0x1000000) % 256;
            if a > 0 {
                proof {
                    lemma_channels_bounded(p);
                    lemma_faded_in_range(p, target);
                    lemma_mix_product_bound(a as int, 0, target as int);
                }
                let new_a = (a * target) / 255;
                let faded = new_a * 0x1000000 + ((p / 0x10000) % 256) * 0x10000
                    + ((p / 0x100) % 256) * 0x100 + p % 256;
                self.px.set(i, faded);
            }
            i = i + 1;
        }
    }
}

/// A coordinate inside the grid indexes inside the backing vector.
pub proof fn lemma_index_in_bounds(x: int, y: int, w: int, h: int)
    requires
        0 <= x < w,
        0 <= y < h,
    ensures
        0 <= y * w + x < w * h,
{
    assert(0 <= y * w + x < w * h) by (nonlinear_arith)
        requires
            0 <= x < w && 0 <= y < h,
    ;
}

impl PixelBuf {
    /// Reads the pixel at a coordinate.
    pub fn at(&self, x: i64, y: i64) -> (r: u32)
        requires
            self.wf(),
            0 <= x < self.width,
            0 <= y < self.height,
        ensures
            r == self.spec_at(x as int, y as int),
    {
        let n = self.px.len();
        proof {
            lemma_index_in_bounds(x as int, y as int, self.width as int, self.height as int);
            assert((y as int) * self.width + x < n);
        }
        let idx = (y as usize) * self.width + (x as usize);
        self.px[idx]
    }

    /// Overwrites the pixel at a coordinate; coordinates outside the
    /// buffer are ignored.
    pub fn put(&mut self, x: i64, y: i64, v: u32)
        requires
            old(self).wf(),
        ensures
            final(self).wf(),
            final(self).width == old(self).width,
            final(self).height == old(self).height,
            final(self).px@.len() == old(self).px@.len(),
            (0 <= x < old(self).width && 0 <= y < old(self).height) ==> final(self).px@
                == old(self).px@.update(y * old(self).width + x, v),
            !(0 <= x < old(self).width && 0 <= y < old(self).height) ==> final(self).px@ == old(self).px@,
    {
        if x < 0 || y < 0 || x >= self.width as i64 || y >= self.height as i64 {
            return;
        }
        let n = self.px.len();
        proof {
            lemma_index_in_bounds(x as int, y as int, self.width as int, self.height as int);
            assert((y as int) * self.width + x < n);
        }
        let idx = (y as usize) * self.width + (x as usize);
        self.px.set(idx, v);
    }
}

} // verus!
