//! Cursor rendering: clears the surface, selects the active design, and
//! composites its layers — shadow, fill, outline, frost — into the owned
//! pixel buffer.  Returns the hotspot offset the transform produced, which
//! the interception path must add to externally supplied hotspots.

use vstd::prelude::*;

use crate::config::Config;
use crate::geometry::{points_bounded, rot_bounded, transform_points, FxPoint};
use crate::intercept::CursorContext;
use crate::layers::{
    key_scale, key_version, parse_custom_points, parse_layers, spec_all_layer_points,
    spec_cap_append, spec_clamp, spec_concat_layer_points, spec_fixed_field, spec_layer_matches,
    spec_layer_points, spec_layer_slices, CursorLayer,
};
use crate::parse::{parse_color_in, parse_fixed_in};
use crate::pixel::PixelBuf;
use crate::raster::{fill_polygon, frosted_glass, outline_polygon, outline_spiral_blur};
use crate::shapes::{
    crosshair_points, fallback_arrow_points, grab_points, not_allowed_circle_points,
    not_allowed_slash_points, pointer_points, text_points, wait_points, CursorType,
};
use crate::EMBEDDED_CURSOR_JSON;

verus! {

/// Bound on the hotspot offsets a render reports.
pub open spec fn hot_bounded(hot: (i64, i64)) -> bool {
    -0x100000 <= hot.0 <= 0x100000 && -0x100000 <= hot.1 <= 0x100000
}

/// The configured cursor scale in fixed-point units.
pub open spec fn spec_config_scale(cfg: Config) -> int {
    (cfg.cursor_scale_hundredths as int) * 256 / 100
}

/// The configured cursor scale in fixed-point units.
fn config_scale_fx(cfg: &Config) -> (r: i64)
    requires
        cfg.wf(),
    ensures
        r == spec_config_scale(*cfg),
        0 <= r <= 2560,
{
    ((cfg.cursor_scale_hundredths as i64) * 256) / 100
}

/// The configured outline-thickness override in fixed-point units.
fn config_thickness_fx(cfg: &Config) -> (r: i64)
    requires
        cfg.wf(),
    ensures
        0 <= r <= 1280,
{
    ((cfg.outline_thickness_tenths as i64) * 256) / 10
}

/// Draws one simple solid design: a soft shadow one pixel down-right, a
/// white fill, and a black outline.
fn render_simple(buf: &mut PixelBuf, pts: &Vec<FxPoint>, scale: i64, cfg: &Config) -> (hot: (i64, i64))
    requires
        old(buf).wf(),
        cfg.wf(),
        points_bounded(pts@),
        pts@.len() <= 0x10000,
        0 <= scale <= 2560,
    ensures
        final(buf).wf(),
        final(buf).width == old(buf).width,
        final(buf).height == old(buf).height,
        hot_bounded(hot),
        pts@.len() > 0 ==> hot.0 == crate::geometry::spec_round_fx(
            -crate::geometry::min_tf_x(pts@, pts@[0], scale as int, 256, 0))
            && hot.1 == crate::geometry::spec_round_fx(
            -crate::geometry::min_tf_y(pts@, pts@[0], scale as int, 256, 0)),
{
    let (scaled, hot) = transform_points(pts, scale, 256, 0);
    fill_polygon(buf, &scaled, 256, 256, 0x80000000);
    fill_polygon(buf, &scaled, 0, 0, 0xFFFFFFFF);
    outline_polygon(buf, &scaled, 0, 0, 0xFF000000, 0, config_thickness_fx(cfg));
    hot
}

/// Draws the not-allowed design: a red circle outline over its shadow,
/// crossed by a red slash.
fn render_not_allowed(buf: &mut PixelBuf, scale: i64, cfg: &Config) -> (hot: (i64, i64))
    requires
        old(buf).wf(),
        cfg.wf(),
        0 <= scale <= 2560,
    ensures
        final(buf).wf(),
        final(buf).width == old(buf).width,
        final(buf).height == old(buf).height,
        hot_bounded(hot),
{
    let circle = not_allowed_circle_points();
    let (scaled, hot) = transform_points(&circle, scale, 256, 0);
    // the hotspot point itself is not drawn
    let mut ring: Vec<FxPoint> = Vec::new();
    let mut i: usize = 1;
    while i < scaled.len()
        invariant
            1 <= i <= scaled@.len(),
            ring@.len() == i - 1,
            forall|j: int| 0 <= j < scaled@.len()
                ==> 0 <= (#[trigger] scaled@[j]).x <= 0x10000000 && 0 <= scaled@[j].y <= 0x10000000,
            forall|j: int| 0 <= j < ring@.len()
                ==> 0 <= (#[trigger] ring@[j]).x <= 0x10000000 && 0 <= ring@[j].y <= 0x10000000,
        decreases scaled@.len() - i,
    {
        let p = scaled[i];
        proof {
            assert(0 <= scaled@[i as int].x <= 0x10000000 && 0 <= scaled@[i as int].y <= 0x10000000);
        }
        ring.push(p);
        i = i + 1;
    }
    outline_polygon(buf, &ring, 256, 256, 0x80000000, 0, config_thickness_fx(cfg));
    outline_polygon(buf, &ring, 0, 0, 0xFFFF0000, 0, config_thickness_fx(cfg));
    let slash = not_allowed_slash_points();
    let (slash_scaled, _) = transform_points(&slash, scale, 256, 0);
    let mut body: Vec<FxPoint> = Vec::new();
    let mut k: usize = 1;
    while k < slash_scaled.len()
        invariant
            1 <= k <= slash_scaled@.len(),
            body@.len() == k - 1,
            forall|j: int| 0 <= j < slash_scaled@.len()
                ==> 0 <= (#[trigger] slash_scaled@[j]).x <= 0x10000000 && 0 <= slash_scaled@[j].y
                    <= 0x10000000,
            forall|j: int| 0 <= j < body@.len()
                ==> 0 <= (#[trigger] body@[j]).x <= 0x10000000 && 0 <= body@[j].y <= 0x10000000,
        decreases slash_scaled@.len() - k,
    {
        let p = slash_scaled[k];
        proof {
            assert(0 <= slash_scaled@[k as int].x <= 0x10000000 && 0 <= slash_scaled@[k as int].y
                <= 0x10000000);
        }
        body.push(p);
        k = k + 1;
    }
    fill_polygon(buf, &body, 0, 0, 0xFFFF0000);
    hot
}

/// Renders the single-layer description dialect: one point list with
/// fill, outline and shadow colors and a shadow offset.
fn render_custom_v1(
    buf: &mut PixelBuf,
    content: &[u8],
    cfg: &Config,
    cos_r: i64,
    sin_r: i64,
) -> (hot: (i64, i64))
    requires
        old(buf).wf(),
        cfg.wf(),
        rot_bounded(cos_r, sin_r),
    ensures
        final(buf).wf(),
        final(buf).width == old(buf).width,
        final(buf).height == old(buf).height,
        hot_bounded(hot),
{
    let points = parse_custom_points(content);
    if points.len() == 0 {
        return render_embedded(buf, cfg);
    }
    let key_fill: [u8; 4] = [102u8, 105, 108, 108];
    let key_outline: [u8; 7] = [111u8, 117, 116, 108, 105, 110, 101];
    let key_shadow: [u8; 6] = [115u8, 104, 97, 100, 111, 119];
    let key_scale: [u8; 5] = [115u8, 99, 97, 108, 101];
    let key_shadow_offset: [u8; 12] = [115u8, 104, 97, 100, 111, 119, 79, 102, 102, 115, 101, 116];
    let fill_color = match parse_color_in(content, key_fill.as_slice()) {
        Some(c) => c,
        None => 0xFFFFFFFF,
    };
    let outline_color = match parse_color_in(content, key_outline.as_slice()) {
        Some(c) => c,
        None => 0xFF000000,
    };
    let shadow_color = match parse_color_in(content, key_shadow.as_slice()) {
        Some(c) => c,
        None => 0x80000000,
    };
    let custom_scale = clamp_scale(match parse_fixed_in(content, key_scale.as_slice()) {
        Some(v) => v,
        None => 384,
    });
    let shadow_offset = clamp_offset(match parse_fixed_in(content, key_shadow_offset.as_slice()) {
        Some(v) => v,
        None => 256,
    });
    let (scaled, hot) = transform_points(&points, custom_scale, cos_r, sin_r);
    if shadow_offset > 0 {
        fill_polygon(buf, &scaled, shadow_offset, shadow_offset, shadow_color);
    }
    fill_polygon(buf, &scaled, 0, 0, fill_color);
    outline_polygon(buf, &scaled, 0, 0, outline_color, 0, config_thickness_fx(cfg));
    hot
}

/// Clamps a parsed scale into the transform's accepted range.
fn clamp_scale(v: i64) -> (r: i64)
    ensures
        r == spec_clamp(v as int, 0, 2560),
        0 <= r <= 2560,
{
    if v < 0 {
        0
    } else if v > 2560 {
        2560
    } else {
        v
    }
}

/// Clamps a parsed offset into the drawable range.
fn clamp_offset(v: i64) -> (r: i64)
    ensures
        0 <= r <= 0x100000,
{
    if v < 0 {
        0
    } else if v > 0x100000 {
        0x100000
    } else {
        v
    }
}

/// Renders the multi-layer description dialect: the overall scale is the
/// description's scale modulated by the runtime scale; each layer draws
/// its shadow, fill and outline in order, or tints what is already
/// present when marked passthrough; the reported hotspot comes from the
/// combined point set of all layers.
#[verifier::loop_isolation(false)]
#[verifier::rlimit(60)]
/// The effective scale of a multi-layer render: the description's own
/// scale modulated by the configured runtime scale.
pub open spec fn spec_v2_scale(h: Seq<u8>, cfg: Config) -> int {
    let js = spec_clamp(spec_fixed_field(h, key_scale(), 384) as int, 0, 2560);
    spec_clamp(js * spec_config_scale(cfg) / 384, 0, 2560)
}

fn render_custom_v2(
    buf: &mut PixelBuf,
    content: &[u8],
    cfg: &Config,
    cos_r: i64,
    sin_r: i64,
) -> (hot: (i64, i64))
    requires
        old(buf).wf(),
        cfg.wf(),
        rot_bounded(cos_r, sin_r),
    ensures
        final(buf).wf(),
        final(buf).width == old(buf).width,
        final(buf).height == old(buf).height,
        hot_bounded(hot),
        spec_layer_slices(content@).len() > 0 ==> v2_hotspot_matches(
            hot,
            content@,
            *cfg,
            cos_r as int,
            sin_r as int,
        ),
{
    let scale_field: [u8; 5] = [115u8, 99, 97, 108, 101];
    proof {
        assert(scale_field@ =~= key_scale());
    }
    let json_scale = clamp_scale(match parse_fixed_in(content, scale_field.as_slice()) {
        Some(v) => v,
        None => 384,
    });
    let runtime_scale = config_scale_fx(cfg);
    proof {
        crate::geometry::lemma_mul_range(json_scale as int, 2560, runtime_scale as int, 2560);
        vstd::arithmetic::div_mod::lemma_div_pos_is_pos(json_scale * runtime_scale, 384);
    }
    let custom_scale = clamp_scale((json_scale * runtime_scale) / 384);
    proof {
        assert(custom_scale == spec_v2_scale(content@, *cfg));
    }
    let layers = parse_layers(content);
    if layers.len() == 0 {
        let arrow = fallback_arrow_points();
        return render_simple(buf, &arrow, config_scale_fx(cfg), cfg);
    }
    // hotspot of the combined design
    let ghost total = spec_all_layer_points(content@);
    let mut all_points: Vec<FxPoint> = Vec::new();
    let mut li: usize = 0;
    while li < layers.len()
        invariant
            li <= layers@.len(),
            layers@.len() == spec_layer_slices(content@).len(),
            forall|j: int| 0 <= j < layers@.len() ==> (#[trigger] layers@[j]).wf(),
            forall|j: int| 0 <= j < layers@.len() ==> spec_layer_matches(
                #[trigger] layers@[j],
                spec_layer_slices(content@)[j],
            ),
            points_bounded(all_points@),
            all_points@.len() <= 0x10000,
            total == spec_concat_layer_points(content@, li as int, all_points@),
        decreases layers@.len() - li,
    {
        let lp = &layers[li].points;
        proof {
            assert(spec_layer_matches(layers@[li as int], spec_layer_slices(content@)[li as int]));
            assert(lp@ == spec_layer_points(spec_layer_slices(content@)[li as int]));
        }
        let mut pi: usize = 0;
        while pi < lp.len()
            invariant
                pi <= lp@.len(),
                lp@ == spec_layer_points(spec_layer_slices(content@)[li as int]),
                li < layers@.len() == spec_layer_slices(content@).len(),
                points_bounded(lp@),
                points_bounded(all_points@),
                all_points@.len() <= 0x10000,
                total == spec_concat_layer_points(
                    content@,
                    li + 1,
                    spec_cap_append(all_points@, lp@, pi as int),
                ),
            decreases lp@.len() - pi,
        {
            if all_points.len() < 0x10000 {
                let p = lp[pi];
                all_points.push(p);
            }
            pi = pi + 1;
        }
        proof {
            assert(spec_cap_append(all_points@, lp@, lp@.len() as int) == all_points@);
        }
        li = li + 1;
    }
    proof {
        assert(total == all_points@);
    }
    let (_, hot) = transform_points(&all_points, custom_scale, cos_r, sin_r);
    let mut i: usize = 0;
    while i < layers.len()
        invariant
            buf.wf(),
            buf.width == old(buf).width,
            buf.height == old(buf).height,
            i <= layers@.len(),
            cfg.wf(),
            rot_bounded(cos_r, sin_r),
            0 <= custom_scale <= 2560,
            forall|j: int| 0 <= j < layers@.len() ==> (#[trigger] layers@[j]).wf(),
        decreases layers@.len() - i,
    {
        let layer = &layers[i];
        if layer.points.len() >= 3 {
            render_one_layer(buf, layer, custom_scale, cfg, cos_r, sin_r);
        }
        i = i + 1;
    }
    hot
}

/// Composites one layer: passthrough layers tint or frost what is below;
/// opaque layers draw shadow, fill and outline in order, each frosted
/// when the layer carries blur.
fn render_one_layer(
    buf: &mut PixelBuf,
    layer: &CursorLayer,
    scale: i64,
    cfg: &Config,
    cos_r: i64,
    sin_r: i64,
)
    requires
        old(buf).wf(),
        layer.wf(),
        cfg.wf(),
        rot_bounded(cos_r, sin_r),
        0 <= scale <= 2560,
    ensures
        final(buf).wf(),
        final(buf).width == old(buf).width,
        final(buf).height == old(buf).height,
{
    let (scaled, _) = transform_points(&layer.points, scale, cos_r, sin_r);
    let frost_mult = cfg.frost_intensity as i64;
    if layer.passthrough_to >= 0 {
        if layer.blur != 0 {
            let adjusted = adjusted_blur(layer.blur, frost_mult);
            frosted_glass(buf, &scaled, 0, 0, layer.fill_color, adjusted);
        } else {
            let alpha = layer.fill_color / 0x1000000;
            let tint = (alpha / 2) * 0x1000000 + layer.fill_color % 0x1000000;
            fill_polygon(buf, &scaled, 0, 0, tint);
        }
        if layer.outline_width > 0 && layer.outline_color / 0x1000000 > 0 {
            if layer.blur != 0 && layer.blur_outline {
                outline_spiral_blur(buf, &scaled, 0, 0, layer.outline_color, layer.blur);
            } else {
                outline_polygon(buf, &scaled, 0, 0, layer.outline_color, 0, config_thickness_fx(cfg));
            }
        }
        return;
    }
    if layer.shadow_offset > 0 && layer.shadow_color / 0x1000000 > 0 {
        if layer.blur != 0 {
            let adjusted = adjusted_blur(layer.blur, frost_mult);
            if adjusted == 0 {
                fill_polygon(buf, &scaled, layer.shadow_offset, layer.shadow_offset, layer.shadow_color);
            } else {
                frosted_glass(buf, &scaled, layer.shadow_offset, layer.shadow_offset, layer.shadow_color, adjusted);
            }
        } else {
            fill_polygon(buf, &scaled, layer.shadow_offset, layer.shadow_offset, layer.shadow_color);
        }
    }
    if layer.fill_color / 0x1000000 > 0 {
        if layer.blur != 0 {
            let adjusted = adjusted_blur(layer.blur, frost_mult);
            if adjusted == 0 {
                fill_polygon(buf, &scaled, 0, 0, layer.fill_color);
            } else {
                frosted_glass(buf, &scaled, 0, 0, layer.fill_color, adjusted);
            }
        } else {
            fill_polygon(buf, &scaled, 0, 0, layer.fill_color);
        }
    }
    if layer.outline_width > 0 && layer.outline_color / 0x1000000 > 0 {
        if layer.blur != 0 && layer.blur_outline {
            outline_spiral_blur(buf, &scaled, 0, 0, layer.outline_color, layer.blur);
        } else {
            outline_polygon(buf, &scaled, 0, 0, layer.outline_color, 0, config_thickness_fx(cfg));
        }
    }
}

/// The frost intensity actually applied: the layer's blur modulated by
/// the configured percentage.
fn adjusted_blur(blur: i64, frost_mult: i64) -> (r: i64)
    requires
        0 <= blur <= 25600,
        0 <= frost_mult <= 100,
    ensures
        0 <= r <= 25600,
{
    proof {
        crate::geometry::lemma_mul_range(blur as int, 25600, frost_mult as int, 100);
        vstd::arithmetic::div_mod::lemma_div_pos_is_pos(blur * frost_mult, 100);
        vstd::arithmetic::div_mod::lemma_div_is_ordered(blur * frost_mult, 25600 * 100int, 100);
        vstd::arithmetic::div_mod::lemma_div_multiples_vanish(25600, 100);
    }
    (blur * frost_mult) / 100
}

/// Renders the built-in default arrow design.
fn render_embedded(buf: &mut PixelBuf, cfg: &Config) -> (hot: (i64, i64))
    requires
        old(buf).wf(),
        cfg.wf(),
    ensures
        final(buf).wf(),
        final(buf).width == old(buf).width,
        final(buf).height == old(buf).height,
        hot_bounded(hot),
{
    render_custom_v2(buf, EMBEDDED_CURSOR_JSON.as_bytes(), cfg, 256, 0)
}

/// Renders a custom description, choosing the dialect by its declared
/// version: two and above is the multi-layer form.
/// The multi-layer hotspot law: the reported offset restores the
/// combined design's geometry after its bounding-box normalization.
pub open spec fn v2_hotspot_matches(hot: (i64, i64), h: Seq<u8>, cfg: Config, cos_r: int, sin_r: int) -> bool {
    let all = spec_all_layer_points(h);
    all.len() > 0 ==> hot.0 == crate::geometry::spec_round_fx(
        -crate::geometry::min_tf_x(all, all[0], spec_v2_scale(h, cfg), cos_r, sin_r),
    ) && hot.1 == crate::geometry::spec_round_fx(
        -crate::geometry::min_tf_y(all, all[0], spec_v2_scale(h, cfg), cos_r, sin_r),
    )
}

fn render_custom(
    buf: &mut PixelBuf,
    content: &[u8],
    cfg: &Config,
    cos_r: i64,
    sin_r: i64,
) -> (hot: (i64, i64))
    requires
        old(buf).wf(),
        cfg.wf(),
        rot_bounded(cos_r, sin_r),
    ensures
        final(buf).wf(),
        final(buf).width == old(buf).width,
        final(buf).height == old(buf).height,
        hot_bounded(hot),
        (spec_fixed_field(content@, key_version(), 256) >= 512 && spec_layer_slices(
            content@,
        ).len() > 0) ==> v2_hotspot_matches(hot, content@, *cfg, cos_r as int, sin_r as int),
{
    let version_field: [u8; 7] = [118u8, 101, 114, 115, 105, 111, 110];
    proof {
        assert(version_field@ =~= key_version());
    }
    let version = match parse_fixed_in(content, version_field.as_slice()) {
        Some(v) => v,
        None => 256,
    };
    if version >= 512 {
        render_custom_v2(buf, content, cfg, cos_r, sin_r)
    } else {
        render_custom_v1(buf, content, cfg, cos_r, sin_r)
    }
}

/// Clears the surface and renders the active cursor design into it.  The
/// rotation arrives as a fixed-point cosine/sine pair; simple designs use
/// no rotation.  Returns the hotspot offset of the rendered geometry.
pub fn render_cursor(
    buf: &mut PixelBuf,
    ctype: CursorType,
    custom: Option<&Vec<u8>>,
    cfg: &Config,
    cos_r: i64,
    sin_r: i64,
) -> (hot: (i64, i64))
    requires
        old(buf).wf(),
        cfg.wf(),
        rot_bounded(cos_r, sin_r),
    ensures
        final(buf).wf(),
        final(buf).width == old(buf).width,
        final(buf).height == old(buf).height,
        hot_bounded(hot),
        ctype is Custom ==> (custom matches Some(c) ==> ((spec_fixed_field(
            c@,
            key_version(),
            256,
        ) >= 512 && spec_layer_slices(c@).len() > 0) ==> v2_hotspot_matches(
            hot,
            c@,
            *cfg,
            cos_r as int,
            sin_r as int,
        ))),
{
    buf.clear();
    let scale = config_scale_fx(cfg);
    match ctype {
        CursorType::Default => render_embedded(buf, cfg),
        CursorType::Pointer => {
            let pts = pointer_points();
            render_simple(buf, &pts, scale, cfg)
        },
        CursorType::Text => {
            let pts = text_points();
            render_simple(buf, &pts, scale, cfg)
        },
        CursorType::Crosshair => {
            let pts = crosshair_points();
            render_simple(buf, &pts, (scale * 4) / 5, cfg)
        },
        CursorType::Wait => {
            let pts = wait_points();
            render_simple(buf, &pts, scale, cfg)
        },
        CursorType::Grab => {
            let pts = grab_points();
            render_simple(buf, &pts, (scale * 87) / 100, cfg)
        },
        CursorType::NotAllowed => render_not_allowed(buf, scale, cfg),
        CursorType::Custom => {
            match custom {
                Some(content) => render_custom(buf, content.as_slice(), cfg, cos_r, sin_r),
                None => render_embedded(buf, cfg),
            }
        },
    }
}

impl CursorContext {
    /// Re-renders the owned surface with the given design and records the
    /// resulting hotspot offset.  Without a surface there is nothing to
    /// draw into and the call is a silent no-op.
    pub fn render_frame(&mut self, ctype: CursorType, custom: Option<&Vec<u8>>, cos_r: i64, sin_r: i64)
        requires
            old(self).wf(),
            rot_bounded(cos_r, sin_r),
        ensures
            final(self).wf(),
            final(self).status == old(self).status,
            final(self).config == old(self).config,
            final(self).registry.entries@ == old(self).registry.entries@,
            final(self).drm_fd == old(self).drm_fd,
            final(self).screen_x == old(self).screen_x,
            final(self).screen_y == old(self).screen_y,
            final(self).surface is Some <==> old(self).surface is Some,
            old(self).surface is None ==> *final(self) == *old(self),
            old(self).surface matches Some(s) ==> (final(self).surface matches Some(s2) ==> {
                &&& s2.fd == s.fd
                &&& s2.handle == s.handle
                &&& s2.fb_id == s.fb_id
                &&& s2.buf.width == s.buf.width
                &&& s2.buf.height == s.buf.height
            }),
            old(self).surface is Some ==> -0x100000 <= final(self).render_hot_x <= 0x100000
                && -0x100000 <= final(self).render_hot_y <= 0x100000,
    {
        let cfg = self.config;
        let mut taken = None;
        core::mem::swap(&mut taken, &mut self.surface);
        match taken {
            None => {
                self.surface = None;
            },
            Some(mut s) => {
                let hot = render_cursor(&mut s.buf, ctype, custom, &cfg, cos_r, sin_r);
                self.render_hot_x = hot.0 as i32;
                self.render_hot_y = hot.1 as i32;
                self.surface = Some(s);
            },
        }
    }

    /// Rescales the surface's alpha for one fade frame; a silent no-op
    /// without a surface.
    pub fn apply_surface_fade(&mut self, target: u32)
        requires
            old(self).wf(),
            target <= 255,
        ensures
            final(self).wf(),
            final(self).status == old(self).status,
            final(self).config == old(self).config,
            final(self).registry.entries@ == old(self).registry.entries@,
            final(self).drm_fd == old(self).drm_fd,
            final(self).render_hot_x == old(self).render_hot_x,
            final(self).render_hot_y == old(self).render_hot_y,
            final(self).surface is Some <==> old(self).surface is Some,
            old(self).surface is None ==> *final(self) == *old(self),
            old(self).surface matches Some(s) ==> (final(self).surface matches Some(s2) ==> {
                &&& s2.fd == s.fd
                &&& s2.handle == s.handle
                &&& s2.fb_id == s.fb_id
                &&& s2.buf.width == s.buf.width
                &&& s2.buf.height == s.buf.height
                &&& s2.buf.px@.len() == s.buf.px@.len()
                &&& forall|i: int| 0 <= i < s2.buf.px@.len()
                    ==> s2.buf.px@[i] == crate::pixel::spec_faded(s.buf.px@[i], target) as u32
            }),
    {
        let mut taken = None;
        core::mem::swap(&mut taken, &mut self.surface);
        match taken {
            None => {
                self.surface = None;
            },
            Some(mut s) => {
                s.buf.apply_fade(target);
                self.surface = Some(s);
            },
        }
    }
}

} // verus!
