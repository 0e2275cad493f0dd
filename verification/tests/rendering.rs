//! Geometry, blending and rendering: the identity transform, exact blend
//! values, fades over the pixel grid, and full design renders.

use constellation_cursor::config::Config;
use constellation_cursor::geometry::{transform_points, FxPoint};
use constellation_cursor::layers::{parse_layers, parse_custom_points};
use constellation_cursor::pixel::{blend_pixel, PixelBuf};
use constellation_cursor::raster::{fill_polygon, line_aa};
use constellation_cursor::render::render_cursor;
use constellation_cursor::shapes::{cursor_type_from_name, CursorType};

fn fx(px: i64) -> i64 {
    px * 256
}

#[test]
fn transform_with_unit_scale_and_no_rotation_only_normalizes() {
    // the hotspot (first point) sits inside; the minimum corner is (-2, 1)
    let points = vec![
        FxPoint { x: fx(0), y: fx(4) },
        FxPoint { x: fx(-2), y: fx(1) },
        FxPoint { x: fx(5), y: fx(9) },
    ];
    let (out, hot) = transform_points(&points, 256, 256, 0);
    // every point is the input shifted by the bounding-box minimum
    assert_eq!(out[0], FxPoint { x: fx(2), y: fx(3) });
    assert_eq!(out[1], FxPoint { x: fx(0), y: fx(0) });
    assert_eq!(out[2], FxPoint { x: fx(7), y: fx(8) });
    // the reported offset restores the hotspot: hotspot - minimum
    assert_eq!(hot, (2, 3));
}

#[test]
fn transform_scales_around_the_hotspot() {
    let points = vec![FxPoint { x: fx(1), y: fx(1) }, FxPoint { x: fx(3), y: fx(1) }];
    // double size: the extent doubles, normalization keeps it in positive space
    let (out, hot) = transform_points(&points, 512, 256, 0);
    assert_eq!(out[0], FxPoint { x: 0, y: 0 });
    assert_eq!(out[1], FxPoint { x: fx(4), y: 0 });
    assert_eq!(hot, (0, 0));
}

#[test]
fn transform_rotates_ninety_degrees() {
    // cosine 0, sine 1: the point (1, 0) relative to the hotspot lands at (0, 1)
    let points = vec![FxPoint { x: 0, y: 0 }, FxPoint { x: fx(1), y: 0 }];
    let (out, _) = transform_points(&points, 256, 0, 256);
    assert_eq!(out[0], FxPoint { x: 0, y: 0 });
    assert_eq!(out[1], FxPoint { x: 0, y: fx(1) });
}

#[test]
fn empty_points_transform_to_nothing() {
    let points: Vec<FxPoint> = Vec::new();
    let (out, hot) = transform_points(&points, 256, 256, 0);
    assert!(out.is_empty());
    assert_eq!(hot, (0, 0));
}

#[test]
fn blend_transparent_source_is_a_no_op() {
    assert_eq!(blend_pixel(0x12345678, 0x00FFFFFF), 0x12345678);
}

#[test]
fn blend_opaque_source_replaces_outright() {
    assert_eq!(blend_pixel(0x12345678, 0xFF0000AA), 0xFF0000AA);
}

#[test]
fn blend_half_alpha_mixes_exactly() {
    // white at alpha 128 over opaque black: each channel 255*128/255 = 128
    assert_eq!(blend_pixel(0xFF000000, 0x80FFFFFF), 0xFF808080);
}

#[test]
fn fade_rescales_alpha_and_keeps_color() {
    let mut buf = PixelBuf::new_clear(2, 2);
    buf.put(0, 0, 0x80FF0000);
    buf.put(1, 1, 0xFF00FF00);
    buf.apply_fade(128);
    // 0x80 * 128 / 255 = 64; 0xFF * 128 / 255 = 128
    assert_eq!(buf.at(0, 0), 0x40FF0000);
    assert_eq!(buf.at(1, 1), 0x8000FF00);
    // untouched transparent pixels stay transparent
    assert_eq!(buf.at(1, 0), 0);
}

#[test]
fn fade_to_zero_clears_all_alpha() {
    let mut buf = PixelBuf::new_clear(2, 1);
    buf.put(0, 0, 0xFFABCDEF);
    buf.apply_fade(0);
    assert_eq!(buf.at(0, 0), 0x00ABCDEF);
}

#[test]
fn render_pointer_fills_pixels() {
    let mut buf = PixelBuf::new_clear(64, 64);
    let cfg = Config::new();
    let hot = render_cursor(&mut buf, CursorType::Pointer, None, &cfg, 256, 0);
    // the pointer design starts at its own hotspot, nothing shifted
    assert_eq!(hot, (0, 0));
    let mut non_transparent = 0;
    for y in 0..64 {
        for x in 0..64 {
            if buf.at(x, y) != 0 {
                non_transparent += 1;
            }
        }
    }
    assert!(non_transparent > 20, "the pointer design must draw pixels");
}

#[test]
fn render_clears_previous_content() {
    let mut buf = PixelBuf::new_clear(64, 64);
    buf.put(60, 60, 0xFFFFFFFF);
    let cfg = Config::new();
    render_cursor(&mut buf, CursorType::Text, None, &cfg, 256, 0);
    // the corner far from the design was cleared by the render
    assert_eq!(buf.at(63, 63), 0);
}

#[test]
fn render_custom_multi_layer_design() {
    let mut buf = PixelBuf::new_clear(64, 64);
    let cfg = Config::new();
    let description = String::from(
        "{\"version\": 2, \"scale\": 1.5, \"layers\": [ {\"points\": [ {\"x\": 0, \"y\": 0}, {\"x\": 0, \"y\": 12}, {\"x\": 9, \"y\": 6} ], \"fill\": \"#FF0000\", \"fillAlpha\": 100, \"outline\": \"#000000\", \"outlineWidth\": 1 } ]}",
    );
    let bytes = description.into_bytes();
    render_cursor(&mut buf, CursorType::Custom, Some(&bytes), &cfg, 256, 0);
    let mut filled = 0;
    for y in 0..64 {
        for x in 0..64 {
            if buf.at(x, y) != 0 {
                filled += 1;
            }
        }
    }
    assert!(filled > 10, "the triangle must rasterize");
}

#[test]
fn layers_parse_colors_and_flags() {
    let description = "{\"layers\": [ {\"points\": [ {\"x\": 0, \"y\": 0}, {\"x\": 1, \"y\": 1} ], \"fill\": \"#112233\", \"fillAlpha\": 100, \"blur\": 2, \"blurOutline\": true, \"passthroughTo\": 1 } ]}";
    let layers = parse_layers(description.as_bytes());
    assert_eq!(layers.len(), 1);
    let l = &layers[0];
    assert_eq!(l.fill_color, 0xFF112233);
    assert!(l.blur_outline);
    assert_eq!(l.passthrough_to, 1);
    assert_eq!(l.blur, 512);
    assert_eq!(l.points.len(), 2);
}

#[test]
fn curve_points_expand_to_eight_segments() {
    let description = "{\"layers\": [ {\"points\": [ {\"x\": 0, \"y\": 0}, {\"x\": 8, \"y\": 0, \"type\": \"curve\", \"cx1\": 2, \"cy1\": 4, \"cx2\": 6, \"cy2\": 4} ] } ]}";
    let layers = parse_layers(description.as_bytes());
    assert_eq!(layers.len(), 1);
    // the anchor plus eight interpolated samples
    assert_eq!(layers[0].points.len(), 9);
    // the final sample lands exactly on the end point
    assert_eq!(layers[0].points[8], FxPoint { x: 8 * 256, y: 0 });
}

#[test]
fn single_layer_dialect_reads_coordinate_pairs() {
    let description = "{\"points\": [[0, 0], [3.5, 1], [-2, 4]]}";
    let pts = parse_custom_points(description.as_bytes());
    assert_eq!(pts.len(), 3);
    assert_eq!(pts[0], FxPoint { x: 0, y: 0 });
    assert_eq!(pts[1], FxPoint { x: 896, y: 256 });
    assert_eq!(pts[2], FxPoint { x: -512, y: 1024 });
}

#[test]
fn cursor_type_names_and_codes() {
    assert!(matches!(cursor_type_from_name(b"pointer"), CursorType::Pointer));
    assert!(matches!(cursor_type_from_name(b"hand"), CursorType::Pointer));
    assert!(matches!(cursor_type_from_name(b"i-beam"), CursorType::Text));
    assert!(matches!(cursor_type_from_name(b"busy"), CursorType::Wait));
    assert!(matches!(cursor_type_from_name(b"forbidden"), CursorType::NotAllowed));
    assert!(matches!(cursor_type_from_name(b"unknown"), CursorType::Default));
    assert_eq!(CursorType::Default.as_u32(), 0);
    assert_eq!(CursorType::Pointer.as_u32(), 1);
    assert_eq!(CursorType::Custom.as_u32(), 7);
    assert_eq!(CursorType::from_u32(4).as_u32(), 4);
    assert_eq!(CursorType::from_u32(99).as_u32(), 0);
}

#[test]
fn config_setters_clamp_to_documented_ranges() {
    let mut cfg = Config::new();
    cfg.set_fade_speed(0);
    assert_eq!(cfg.fade_speed, 1);
    cfg.set_fade_speed(999);
    assert_eq!(cfg.fade_speed, 255);
    cfg.set_frost_intensity(350);
    assert_eq!(cfg.frost_intensity, 100);
    cfg.set_hotspot_threshold(-3);
    assert_eq!(cfg.hotspot_threshold, 0);
    cfg.set_hotspot_threshold(80);
    assert_eq!(cfg.hotspot_threshold, 50);
    cfg.set_cursor_scale_hundredths(10);
    assert_eq!(cfg.cursor_scale_hundredths, 50);
    cfg.set_cursor_scale_hundredths(5000);
    assert_eq!(cfg.cursor_scale_hundredths, 1000);
    cfg.set_outline_thickness_tenths(70);
    assert_eq!(cfg.outline_thickness_tenths, 50);
}

#[test]
fn render_default_draws_the_embedded_arrow() {
    let mut buf = PixelBuf::new_clear(64, 64);
    let cfg = Config::new();
    render_cursor(&mut buf, CursorType::Default, None, &cfg, 256, 0);
    let mut filled = 0;
    for y in 0..64 {
        for x in 0..64 {
            if buf.at(x, y) != 0 {
                filled += 1;
            }
        }
    }
    assert!(filled > 20, "the embedded arrow must draw pixels");
}

#[test]
fn render_not_allowed_draws_in_red() {
    let mut buf = PixelBuf::new_clear(64, 64);
    let cfg = Config::new();
    render_cursor(&mut buf, CursorType::NotAllowed, None, &cfg, 256, 0);
    let mut reds = 0;
    for y in 0..64 {
        for x in 0..64 {
            let p = buf.at(x, y);
            if (p >> 24) > 0 && ((p >> 16) & 0xFF) > ((p >> 8) & 0xFF) {
                reds += 1;
            }
        }
    }
    assert!(reds > 10, "the sign must carry red pixels");
}

#[test]
fn frosted_passthrough_layer_writes_texture() {
    let mut buf = PixelBuf::new_clear(64, 64);
    let mut cfg = Config::new();
    cfg.set_frost_intensity(100);
    let description = String::from(
        "{\"version\": 2, \"layers\": [ {\"points\": [ {\"x\": 0, \"y\": 0}, {\"x\": 0, \"y\": 20}, {\"x\": 20, \"y\": 20}, {\"x\": 20, \"y\": 0} ], \"fill\": \"#4080C0\", \"fillAlpha\": 60, \"blur\": 3, \"passthroughTo\": 0 } ]}",
    );
    let bytes = description.into_bytes();
    render_cursor(&mut buf, CursorType::Custom, Some(&bytes), &cfg, 256, 0);
    let mut filled = 0;
    for y in 0..64 {
        for x in 0..64 {
            if buf.at(x, y) != 0 {
                filled += 1;
            }
        }
    }
    assert!(filled > 50, "the frosted layer must cover its area");
}

#[test]
fn two_layers_parse_separately() {
    let description = "{\"layers\": [ {\"points\": [ {\"x\": 0, \"y\": 0}, {\"x\": 1, \"y\": 0} ], \"fill\": \"#AA0000\", \"fillAlpha\": 100 }, {\"points\": [ {\"x\": 2, \"y\": 2}, {\"x\": 3, \"y\": 3} ], \"fill\": \"#00BB00\", \"fillAlpha\": 100, \"passthroughTo\": 0 } ]}";
    let layers = parse_layers(description.as_bytes());
    assert_eq!(layers.len(), 2);
    assert_eq!(layers[0].fill_color, 0xFFAA0000);
    assert_eq!(layers[0].passthrough_to, -1);
    assert_eq!(layers[1].fill_color, 0xFF00BB00);
    assert_eq!(layers[1].passthrough_to, 0);
    assert_eq!(layers[1].points[0], FxPoint { x: 512, y: 512 });
}

#[test]
fn line_covers_its_row() {
    let mut buf = PixelBuf::new_clear(16, 16);
    // an opaque horizontal line across row 4, in fixed-point units
    line_aa(&mut buf, 2 * 256, 4 * 256, 12 * 256, 4 * 256, 0xFFFFFFFF);
    for x in 3..=11 {
        assert_ne!(buf.at(x, 4), 0, "interior column {} must be lit", x);
    }
    // rows far from the line stay untouched
    for x in 0..16 {
        assert_eq!(buf.at(x, 10), 0);
    }
}

#[test]
fn fill_stays_within_the_polygon_rows() {
    let mut buf = PixelBuf::new_clear(16, 16);
    let square = vec![
        FxPoint { x: 2 * 256, y: 2 * 256 },
        FxPoint { x: 10 * 256, y: 2 * 256 },
        FxPoint { x: 10 * 256, y: 6 * 256 },
        FxPoint { x: 2 * 256, y: 6 * 256 },
    ];
    fill_polygon(&mut buf, &square, 0, 0, 0xFF00FF00);
    assert_eq!(buf.at(5, 4), 0xFF00FF00, "the interior is painted solid");
    for x in 0..16 {
        assert_eq!(buf.at(x, 12), 0, "rows outside the span stay untouched");
    }
}
