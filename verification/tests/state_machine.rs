//! The visibility state machine: fades, hotspot smoothing, and the
//! end-to-end hide/show scenarios through the interception decisions.

use constellation_cursor::intercept::{
    CursorContext, CursorSurface, MoveDecision, SetCursorDecision, IoctlDecision,
    DRM_IOCTL_MODE_CURSOR2, DRM_MODE_CURSOR_BO,
};
use constellation_cursor::pixel::PixelBuf;
use constellation_cursor::plane::PlaneProp;
use constellation_cursor::state::{CursorStatus, VisualState};

fn prop(prop_id: u32, value: u64, name: &str) -> PlaneProp {
    PlaneProp { prop_id, value, name: name.as_bytes().to_vec() }
}

fn cursor_props() -> Vec<PlaneProp> {
    vec![prop(7, 2, "type"), prop(11, 0, "FB_ID"), prop(12, 0, "SRC_W"), prop(13, 0, "SRC_H"),
        prop(14, 0, "CRTC_W"), prop(15, 0, "CRTC_H")]
}

fn context_with_surface(fb_id: u32) -> CursorContext {
    let mut ctx = CursorContext::new();
    ctx.install_surface(CursorSurface {
        fd: 3,
        handle: 77,
        fb_id,
        buf: PixelBuf::new_clear(64, 64),
    });
    ctx
}

#[test]
fn fade_out_alpha_is_non_increasing_and_reaches_zero() {
    let mut status = CursorStatus::new();
    status.state = VisualState::FadingOut;
    status.alpha = 255;
    let step = 30u32;
    let mut samples = vec![status.alpha];
    let mut ticks = 0;
    loop {
        let done = status.fade_out_tick(step);
        samples.push(status.alpha);
        ticks += 1;
        if done {
            break;
        }
        assert!(ticks < 100, "fade-out must terminate");
    }
    for w in samples.windows(2) {
        assert!(w[1] <= w[0]);
    }
    assert_eq!(status.alpha, 0);
    assert!(matches!(status.state, VisualState::Hidden));
    // bounded by 255 / step, rounded up
    assert!(ticks <= (255 + step - 1) / step);
}

#[test]
fn fade_in_alpha_is_non_decreasing_and_reaches_full() {
    let mut status = CursorStatus::new();
    status.state = VisualState::FadingIn;
    status.alpha = 10;
    let step = 30u32;
    let mut samples = vec![status.alpha];
    let mut ticks = 0;
    loop {
        let done = status.fade_in_tick(step);
        samples.push(status.alpha);
        ticks += 1;
        if done {
            break;
        }
        assert!(ticks < 100, "fade-in must terminate");
    }
    for w in samples.windows(2) {
        assert!(w[1] >= w[0]);
    }
    assert_eq!(status.alpha, 255);
    assert!(matches!(status.state, VisualState::Visible));
    assert!(ticks <= (255 + step - 1) / step);
}

#[test]
fn canceled_fade_tick_changes_nothing() {
    let mut status = CursorStatus::new();
    status.state = VisualState::Visible;
    status.alpha = 200;
    assert!(status.fade_out_tick(30));
    assert_eq!(status.alpha, 200);
    assert!(matches!(status.state, VisualState::Visible));
}

#[test]
fn hotspot_smoothing_damps_large_jumps_to_one_third() {
    let mut status = CursorStatus::new();
    // baseline: the very first hotspot is applied exactly
    status.apply_hotspot(0, 0, true, 5);
    assert_eq!((status.applied_hot_x, status.applied_hot_y), (0, 0));
    // a jump of (30, 0) beyond threshold 5 applies one third of the delta
    status.apply_hotspot(30, 0, true, 5);
    assert_eq!((status.applied_hot_x, status.applied_hot_y), (10, 0));
}

#[test]
fn hotspot_within_threshold_applies_raw_value() {
    let mut status = CursorStatus::new();
    status.apply_hotspot(0, 0, true, 5);
    status.apply_hotspot(3, 2, true, 5);
    assert_eq!((status.applied_hot_x, status.applied_hot_y), (3, 2));
}

#[test]
fn hotspot_without_smoothing_applies_raw_value() {
    let mut status = CursorStatus::new();
    status.apply_hotspot(0, 0, false, 5);
    status.apply_hotspot(30, 0, false, 5);
    assert_eq!((status.applied_hot_x, status.applied_hot_y), (30, 0));
}

#[test]
fn hide_with_fade_disabled_immediately_hides_and_forwards() {
    let mut ctx = context_with_surface(42);
    ctx.config.fade_enabled = false;
    ctx.status.state = VisualState::Visible;
    ctx.status.alpha = 255;
    let decision = ctx.on_set_cursor2(5, 0, 0, 0);
    assert!(matches!(ctx.status.state, VisualState::Hidden));
    match decision {
        SetCursorDecision::Forward(req) => {
            assert_eq!(req.handle, 0);
            assert_eq!(req.flags, DRM_MODE_CURSOR_BO);
            assert_eq!(req.crtc_id, 5);
        },
        SetCursorDecision::ReturnZero => panic!("the real hide call must be forwarded"),
    }
}

#[test]
fn atomic_hide_with_fade_enabled_substitutes_own_framebuffer() {
    let mut ctx = context_with_surface(42);
    ctx.config.fade_enabled = true;
    ctx.status.state = VisualState::Visible;
    ctx.status.alpha = 255;
    let props = cursor_props();
    assert!(ctx.try_detect_cursor_plane(31, &props));
    // the compositor asks to clear the framebuffer: value 0 on FB_ID
    let decision = ctx.on_atomic_property(31, 11, 0);
    assert!(matches!(ctx.status.state, VisualState::FadingOut));
    assert_ne!(decision.forward_value, 0, "value 0 must not be forwarded during the fade");
    assert_eq!(decision.forward_value, 42, "the owned framebuffer keeps being presented");
    assert!(decision.start_fade_out_task);
}

#[test]
fn atomic_show_substitutes_own_framebuffer() {
    let mut ctx = context_with_surface(42);
    ctx.status.state = VisualState::Hidden;
    let props = cursor_props();
    assert!(ctx.try_detect_cursor_plane(31, &props));
    let decision = ctx.on_atomic_property(31, 11, 1234);
    assert_eq!(decision.forward_value, 42);
    assert!(matches!(ctx.status.state, VisualState::Visible));
    assert_eq!(ctx.status.alpha, 255);
}

#[test]
fn atomic_sizes_present_the_fixed_display_size() {
    let mut ctx = context_with_surface(42);
    let props = cursor_props();
    assert!(ctx.try_detect_cursor_plane(31, &props));
    assert_eq!(ctx.on_atomic_property(31, 12, 999).forward_value, 64 << 16);
    assert_eq!(ctx.on_atomic_property(31, 13, 999).forward_value, 64 << 16);
    assert_eq!(ctx.on_atomic_property(31, 14, 999).forward_value, 64);
    assert_eq!(ctx.on_atomic_property(31, 15, 999).forward_value, 64);
}

#[test]
fn untracked_properties_pass_unchanged() {
    let mut ctx = context_with_surface(42);
    let props = cursor_props();
    assert!(ctx.try_detect_cursor_plane(31, &props));
    assert_eq!(ctx.on_atomic_property(31, 99, 555).forward_value, 555);
    // a plane never registered passes everything unchanged
    assert_eq!(ctx.on_atomic_property(77, 11, 0).forward_value, 0);
}

#[test]
fn move_during_fade_steps_alpha_and_finally_forwards_the_hide() {
    let mut ctx = context_with_surface(42);
    ctx.config.fade_enabled = true;
    ctx.config.set_fade_speed(200);
    ctx.status.state = VisualState::FadingOut;
    ctx.status.alpha = 255;
    match ctx.on_move_cursor(5, 10, 20) {
        MoveDecision::FadeFrame(req, alpha) => {
            assert_eq!(alpha, 55);
            assert_eq!(req.handle, 77);
            assert_eq!(req.width, 64);
        },
        _ => panic!("a fade frame was expected"),
    }
    match ctx.on_move_cursor(5, 10, 20) {
        MoveDecision::ForwardHide(req) => {
            assert_eq!(req.handle, 0);
        },
        _ => panic!("the withheld hide must be forwarded at alpha zero"),
    }
    assert!(matches!(ctx.status.state, VisualState::Hidden));
}

#[test]
fn plain_move_passes_through() {
    let mut ctx = context_with_surface(42);
    match ctx.on_move_cursor(5, 10, 20) {
        MoveDecision::ForwardMove(req) => {
            assert_eq!((req.x, req.y), (10, 20));
            assert_eq!(req.handle, 0);
        },
        _ => panic!("a plain move was expected"),
    }
    assert_eq!((ctx.screen_x, ctx.screen_y), (10, 20));
}

#[test]
fn ioctl_learns_the_device_and_rewrites_cursor_payloads() {
    let mut ctx = context_with_surface(42);
    assert_eq!(ctx.drm_fd, -1);
    // an unrelated driver request reveals the descriptor
    let d = ctx.on_ioctl(9, 0x0000_6400, None);
    assert!(matches!(d, IoctlDecision::ForwardUnchanged));
    assert_eq!(ctx.drm_fd, 9);
    // a cursor-set payload gets the owned buffer and the display size
    let arg = constellation_cursor::intercept::CursorRequest {
        flags: DRM_MODE_CURSOR_BO,
        crtc_id: 5,
        x: 0,
        y: 0,
        width: 256,
        height: 256,
        handle: 1234,
        hot_x: 0,
        hot_y: 0,
    };
    match ctx.on_ioctl(9, DRM_IOCTL_MODE_CURSOR2, Some(&arg)) {
        IoctlDecision::ForwardCursor(req) => {
            assert_eq!(req.handle, 77);
            assert_eq!((req.width, req.height), (64, 64));
        },
        _ => panic!("the cursor payload must be rewritten"),
    }
    // a hide payload passes through untouched
    let hide = constellation_cursor::intercept::CursorRequest { handle: 0, ..arg };
    match ctx.on_ioctl(9, DRM_IOCTL_MODE_CURSOR2, Some(&hide)) {
        IoctlDecision::ForwardCursor(req) => assert_eq!(req.handle, 0),
        _ => panic!("the hide payload must pass through"),
    }
}

#[test]
fn fade_task_slot_refuses_a_second_task() {
    let mut status = CursorStatus::new();
    assert!(status.begin_fade_task());
    assert!(!status.begin_fade_task());
    status.end_fade_task();
    assert!(status.begin_fade_task());
}

#[test]
fn atomic_hide_with_fade_disabled_forwards_zero() {
    let mut ctx = context_with_surface(42);
    ctx.config.fade_enabled = false;
    ctx.status.state = VisualState::Visible;
    let props = cursor_props();
    assert!(ctx.try_detect_cursor_plane(31, &props));
    let decision = ctx.on_atomic_property(31, 11, 0);
    assert_eq!(decision.forward_value, 0);
    assert!(!decision.start_fade_out_task);
    assert!(matches!(ctx.status.state, VisualState::Hidden));
}

#[test]
fn atomic_show_with_fade_in_enabled_starts_a_task() {
    let mut ctx = context_with_surface(42);
    ctx.config.fade_in_enabled = true;
    ctx.status.state = VisualState::Hidden;
    ctx.status.alpha = 0;
    let props = cursor_props();
    assert!(ctx.try_detect_cursor_plane(31, &props));
    let decision = ctx.on_atomic_property(31, 11, 500);
    assert_eq!(decision.forward_value, 42);
    assert!(decision.start_fade_in_task);
    assert!(matches!(ctx.status.state, VisualState::FadingIn));
    assert_eq!(ctx.status.alpha, 10);
}

#[test]
fn set_cursor_basic_forwards_hide_and_show() {
    let ctx = context_with_surface(42);
    match ctx.on_set_cursor(5, 0) {
        SetCursorDecision::Forward(req) => assert_eq!(req.handle, 0),
        _ => panic!("a hide must be forwarded"),
    }
    match ctx.on_set_cursor(5, 123) {
        SetCursorDecision::Forward(req) => {
            assert_eq!(req.handle, 77);
            assert_eq!((req.width, req.height), (64, 64));
        },
        _ => panic!("a show must be forwarded with the owned buffer"),
    }
}
