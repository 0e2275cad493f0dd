//! Interception decisions.  Each intercepted driver entry point maps here
//! to a function from the process context and the call's plain values to a
//! decision: what to forward to the real driver call, and which state
//! changes and animation tasks follow.  The unverified shell performs the
//! forwarding and runs the tasks.

use vstd::prelude::*;

use crate::config::Config;
use crate::pixel::PixelBuf;
use crate::plane::{
    blank_entry, merge_entry, scan_props, spec_find, PlaneEntry, PlaneProp, PlaneRegistry,
    PLANE_CAPACITY,
};
use crate::state::{CursorStatus, HideAction, VisualState, fade_out_step, ALPHA_FULL, FADE_IN_START_ALPHA};
use crate::CURSOR_DISPLAY_SIZE;

verus! {

/// Request code of the legacy cursor ioctl.
pub const DRM_IOCTL_MODE_CURSOR: u64 = 0xC01C64A3;

/// Request code of the legacy cursor ioctl with hotspot.
pub const DRM_IOCTL_MODE_CURSOR2: u64 = 0xC03064BB;

/// Cursor-request flag: the call sets the cursor buffer object.
pub const DRM_MODE_CURSOR_BO: u32 = 0x01;

/// Cursor-request flag: the call moves the cursor.
pub const DRM_MODE_CURSOR_MOVE: u32 = 0x02;

/// The payload of a legacy cursor call, as plain values.
#[derive(Clone, Copy, PartialEq, Eq, Structural, Debug)]
pub struct CursorRequest {
    pub flags: u32,
    pub crtc_id: u32,
    pub x: i32,
    pub y: i32,
    pub width: u32,
    pub height: u32,
    pub handle: u32,
    pub hot_x: i32,
    pub hot_y: i32,
}

/// A cursor-hide request: set the buffer object to nothing.
pub open spec fn spec_hide_request(crtc_id: u32) -> CursorRequest {
    CursorRequest {
        flags: DRM_MODE_CURSOR_BO,
        crtc_id,
        x: 0,
        y: 0,
        width: 0,
        height: 0,
        handle: 0,
        hot_x: 0,
        hot_y: 0,
    }
}

/// The driver device owns every request whose second byte is the driver's
/// magic; the first such request observed reveals the device descriptor.
pub open spec fn is_drm_request(request: u64) -> bool {
    (request / 0x100) % 0x100 == 0x64
}

/// The two legacy cursor-set request codes.
pub open spec fn is_cursor_ioctl(request: u64) -> bool {
    request == DRM_IOCTL_MODE_CURSOR || request == DRM_IOCTL_MODE_CURSOR2
}

/// Saturating addition of two 32-bit coordinates.
pub open spec fn sat_add_i32(a: int, b: int) -> int {
    if a + b > i32::MAX {
        i32::MAX as int
    } else if a + b < i32::MIN {
        i32::MIN as int
    } else {
        a + b
    }
}

/// The owned hardware-backed cursor surface: device descriptor, buffer
/// handle, framebuffer id, and the pixel grid rendered into it.
pub struct CursorSurface {
    pub fd: i32,
    pub handle: u32,
    pub fb_id: u32,
    pub buf: PixelBuf,
}

impl CursorSurface {
    pub open spec fn wf(&self) -> bool {
        self.buf.wf()
    }
}

/// The process-scoped context: configuration, visual state, the plane
/// registry, the surface once created, and the captured device descriptor.
pub struct CursorContext {
    pub config: Config,
    pub status: CursorStatus,
    pub registry: PlaneRegistry,
    pub surface: Option<CursorSurface>,
    /// Device descriptor of the driver, or -1 until one is observed.
    pub drm_fd: i32,
    /// Hotspot offset produced by the most recent render: how far the
    /// geometry was shifted into positive space.
    pub render_hot_x: i32,
    pub render_hot_y: i32,
    /// Last cursor screen position observed.
    pub screen_x: i32,
    pub screen_y: i32,
}

/// What the general device-control interception does with one call.
#[derive(Clone, Copy, PartialEq, Eq, Structural, Debug)]
pub enum IoctlDecision {
    /// Not a cursor request: forward unchanged.
    ForwardUnchanged,
    /// A cursor request that cannot be served: report success, do nothing.
    ReturnZero,
    /// A cursor request with its payload rewritten; forward this payload.
    ForwardCursor(CursorRequest),
}

/// What a legacy cursor-set interception does.
#[derive(Clone, Copy, PartialEq, Eq, Structural, Debug)]
pub enum SetCursorDecision {
    /// Forward this payload through the extended cursor-set call.
    Forward(CursorRequest),
    /// Do not forward anything; report success.
    ReturnZero,
}

/// What a cursor-move interception does.
#[derive(Clone, Copy, PartialEq, Eq, Structural, Debug)]
pub enum MoveDecision {
    /// Forward a plain move.
    ForwardMove(CursorRequest),
    /// A fade tick: re-render, rescale alpha to the given value, then
    /// forward this set-and-move payload.
    FadeFrame(CursorRequest, u32),
    /// The fade reached zero: forward this hide payload.
    ForwardHide(CursorRequest),
}

/// What an atomic-property interception forwards, and which animation
/// tasks it starts.
#[derive(Clone, Copy, PartialEq, Eq, Structural, Debug)]
pub struct AtomicDecision {
    /// Value handed to the real add-property call.
    pub forward_value: u64,
    /// A background fade-out task must start.
    pub start_fade_out_task: bool,
    /// A background fade-in task must start.
    pub start_fade_in_task: bool,
}

impl CursorContext {
    pub open spec fn wf(&self) -> bool {
        &&& self.config.wf()
        &&& self.status.wf()
        &&& self.registry.wf()
        &&& match self.surface {
            Some(s) => s.wf(),
            None => true,
        }
    }

    /// Framebuffer id of the owned surface, or zero while none exists.
    pub open spec fn spec_surface_fb(&self) -> u32 {
        match self.surface {
            Some(s) => s.fb_id,
            None => 0,
        }
    }

    /// Buffer handle of the owned surface, or zero while none exists.
    pub open spec fn spec_surface_handle(&self) -> u32 {
        match self.surface {
            Some(s) => s.handle,
            None => 0,
        }
    }

    /// The registry entry tracked for an object id, if any.
    pub open spec fn spec_entry_for(&self, object_id: u32) -> Option<PlaneEntry> {
        match spec_find(self.registry.entries@, object_id) {
            Some(i) => Some(self.registry.entries@[i]),
            None => None,
        }
    }

    /// A fresh context: default configuration, hidden cursor, empty
    /// registry, no surface, no device descriptor.
    pub fn new() -> (r: CursorContext)
        ensures
            r.wf(),
            r.status.state is Hidden,
            r.registry.entries@.len() == 0,
            r.surface is None,
            r.drm_fd == -1,
            !r.config.fade_enabled,
            !r.config.fade_in_enabled,
            r.config.fade_speed == 30,
    {
        CursorContext {
            config: Config::new(),
            status: CursorStatus::new(),
            registry: PlaneRegistry::new(),
            surface: None,
            drm_fd: -1,
            render_hot_x: 0,
            render_hot_y: 0,
            screen_x: 0,
            screen_y: 0,
        }
    }

    /// Whether the surface still has to be created; creation is attempted
    /// lazily before each cursor-relevant call and is safe to retry.
    pub fn needs_surface(&self) -> (r: bool)
        ensures
            r == (self.surface is None),
    {
        self.surface.is_none()
    }

    /// Records a freshly created surface.
    pub fn install_surface(&mut self, s: CursorSurface)
        requires
            old(self).wf(),
            s.wf(),
        ensures
            final(self).wf(),
            final(self).surface == Some(s),
            final(self).status == old(self).status,
            final(self).config == old(self).config,
            final(self).registry.entries@ == old(self).registry.entries@,
            final(self).drm_fd == old(self).drm_fd,
            final(self).render_hot_x == old(self).render_hot_x,
            final(self).render_hot_y == old(self).render_hot_y,
    {
        self.surface = Some(s);
    }

    /// Learns the driver device descriptor from the first driver request
    /// observed, whatever that request is.
    pub fn observe_request(&mut self, fd: i32, request: u64)
        requires
            old(self).wf(),
        ensures
            final(self).wf(),
            final(self).drm_fd == (if is_drm_request(request) && old(self).drm_fd < 0 { fd } else { old(self).drm_fd }),
            final(self).status == old(self).status,
            final(self).config == old(self).config,
            final(self).registry.entries@ == old(self).registry.entries@,
            final(self).surface == old(self).surface,
            final(self).render_hot_x == old(self).render_hot_x,
            final(self).render_hot_y == old(self).render_hot_y,
            final(self).screen_x == old(self).screen_x,
            final(self).screen_y == old(self).screen_y,
    {
        if (request / 0x100) % 0x100 == 0x64 {
            if self.drm_fd < 0 {
                self.drm_fd = fd;
            }
        }
    }

    /// Decision for the general device-control entry point: learn the
    /// device descriptor, recognize the two legacy cursor request codes,
    /// and substitute the owned buffer into cursor-set payloads.  A hide
    /// payload (no buffer handle) passes through untouched; without a
    /// surface or a payload the call reports success without forwarding.
    pub fn on_ioctl(&mut self, fd: i32, request: u64, arg: Option<&CursorRequest>) -> (r: IoctlDecision)
        requires
            old(self).wf(),
        ensures
            final(self).wf(),
            final(self).drm_fd == (if is_drm_request(request) && old(self).drm_fd < 0 { fd } else { old(self).drm_fd }),
            final(self).status == old(self).status,
            final(self).config == old(self).config,
            final(self).registry.entries@ == old(self).registry.entries@,
            final(self).surface == old(self).surface,
            !is_cursor_ioctl(request) ==> r is ForwardUnchanged,
            is_cursor_ioctl(request) && (old(self).surface is None || arg is None) ==> r is ReturnZero,
            (is_cursor_ioctl(request) && old(self).surface is Some) ==> (arg matches Some(c) ==> {
                if c.flags & DRM_MODE_CURSOR_BO != 0 {
                    if c.handle == 0 {
                        r == IoctlDecision::ForwardCursor(*c)
                    } else {
                        r == IoctlDecision::ForwardCursor(CursorRequest {
                            handle: old(self).spec_surface_handle(),
                            width: CURSOR_DISPLAY_SIZE,
                            height: CURSOR_DISPLAY_SIZE,
                            ..*c
                        })
                    }
                } else {
                    r == IoctlDecision::ForwardCursor(*c)
                }
            }),
    {
        self.observe_request(fd, request);
        if !(request == DRM_IOCTL_MODE_CURSOR || request == DRM_IOCTL_MODE_CURSOR2) {
            return IoctlDecision::ForwardUnchanged;
        }
        let handle = match &self.surface {
            Some(s) => s.handle,
            None => {
                return IoctlDecision::ReturnZero;
            },
        };
        match arg {
            None => IoctlDecision::ReturnZero,
            Some(c) => {
                if c.flags & DRM_MODE_CURSOR_BO != 0 {
                    if c.handle == 0 {
                        IoctlDecision::ForwardCursor(*c)
                    } else {
                        IoctlDecision::ForwardCursor(CursorRequest {
                            handle,
                            width: CURSOR_DISPLAY_SIZE,
                            height: CURSOR_DISPLAY_SIZE,
                            ..*c
                        })
                    }
                } else {
                    IoctlDecision::ForwardCursor(*c)
                }
            },
        }
    }

    /// Decision for the basic legacy cursor-set entry point: a hide
    /// request is forwarded unchanged; a show substitutes the owned
    /// buffer, the fixed display size, and the render hotspot.
    pub fn on_set_cursor(&self, crtc_id: u32, bo_handle: u32) -> (r: SetCursorDecision)
        requires
            self.wf(),
        ensures
            bo_handle == 0 ==> r == SetCursorDecision::Forward(spec_hide_request(crtc_id)),
            bo_handle != 0 && self.surface is None ==> r is ReturnZero,
            bo_handle != 0 && self.surface is Some ==> r == SetCursorDecision::Forward(CursorRequest {
                flags: DRM_MODE_CURSOR_BO,
                crtc_id,
                x: 0,
                y: 0,
                width: CURSOR_DISPLAY_SIZE,
                height: CURSOR_DISPLAY_SIZE,
                handle: self.spec_surface_handle(),
                hot_x: self.render_hot_x,
                hot_y: self.render_hot_y,
            }),
    {
        if bo_handle == 0 {
            return SetCursorDecision::Forward(CursorRequest {
                flags: DRM_MODE_CURSOR_BO,
                crtc_id,
                x: 0,
                y: 0,
                width: 0,
                height: 0,
                handle: 0,
                hot_x: 0,
                hot_y: 0,
            });
        }
        match &self.surface {
            None => SetCursorDecision::ReturnZero,
            Some(s) => SetCursorDecision::Forward(CursorRequest {
                flags: DRM_MODE_CURSOR_BO,
                crtc_id,
                x: 0,
                y: 0,
                width: CURSOR_DISPLAY_SIZE,
                height: CURSOR_DISPLAY_SIZE,
                handle: s.handle,
                hot_x: self.render_hot_x,
                hot_y: self.render_hot_y,
            }),
        }
    }

    /// Decision for the extended legacy cursor-set entry point.  A hide
    /// request drives the hide signal: with fade-out enabled nothing is
    /// forwarded yet and the per-move fade steps take over; otherwise the
    /// hide is forwarded at once.  A show resets the cursor to visible and
    /// full alpha, combines the caller's hotspot with the render hotspot
    /// (saturating), smooths it, and forwards the owned buffer under the
    /// fixed display size.
    pub fn on_set_cursor2(&mut self, crtc_id: u32, bo_handle: u32, hot_x: i32, hot_y: i32) -> (r: SetCursorDecision)
        requires
            old(self).wf(),
        ensures
            final(self).wf(),
            final(self).config == old(self).config,
            final(self).registry.entries@ == old(self).registry.entries@,
            final(self).surface == old(self).surface,
            final(self).drm_fd == old(self).drm_fd,
            final(self).render_hot_x == old(self).render_hot_x,
            final(self).render_hot_y == old(self).render_hot_y,
            bo_handle == 0 && old(self).config.fade_enabled ==> final(self).status.state is FadingOut
                && r is ReturnZero
                && final(self).status.alpha == old(self).status.alpha,
            bo_handle == 0 && !old(self).config.fade_enabled ==> final(self).status.state is Hidden
                && r == SetCursorDecision::Forward(spec_hide_request(crtc_id)),
            bo_handle != 0 ==> final(self).status.state is Visible && final(self).status.alpha == ALPHA_FULL,
            bo_handle != 0 && old(self).surface is None ==> r is ReturnZero,
            bo_handle != 0 && old(self).surface is Some ==> {
                let raw_x = sat_add_i32(hot_x as int, old(self).render_hot_x as int);
                let raw_y = sat_add_i32(hot_y as int, old(self).render_hot_y as int);
                &&& final(self).status.hotspot_initialized
                &&& !old(self).status.hotspot_initialized
                    ==> final(self).status.applied_hot_x == raw_x
                        && final(self).status.applied_hot_y == raw_y
                &&& (old(self).status.hotspot_initialized && old(self).config.hotspot_smoothing
                    && (crate::state::abs_diff(raw_x, old(self).status.applied_hot_x as int)
                        > old(self).config.hotspot_threshold
                        || crate::state::abs_diff(raw_y, old(self).status.applied_hot_y as int)
                            > old(self).config.hotspot_threshold))
                    ==> final(self).status.applied_hot_x == crate::state::spec_smoothed(
                        old(self).status.applied_hot_x as int, raw_x)
                        && final(self).status.applied_hot_y == crate::state::spec_smoothed(
                            old(self).status.applied_hot_y as int, raw_y)
                &&& (old(self).status.hotspot_initialized && (!old(self).config.hotspot_smoothing
                    || (crate::state::abs_diff(raw_x, old(self).status.applied_hot_x as int)
                        <= old(self).config.hotspot_threshold
                        && crate::state::abs_diff(raw_y, old(self).status.applied_hot_y as int)
                            <= old(self).config.hotspot_threshold)))
                    ==> final(self).status.applied_hot_x == raw_x
                        && final(self).status.applied_hot_y == raw_y
                &&& r == SetCursorDecision::Forward(CursorRequest {
                    flags: DRM_MODE_CURSOR_BO,
                    crtc_id,
                    x: 0,
                    y: 0,
                    width: CURSOR_DISPLAY_SIZE,
                    height: CURSOR_DISPLAY_SIZE,
                    handle: old(self).spec_surface_handle(),
                    hot_x: final(self).status.applied_hot_x,
                    hot_y: final(self).status.applied_hot_y,
                })
            },
    {
        if bo_handle == 0 {
            let act = self.status.on_hide_signal(self.config.fade_enabled);
            return match act {
                HideAction::KeepPresenting => SetCursorDecision::ReturnZero,
                HideAction::ForwardHide => SetCursorDecision::Forward(CursorRequest {
                    flags: DRM_MODE_CURSOR_BO,
                    crtc_id,
                    x: 0,
                    y: 0,
                    width: 0,
                    height: 0,
                    handle: 0,
                    hot_x: 0,
                    hot_y: 0,
                }),
            };
        }
        self.status.on_show_signal(false);
        let handle = match &self.surface {
            Some(s) => s.handle,
            None => {
                return SetCursorDecision::ReturnZero;
            },
        };
        let raw_x = sat_add(hot_x, self.render_hot_x);
        let raw_y = sat_add(hot_y, self.render_hot_y);
        self.status.apply_hotspot(raw_x, raw_y, self.config.hotspot_smoothing, self.config.hotspot_threshold);
        SetCursorDecision::Forward(CursorRequest {
            flags: DRM_MODE_CURSOR_BO,
            crtc_id,
            x: 0,
            y: 0,
            width: CURSOR_DISPLAY_SIZE,
            height: CURSOR_DISPLAY_SIZE,
            handle,
            hot_x: self.status.applied_hot_x,
            hot_y: self.status.applied_hot_y,
        })
    }

    /// Decision for the cursor-move entry point: records the screen
    /// position; while a fade-out is in progress each move doubles as a
    /// fade tick — alpha drops one step, the frame is re-rendered and
    /// re-faded, and once alpha reaches zero the real hide request that
    /// was withheld is finally forwarded.
    pub fn on_move_cursor(&mut self, crtc_id: u32, x: i32, y: i32) -> (r: MoveDecision)
        requires
            old(self).wf(),
        ensures
            final(self).wf(),
            final(self).config == old(self).config,
            final(self).registry.entries@ == old(self).registry.entries@,
            final(self).surface == old(self).surface,
            final(self).drm_fd == old(self).drm_fd,
            final(self).screen_x == x,
            final(self).screen_y == y,
            !(old(self).status.state is FadingOut && old(self).status.alpha > 0)
                ==> r == MoveDecision::ForwardMove(CursorRequest {
                    flags: DRM_MODE_CURSOR_MOVE,
                    crtc_id,
                    x,
                    y,
                    width: 0,
                    height: 0,
                    handle: 0,
                    hot_x: 0,
                    hot_y: 0,
                }) && final(self).status == old(self).status,
            (old(self).status.state is FadingOut && old(self).status.alpha > 0)
                ==> final(self).status.alpha == fade_out_step(old(self).status.alpha, old(self).config.fade_speed),
            (old(self).status.state is FadingOut && old(self).status.alpha > 0
                && fade_out_step(old(self).status.alpha, old(self).config.fade_speed) == 0)
                ==> final(self).status.state is Hidden && r == MoveDecision::ForwardHide(spec_hide_request(crtc_id)),
            (old(self).status.state is FadingOut && old(self).status.alpha > 0
                && fade_out_step(old(self).status.alpha, old(self).config.fade_speed) != 0)
                ==> final(self).status.state is FadingOut
                    && r == MoveDecision::FadeFrame(
                        CursorRequest {
                            flags: DRM_MODE_CURSOR_BO | DRM_MODE_CURSOR_MOVE,
                            crtc_id,
                            x,
                            y,
                            width: CURSOR_DISPLAY_SIZE,
                            height: CURSOR_DISPLAY_SIZE,
                            handle: old(self).spec_surface_handle(),
                            hot_x: old(self).status.applied_hot_x,
                            hot_y: old(self).status.applied_hot_y,
                        },
                        fade_out_step(old(self).status.alpha, old(self).config.fade_speed),
                    ),
    {
        self.screen_x = x;
        self.screen_y = y;
        let is_fading = matches!(self.status.state, VisualState::FadingOut);
        if is_fading && self.status.alpha > 0 {
            let step = self.config.fade_speed;
            self.status.fade_out_tick(step);
            if self.status.alpha == 0 {
                return MoveDecision::ForwardHide(CursorRequest {
                    flags: DRM_MODE_CURSOR_BO,
                    crtc_id,
                    x: 0,
                    y: 0,
                    width: 0,
                    height: 0,
                    handle: 0,
                    hot_x: 0,
                    hot_y: 0,
                });
            }
            let handle = match &self.surface {
                Some(s) => s.handle,
                None => 0,
            };
            return MoveDecision::FadeFrame(
                CursorRequest {
                    flags: DRM_MODE_CURSOR_BO | DRM_MODE_CURSOR_MOVE,
                    crtc_id,
                    x,
                    y,
                    width: CURSOR_DISPLAY_SIZE,
                    height: CURSOR_DISPLAY_SIZE,
                    handle,
                    hot_x: self.status.applied_hot_x,
                    hot_y: self.status.applied_hot_y,
                },
                self.status.alpha,
            );
        }
        MoveDecision::ForwardMove(CursorRequest {
            flags: DRM_MODE_CURSOR_MOVE,
            crtc_id,
            x,
            y,
            width: 0,
            height: 0,
            handle: 0,
            hot_x: 0,
            hot_y: 0,
        })
    }

    /// Classification step for the atomic path: an object never seen
    /// before is classified from its scanned property list; a known
    /// cursor plane answers from the cache without any scan.
    pub fn try_detect_cursor_plane(&mut self, object_id: u32, props: &Vec<PlaneProp>) -> (r: bool)
        requires
            old(self).wf(),
        ensures
            final(self).wf(),
            final(self).status == old(self).status,
            final(self).config == old(self).config,
            final(self).surface == old(self).surface,
            final(self).drm_fd == old(self).drm_fd,
            old(self).registry.spec_contains(object_id)
                ==> r && final(self).registry.entries@ == old(self).registry.entries@,
            !old(self).registry.spec_contains(object_id) ==> r == scan_props(props@).is_cursor,
            (!old(self).registry.spec_contains(object_id) && !scan_props(props@).is_cursor)
                ==> final(self).registry.entries@ == old(self).registry.entries@,
            (!old(self).registry.spec_contains(object_id) && scan_props(props@).is_cursor) ==> {
                if old(self).registry.entries@.len() < PLANE_CAPACITY {
                    final(self).registry.entries@ == old(self).registry.entries@.push(
                        merge_entry(blank_entry(object_id), scan_props(props@)))
                } else {
                    final(self).registry.entries@ == old(self).registry.entries@
                }
            },
    {
        self.registry.try_detect_cursor_plane(object_id, props)
    }

    /// Decision for the atomic add-property entry point on the properties
    /// of a registered cursor plane.  The framebuffer property carries the
    /// hide/show protocol: value zero is a hide — forwarded as zero when
    /// fade-out is disabled, otherwise replaced by the owned framebuffer
    /// while the fade-out task runs; any other value is a show and is
    /// replaced by the owned framebuffer.  Source and destination size
    /// properties always present the fixed display size.  Properties of
    /// unregistered planes, and untracked properties, pass unchanged.
    pub fn on_atomic_property(&mut self, object_id: u32, property_id: u32, value: u64) -> (r: AtomicDecision)
        requires
            old(self).wf(),
        ensures
            final(self).wf(),
            final(self).config == old(self).config,
            final(self).registry.entries@ == old(self).registry.entries@,
            final(self).surface == old(self).surface,
            final(self).drm_fd == old(self).drm_fd,
            match old(self).spec_entry_for(object_id) {
                None => r == (AtomicDecision {
                    forward_value: value,
                    start_fade_out_task: false,
                    start_fade_in_task: false,
                }) && final(self).status == old(self).status,
                Some(e) => {
                    if e.fb_prop != 0 && property_id == e.fb_prop {
                        if value == 0 {
                            &&& !r.start_fade_in_task
                            &&& old(self).config.fade_enabled ==> {
                                &&& final(self).status.state is FadingOut
                                &&& final(self).status.alpha == old(self).status.alpha
                                &&& r.forward_value == (if old(self).spec_surface_fb() != 0 { old(self).spec_surface_fb() as u64 } else { 0u64 })
                                &&& r.start_fade_out_task == (!(old(self).status.state is FadingOut)
                                    && !old(self).status.task_running)
                                &&& final(self).status.task_running == (old(self).status.task_running || r.start_fade_out_task)
                            }
                            &&& !old(self).config.fade_enabled ==> {
                                &&& final(self).status.state is Hidden
                                &&& r.forward_value == 0
                                &&& !r.start_fade_out_task
                                &&& final(self).status.task_running == old(self).status.task_running
                            }
                        } else {
                            &&& !r.start_fade_out_task
                            &&& r.forward_value == (if old(self).spec_surface_fb() != 0 { old(self).spec_surface_fb() as u64 } else { value })
                            &&& r.start_fade_in_task == (old(self).config.fade_in_enabled
                                && old(self).status.alpha < ALPHA_FULL
                                && !(old(self).status.state is FadingIn)
                                && !old(self).status.task_running)
                            &&& (old(self).config.fade_in_enabled && old(self).status.alpha < ALPHA_FULL
                                && !(old(self).status.state is FadingIn))
                                ==> final(self).status.state is FadingIn
                                    && final(self).status.alpha == FADE_IN_START_ALPHA
                            &&& !(old(self).config.fade_in_enabled && old(self).status.alpha < ALPHA_FULL)
                                ==> final(self).status.state is Visible
                                    && final(self).status.alpha == ALPHA_FULL
                            &&& final(self).status.task_running == (old(self).status.task_running || r.start_fade_in_task)
                        }
                    } else if e.src_w_prop != 0 && property_id == e.src_w_prop {
                        r == (AtomicDecision {
                            forward_value: ((CURSOR_DISPLAY_SIZE as u64) * 0x10000) as u64,
                            start_fade_out_task: false,
                            start_fade_in_task: false,
                        }) && final(self).status == old(self).status
                    } else if e.src_h_prop != 0 && property_id == e.src_h_prop {
                        r == (AtomicDecision {
                            forward_value: ((CURSOR_DISPLAY_SIZE as u64) * 0x10000) as u64,
                            start_fade_out_task: false,
                            start_fade_in_task: false,
                        }) && final(self).status == old(self).status
                    } else if e.crtc_w_prop != 0 && property_id == e.crtc_w_prop {
                        r == (AtomicDecision {
                            forward_value: CURSOR_DISPLAY_SIZE as u64,
                            start_fade_out_task: false,
                            start_fade_in_task: false,
                        }) && final(self).status == old(self).status
                    } else if e.crtc_h_prop != 0 && property_id == e.crtc_h_prop {
                        r == (AtomicDecision {
                            forward_value: CURSOR_DISPLAY_SIZE as u64,
                            start_fade_out_task: false,
                            start_fade_in_task: false,
                        }) && final(self).status == old(self).status
                    } else {
                        r == (AtomicDecision {
                            forward_value: value,
                            start_fade_out_task: false,
                            start_fade_in_task: false,
                        }) && final(self).status == old(self).status
                    }
                },
            },
    {
        let idx = match self.registry.get_cursor_plane_index(object_id) {
            Some(i) => i,
            None => {
                return AtomicDecision {
                    forward_value: value,
                    start_fade_out_task: false,
                    start_fade_in_task: false,
                };
            },
        };
        let e = self.registry.entries[idx];
        let our_fb = match &self.surface {
            Some(s) => s.fb_id,
            None => 0,
        };
        if e.fb_prop != 0 && property_id == e.fb_prop {
            if value == 0 {
                let was_fading_out = matches!(self.status.state, VisualState::FadingOut);
                let act = self.status.on_hide_signal(self.config.fade_enabled);
                match act {
                    HideAction::KeepPresenting => {
                        let start = if !was_fading_out {
                            self.status.begin_fade_task()
                        } else {
                            false
                        };
                        AtomicDecision {
                            forward_value: if our_fb != 0 { our_fb as u64 } else { 0 },
                            start_fade_out_task: start,
                            start_fade_in_task: false,
                        }
                    },
                    HideAction::ForwardHide => AtomicDecision {
                        forward_value: 0,
                        start_fade_out_task: false,
                        start_fade_in_task: false,
                    },
                }
            } else {
                let wants_fade_in = self.status.on_show_signal(self.config.fade_in_enabled);
                let start = if wants_fade_in {
                    self.status.begin_fade_task()
                } else {
                    false
                };
                AtomicDecision {
                    forward_value: if our_fb != 0 { our_fb as u64 } else { value },
                    start_fade_out_task: false,
                    start_fade_in_task: start,
                }
            }
        } else if e.src_w_prop != 0 && property_id == e.src_w_prop {
            AtomicDecision {
                forward_value: (CURSOR_DISPLAY_SIZE as u64) * 0x10000,
                start_fade_out_task: false,
                start_fade_in_task: false,
            }
        } else if e.src_h_prop != 0 && property_id == e.src_h_prop {
            AtomicDecision {
                forward_value: (CURSOR_DISPLAY_SIZE as u64) * 0x10000,
                start_fade_out_task: false,
                start_fade_in_task: false,
            }
        } else if e.crtc_w_prop != 0 && property_id == e.crtc_w_prop {
            AtomicDecision {
                forward_value: CURSOR_DISPLAY_SIZE as u64,
                start_fade_out_task: false,
                start_fade_in_task: false,
            }
        } else if e.crtc_h_prop != 0 && property_id == e.crtc_h_prop {
            AtomicDecision {
                forward_value: CURSOR_DISPLAY_SIZE as u64,
                start_fade_out_task: false,
                start_fade_in_task: false,
            }
        } else {
            AtomicDecision {
                forward_value: value,
                start_fade_out_task: false,
                start_fade_in_task: false,
            }
        }
    }
}

/// Saturating addition of two 32-bit coordinates.
pub fn sat_add(a: i32, b: i32) -> (r: i32)
    ensures
        r == sat_add_i32(a as int, b as int),
{
    let s: i64 = (a as i64) + (b as i64);
    if s > i32::MAX as i64 {
        i32::MAX
    } else if s < i32::MIN as i64 {
        i32::MIN
    } else {
        s as i32
    }
}

} // verus!
