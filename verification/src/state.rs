//! Cursor visibility and animation state: the Hidden / Visible / FadingOut /
//! FadingIn machine driven by intercepted hide and show signals, the alpha
//! progression of fades, and hotspot smoothing.

use vstd::prelude::*;

verus! {

/// Full composite opacity.
pub const ALPHA_FULL: u32 = 255;

/// Alpha a fade-in starts from.
pub const FADE_IN_START_ALPHA: u32 = 10;

/// Visibility of the cursor surface.
#[derive(Clone, Copy, PartialEq, Eq, Structural, Debug)]
pub enum VisualState {
    Hidden,
    Visible,
    FadingOut,
    FadingIn,
}

/// What the interception path must do with a hide request.
#[derive(Clone, Copy, PartialEq, Eq, Structural, Debug)]
pub enum HideAction {
    /// Forward the real hide call unchanged: the cursor disappears now.
    ForwardHide,
    /// Keep presenting the owned surface while the fade-out animation runs.
    KeepPresenting,
}

/// Mutable visual state of the cursor, updated only by the interception
/// path and the animation tick.
#[derive(Clone, Copy, PartialEq, Eq, Structural, Debug)]
pub struct CursorStatus {
    pub state: VisualState,
    /// Composite alpha, 0 (transparent) ..= 255 (opaque).
    pub alpha: u32,
    /// Whether a background animation task is alive.  At most one exists;
    /// a fade requested while one runs is refused rather than queued.
    pub task_running: bool,
    /// Hotspot offset last handed to the driver.
    pub applied_hot_x: i32,
    pub applied_hot_y: i32,
    /// Whether any hotspot has been applied yet; the first one observed is
    /// always applied exactly.
    pub hotspot_initialized: bool,
}

impl CursorStatus {
    pub open spec fn wf(&self) -> bool {
        self.alpha <= ALPHA_FULL
    }

    /// Initial state: hidden, opaque alpha, no task, no hotspot baseline.
    pub fn new() -> (r: CursorStatus)
        ensures
            r.wf(),
            r.state is Hidden,
            r.alpha == ALPHA_FULL,
            !r.task_running,
            !r.hotspot_initialized,
    {
        CursorStatus {
            state: VisualState::Hidden,
            alpha: ALPHA_FULL,
            task_running: false,
            applied_hot_x: 0,
            applied_hot_y: 0,
            hotspot_initialized: false,
        }
    }

    /// Hide signal: with fade-out disabled the cursor hides at once and the
    /// real hide request is forwarded; with fade-out enabled the state
    /// becomes `FadingOut`, the hide is not forwarded yet, and the owned
    /// surface keeps being presented while the animation runs.
    pub fn on_hide_signal(&mut self, fade_enabled: bool) -> (r: HideAction)
        requires
            old(self).wf(),
        ensures
            final(self).wf(),
            !fade_enabled ==> final(self).state is Hidden && r is ForwardHide,
            fade_enabled ==> final(self).state is FadingOut && r is KeepPresenting,
            final(self).alpha == old(self).alpha,
            final(self).task_running == old(self).task_running,
            final(self).applied_hot_x == old(self).applied_hot_x,
            final(self).applied_hot_y == old(self).applied_hot_y,
            final(self).hotspot_initialized == old(self).hotspot_initialized,
    {
        if fade_enabled {
            self.state = VisualState::FadingOut;
            HideAction::KeepPresenting
        } else {
            self.state = VisualState::Hidden;
            HideAction::ForwardHide
        }
    }

    /// Show signal: cancels any fade-out in progress, resets alpha to full
    /// and the state to `Visible` — unless fade-in is enabled and alpha is
    /// below full, in which case the state becomes `FadingIn` and an
    /// animation task must raise alpha to full.  Returns whether such a
    /// task should start.
    pub fn on_show_signal(&mut self, fade_in_enabled: bool) -> (start_fade_in: bool)
        requires
            old(self).wf(),
        ensures
            final(self).wf(),
            start_fade_in == (fade_in_enabled && old(self).alpha < ALPHA_FULL && !(old(self).state is FadingIn)),
            start_fade_in ==> final(self).state is FadingIn && final(self).alpha == FADE_IN_START_ALPHA,
            !start_fade_in && fade_in_enabled && old(self).state is FadingIn && old(self).alpha < ALPHA_FULL
                ==> *final(self) == *old(self),
            !(fade_in_enabled && old(self).alpha < ALPHA_FULL)
                ==> final(self).state is Visible && final(self).alpha == ALPHA_FULL,
            final(self).task_running == old(self).task_running,
            final(self).applied_hot_x == old(self).applied_hot_x,
            final(self).applied_hot_y == old(self).applied_hot_y,
            final(self).hotspot_initialized == old(self).hotspot_initialized,
    {
        if fade_in_enabled && self.alpha < ALPHA_FULL {
            if matches!(self.state, VisualState::FadingIn) {
                false
            } else {
                self.state = VisualState::FadingIn;
                self.alpha = FADE_IN_START_ALPHA;
                true
            }
        } else {
            self.state = VisualState::Visible;
            self.alpha = ALPHA_FULL;
            false
        }
    }

    /// Claims the single animation-task slot.  Returns false — the fade is
    /// refused, not queued — if a task is already alive.
    pub fn begin_fade_task(&mut self) -> (started: bool)
        ensures
            started == !old(self).task_running,
            final(self).task_running,
            *final(self) == (CursorStatus { task_running: true, ..*old(self) }),
    {
        let was_running = self.task_running;
        self.task_running = true;
        !was_running
    }

    /// Releases the animation-task slot when a task finishes or is canceled.
    pub fn end_fade_task(&mut self)
        ensures
            *final(self) == (CursorStatus { task_running: false, ..*old(self) }),
    {
        self.task_running = false;
    }

    /// One tick of the fade-out animation: alpha drops by `step`, clamped
    /// at zero; when it reaches zero the fade is over, the state becomes
    /// `Hidden`, and the caller forwards the real hide request.  A tick on
    /// a state no longer `FadingOut` is a cancellation: nothing changes and
    /// the tick reports the animation done.
    pub fn fade_out_tick(&mut self, step: u32) -> (done: bool)
        requires
            old(self).wf(),
        ensures
            final(self).wf(),
            !(old(self).state is FadingOut) ==> *final(self) == *old(self) && done,
            old(self).state is FadingOut ==> final(self).alpha == fade_out_step(old(self).alpha, step),
            old(self).state is FadingOut && fade_out_step(old(self).alpha, step) == 0
                ==> final(self).state is Hidden && done,
            old(self).state is FadingOut && fade_out_step(old(self).alpha, step) != 0
                ==> final(self).state is FadingOut && !done,
            old(self).state is FadingOut ==> final(self).alpha <= old(self).alpha,
            final(self).task_running == old(self).task_running,
            final(self).applied_hot_x == old(self).applied_hot_x,
            final(self).applied_hot_y == old(self).applied_hot_y,
            final(self).hotspot_initialized == old(self).hotspot_initialized,
    {
        if !matches!(self.state, VisualState::FadingOut) {
            return true;
        }
        self.alpha = if self.alpha >= step {
            self.alpha - step
        } else {
            0
        };
        if self.alpha == 0 {
            self.state = VisualState::Hidden;
            true
        } else {
            false
        }
    }

    /// One tick of the fade-in animation: alpha rises by `step`, clamped at
    /// full; at full the state settles to `Visible`.  A tick on a state no
    /// longer `FadingIn` is a cancellation.
    pub fn fade_in_tick(&mut self, step: u32) -> (done: bool)
        requires
            old(self).wf(),
        ensures
            final(self).wf(),
            !(old(self).state is FadingIn) ==> *final(self) == *old(self) && done,
            old(self).state is FadingIn ==> final(self).alpha == fade_in_step(old(self).alpha, step),
            old(self).state is FadingIn && fade_in_step(old(self).alpha, step) == ALPHA_FULL
                ==> final(self).state is Visible && done,
            old(self).state is FadingIn && fade_in_step(old(self).alpha, step) != ALPHA_FULL
                ==> final(self).state is FadingIn && !done,
            old(self).state is FadingIn ==> final(self).alpha >= old(self).alpha,
            final(self).task_running == old(self).task_running,
            final(self).applied_hot_x == old(self).applied_hot_x,
            final(self).applied_hot_y == old(self).applied_hot_y,
            final(self).hotspot_initialized == old(self).hotspot_initialized,
    {
        if !matches!(self.state, VisualState::FadingIn) {
            return true;
        }
        self.alpha = if step <= ALPHA_FULL - self.alpha {
            self.alpha + step
        } else {
            ALPHA_FULL
        };
        if self.alpha == ALPHA_FULL {
            self.state = VisualState::Visible;
            true
        } else {
            false
        }
    }
}

/// Alpha after one fade-out tick: drops by `step`, clamped at zero.
pub open spec fn fade_out_step(alpha: u32, step: u32) -> u32 {
    if alpha >= step {
        (alpha - step) as u32
    } else {
        0
    }
}

/// Alpha after one fade-in tick: rises by `step`, clamped at full.
pub open spec fn fade_in_step(alpha: u32, step: u32) -> u32 {
    if alpha + step <= ALPHA_FULL {
        (alpha + step) as u32
    } else {
        ALPHA_FULL
    }
}

/// Alpha after `n` fade-out ticks.
pub open spec fn fade_out_after(alpha: u32, step: u32, n: nat) -> u32
    decreases n,
{
    if n == 0 {
        alpha
    } else {
        fade_out_after(fade_out_step(alpha, step), step, (n - 1) as nat)
    }
}

/// Alpha after `n` fade-in ticks.
pub open spec fn fade_in_after(alpha: u32, step: u32, n: nat) -> u32
    decreases n,
{
    if n == 0 {
        alpha
    } else {
        fade_in_after(fade_in_step(alpha, step), step, (n - 1) as nat)
    }
}

/// A fade-out never rises above its starting alpha.
pub proof fn lemma_fade_out_bounded(alpha: u32, step: u32, n: nat)
    ensures
        fade_out_after(alpha, step, n) <= alpha,
    decreases n,
{
    if n > 0 {
        lemma_fade_out_bounded(fade_out_step(alpha, step), step, (n - 1) as nat);
    }
}

/// Fade-out monotonicity: successive alpha samples never increase.
pub proof fn lemma_fade_out_monotone(alpha: u32, step: u32, m: nat, n: nat)
    requires
        m <= n,
    ensures
        fade_out_after(alpha, step, n) <= fade_out_after(alpha, step, m),
    decreases m,
{
    if m == 0 {
        lemma_fade_out_bounded(alpha, step, n);
    } else {
        lemma_fade_out_monotone(fade_out_step(alpha, step), step, (m - 1) as nat, (n - 1) as nat);
    }
}

/// Fade-out termination: the alpha samples reach exactly zero within a
/// number of ticks proportional to the starting alpha over the step size —
/// once `n * step` covers the starting alpha, the sample is zero.
pub proof fn lemma_fade_out_completes(alpha: u32, step: u32, n: nat)
    requires
        step >= 1,
        n * step >= alpha,
    ensures
        fade_out_after(alpha, step, n) == 0,
    decreases n,
{
    if n > 0 {
        assert((n - 1) * step == n * step - step && (n - 1) * step >= 0) by (nonlinear_arith)
            requires
                n >= 1,
        ;
        lemma_fade_out_completes(fade_out_step(alpha, step), step, (n - 1) as nat);
    } else {
        assert(n * step == 0) by (nonlinear_arith)
            requires
                n == 0,
        ;
    }
}

/// A fade-in never drops below its starting alpha.
pub proof fn lemma_fade_in_bounded(alpha: u32, step: u32, n: nat)
    ensures
        fade_in_after(alpha, step, n) >= if n == 0 || alpha <= ALPHA_FULL { alpha as int } else { ALPHA_FULL as int },
    decreases n,
{
    if n > 0 {
        lemma_fade_in_bounded(fade_in_step(alpha, step), step, (n - 1) as nat);
    }
}

/// Fade-in monotonicity: successive alpha samples never decrease.
pub proof fn lemma_fade_in_monotone(alpha: u32, step: u32, m: nat, n: nat)
    requires
        m <= n,
        alpha <= ALPHA_FULL,
    ensures
        fade_in_after(alpha, step, n) >= fade_in_after(alpha, step, m),
    decreases m,
{
    if m == 0 {
        lemma_fade_in_bounded(alpha, step, n);
    } else {
        lemma_fade_in_monotone(fade_in_step(alpha, step), step, (m - 1) as nat, (n - 1) as nat);
    }
}

/// Fade-in termination: the alpha samples reach exactly full opacity once
/// `n * step` covers the distance from the starting alpha to full.
pub proof fn lemma_fade_in_completes(alpha: u32, step: u32, n: nat)
    requires
        step >= 1,
        alpha <= ALPHA_FULL,
        n * step >= ALPHA_FULL - alpha,
    ensures
        fade_in_after(alpha, step, n) == ALPHA_FULL,
    decreases n,
{
    if n > 0 {
        assert((n - 1) * step == n * step - step && (n - 1) * step >= 0) by (nonlinear_arith)
            requires
                n >= 1,
        ;
        lemma_fade_in_completes(fade_in_step(alpha, step), step, (n - 1) as nat);
    } else {
        assert(n * step == 0) by (nonlinear_arith)
            requires
                n == 0,
        ;
    }
}

/// Truncating division by three, the damping applied to a large hotspot
/// displacement.
pub open spec fn third_toward_zero(d: int) -> int {
    if d >= 0 {
        d / 3
    } else {
        -((-d) / 3)
    }
}

/// Smoothed hotspot for one axis: the current value plus one third of the
/// displacement, truncated toward zero.
pub open spec fn spec_smoothed(cur: int, raw: int) -> int {
    cur + third_toward_zero(raw - cur)
}

/// One axis of hotspot smoothing.
fn smooth_axis(cur: i32, raw: i32) -> (r: i32)
    ensures
        r == spec_smoothed(cur as int, raw as int),
        cur <= raw ==> cur <= r <= raw,
        raw <= cur ==> raw <= r <= cur,
{
    let d: i64 = (raw as i64) - (cur as i64);
    let q: i64 = if d >= 0 {
        (((d as u64) / 3) as i64)
    } else {
        -((((-d) as u64) / 3) as i64)
    };
    ((cur as i64) + q) as i32
}

impl CursorStatus {
    /// Applies a newly computed raw hotspot.  The first hotspot observed
    /// becomes the baseline and is applied exactly.  Afterwards, with
    /// smoothing enabled, a displacement beyond the threshold in either
    /// axis is damped to one third per call; smaller displacements, and all
    /// displacements with smoothing disabled, apply the raw value directly.
    pub fn apply_hotspot(&mut self, raw_x: i32, raw_y: i32, smoothing: bool, threshold: i32)
        requires
            old(self).wf(),
            threshold >= 0,
        ensures
            final(self).wf(),
            final(self).hotspot_initialized,
            !old(self).hotspot_initialized ==> final(self).applied_hot_x == raw_x
                && final(self).applied_hot_y == raw_y,
            old(self).hotspot_initialized && smoothing
                && (abs_diff(raw_x as int, old(self).applied_hot_x as int) > threshold
                    || abs_diff(raw_y as int, old(self).applied_hot_y as int) > threshold)
                ==> final(self).applied_hot_x == spec_smoothed(old(self).applied_hot_x as int, raw_x as int)
                    && final(self).applied_hot_y == spec_smoothed(old(self).applied_hot_y as int, raw_y as int),
            old(self).hotspot_initialized && (!smoothing
                || (abs_diff(raw_x as int, old(self).applied_hot_x as int) <= threshold
                    && abs_diff(raw_y as int, old(self).applied_hot_y as int) <= threshold))
                ==> final(self).applied_hot_x == raw_x && final(self).applied_hot_y == raw_y,
            final(self).state == old(self).state,
            final(self).alpha == old(self).alpha,
            final(self).task_running == old(self).task_running,
    {
        if !self.hotspot_initialized {
            self.applied_hot_x = raw_x;
            self.applied_hot_y = raw_y;
            self.hotspot_initialized = true;
            return;
        }
        if smoothing {
            let cur_x = self.applied_hot_x;
            let cur_y = self.applied_hot_y;
            let dx: i64 = (raw_x as i64) - (cur_x as i64);
            let dy: i64 = (raw_y as i64) - (cur_y as i64);
            let adx: i64 = if dx >= 0 { dx } else { -dx };
            let ady: i64 = if dy >= 0 { dy } else { -dy };
            if adx > threshold as i64 || ady > threshold as i64 {
                self.applied_hot_x = smooth_axis(cur_x, raw_x);
                self.applied_hot_y = smooth_axis(cur_y, raw_y);
                return;
            }
        }
        self.applied_hot_x = raw_x;
        self.applied_hot_y = raw_y;
    }
}

/// Absolute displacement between two coordinates.
pub open spec fn abs_diff(a: int, b: int) -> int {
    if a >= b {
        a - b
    } else {
        b - a
    }
}

} // verus!
