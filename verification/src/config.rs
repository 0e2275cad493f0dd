//! Runtime configuration consumed by the interception and rendering paths.
//! The values arrive from an external settings source; every setter clamps
//! its input to the documented range, so a well-formed configuration can be
//! built from arbitrary parsed values.

use vstd::prelude::*;

verus! {

/// Configuration of fades, frost, hotspot smoothing and scale.
#[derive(Clone, Copy, PartialEq, Eq, Structural, Debug)]
pub struct Config {
    /// Fade the cursor out when it hides.
    pub fade_enabled: bool,
    /// Fade the cursor in when it appears.
    pub fade_in_enabled: bool,
    /// Alpha dropped or gained per animation tick, 1 ..= 255.
    pub fade_speed: u32,
    /// Frosted-glass intensity percentage, 0 ..= 100.
    pub frost_intensity: u32,
    /// Smooth hotspot transitions between cursor types.
    pub hotspot_smoothing: bool,
    /// Displacement beyond which smoothing damps a hotspot change, 0 ..= 50.
    pub hotspot_threshold: i32,
    /// Cursor size multiplier in hundredths, 50 ..= 1000.
    pub cursor_scale_hundredths: u32,
    /// Outline thickness override in tenths, 0 ..= 50; zero means the
    /// cursor's own default.
    pub outline_thickness_tenths: u32,
}

impl Config {
    pub open spec fn wf(&self) -> bool {
        &&& 1 <= self.fade_speed <= 255
        &&& self.frost_intensity <= 100
        &&& 0 <= self.hotspot_threshold <= 50
        &&& 50 <= self.cursor_scale_hundredths <= 1000
        &&& self.outline_thickness_tenths <= 50
    }

    /// The built-in defaults the process starts with.
    pub fn new() -> (r: Config)
        ensures
            r.wf(),
            !r.fade_enabled,
            !r.fade_in_enabled,
            r.fade_speed == 30,
            r.frost_intensity == 100,
            r.hotspot_smoothing,
            r.hotspot_threshold == 5,
            r.cursor_scale_hundredths == 150,
            r.outline_thickness_tenths == 0,
    {
        Config {
            fade_enabled: false,
            fade_in_enabled: false,
            fade_speed: 30,
            frost_intensity: 100,
            hotspot_smoothing: true,
            hotspot_threshold: 5,
            cursor_scale_hundredths: 150,
            outline_thickness_tenths: 0,
        }
    }

    /// Sets the fade speed, clamped to 1 ..= 255.
    pub fn set_fade_speed(&mut self, v: u32)
        ensures
            *final(self) == (Config { fade_speed: clamp_u32(v, 1, 255), ..*old(self) }),
    {
        self.fade_speed = if v < 1 { 1 } else if v > 255 { 255 } else { v };
    }

    /// Sets the frost intensity, clamped to 0 ..= 100.
    pub fn set_frost_intensity(&mut self, v: u32)
        ensures
            *final(self) == (Config { frost_intensity: clamp_u32(v, 0, 100), ..*old(self) }),
    {
        self.frost_intensity = if v > 100 { 100 } else { v };
    }

    /// Sets the hotspot threshold, clamped to 0 ..= 50.
    pub fn set_hotspot_threshold(&mut self, v: i32)
        ensures
            *final(self) == (Config { hotspot_threshold: clamp_i32(v, 0, 50), ..*old(self) }),
    {
        self.hotspot_threshold = if v < 0 { 0 } else if v > 50 { 50 } else { v };
    }

    /// Sets the cursor scale in hundredths, clamped to 50 ..= 1000.
    pub fn set_cursor_scale_hundredths(&mut self, v: u32)
        ensures
            *final(self) == (Config { cursor_scale_hundredths: clamp_u32(v, 50, 1000), ..*old(self) }),
    {
        self.cursor_scale_hundredths = if v < 50 { 50 } else if v > 1000 { 1000 } else { v };
    }

    /// Sets the outline thickness override in tenths, clamped to 0 ..= 50.
    pub fn set_outline_thickness_tenths(&mut self, v: u32)
        ensures
            *final(self) == (Config { outline_thickness_tenths: clamp_u32(v, 0, 50), ..*old(self) }),
    {
        self.outline_thickness_tenths = if v > 50 { 50 } else { v };
    }
}

/// `v` clamped into `lo ..= hi`.
pub open spec fn clamp_u32(v: u32, lo: u32, hi: u32) -> u32 {
    if v < lo {
        lo
    } else if v > hi {
        hi
    } else {
        v
    }
}

/// `v` clamped into `lo ..= hi`.
pub open spec fn clamp_i32(v: i32, lo: i32, hi: i32) -> i32 {
    if v < lo {
        lo
    } else if v > hi {
        hi
    } else {
        v
    }
}

} // verus!
