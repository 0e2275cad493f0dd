//! Verified core of a DRM cursor interposition layer.
//!
//! The crate tracks driver-level cursor resources (legacy cursor calls and
//! atomic-modeset plane properties), decides how each intercepted driver call
//! is rewritten, and rasterizes a layered vector cursor into an owned pixel
//! buffer.  All decision logic and pixel arithmetic lives here, verified;
//! the thin unverified shell around it performs the actual driver calls and
//! hands their results back as plain values.

use vstd::prelude::*;

pub mod config;
pub mod geometry;
pub mod intercept;
pub mod layers;
pub mod parse;
pub mod pixel;
pub mod plane;
pub mod raster;
pub mod render;
pub mod shapes;
pub mod state;

verus! {

/// Plane type value the driver uses for cursor planes.
pub const DRM_PLANE_TYPE_CURSOR: u64 = 2;

/// Side length of the displayed cursor region, in pixels.  The backing
/// buffer is larger; every display-facing width/height field presents this
/// fixed size.
pub const CURSOR_DISPLAY_SIZE: u32 = 64;

/// Side length of the allocated backing buffer, in pixels.
pub const CURSOR_BUFFER_SIZE: u32 = 256;

/// Built-in default cursor design: a simple elegant arrow with a dark
/// fill and a subtle gray outline, in the multi-layer description form.
pub const EMBEDDED_CURSOR_JSON: &'static str = r##"{"type":"default","layers":[{"points":[{"x":0,"y":0},{"x":3,"y":18},{"x":10,"y":17.5},{"x":12.5,"y":15.5},{"x":14.5,"y":10}],"fill":"#011023","fillAlpha":91,"outline":"#948f8f","outlineWidth":2,"outlineAlpha":100,"shadow":"#000000","shadowAlpha":33,"shadowOffset":3,"blur":0,"blurOutline":false,"passthroughTo":-1}],"settings":{"scale":1.5}}"##;

} // verus!
