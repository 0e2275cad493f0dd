//! Cursor designs: the selectable cursor types, their numeric codes and
//! name aliases, and the built-in point tables each design draws.

use vstd::prelude::*;

use crate::geometry::{FxPoint, COORD_LIMIT, points_bounded};
use crate::parse::bytes_eq;

verus! {

/// The cursor designs an external signal can select.
#[derive(Clone, Copy, PartialEq, Eq, Structural, Debug)]
pub enum CursorType {
    Default,
    Pointer,
    Text,
    Crosshair,
    Wait,
    Grab,
    NotAllowed,
    Custom,
}

impl CursorType {
    /// Numeric code of a cursor type.
    pub open spec fn spec_code(self) -> u32 {
        match self {
            CursorType::Default => 0,
            CursorType::Pointer => 1,
            CursorType::Text => 2,
            CursorType::Crosshair => 3,
            CursorType::Wait => 4,
            CursorType::Grab => 5,
            CursorType::NotAllowed => 6,
            CursorType::Custom => 7,
        }
    }

    /// Numeric code of a cursor type, as it is stored and signaled.
    pub fn as_u32(self) -> (r: u32)
        ensures
            r == self.spec_code(),
    {
        match self {
            CursorType::Default => 0,
            CursorType::Pointer => 1,
            CursorType::Text => 2,
            CursorType::Crosshair => 3,
            CursorType::Wait => 4,
            CursorType::Grab => 5,
            CursorType::NotAllowed => 6,
            CursorType::Custom => 7,
        }
    }

    /// The cursor type a numeric code names; unknown codes fall back to
    /// the default design.
    pub fn from_u32(code: u32) -> (r: CursorType)
        ensures
            r.spec_code() == (if code <= 7 { code } else { 0 }),
    {
        match code {
            1 => CursorType::Pointer,
            2 => CursorType::Text,
            3 => CursorType::Crosshair,
            4 => CursorType::Wait,
            5 => CursorType::Grab,
            6 => CursorType::NotAllowed,
            7 => CursorType::Custom,
            _ => CursorType::Default,
        }
    }
}

/// The cursor type a lower-cased name selects; every unknown name selects
/// the default design.
pub open spec fn spec_cursor_type_from_name(n: Seq<u8>) -> CursorType {
    if n == seq![112u8, 111, 105, 110, 116, 101, 114] {
        CursorType::Pointer
    } else
    if n == seq![104u8, 97, 110, 100] {
        CursorType::Pointer
    } else
    if n == seq![116u8, 101, 120, 116] {
        CursorType::Text
    } else
    if n == seq![105u8, 98, 101, 97, 109] {
        CursorType::Text
    } else
    if n == seq![105u8, 45, 98, 101, 97, 109] {
        CursorType::Text
    } else
    if n == seq![99u8, 114, 111, 115, 115, 104, 97, 105, 114] {
        CursorType::Crosshair
    } else
    if n == seq![99u8, 114, 111, 115, 115] {
        CursorType::Crosshair
    } else
    if n == seq![119u8, 97, 105, 116] {
        CursorType::Wait
    } else
    if n == seq![108u8, 111, 97, 100, 105, 110, 103] {
        CursorType::Wait
    } else
    if n == seq![98u8, 117, 115, 121] {
        CursorType::Wait
    } else
    if n == seq![103u8, 114, 97, 98] {
        CursorType::Grab
    } else
    if n == seq![103u8, 114, 97, 98, 98, 105, 110, 103] {
        CursorType::Grab
    } else
    if n == seq![110u8, 111, 116, 45, 97, 108, 108, 111, 119, 101, 100] {
        CursorType::NotAllowed
    } else
    if n == seq![110u8, 111] {
        CursorType::NotAllowed
    } else
    if n == seq![102u8, 111, 114, 98, 105, 100, 100, 101, 110] {
        CursorType::NotAllowed
    } else
    if n == seq![99u8, 117, 115, 116, 111, 109] {
        CursorType::Custom
    } else {
        CursorType::Default
    }
}

/// Maps a lower-cased cursor-type name to its design.
pub fn cursor_type_from_name(name: &[u8]) -> (r: CursorType)
    ensures
        r == spec_cursor_type_from_name(name@),
{
    let w0: [u8; 7] = [112u8, 111, 105, 110, 116, 101, 114];
    let w1: [u8; 4] = [104u8, 97, 110, 100];
    let w2: [u8; 4] = [116u8, 101, 120, 116];
    let w3: [u8; 5] = [105u8, 98, 101, 97, 109];
    let w4: [u8; 6] = [105u8, 45, 98, 101, 97, 109];
    let w5: [u8; 9] = [99u8, 114, 111, 115, 115, 104, 97, 105, 114];
    let w6: [u8; 5] = [99u8, 114, 111, 115, 115];
    let w7: [u8; 4] = [119u8, 97, 105, 116];
    let w8: [u8; 7] = [108u8, 111, 97, 100, 105, 110, 103];
    let w9: [u8; 4] = [98u8, 117, 115, 121];
    let w10: [u8; 4] = [103u8, 114, 97, 98];
    let w11: [u8; 8] = [103u8, 114, 97, 98, 98, 105, 110, 103];
    let w12: [u8; 11] = [110u8, 111, 116, 45, 97, 108, 108, 111, 119, 101, 100];
    let w13: [u8; 2] = [110u8, 111];
    let w14: [u8; 9] = [102u8, 111, 114, 98, 105, 100, 100, 101, 110];
    let w15: [u8; 6] = [99u8, 117, 115, 116, 111, 109];
    proof { assert(w0@ =~= seq![112u8, 111, 105, 110, 116, 101, 114]); }
    proof { assert(w1@ =~= seq![104u8, 97, 110, 100]); }
    proof { assert(w2@ =~= seq![116u8, 101, 120, 116]); }
    proof { assert(w3@ =~= seq![105u8, 98, 101, 97, 109]); }
    proof { assert(w4@ =~= seq![105u8, 45, 98, 101, 97, 109]); }
    proof { assert(w5@ =~= seq![99u8, 114, 111, 115, 115, 104, 97, 105, 114]); }
    proof { assert(w6@ =~= seq![99u8, 114, 111, 115, 115]); }
    proof { assert(w7@ =~= seq![119u8, 97, 105, 116]); }
    proof { assert(w8@ =~= seq![108u8, 111, 97, 100, 105, 110, 103]); }
    proof { assert(w9@ =~= seq![98u8, 117, 115, 121]); }
    proof { assert(w10@ =~= seq![103u8, 114, 97, 98]); }
    proof { assert(w11@ =~= seq![103u8, 114, 97, 98, 98, 105, 110, 103]); }
    proof { assert(w12@ =~= seq![110u8, 111, 116, 45, 97, 108, 108, 111, 119, 101, 100]); }
    proof { assert(w13@ =~= seq![110u8, 111]); }
    proof { assert(w14@ =~= seq![102u8, 111, 114, 98, 105, 100, 100, 101, 110]); }
    proof { assert(w15@ =~= seq![99u8, 117, 115, 116, 111, 109]); }
    if bytes_eq(name, w0.as_slice()) {
        return CursorType::Pointer;
    }
    if bytes_eq(name, w1.as_slice()) {
        return CursorType::Pointer;
    }
    if bytes_eq(name, w2.as_slice()) {
        return CursorType::Text;
    }
    if bytes_eq(name, w3.as_slice()) {
        return CursorType::Text;
    }
    if bytes_eq(name, w4.as_slice()) {
        return CursorType::Text;
    }
    if bytes_eq(name, w5.as_slice()) {
        return CursorType::Crosshair;
    }
    if bytes_eq(name, w6.as_slice()) {
        return CursorType::Crosshair;
    }
    if bytes_eq(name, w7.as_slice()) {
        return CursorType::Wait;
    }
    if bytes_eq(name, w8.as_slice()) {
        return CursorType::Wait;
    }
    if bytes_eq(name, w9.as_slice()) {
        return CursorType::Wait;
    }
    if bytes_eq(name, w10.as_slice()) {
        return CursorType::Grab;
    }
    if bytes_eq(name, w11.as_slice()) {
        return CursorType::Grab;
    }
    if bytes_eq(name, w12.as_slice()) {
        return CursorType::NotAllowed;
    }
    if bytes_eq(name, w13.as_slice()) {
        return CursorType::NotAllowed;
    }
    if bytes_eq(name, w14.as_slice()) {
        return CursorType::NotAllowed;
    }
    if bytes_eq(name, w15.as_slice()) {
        return CursorType::Custom;
    }
    CursorType::Default
}

/// Pointer/hand cursor outline, in fixed-point units.
pub fn pointer_points() -> (r: Vec<FxPoint>)
    ensures
        r@.len() == 7,
        points_bounded(r@),
{
    let mut v: Vec<FxPoint> = Vec::new();
    v.push(FxPoint { x: 0, y: 0 });
    v.push(FxPoint { x: 0, y: 4096 });
    v.push(FxPoint { x: 1024, y: 3072 });
    v.push(FxPoint { x: 1536, y: 4608 });
    v.push(FxPoint { x: 2304, y: 4352 });
    v.push(FxPoint { x: 1792, y: 2816 });
    v.push(FxPoint { x: 3072, y: 2816 });
    proof {
        assert(points_bounded(v@)) by {
            assert(forall|i: int| 0 <= i < 7 ==> -COORD_LIMIT <= #[trigger] v@[i].x <= COORD_LIMIT && -COORD_LIMIT <= v@[i].y <= COORD_LIMIT);
        }
    }
    v
}

/// Text/I-beam cursor outline, in fixed-point units.
pub fn text_points() -> (r: Vec<FxPoint>)
    ensures
        r@.len() == 14,
        points_bounded(r@),
{
    let mut v: Vec<FxPoint> = Vec::new();
    v.push(FxPoint { x: 512, y: 0 });
    v.push(FxPoint { x: 1280, y: 0 });
    v.push(FxPoint { x: 1280, y: 256 });
    v.push(FxPoint { x: 1792, y: 768 });
    v.push(FxPoint { x: 1792, y: 4352 });
    v.push(FxPoint { x: 1280, y: 4864 });
    v.push(FxPoint { x: 1280, y: 5120 });
    v.push(FxPoint { x: 512, y: 5120 });
    v.push(FxPoint { x: 512, y: 4864 });
    v.push(FxPoint { x: 1280, y: 4864 });
    v.push(FxPoint { x: 1536, y: 4608 });
    v.push(FxPoint { x: 1536, y: 512 });
    v.push(FxPoint { x: 1280, y: 256 });
    v.push(FxPoint { x: 512, y: 256 });
    proof {
        assert(points_bounded(v@)) by {
            assert(forall|i: int| 0 <= i < 14 ==> -COORD_LIMIT <= #[trigger] v@[i].x <= COORD_LIMIT && -COORD_LIMIT <= v@[i].y <= COORD_LIMIT);
        }
    }
    v
}

/// Crosshair cursor outline, in fixed-point units.
pub fn crosshair_points() -> (r: Vec<FxPoint>)
    ensures
        r@.len() == 20,
        points_bounded(r@),
{
    let mut v: Vec<FxPoint> = Vec::new();
    v.push(FxPoint { x: 2048, y: 0 });
    v.push(FxPoint { x: 2048, y: 1536 });
    v.push(FxPoint { x: 1536, y: 1536 });
    v.push(FxPoint { x: 1536, y: 2048 });
    v.push(FxPoint { x: 0, y: 2048 });
    v.push(FxPoint { x: 0, y: 2560 });
    v.push(FxPoint { x: 1536, y: 2560 });
    v.push(FxPoint { x: 1536, y: 3072 });
    v.push(FxPoint { x: 2048, y: 3072 });
    v.push(FxPoint { x: 2048, y: 4608 });
    v.push(FxPoint { x: 2560, y: 4608 });
    v.push(FxPoint { x: 2560, y: 3072 });
    v.push(FxPoint { x: 3072, y: 3072 });
    v.push(FxPoint { x: 3072, y: 2560 });
    v.push(FxPoint { x: 4608, y: 2560 });
    v.push(FxPoint { x: 4608, y: 2048 });
    v.push(FxPoint { x: 3072, y: 2048 });
    v.push(FxPoint { x: 3072, y: 1536 });
    v.push(FxPoint { x: 2560, y: 1536 });
    v.push(FxPoint { x: 2560, y: 0 });
    proof {
        assert(points_bounded(v@)) by {
            assert(forall|i: int| 0 <= i < 20 ==> -COORD_LIMIT <= #[trigger] v@[i].x <= COORD_LIMIT && -COORD_LIMIT <= v@[i].y <= COORD_LIMIT);
        }
    }
    v
}

/// Wait/hourglass cursor outline, in fixed-point units.
pub fn wait_points() -> (r: Vec<FxPoint>)
    ensures
        r@.len() == 8,
        points_bounded(r@),
{
    let mut v: Vec<FxPoint> = Vec::new();
    v.push(FxPoint { x: 0, y: 0 });
    v.push(FxPoint { x: 3072, y: 0 });
    v.push(FxPoint { x: 3072, y: 768 });
    v.push(FxPoint { x: 1536, y: 2304 });
    v.push(FxPoint { x: 3072, y: 3840 });
    v.push(FxPoint { x: 3072, y: 4608 });
    v.push(FxPoint { x: 0, y: 4608 });
    v.push(FxPoint { x: 0, y: 3840 });
    proof {
        assert(points_bounded(v@)) by {
            assert(forall|i: int| 0 <= i < 8 ==> -COORD_LIMIT <= #[trigger] v@[i].x <= COORD_LIMIT && -COORD_LIMIT <= v@[i].y <= COORD_LIMIT);
        }
    }
    v
}

/// Grab-hand cursor outline, in fixed-point units.
pub fn grab_points() -> (r: Vec<FxPoint>)
    ensures
        r@.len() == 20,
        points_bounded(r@),
{
    let mut v: Vec<FxPoint> = Vec::new();
    v.push(FxPoint { x: 1536, y: 0 });
    v.push(FxPoint { x: 1536, y: 2048 });
    v.push(FxPoint { x: 2048, y: 2048 });
    v.push(FxPoint { x: 2048, y: 768 });
    v.push(FxPoint { x: 2560, y: 768 });
    v.push(FxPoint { x: 2560, y: 2048 });
    v.push(FxPoint { x: 3072, y: 2048 });
    v.push(FxPoint { x: 3072, y: 1280 });
    v.push(FxPoint { x: 3584, y: 1280 });
    v.push(FxPoint { x: 3584, y: 2048 });
    v.push(FxPoint { x: 4096, y: 2048 });
    v.push(FxPoint { x: 4096, y: 1792 });
    v.push(FxPoint { x: 4608, y: 1792 });
    v.push(FxPoint { x: 4608, y: 4096 });
    v.push(FxPoint { x: 3072, y: 5120 });
    v.push(FxPoint { x: 1024, y: 5120 });
    v.push(FxPoint { x: 0, y: 4096 });
    v.push(FxPoint { x: 0, y: 3072 });
    v.push(FxPoint { x: 1024, y: 3072 });
    v.push(FxPoint { x: 1024, y: 0 });
    proof {
        assert(points_bounded(v@)) by {
            assert(forall|i: int| 0 <= i < 20 ==> -COORD_LIMIT <= #[trigger] v@[i].x <= COORD_LIMIT && -COORD_LIMIT <= v@[i].y <= COORD_LIMIT);
        }
    }
    v
}

/// Arrow used when a custom design has no usable layers.
pub fn fallback_arrow_points() -> (r: Vec<FxPoint>)
    ensures
        r@.len() == 7,
        points_bounded(r@),
{
    let mut v: Vec<FxPoint> = Vec::new();
    v.push(FxPoint { x: 0, y: 0 });
    v.push(FxPoint { x: 0, y: 4608 });
    v.push(FxPoint { x: 1152, y: 3584 });
    v.push(FxPoint { x: 1920, y: 5376 });
    v.push(FxPoint { x: 2688, y: 4992 });
    v.push(FxPoint { x: 1920, y: 3072 });
    v.push(FxPoint { x: 3328, y: 3072 });
    proof {
        assert(points_bounded(v@)) by {
            assert(forall|i: int| 0 <= i < 7 ==> -COORD_LIMIT <= #[trigger] v@[i].x <= COORD_LIMIT && -COORD_LIMIT <= v@[i].y <= COORD_LIMIT);
        }
    }
    v
}

/// Circle of the not-allowed sign, hotspot first, in fixed-point units.
pub fn not_allowed_circle_points() -> (r: Vec<FxPoint>)
    ensures
        r@.len() == 17,
        points_bounded(r@),
{
    let mut v: Vec<FxPoint> = Vec::new();
    v.push(FxPoint { x: 2304, y: 2304 });
    v.push(FxPoint { x: 4608, y: 2304 });
    v.push(FxPoint { x: 4433, y: 3186 });
    v.push(FxPoint { x: 3933, y: 3933 });
    v.push(FxPoint { x: 3186, y: 4433 });
    v.push(FxPoint { x: 2304, y: 4608 });
    v.push(FxPoint { x: 1422, y: 4433 });
    v.push(FxPoint { x: 675, y: 3933 });
    v.push(FxPoint { x: 175, y: 3186 });
    v.push(FxPoint { x: 0, y: 2304 });
    v.push(FxPoint { x: 175, y: 1422 });
    v.push(FxPoint { x: 675, y: 675 });
    v.push(FxPoint { x: 1422, y: 175 });
    v.push(FxPoint { x: 2304, y: 0 });
    v.push(FxPoint { x: 3186, y: 175 });
    v.push(FxPoint { x: 3933, y: 675 });
    v.push(FxPoint { x: 4433, y: 1422 });
    proof {
        assert(points_bounded(v@)) by {
            assert(forall|i: int| 0 <= i < 17 ==> -COORD_LIMIT <= #[trigger] v@[i].x <= COORD_LIMIT && -COORD_LIMIT <= v@[i].y <= COORD_LIMIT);
        }
    }
    v
}

/// Slash of the not-allowed sign, hotspot first, in fixed-point units.
pub fn not_allowed_slash_points() -> (r: Vec<FxPoint>)
    ensures
        r@.len() == 5,
        points_bounded(r@),
{
    let mut v: Vec<FxPoint> = Vec::new();
    v.push(FxPoint { x: 2304, y: 2304 });
    v.push(FxPoint { x: 768, y: 768 });
    v.push(FxPoint { x: 1024, y: 512 });
    v.push(FxPoint { x: 4096, y: 3584 });
    v.push(FxPoint { x: 3840, y: 3840 });
    proof {
        assert(points_bounded(v@)) by {
            assert(forall|i: int| 0 <= i < 5 ==> -COORD_LIMIT <= #[trigger] v@[i].x <= COORD_LIMIT && -COORD_LIMIT <= v@[i].y <= COORD_LIMIT);
        }
    }
    v
}

} // verus!
