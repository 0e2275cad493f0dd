//! Cursor-plane protocol tracker: classifies hardware planes as cursor-type
//! from their property lists and keeps a bounded, append-only registry of the
//! property identifiers needed for substitution.

use vstd::prelude::*;
use vstd::pervasive::VecAdditionalExecFns;

use crate::parse::bytes_eq;
use crate::DRM_PLANE_TYPE_CURSOR;

verus! {

/// Maximum number of cursor planes the registry tracks.  Planes classified
/// beyond this capacity are not tracked and fall back to passthrough.
pub const PLANE_CAPACITY: usize = 8;

/// One property of a plane object, as reported by the driver:
/// its identifier, its current value, and its name.
pub struct PlaneProp {
    pub prop_id: u32,
    pub value: u64,
    pub name: Vec<u8>,
}

/// Result of scanning a plane's property list: whether the plane is
/// cursor-type, and the identifiers of the properties that must be
/// substituted.  A zero identifier means "not found / not tracked".
#[derive(Clone, Copy, PartialEq, Eq, Structural)]
pub struct PlaneScan {
    pub is_cursor: bool,
    pub fb_prop: u32,
    pub src_w_prop: u32,
    pub src_h_prop: u32,
    pub crtc_w_prop: u32,
    pub crtc_h_prop: u32,
}

/// One registry entry: a plane confirmed to be cursor-type and the property
/// ids cached for it.  A zero property id means "not tracked".
#[derive(Clone, Copy, PartialEq, Eq, Structural)]
pub struct PlaneEntry {
    pub plane_id: u32,
    pub fb_prop: u32,
    pub src_w_prop: u32,
    pub src_h_prop: u32,
    pub crtc_w_prop: u32,
    pub crtc_h_prop: u32,
}

pub open spec fn empty_scan() -> PlaneScan {
    PlaneScan { is_cursor: false, fb_prop: 0, src_w_prop: 0, src_h_prop: 0, crtc_w_prop: 0, crtc_h_prop: 0 }
}

pub open spec fn prop_name_type() -> Seq<u8> {
    seq![116u8, 121, 112, 101]
}

pub open spec fn prop_name_fb_id() -> Seq<u8> {
    seq![70u8, 66, 95, 73, 68]
}

pub open spec fn prop_name_src_w() -> Seq<u8> {
    seq![83u8, 82, 67, 95, 87]
}

pub open spec fn prop_name_src_h() -> Seq<u8> {
    seq![83u8, 82, 67, 95, 72]
}

pub open spec fn prop_name_crtc_w() -> Seq<u8> {
    seq![67u8, 82, 84, 67, 95, 87]
}

pub open spec fn prop_name_crtc_h() -> Seq<u8> {
    seq![67u8, 82, 84, 67, 95, 72]
}

/// Effect of one property on a scan in progress: a property literally named
/// "type" whose value is the cursor plane type marks the plane as cursor;
/// each of the five tracked names records its property id, a later
/// occurrence overwriting an earlier one.
pub open spec fn scan_step(acc: PlaneScan, p: PlaneProp) -> PlaneScan {
    PlaneScan {
        is_cursor: acc.is_cursor || (p.name@ == prop_name_type() && p.value == DRM_PLANE_TYPE_CURSOR),
        fb_prop: if p.name@ == prop_name_fb_id() { p.prop_id } else { acc.fb_prop },
        src_w_prop: if p.name@ == prop_name_src_w() { p.prop_id } else { acc.src_w_prop },
        src_h_prop: if p.name@ == prop_name_src_h() { p.prop_id } else { acc.src_h_prop },
        crtc_w_prop: if p.name@ == prop_name_crtc_w() { p.prop_id } else { acc.crtc_w_prop },
        crtc_h_prop: if p.name@ == prop_name_crtc_h() { p.prop_id } else { acc.crtc_h_prop },
    }
}

/// Scan of a whole property list, left to right.
pub open spec fn scan_props(props: Seq<PlaneProp>) -> PlaneScan
    decreases props.len(),
{
    if props.len() == 0 {
        empty_scan()
    } else {
        scan_step(scan_props(props.drop_last()), props.last())
    }
}

/// Scans a plane's property list and reports whether the plane is
/// cursor-type together with the property ids needed for substitution.
pub fn scan_plane_properties(props: &Vec<PlaneProp>) -> (r: PlaneScan)
    ensures
        r == scan_props(props@),
{
    let mut acc = PlaneScan { is_cursor: false, fb_prop: 0, src_w_prop: 0, src_h_prop: 0, crtc_w_prop: 0, crtc_h_prop: 0 };
    let name_type: [u8; 4] = [116u8, 121, 112, 101];
    let name_fb: [u8; 5] = [70u8, 66, 95, 73, 68];
    let name_src_w: [u8; 5] = [83u8, 82, 67, 95, 87];
    let name_src_h: [u8; 5] = [83u8, 82, 67, 95, 72];
    let name_crtc_w: [u8; 6] = [67u8, 82, 84, 67, 95, 87];
    let name_crtc_h: [u8; 6] = [67u8, 82, 84, 67, 95, 72];
    let mut i: usize = 0;
    while i < props.len()
        invariant
            i <= props@.len(),
            acc == scan_props(props@.take(i as int)),
            name_type@ == prop_name_type(),
            name_fb@ == prop_name_fb_id(),
            name_src_w@ == prop_name_src_w(),
            name_src_h@ == prop_name_src_h(),
            name_crtc_w@ == prop_name_crtc_w(),
            name_crtc_h@ == prop_name_crtc_h(),
        decreases props@.len() - i,
    {
        let p = &props[i];
        let is_type = bytes_eq(p.name.as_slice(), name_type.as_slice());
        let next = PlaneScan {
            is_cursor: acc.is_cursor || (is_type && p.value == DRM_PLANE_TYPE_CURSOR),
            fb_prop: if bytes_eq(p.name.as_slice(), name_fb.as_slice()) { p.prop_id } else { acc.fb_prop },
            src_w_prop: if bytes_eq(p.name.as_slice(), name_src_w.as_slice()) { p.prop_id } else { acc.src_w_prop },
            src_h_prop: if bytes_eq(p.name.as_slice(), name_src_h.as_slice()) { p.prop_id } else { acc.src_h_prop },
            crtc_w_prop: if bytes_eq(p.name.as_slice(), name_crtc_w.as_slice()) { p.prop_id } else { acc.crtc_w_prop },
            crtc_h_prop: if bytes_eq(p.name.as_slice(), name_crtc_h.as_slice()) { p.prop_id } else { acc.crtc_h_prop },
        };
        assert(props@.take(i + 1).drop_last() =~= props@.take(i as int));
        assert(props@.take(i + 1).last() == props@[i as int]);
        acc = next;
        i = i + 1;
    }
    assert(props@.take(props@.len() as int) =~= props@);
    acc
}

/// Append-only bounded registry of cursor-type planes.
pub struct PlaneRegistry {
    pub entries: Vec<PlaneEntry>,
}

/// First index of `plane_id` in a sequence of entries, if any.
pub open spec fn spec_find(s: Seq<PlaneEntry>, plane_id: u32) -> Option<int>
    decreases s.len(),
{
    if s.len() == 0 {
        None
    } else if s[0].plane_id == plane_id {
        Some(0int)
    } else {
        match spec_find(s.drop_first(), plane_id) {
            Some(i) => Some(i + 1),
            None => None,
        }
    }
}

impl PlaneRegistry {
    /// Registry invariant: at most `PLANE_CAPACITY` entries, all with
    /// distinct plane ids.
    pub open spec fn wf(&self) -> bool {
        &&& self.entries@.len() <= PLANE_CAPACITY
        &&& forall|i: int, j: int|
            0 <= i < j < self.entries@.len() ==> self.entries@[i].plane_id != self.entries@[j].plane_id
    }

    pub open spec fn spec_index_of(&self, plane_id: u32) -> Option<int> {
        spec_find(self.entries@, plane_id)
    }

    /// Whether `plane_id` is a registered cursor plane.
    pub open spec fn spec_contains(&self, plane_id: u32) -> bool {
        self.spec_index_of(plane_id) is Some
    }

    pub fn new() -> (r: PlaneRegistry)
        ensures
            r.wf(),
            r.entries@.len() == 0,
    {
        PlaneRegistry { entries: Vec::new() }
    }

    /// Index of a registered plane, if present.
    pub fn get_cursor_plane_index(&self, plane_id: u32) -> (r: Option<usize>)
        ensures
            match r {
                Some(i) => self.spec_index_of(plane_id) == Some(i as int)
                    && i < self.entries@.len()
                    && self.entries@[i as int].plane_id == plane_id,
                None => self.spec_index_of(plane_id) is None,
            },
    {
        let mut i: usize = 0;
        while i < self.entries.len()
            invariant
                i <= self.entries@.len(),
                forall|j: int| 0 <= j < i ==> self.entries@[j].plane_id != plane_id,
            decreases self.entries@.len() - i,
        {
            if self.entries[i].plane_id == plane_id {
                proof {
                    lemma_find_first(self.entries@, plane_id, i as int);
                }
                return Some(i);
            }
            i = i + 1;
        }
        proof {
            lemma_find_none(self.entries@, plane_id);
        }
        None
    }

    /// Whether the plane is already registered as a cursor plane.
    pub fn is_cursor_plane(&self, plane_id: u32) -> (r: bool)
        ensures
            r == self.spec_contains(plane_id),
    {
        self.get_cursor_plane_index(plane_id).is_some()
    }

    /// Registers a plane id, returning its index.  A plane already present
    /// keeps its index and its entry is unchanged; a new plane is appended
    /// while there is capacity; past capacity nothing is recorded and
    /// `PLANE_CAPACITY` is returned.
    pub fn register_cursor_plane(&mut self, plane_id: u32) -> (idx: usize)
        requires
            old(self).wf(),
        ensures
            final(self).wf(),
            match old(self).spec_index_of(plane_id) {
                Some(i) => idx == i && final(self).entries@ == old(self).entries@,
                None => {
                    if old(self).entries@.len() < PLANE_CAPACITY {
                        &&& idx == old(self).entries@.len()
                        &&& final(self).entries@ == old(self).entries@.push(PlaneEntry {
                            plane_id,
                            fb_prop: 0,
                            src_w_prop: 0,
                            src_h_prop: 0,
                            crtc_w_prop: 0,
                            crtc_h_prop: 0,
                        })
                    } else {
                        idx == PLANE_CAPACITY && final(self).entries@ == old(self).entries@
                    }
                },
            },
            final(self).spec_contains(plane_id) <==> (old(self).spec_contains(plane_id)
                || old(self).entries@.len() < PLANE_CAPACITY),
    {
        proof {
            lemma_find_present(self.entries@, plane_id);
        }
        if let Some(i) = self.get_cursor_plane_index(plane_id) {
            return i;
        }
        if self.entries.len() < PLANE_CAPACITY {
            let idx = self.entries.len();
            self.entries.push(PlaneEntry {
                plane_id,
                fb_prop: 0,
                src_w_prop: 0,
                src_h_prop: 0,
                crtc_w_prop: 0,
                crtc_h_prop: 0,
            });
            proof {
                lemma_find_push(old(self).entries@, plane_id);
            }
            return idx;
        }
        PLANE_CAPACITY
    }
}

/// A blank entry for a freshly registered plane: no property ids cached yet.
pub open spec fn blank_entry(plane_id: u32) -> PlaneEntry {
    PlaneEntry { plane_id, fb_prop: 0, src_w_prop: 0, src_h_prop: 0, crtc_w_prop: 0, crtc_h_prop: 0 }
}

/// Effect of recording a scan on a cached entry: each property id the scan
/// found (nonzero) overwrites the cached one; absent ids leave the cache
/// unchanged.  The plane id itself never changes.
pub open spec fn merge_entry(e: PlaneEntry, scan: PlaneScan) -> PlaneEntry {
    PlaneEntry {
        plane_id: e.plane_id,
        fb_prop: if scan.fb_prop != 0 { scan.fb_prop } else { e.fb_prop },
        src_w_prop: if scan.src_w_prop != 0 { scan.src_w_prop } else { e.src_w_prop },
        src_h_prop: if scan.src_h_prop != 0 { scan.src_h_prop } else { e.src_h_prop },
        crtc_w_prop: if scan.crtc_w_prop != 0 { scan.crtc_w_prop } else { e.crtc_w_prop },
        crtc_h_prop: if scan.crtc_h_prop != 0 { scan.crtc_h_prop } else { e.crtc_h_prop },
    }
}

impl PlaneRegistry {
    /// Registers a plane confirmed cursor-type and caches the property ids
    /// its scan found.  Within capacity the plane's entry afterwards holds
    /// the merged ids; past capacity the registry is unchanged.
    pub fn register_scan(&mut self, plane_id: u32, scan: &PlaneScan) -> (idx: usize)
        requires
            old(self).wf(),
        ensures
            final(self).wf(),
            match old(self).spec_index_of(plane_id) {
                Some(i) => idx == i
                    && final(self).entries@ == old(self).entries@.update(i, merge_entry(old(self).entries@[i], *scan)),
                None => {
                    if old(self).entries@.len() < PLANE_CAPACITY {
                        &&& idx == old(self).entries@.len()
                        &&& final(self).entries@ == old(self).entries@.push(merge_entry(blank_entry(plane_id), *scan))
                    } else {
                        idx == PLANE_CAPACITY && final(self).entries@ == old(self).entries@
                    }
                },
            },
            (old(self).spec_contains(plane_id) || old(self).entries@.len() < PLANE_CAPACITY)
                ==> final(self).spec_contains(plane_id),
    {
        proof {
            lemma_find_present(old(self).entries@, plane_id);
        }
        let idx = self.register_cursor_plane(plane_id);
        if idx < PLANE_CAPACITY {
            assert(idx < self.entries@.len());
            let e = self.entries[idx];
            let merged = PlaneEntry {
                plane_id: e.plane_id,
                fb_prop: if scan.fb_prop != 0 { scan.fb_prop } else { e.fb_prop },
                src_w_prop: if scan.src_w_prop != 0 { scan.src_w_prop } else { e.src_w_prop },
                src_h_prop: if scan.src_h_prop != 0 { scan.src_h_prop } else { e.src_h_prop },
                crtc_w_prop: if scan.crtc_w_prop != 0 { scan.crtc_w_prop } else { e.crtc_w_prop },
                crtc_h_prop: if scan.crtc_h_prop != 0 { scan.crtc_h_prop } else { e.crtc_h_prop },
            };
            self.entries.set(idx, merged);
            proof {
                if old(self).spec_index_of(plane_id) is None {
                    assert(old(self).entries@.push(blank_entry(plane_id)).update(idx as int, merged)
                        =~= old(self).entries@.push(merged));
                    lemma_find_push(old(self).entries@, plane_id);
                } else {
                    lemma_find_same_ids(old(self).entries@, self.entries@, plane_id);
                }
            }
        }
        idx
    }

    /// Classification of one plane from its scanned property list, with the
    /// cached result taking precedence: a plane already registered is
    /// cursor-type and the registry is left untouched; otherwise the scan
    /// decides, and a cursor-type plane is registered with its property ids.
    pub fn try_detect_cursor_plane(&mut self, plane_id: u32, props: &Vec<PlaneProp>) -> (r: bool)
        requires
            old(self).wf(),
        ensures
            final(self).wf(),
            old(self).spec_contains(plane_id) ==> r && final(self).entries@ == old(self).entries@,
            !old(self).spec_contains(plane_id) ==> r == scan_props(props@).is_cursor,
            !old(self).spec_contains(plane_id) && !scan_props(props@).is_cursor
                ==> final(self).entries@ == old(self).entries@,
            !old(self).spec_contains(plane_id) && scan_props(props@).is_cursor
                ==> {
                    if old(self).entries@.len() < PLANE_CAPACITY {
                        final(self).entries@ == old(self).entries@.push(
                            merge_entry(blank_entry(plane_id), scan_props(props@)))
                    } else {
                        final(self).entries@ == old(self).entries@
                    }
                },
    {
        if self.is_cursor_plane(plane_id) {
            return true;
        }
        let scan = scan_plane_properties(props);
        if scan.is_cursor {
            self.register_scan(plane_id, &scan);
        }
        scan.is_cursor
    }
}

/// Sequences whose entries carry the same plane ids position every id alike.
proof fn lemma_find_same_ids(s1: Seq<PlaneEntry>, s2: Seq<PlaneEntry>, plane_id: u32)
    requires
        s1.len() == s2.len(),
        forall|i: int| 0 <= i < s1.len() ==> s1[i].plane_id == s2[i].plane_id,
    ensures
        spec_find(s1, plane_id) == spec_find(s2, plane_id),
    decreases s1.len(),
{
    if s1.len() > 0 && s1[0].plane_id != plane_id {
        assert forall|i: int| 0 <= i < s1.len() - 1 implies s1.drop_first()[i].plane_id == s2.drop_first()[i].plane_id by {
            assert(s1.drop_first()[i] == s1[i + 1]);
            assert(s2.drop_first()[i] == s2[i + 1]);
        }
        lemma_find_same_ids(s1.drop_first(), s2.drop_first(), plane_id);
    }
}

/// The registry is append-only: a registered plane keeps its index and its
/// cached entry — property ids included — under any later registration.
pub proof fn lemma_find_stable_under_push(s: Seq<PlaneEntry>, plane_id: u32, i: int, e: PlaneEntry)
    requires
        spec_find(s, plane_id) == Some(i),
    ensures
        spec_find(s.push(e), plane_id) == Some(i),
        0 <= i < s.len(),
        s.push(e)[i] == s[i],
    decreases s.len(),
{
    lemma_find_present(s, plane_id);
    if s.len() > 0 && s[0].plane_id != plane_id {
        lemma_find_stable_under_push(s.drop_first(), plane_id, i - 1, e);
        assert(s.push(e)[0] == s[0]);
        assert(s.push(e).drop_first() =~= s.drop_first().push(e));
    } else if s.len() > 0 {
        assert(s.push(e)[0] == s[0]);
    }
}

/// `spec_find` returns the first index whose entry carries the id sought.
proof fn lemma_find_first(s: Seq<PlaneEntry>, plane_id: u32, i: int)
    requires
        0 <= i < s.len(),
        s[i].plane_id == plane_id,
        forall|j: int| 0 <= j < i ==> s[j].plane_id != plane_id,
    ensures
        spec_find(s, plane_id) == Some(i),
    decreases s.len(),
{
    if i > 0 {
        assert forall|j: int| 0 <= j < i - 1 implies s.drop_first()[j].plane_id != plane_id by {
            assert(s.drop_first()[j] == s[j + 1]);
        }
        assert(s.drop_first()[i - 1] == s[i]);
        lemma_find_first(s.drop_first(), plane_id, i - 1);
    }
}

/// A sequence free of the id sought yields no index.
proof fn lemma_find_none(s: Seq<PlaneEntry>, plane_id: u32)
    requires
        forall|j: int| 0 <= j < s.len() ==> s[j].plane_id != plane_id,
    ensures
        spec_find(s, plane_id) is None,
    decreases s.len(),
{
    if s.len() > 0 {
        assert forall|j: int| 0 <= j < s.len() - 1 implies s.drop_first()[j].plane_id != plane_id by {
            assert(s.drop_first()[j] == s[j + 1]);
        }
        lemma_find_none(s.drop_first(), plane_id);
    }
}

/// `spec_find` returns an index whose entry carries the id sought.
pub proof fn lemma_find_present(s: Seq<PlaneEntry>, plane_id: u32)
    ensures
        match spec_find(s, plane_id) {
            Some(i) => 0 <= i < s.len() && s[i].plane_id == plane_id,
            None => forall|j: int| 0 <= j < s.len() ==> s[j].plane_id != plane_id,
        },
    decreases s.len(),
{
    if s.len() > 0 && s[0].plane_id != plane_id {
        lemma_find_present(s.drop_first(), plane_id);
        assert forall|j: int| 0 <= j < s.len() && spec_find(s, plane_id) is None implies s[j].plane_id != plane_id by {
            if j > 0 {
                assert(s.drop_first()[j - 1] == s[j]);
            }
        }
    }
}

/// Appending an absent id registers it at the end.
proof fn lemma_find_push(s: Seq<PlaneEntry>, plane_id: u32)
    requires
        spec_find(s, plane_id) is None,
    ensures
        forall|e: PlaneEntry| e.plane_id == plane_id ==> spec_find(s.push(e), plane_id) == Some(s.len() as int),
    decreases s.len(),
{
    assert forall|e: PlaneEntry| e.plane_id == plane_id implies spec_find(s.push(e), plane_id) == Some(s.len() as int) by {
        if s.len() == 0 {
            assert(s.push(e)[0] == e);
        } else {
            lemma_find_push(s.drop_first(), plane_id);
            assert(s.push(e)[0] == s[0]);
            assert(s.push(e).drop_first() =~= s.drop_first().push(e));
        }
    }
}

} // verus!
