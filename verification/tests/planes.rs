//! The cursor-plane registry: classification, caching, and the bounded
//! capacity.

use constellation_cursor::plane::{
    scan_plane_properties, PlaneProp, PlaneRegistry, PLANE_CAPACITY,
};

fn prop(prop_id: u32, value: u64, name: &str) -> PlaneProp {
    PlaneProp { prop_id, value, name: name.as_bytes().to_vec() }
}

fn cursor_props() -> Vec<PlaneProp> {
    vec![
        prop(7, 2, "type"),
        prop(11, 0, "FB_ID"),
        prop(12, 0, "SRC_W"),
        prop(13, 0, "SRC_H"),
        prop(14, 0, "CRTC_W"),
        prop(15, 0, "CRTC_H"),
        prop(16, 0, "CRTC_X"),
    ]
}

#[test]
fn scan_recognizes_a_cursor_plane() {
    let scan = scan_plane_properties(&cursor_props());
    assert!(scan.is_cursor);
    assert_eq!(scan.fb_prop, 11);
    assert_eq!(scan.src_w_prop, 12);
    assert_eq!(scan.src_h_prop, 13);
    assert_eq!(scan.crtc_w_prop, 14);
    assert_eq!(scan.crtc_h_prop, 15);
}

#[test]
fn scan_rejects_other_plane_types() {
    let props = vec![prop(7, 1, "type"), prop(11, 0, "FB_ID")];
    let scan = scan_plane_properties(&props);
    assert!(!scan.is_cursor);
    assert_eq!(scan.fb_prop, 11);
}

#[test]
fn classification_is_cached_with_identical_property_ids() {
    let mut reg = PlaneRegistry::new();
    assert!(reg.try_detect_cursor_plane(31, &cursor_props()));
    let idx = reg.get_cursor_plane_index(31).unwrap();
    let first = reg.entries[idx];

    // a second classification needs no property enumeration: the cached
    // entry answers, and its property ids are unchanged
    let no_props: Vec<PlaneProp> = Vec::new();
    assert!(reg.try_detect_cursor_plane(31, &no_props));
    let idx2 = reg.get_cursor_plane_index(31).unwrap();
    assert_eq!(idx, idx2);
    let second = reg.entries[idx2];
    assert_eq!(first.fb_prop, second.fb_prop);
    assert_eq!(first.src_w_prop, second.src_w_prop);
    assert_eq!(first.src_h_prop, second.src_h_prop);
    assert_eq!(first.crtc_w_prop, second.crtc_w_prop);
    assert_eq!(first.crtc_h_prop, second.crtc_h_prop);
}

#[test]
fn unknown_planes_without_cursor_type_stay_unregistered() {
    let mut reg = PlaneRegistry::new();
    let props = vec![prop(7, 1, "type")];
    assert!(!reg.try_detect_cursor_plane(9, &props));
    assert!(!reg.is_cursor_plane(9));
}

#[test]
fn ninth_plane_does_not_evict_or_corrupt_the_first_eight() {
    let mut reg = PlaneRegistry::new();
    for id in 1..=8u32 {
        let idx = reg.register_cursor_plane(100 + id);
        assert_eq!(idx as u32, id - 1);
    }
    assert_eq!(reg.entries.len(), 8);
    let before: Vec<u32> = reg.entries.iter().map(|e| e.plane_id).collect();

    // the ninth distinct plane is not tracked and nothing is disturbed
    let idx9 = reg.register_cursor_plane(999);
    assert_eq!(idx9, PLANE_CAPACITY);
    assert_eq!(reg.entries.len(), 8);
    let after: Vec<u32> = reg.entries.iter().map(|e| e.plane_id).collect();
    assert_eq!(before, after);
    assert!(!reg.is_cursor_plane(999));

    // the first eight are still registered under their original indexes
    for id in 1..=8u32 {
        assert_eq!(reg.get_cursor_plane_index(100 + id), Some((id - 1) as usize));
    }
}

#[test]
fn registering_twice_returns_the_same_index() {
    let mut reg = PlaneRegistry::new();
    let a = reg.register_cursor_plane(55);
    let b = reg.register_cursor_plane(55);
    assert_eq!(a, b);
    assert_eq!(reg.entries.len(), 1);
}
