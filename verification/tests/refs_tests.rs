use pilotty::refs::{
    assign_refs_simple, format_available_refs, ref_matches, region_center, resolve_ref,
    resolve_ref_or_error, RefErrorCode, RefTracker, RegionFingerprint, ResolveResult,
};
use pilotty::snapshot::{Rect, RefId, Region, RegionType};

fn make_region(x: u16, y: u16, text: &str) -> Region {
    Region {
        ref_id: RefId::new(""),
        bounds: Rect { x, y, width: 10, height: 1 },
        region_type: RegionType::Button,
        text: text.to_string(),
        focused: false,
    }
}

#[test]
fn test_assign_refs_simple() {
    let mut regions = vec![
        make_region(0, 0, "OK"),
        make_region(10, 0, "Cancel"),
        make_region(0, 5, "Help"),
    ];

    let mut counter = 0;
    assign_refs_simple(&mut regions, &mut counter);

    assert_eq!(regions[0].ref_id.as_str(), "@e1");
    assert_eq!(regions[1].ref_id.as_str(), "@e2");
    assert_eq!(regions[2].ref_id.as_str(), "@e3");
    assert_eq!(counter, 3);
}

#[test]
fn test_ref_tracker_assigns_fresh_refs() {
    let mut tracker = RefTracker::new();
    let mut regions = vec![make_region(0, 0, "OK"), make_region(10, 0, "Cancel")];

    tracker.assign_refs(&mut regions);

    assert_eq!(regions[0].ref_id.as_str(), "@e1");
    assert_eq!(regions[1].ref_id.as_str(), "@e2");
}

#[test]
fn test_ref_tracker_stable_refs() {
    let mut tracker = RefTracker::new();

    let mut regions1 = vec![make_region(0, 0, "OK"), make_region(10, 0, "Cancel")];
    tracker.assign_refs(&mut regions1);

    assert_eq!(regions1[0].ref_id.as_str(), "@e1");
    assert_eq!(regions1[1].ref_id.as_str(), "@e2");

    let mut regions2 = vec![make_region(10, 0, "Cancel"), make_region(0, 0, "OK")];
    tracker.assign_refs(&mut regions2);

    assert_eq!(regions2[0].ref_id.as_str(), "@e2");
    assert_eq!(regions2[1].ref_id.as_str(), "@e1");
}

#[test]
fn test_ref_tracker_new_region_gets_new_ref() {
    let mut tracker = RefTracker::new();

    let mut regions1 = vec![make_region(0, 0, "OK")];
    tracker.assign_refs(&mut regions1);

    assert_eq!(regions1[0].ref_id.as_str(), "@e1");

    let mut regions2 = vec![make_region(0, 0, "OK"), make_region(10, 0, "Help")];
    tracker.assign_refs(&mut regions2);

    assert_eq!(regions2[0].ref_id.as_str(), "@e1");
    assert_eq!(regions2[1].ref_id.as_str(), "@e2");
}

#[test]
fn test_fingerprint_position_quantization() {
    let r1 = make_region(0, 0, "OK");
    let r2 = make_region(2, 1, "OK");

    let f1 = RegionFingerprint::from_region(&r1);
    let f2 = RegionFingerprint::from_region(&r2);

    assert_eq!(f1, f2, "Slightly offset regions should have same fingerprint");
}

#[test]
fn test_fingerprint_different_positions() {
    let r1 = make_region(0, 0, "OK");
    let r2 = make_region(20, 20, "OK");

    let f1 = RegionFingerprint::from_region(&r1);
    let f2 = RegionFingerprint::from_region(&r2);

    assert_ne!(f1, f2, "Distant regions should have different fingerprints");
}

#[test]
fn test_fingerprint_text_normalization() {
    let r1 = make_region(0, 0, "OK");
    let r2 = make_region(0, 0, "  ok  ");

    let f1 = RegionFingerprint::from_region(&r1);
    let f2 = RegionFingerprint::from_region(&r2);

    assert_eq!(f1, f2, "Normalized text should match");
}

#[test]
fn test_ref_matches_exact() {
    let ref_id = RefId::new("@e1");
    assert!(ref_matches(&ref_id, "@e1"));
    assert!(!ref_matches(&ref_id, "@e2"));
}

#[test]
fn test_ref_matches_prefix() {
    let ref_id = RefId::new("@e1");
    assert!(ref_matches(&ref_id, "@e"));
    assert!(ref_matches(&ref_id, "@"));
}

#[test]
fn test_ref_matches_numeric() {
    let ref_id = RefId::new("@e1");
    assert!(ref_matches(&ref_id, "1"));
    assert!(!ref_matches(&ref_id, "2"));
}

#[test]
fn test_region_center() {
    let bounds = Rect { x: 10, y: 5, width: 20, height: 4 };
    let (cx, cy) = region_center(&bounds);
    assert_eq!(cx, 20);
    assert_eq!(cy, 7);
}

#[test]
fn test_tracker_reset() {
    let mut tracker = RefTracker::new();

    let mut regions = vec![make_region(0, 0, "OK")];
    tracker.assign_refs(&mut regions);
    assert_eq!(regions[0].ref_id.as_str(), "@e1");

    tracker.reset();

    tracker.assign_refs(&mut regions);
    assert_eq!(regions[0].ref_id.as_str(), "@e1");
}

#[test]
fn test_tracker_cleans_up_stale_fingerprints() {
    let mut tracker = RefTracker::new();

    let mut regions1 = vec![
        make_region(0, 0, "OK"),
        make_region(10, 0, "Cancel"),
        make_region(20, 0, "Help"),
    ];
    tracker.assign_refs(&mut regions1);
    assert_eq!(tracker.fingerprint_count(), 3);

    let mut regions2 = vec![make_region(0, 0, "OK")];
    tracker.assign_refs(&mut regions2);

    assert_eq!(
        tracker.fingerprint_count(),
        1,
        "Stale fingerprints should be removed after assign_refs"
    );

    assert_eq!(regions2[0].ref_id.as_str(), "@e1");
}

#[test]
fn test_tracker_cleanup_allows_ref_stability_for_returning_regions() {
    let mut tracker = RefTracker::new();

    let mut regions1 = vec![make_region(0, 0, "OK"), make_region(10, 0, "Cancel")];
    tracker.assign_refs(&mut regions1);
    assert_eq!(regions1[0].ref_id.as_str(), "@e1");
    assert_eq!(regions1[1].ref_id.as_str(), "@e2");

    let mut regions2 = vec![make_region(0, 0, "OK")];
    tracker.assign_refs(&mut regions2);
    assert_eq!(tracker.fingerprint_count(), 1);

    let mut regions3 = vec![make_region(0, 0, "OK"), make_region(10, 0, "Cancel")];
    tracker.assign_refs(&mut regions3);

    assert_eq!(regions3[0].ref_id.as_str(), "@e1");
    assert_eq!(regions3[1].ref_id.as_str(), "@e3");
}

fn make_region_with_ref(ref_id: &str, text: &str) -> Region {
    Region {
        ref_id: RefId::new(ref_id),
        bounds: Rect { x: 0, y: 0, width: 10, height: 1 },
        region_type: RegionType::Button,
        text: text.to_string(),
        focused: false,
    }
}

#[test]
fn test_resolve_ref_exact_match() {
    let regions = vec![
        make_region_with_ref("@e1", "OK"),
        make_region_with_ref("@e2", "Cancel"),
    ];

    match resolve_ref("@e1", &regions) {
        ResolveResult::Found(r) => assert_eq!(r.text, "OK"),
        _ => panic!("Expected Found"),
    }
}

#[test]
fn test_resolve_ref_numeric_match() {
    let regions = vec![
        make_region_with_ref("@e1", "OK"),
        make_region_with_ref("@e2", "Cancel"),
    ];

    match resolve_ref("2", &regions) {
        ResolveResult::Found(r) => assert_eq!(r.text, "Cancel"),
        _ => panic!("Expected Found"),
    }
}

#[test]
fn test_resolve_ref_not_found() {
    let regions = vec![make_region_with_ref("@e1", "OK")];

    match resolve_ref("@e99", &regions) {
        ResolveResult::NotFound => {}
        _ => panic!("Expected NotFound"),
    }
}

#[test]
fn test_resolve_ref_ambiguous() {
    let regions = vec![
        make_region_with_ref("@e1", "OK"),
        make_region_with_ref("@e10", "Help"),
        make_region_with_ref("@e11", "Cancel"),
    ];

    match resolve_ref("@e1", &regions) {
        ResolveResult::Found(r) => {
            assert_eq!(r.text, "OK");
        }
        _ => panic!("Expected Found"),
    }

    match resolve_ref("@e", &regions) {
        ResolveResult::Ambiguous(matches) => {
            assert_eq!(matches.len(), 3);
        }
        _ => panic!("Expected Ambiguous for short prefix"),
    }
}

#[test]
fn test_resolve_ref_or_error_found() {
    let regions = vec![make_region_with_ref("@e1", "OK")];

    let result = resolve_ref_or_error("@e1", &regions);
    assert!(result.is_ok());
    assert_eq!(result.unwrap().text, "OK");
}

#[test]
fn test_resolve_ref_or_error_not_found() {
    let regions = vec![make_region_with_ref("@e1", "OK")];

    let result = resolve_ref_or_error("@e99", &regions);
    assert!(result.is_err());

    let err = result.unwrap_err();
    assert_eq!(err.code, RefErrorCode::NotFound);
    assert!(err.suggestion.contains("@e1"));
}

#[test]
fn test_resolve_ref_or_error_ambiguous() {
    let regions = vec![
        make_region_with_ref("@e1", "OK"),
        make_region_with_ref("@e2", "Help"),
    ];

    let result = resolve_ref_or_error("@e1", &regions);
    assert!(result.is_ok());
    assert_eq!(result.unwrap().text, "OK");

    let result = resolve_ref_or_error("@e", &regions);
    assert!(result.is_err());

    let err = result.unwrap_err();
    assert_eq!(err.code, RefErrorCode::Ambiguous);
    assert!(err.message.contains("multiple"));
}

#[test]
fn test_resolve_ref_or_error_empty_regions() {
    let regions: Vec<Region> = vec![];

    let result = resolve_ref_or_error("@e1", &regions);
    assert!(result.is_err());

    let err = result.unwrap_err();
    assert!(err.suggestion.contains("No interactive regions"));
}

#[test]
fn test_format_available_refs() {
    let regions = vec![
        make_region_with_ref("@e1", "OK"),
        make_region_with_ref("@e2", "Cancel"),
    ];

    let formatted = format_available_refs(&regions);
    assert!(formatted.contains("@e1"));
    assert!(formatted.contains("@e2"));
    assert!(formatted.contains("OK"));
    assert!(formatted.contains("Cancel"));
}

#[test]
fn test_format_available_refs_empty() {
    let regions: Vec<Region> = vec![];
    let formatted = format_available_refs(&regions);
    assert_eq!(formatted, "(none)");
}

#[test]
fn test_format_available_refs_truncates_long_text() {
    let regions = vec![make_region_with_ref(
        "@e1",
        "This is a very long button text that should be truncated",
    )];

    let formatted = format_available_refs(&regions);
    assert!(formatted.contains("..."));
}

#[test]
fn test_ref_id_try_new_accepts_valid() {
    let ref_id = RefId::try_new("@e42").expect("valid ref id");
    assert_eq!(ref_id.as_str(), "@e42");
}

#[test]
fn test_ref_id_try_new_rejects_invalid() {
    let err = RefId::try_new("bad-ref").expect_err("invalid ref id");
    assert!(err.message.contains("Invalid ref id"));
    assert!(err
        .suggestion
        .expect("suggestion should be present")
        .contains("@e"));
}
