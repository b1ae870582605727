//! Tests of the whole-image scheduler: change detection, idempotence, and
//! recomputation from the untouched source.

use pixelsort::image::{apply_sort, process_row};
use pixelsort::settings::{PixelOrdering, Settings, Threshold};

/// A gray pixel whose mean-weighted luminance is `v` (scaled key `6 * v`).
fn gray(v: u8) -> [u8; 4] {
    [v, v, v, 255]
}

fn settings_lum150() -> Settings {
    Settings {
        threshold: Threshold::Luminance(900),
        threshold_reverse: false,
        ordering: PixelOrdering::Luminance,
        ordering_reverse: false,
        extend_threshold_left: 0,
        extend_threshold_right: 0,
        merge_limit: 0,
    }
}

/// A 4x3 image: each row holds a dark descending run then bright pixels.
fn source_image() -> Vec<[u8; 4]> {
    vec![
        gray(30), gray(20), gray(10), gray(200),
        gray(25), gray(240), gray(15), gray(5),
        gray(210), gray(220), gray(230), gray(240),
    ]
}

#[test]
fn process_row_sorts_inside_the_run_only() {
    // dark run [0, 3) is sorted ascending; the bright pixel keeps its place
    let row = vec![gray(30), gray(20), gray(10), gray(200)];
    let out = process_row(&row, &settings_lum150());
    assert_eq!(out, vec![gray(10), gray(20), gray(30), gray(200)]);
}

#[test]
fn process_row_keeps_run_positions() {
    // run [2, 5): keys 200, 100, 150 become 100, 150, 200 in place
    let row = vec![gray(220), gray(230), gray(200), gray(100), gray(150), gray(240)];
    let mut settings = settings_lum150();
    settings.threshold = Threshold::Luminance(6 * 210);
    let out = process_row(&row, &settings);
    assert_eq!(out, vec![gray(220), gray(230), gray(100), gray(150), gray(200), gray(240)]);
    // with the ordering reversed the same run becomes non-increasing
    settings.ordering_reverse = true;
    let out = process_row(&row, &settings);
    assert_eq!(out, vec![gray(220), gray(230), gray(200), gray(150), gray(100), gray(240)]);
}

#[test]
fn process_row_descending_when_reversed() {
    let row = vec![gray(30), gray(20), gray(10), gray(200)];
    let mut settings = settings_lum150();
    settings.ordering_reverse = true;
    let out = process_row(&row, &settings);
    assert_eq!(out, vec![gray(30), gray(20), gray(10), gray(200)]);
    let row = vec![gray(10), gray(20), gray(30), gray(200)];
    let out = process_row(&row, &settings);
    assert_eq!(out, vec![gray(30), gray(20), gray(10), gray(200)]);
}

#[test]
fn unchanged_settings_are_a_no_op() {
    let source = source_image();
    let settings = settings_lum150();
    let mut dest = vec![gray(1); source.len()];

    let changed = apply_sort(&source, &mut dest, 4, &settings, &settings);
    assert!(!changed);
    assert_eq!(dest, vec![gray(1); source.len()]);
}

#[test]
fn changed_settings_recompute_every_row() {
    let source = source_image();
    let settings = settings_lum150();
    let last = Settings::default();
    let mut dest = Vec::new();

    // the defaults coincide with these settings, so change the stored
    // snapshot to force a recomputation
    let mut last = last;
    last.merge_limit = 7;
    let changed = apply_sort(&source, &mut dest, 4, &settings, &last);
    assert!(changed);
    assert_eq!(
        dest,
        vec![
            gray(10), gray(20), gray(30), gray(200),
            gray(25), gray(240), gray(5), gray(15),
            gray(210), gray(220), gray(230), gray(240),
        ]
    );
}

#[test]
fn second_call_with_same_settings_is_idempotent() {
    // scenario: unchanged settings across two scheduler calls leave the
    // destination bytes identical after both calls
    let source = source_image();
    let settings = settings_lum150();
    let mut last = settings_lum150();
    last.merge_limit = 9;
    let mut dest = Vec::new();

    let first = apply_sort(&source, &mut dest, 4, &settings, &last);
    assert!(first);
    let after_first = dest.clone();

    // the host stores the applied snapshot; the second call is a no-op
    let second = apply_sort(&source, &mut dest, 4, &settings, &settings);
    assert!(!second);
    assert_eq!(dest, after_first);
}

#[test]
fn changed_limit_recomputes_from_source_not_dest() {
    // scenario: a changed mergeLimit recomputes from the source, so the
    // result equals a fresh computation and does not compound on the
    // previous destination contents
    let source = source_image();
    let settings1 = settings_lum150();
    let mut settings2 = settings_lum150();
    settings2.merge_limit = 1;
    settings2.ordering_reverse = true;

    let mut dest = Vec::new();
    apply_sort(&source, &mut dest, 4, &settings1, &settings2);
    apply_sort(&source, &mut dest, 4, &settings2, &settings1);

    let mut fresh = Vec::new();
    apply_sort(&source, &mut fresh, 4, &settings2, &settings1);
    assert_eq!(dest, fresh);
}

#[test]
fn empty_image_is_recomputed_to_empty() {
    let source: Vec<[u8; 4]> = Vec::new();
    let settings = settings_lum150();
    let mut dest = vec![gray(9)];
    let mut last = Settings::default();
    last.merge_limit = 3;
    let changed = apply_sort(&source, &mut dest, 4, &settings, &last);
    assert!(changed);
    assert_eq!(dest, Vec::<[u8; 4]>::new());
}

#[test]
fn default_settings_values() {
    let s = Settings::default();
    assert!(s.threshold == Threshold::Luminance(900));
    assert!(!s.threshold_reverse);
    assert!(s.ordering == PixelOrdering::Luminance);
    assert!(!s.ordering_reverse);
    assert_eq!(s.extend_threshold_left, 0);
    assert_eq!(s.extend_threshold_right, 0);
    assert_eq!(s.merge_limit, 0);
    assert!(Threshold::default() == Threshold::Luminance(900));
    assert!(PixelOrdering::default() == PixelOrdering::Luminance);
}

#[test]
fn settings_compare_by_value() {
    let a = settings_lum150();
    let mut b = settings_lum150();
    assert!(a == b);
    b.extend_threshold_left = 1;
    assert!(a != b);
    let mut c = settings_lum150();
    c.threshold = Threshold::ColorSimilarity(1000, [0, 255, 0]);
    assert!(a != c);
    let d = Settings::default();
    assert!(a == d);
}
