//! Tests of the pixel metrics and of run reordering.

use pixelsort::pixel::{distance_between, pixel_to_luminance};
use pixelsort::settings::PixelOrdering;

/// A gray pixel whose mean-weighted luminance is `v` (scaled key `6 * v`).
fn gray(v: u8) -> [u8; 4] {
    [v, v, v, 255]
}

#[test]
fn luminance_exact_values() {
    // 2*R + 3*G + B
    assert_eq!(pixel_to_luminance(&[10, 20, 30, 0]), 110);
    assert_eq!(pixel_to_luminance(&[0, 0, 0, 255]), 0);
    assert_eq!(pixel_to_luminance(&[255, 255, 255, 0]), 1530);
    assert_eq!(pixel_to_luminance(&[255, 0, 0, 0]), 510);
}

#[test]
fn distance_exact_values() {
    // 2*r + 4*g + 2*b in magnitude, with the per-channel differences signed
    assert_eq!(distance_between(&[255, 0, 0, 0], &[0, 0, 0]), 510);
    assert_eq!(distance_between(&[0, 255, 0, 0], &[0, 0, 0]), 1020);
    assert_eq!(distance_between(&[0, 0, 0, 0], &[255, 255, 255]), 2040);
    assert_eq!(distance_between(&[7, 7, 7, 0], &[7, 7, 7]), 0);
    // opposite-sign channel differences cancel
    assert_eq!(distance_between(&[100, 0, 0, 0], &[0, 50, 0]), 0);
}

#[test]
fn order_sorts_ascending_by_luminance() {
    // keys 200, 100, 150 on the 0..=255 scale
    let run = vec![gray(200), gray(100), gray(150)];
    let sorted = PixelOrdering::Luminance.order_pixels(run, false);
    assert_eq!(sorted, vec![gray(100), gray(150), gray(200)]);
}

#[test]
fn order_reversed_sorts_descending() {
    let run = vec![gray(200), gray(100), gray(150)];
    let sorted = PixelOrdering::Luminance.order_pixels(run, true);
    assert_eq!(sorted, vec![gray(200), gray(150), gray(100)]);
}

#[test]
fn order_flattens_to_bytes() {
    let run = vec![gray(2), gray(1)];
    let bytes = PixelOrdering::Luminance.order(run, false);
    assert_eq!(bytes, vec![1, 1, 1, 255, 2, 2, 2, 255]);
}

#[test]
fn order_round_trip_restores_descending() {
    // ascending then descending with the same rule: the final arrangement
    // is non-increasing by key and holds the same pixels
    let run = vec![gray(3), gray(250), gray(40), gray(40), gray(9)];
    let ascending = PixelOrdering::Luminance.order_pixels(run.clone(), false);
    let descending = PixelOrdering::Luminance.order_pixels(ascending, true);
    let mut keys: Vec<u16> = descending.iter().map(|p| pixel_to_luminance(p)).collect();
    for w in keys.windows(2) {
        assert!(w[0] >= w[1]);
    }
    keys.sort_unstable();
    let mut orig_keys: Vec<u16> = run.iter().map(|p| pixel_to_luminance(p)).collect();
    orig_keys.sort_unstable();
    assert_eq!(keys, orig_keys);
}

#[test]
fn order_by_color_similarity() {
    let reference = [0, 0, 255];
    let near = [10, 0, 250, 0];
    let mid = [0, 120, 255, 0];
    let far = [255, 255, 0, 0];
    let sorted = PixelOrdering::ColorSimilarity(reference).order_pixels(
        vec![far, near, mid],
        false,
    );
    assert_eq!(sorted, vec![near, mid, far]);
}

#[test]
fn order_of_empty_run() {
    let sorted = PixelOrdering::Luminance.order_pixels(Vec::new(), false);
    assert_eq!(sorted, Vec::<[u8; 4]>::new());
    let bytes = PixelOrdering::Luminance.order(Vec::new(), true);
    assert_eq!(bytes, Vec::<u8>::new());
}
