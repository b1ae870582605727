//! The configuration of the pixel-sorting pipeline.
//!
//! A `Settings` value is an immutable snapshot, compared by value against the
//! previously applied snapshot to decide whether the image must be recomputed.

use vstd::prelude::*;
use crate::pixel::{distance_between, pixel_to_luminance, spec_distance, spec_luminance};

verus! {

broadcast use vstd::array::group_array_axioms;

/// Threshold rules: a pixel is selected when its metric is below the limit.
///
/// `Luminance` carries its limit on the same six-times scale as
/// [`pixel_to_luminance`](crate::pixel::pixel_to_luminance), so a limit of
/// `6 * x` selects the pixels whose mean-weighted luminance is below `x`.
#[derive(Clone, Copy, Debug)]
pub enum Threshold {
    Luminance(u16),
    ColorSimilarity(i16, [u8; 3]),
}

/// Sort keys by which the pixels inside a run are reordered.
#[derive(Clone, Copy, Debug)]
pub enum PixelOrdering {
    Luminance,
    ColorSimilarity([u8; 3]),
}

/// The whole configuration: threshold rule and polarity, ordering rule and
/// direction, run extension margins, and the run merge limit.
#[derive(Clone, Copy, Debug)]
pub struct Settings {
    pub threshold: Threshold,
    pub threshold_reverse: bool,
    pub ordering: PixelOrdering,
    pub ordering_reverse: bool,
    pub extend_threshold_left: usize,
    pub extend_threshold_right: usize,
    pub merge_limit: usize,
}

/// Whether `pixel`'s metric under rule `t` is below the rule's limit.
pub open spec fn spec_below(t: Threshold, pixel: [u8; 4]) -> bool {
    match t {
        Threshold::Luminance(limit) => spec_luminance(pixel) < limit,
        Threshold::ColorSimilarity(limit, color) => spec_distance(pixel, color) < limit,
    }
}

/// The sort key that ordering rule `o` assigns to `pixel`.
pub open spec fn spec_key(o: PixelOrdering, pixel: [u8; 4]) -> int {
    match o {
        PixelOrdering::Luminance => spec_luminance(pixel),
        PixelOrdering::ColorSimilarity(color) => spec_distance(pixel, color),
    }
}

impl Threshold {
    /// Whether `pixel`'s metric is below this rule's limit.
    pub fn below(&self, pixel: &[u8; 4]) -> (b: bool)
        ensures
            b == spec_below(*self, *pixel),
    {
        match self {
            Threshold::Luminance(limit) => pixel_to_luminance(pixel) < *limit,
            Threshold::ColorSimilarity(limit, color) => distance_between(pixel, color) < *limit,
        }
    }
}

impl PixelOrdering {
    /// The sort key this rule assigns to `pixel`.
    pub fn key_of(&self, pixel: &[u8; 4]) -> (k: i32)
        ensures
            k == spec_key(*self, *pixel),
    {
        match self {
            PixelOrdering::Luminance => pixel_to_luminance(pixel) as i32,
            PixelOrdering::ColorSimilarity(color) => distance_between(pixel, color) as i32,
        }
    }
}

impl Default for Threshold {
    /// Selects dark pixels: mean-weighted luminance below 150.
    fn default() -> (t: Threshold)
        ensures
            t == Threshold::Luminance(900u16),
    {
        Threshold::Luminance(900)
    }
}

impl Default for PixelOrdering {
    fn default() -> (o: PixelOrdering)
        ensures
            o == PixelOrdering::Luminance,
    {
        PixelOrdering::Luminance
    }
}

impl Default for Settings {
    /// No extension, no merging, dark-pixel threshold, ascending luminance.
    fn default() -> (s: Settings)
        ensures
            s == (Settings {
                threshold: Threshold::Luminance(900u16),
                threshold_reverse: false,
                ordering: PixelOrdering::Luminance,
                ordering_reverse: false,
                extend_threshold_left: 0usize,
                extend_threshold_right: 0usize,
                merge_limit: 0usize,
            }),
    {
        Settings {
            threshold: Threshold::Luminance(900),
            threshold_reverse: false,
            ordering: PixelOrdering::Luminance,
            ordering_reverse: false,
            extend_threshold_left: 0,
            extend_threshold_right: 0,
            merge_limit: 0,
        }
    }
}

impl PartialEq for Threshold {
    fn eq(&self, other: &Threshold) -> (r: bool)
    {
        match (self, other) {
            (Threshold::Luminance(a), Threshold::Luminance(b)) => *a == *b,
            (Threshold::ColorSimilarity(la, ca), Threshold::ColorSimilarity(lb, cb)) => {
                let colors_eq = ca[0] == cb[0] && ca[1] == cb[1] && ca[2] == cb[2];
                proof {
                    if colors_eq {
                        assert(*ca =~= *cb) by {
                            assert(ca@ =~= cb@);
                        }
                    }
                }
                *la == *lb && colors_eq
            },
            _ => false,
        }
    }
}

impl vstd::std_specs::cmp::PartialEqSpecImpl for Threshold {
    open spec fn obeys_eq_spec() -> bool {
        true
    }

    open spec fn eq_spec(&self, other: &Threshold) -> bool {
        *self == *other
    }
}

impl PartialEq for PixelOrdering {
    fn eq(&self, other: &PixelOrdering) -> (r: bool)
    {
        match (self, other) {
            (PixelOrdering::Luminance, PixelOrdering::Luminance) => true,
            (PixelOrdering::ColorSimilarity(ca), PixelOrdering::ColorSimilarity(cb)) => {
                let colors_eq = ca[0] == cb[0] && ca[1] == cb[1] && ca[2] == cb[2];
                proof {
                    if colors_eq {
                        assert(*ca =~= *cb) by {
                            assert(ca@ =~= cb@);
                        }
                    }
                }
                colors_eq
            },
            _ => false,
        }
    }
}

impl vstd::std_specs::cmp::PartialEqSpecImpl for PixelOrdering {
    open spec fn obeys_eq_spec() -> bool {
        true
    }

    open spec fn eq_spec(&self, other: &PixelOrdering) -> bool {
        *self == *other
    }
}

impl PartialEq for Settings {
    fn eq(&self, other: &Settings) -> (r: bool)
    {
        self.threshold == other.threshold && self.threshold_reverse == other.threshold_reverse
            && self.ordering == other.ordering && self.ordering_reverse == other.ordering_reverse
            && self.extend_threshold_left == other.extend_threshold_left
            && self.extend_threshold_right == other.extend_threshold_right
            && self.merge_limit == other.merge_limit
    }
}

impl vstd::std_specs::cmp::PartialEqSpecImpl for Settings {
    open spec fn obeys_eq_spec() -> bool {
        true
    }

    open spec fn eq_spec(&self, other: &Settings) -> bool {
        *self == *other
    }
}

} // verus!
