//! Reordering the pixels inside one run by the configured sort key.

use vstd::prelude::*;
use crate::settings::{PixelOrdering, spec_key};
use itertools::Itertools;

verus! {

/// `s` is sorted by the keys of rule `o`: non-decreasing, or non-increasing
/// when `reverse` is set.  Equal-key pixels may stand in any order.
pub open spec fn sorted_by_key(o: PixelOrdering, reverse: bool, s: Seq<[u8; 4]>) -> bool {
    if !reverse {
        forall|i: int, j: int|
            0 <= i <= j < s.len() ==> spec_key(o, s[i]) <= spec_key(o, s[j])
    } else {
        forall|i: int, j: int|
            0 <= i <= j < s.len() ==> spec_key(o, s[i]) >= spec_key(o, s[j])
    }
}

/// The bytes of a pixel sequence, four per pixel, in order.
pub open spec fn flatten_pixels(s: Seq<[u8; 4]>) -> Seq<u8> {
    Seq::new(s.len() * 4, |j: int| s[j / 4][j % 4])
}

/// Relies on itertools' `sorted_unstable_by_key`, which collects the items
/// into a vector and sorts it with `slice::sort_unstable_by_key`: the result
/// holds exactly the input items, ordered non-decreasingly by key.
#[verifier::external_body]
fn sort_by_key(ordering: &PixelOrdering, pixels: Vec<[u8; 4]>) -> (r: Vec<[u8; 4]>)
    ensures
        r@.to_multiset() == pixels@.to_multiset(),
        r@.len() == pixels@.len(),
        sorted_by_key(*ordering, false, r@),
{
    pixels.into_iter().sorted_unstable_by_key(|p: &[u8; 4]| ordering.key_of(p)).collect()
}

/// A copy of `pixels` in reverse order.
fn reverse_pixels(pixels: Vec<[u8; 4]>) -> (r: Vec<[u8; 4]>)
    ensures
        r@ == pixels@.reverse(),
{
    let n = pixels.len();
    let mut r: Vec<[u8; 4]> = Vec::new();
    let mut i: usize = 0;
    while i < n
        invariant
            i <= n,
            n == pixels@.len(),
            r@.len() == i,
            forall|j: int| 0 <= j < i ==> r@[j] == pixels@[n - 1 - j],
        decreases n - i,
    {
        r.push(pixels[n - 1 - i]);
        i = i + 1;
    }
    proof {
        assert(r@ =~= pixels@.reverse());
    }
    r
}

impl PixelOrdering {
    /// The pixels of one run, permuted so that this rule's key is
    /// non-decreasing — non-increasing when `reverse` is set.
    pub fn order_pixels(&self, pixels: Vec<[u8; 4]>, reverse: bool) -> (out: Vec<[u8; 4]>)
        ensures
            out@.len() == pixels@.len(),
            out@.to_multiset() == pixels@.to_multiset(),
            sorted_by_key(*self, reverse, out@),
    {
        let sorted = sort_by_key(self, pixels);
        if reverse {
            let ghost ss = sorted@;
            let r = reverse_pixels(sorted);
            proof {
                ss.lemma_reverse_to_multiset();
                assert forall|i: int, j: int| 0 <= i <= j < r@.len() implies spec_key(
                    *self,
                    r@[i],
                ) >= spec_key(*self, r@[j]) by {
                    assert(r@[i] == ss[ss.len() - 1 - i]);
                    assert(r@[j] == ss[ss.len() - 1 - j]);
                }
            }
            r
        } else {
            sorted
        }
    }

    /// The pixels of one run as flat bytes, permuted so that this rule's key
    /// is non-decreasing — non-increasing when `reverse` is set.
    pub fn order(&self, pixels: Vec<[u8; 4]>, reverse: bool) -> (out: Vec<u8>)
        ensures
            out@.len() == pixels@.len() * 4,
            exists|s: Seq<[u8; 4]>|
                s.to_multiset() == pixels@.to_multiset() && #[trigger] sorted_by_key(
                    *self,
                    reverse,
                    s,
                ) && out@ == flatten_pixels(s),
    {
        let ghost orig = pixels@;
        let sorted = self.order_pixels(pixels, reverse);
        let ghost s = sorted@;
        let mut out: Vec<u8> = Vec::new();
        let mut i: usize = 0;
        while i < sorted.len()
            invariant
                i <= s.len(),
                s == sorted@,
                out@.len() == i * 4,
                forall|j: int| 0 <= j < out@.len() ==> out@[j] == s[j / 4][j % 4],
            decreases s.len() - i,
        {
            let p = sorted[i];
            out.push(p[0]);
            out.push(p[1]);
            out.push(p[2]);
            out.push(p[3]);
            i = i + 1;
        }
        proof {
            assert(out@ =~= flatten_pixels(s));
            assert(s.to_multiset() == orig.to_multiset() && sorted_by_key(*self, reverse, s)
                && out@ == flatten_pixels(s));
        }
        out
    }
}

/// Round trip: a run sorted ascending by a rule's key and then sorted again
/// descending by the same key is a non-increasing arrangement of the
/// original pixels — the same pixels, though not necessarily the original
/// byte-for-byte order, since equal-key pixels may stand in any order.
pub proof fn lemma_order_round_trip(
    o: PixelOrdering,
    before: Seq<[u8; 4]>,
    ascending: Seq<[u8; 4]>,
    descending: Seq<[u8; 4]>,
)
    requires
        ascending.to_multiset() == before.to_multiset(),
        sorted_by_key(o, false, ascending),
        descending.to_multiset() == ascending.to_multiset(),
        sorted_by_key(o, true, descending),
    ensures
        descending.to_multiset() == before.to_multiset(),
        sorted_by_key(o, true, descending),
{
}

} // verus!
