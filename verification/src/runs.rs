//! Per-row run segmentation: threshold classification, extraction of the
//! maximal selected runs, run extension, and run merging.
//!
//! A run is a half-open interval `(start, end)` of pixel indices within one
//! row.  The specification-level transforms work on `Seq<(int, int)>`; the
//! executable code works on `Vec<(usize, usize)>` and is related to the
//! specification through [`view_runs`].

use vstd::prelude::*;
use crate::settings::{Settings, Threshold, spec_below};

verus! {

/// The mathematical view of an executable run list.
pub open spec fn view_runs(s: Seq<(usize, usize)>) -> Seq<(int, int)> {
    s.map_values(|r: (usize, usize)| (r.0 as int, r.1 as int))
}

/// The boolean mask of one row: entry `i` says whether pixel `i`'s metric is
/// below the threshold rule's limit.
pub open spec fn spec_mask(row: Seq<[u8; 4]>, t: Threshold) -> Seq<bool> {
    Seq::new(row.len(), |i: int| spec_below(t, row[i]))
}

/// The maximal runs of mask entries that differ from `reverse`, in order,
/// each as a half-open interval of indices.
pub open spec fn spec_runs(mask: Seq<bool>, reverse: bool) -> Seq<(int, int)>
    decreases mask.len(),
{
    if mask.len() == 0 {
        Seq::<(int, int)>::empty()
    } else {
        let prefix = spec_runs(mask.drop_last(), reverse);
        let i = mask.len() - 1;
        if mask.last() != reverse {
            if prefix.len() > 0 && prefix.last().1 == i {
                prefix.update(prefix.len() - 1, (prefix.last().0, i + 1))
            } else {
                prefix.push((i, i + 1))
            }
        } else {
            prefix
        }
    }
}

/// Runs are strictly increasing, non-overlapping, and lie within a row of
/// width `w`.
pub open spec fn ordered_runs(runs: Seq<(int, int)>, w: int) -> bool {
    &&& forall|k: int| 0 <= k < runs.len() ==> 0 <= (#[trigger] runs[k]).0 < runs[k].1 <= w
    &&& forall|k: int| 0 <= k < runs.len() - 1 ==> (#[trigger] runs[k]).1 <= runs[k + 1].0
}

/// As [`ordered_runs`], with at least one unselected index between
/// consecutive runs (maximality of the extracted runs).
pub open spec fn gapped_runs(runs: Seq<(int, int)>, w: int) -> bool {
    &&& forall|k: int| 0 <= k < runs.len() ==> 0 <= (#[trigger] runs[k]).0 < runs[k].1 <= w
    &&& forall|k: int| 0 <= k < runs.len() - 1 ==> (#[trigger] runs[k]).1 < runs[k + 1].0
}

/// Classify one row of pixels against the threshold rule.
pub fn classify(row: &Vec<[u8; 4]>, threshold: &Threshold) -> (mask: Vec<bool>)
    ensures
        mask@ == spec_mask(row@, *threshold),
{
    let mut mask: Vec<bool> = Vec::new();
    let mut i: usize = 0;
    while i < row.len()
        invariant
            i <= row@.len(),
            mask@.len() == i,
            forall|j: int| 0 <= j < i ==> mask@[j] == spec_below(*threshold, row@[j]),
        decreases row@.len() - i,
    {
        mask.push(threshold.below(&row[i]));
        i = i + 1;
    }
    proof {
        assert(mask@ =~= spec_mask(row@, *threshold));
    }
    mask
}

/// Extract the maximal runs of mask entries that differ from `reverse`.
pub fn extract_runs(mask: &Vec<bool>, reverse: bool) -> (runs: Vec<(usize, usize)>)
    ensures
        view_runs(runs@) == spec_runs(mask@, reverse),
{
    let mut runs: Vec<(usize, usize)> = Vec::new();
    let mut i: usize = 0;
    while i < mask.len()
        invariant
            i <= mask@.len(),
            view_runs(runs@) == spec_runs(mask@.take(i as int), reverse),
        decreases mask@.len() - i,
    {
        let ghost prefix = spec_runs(mask@.take(i as int), reverse);
        if mask[i] != reverse {
            let n = runs.len();
            if n > 0 && runs[n - 1].1 == i {
                let start = runs[n - 1].0;
                runs.set(n - 1, (start, i + 1));
                proof {
                    assert(view_runs(runs@) =~= prefix.update(
                        prefix.len() - 1,
                        (prefix.last().0, i + 1),
                    ));
                }
            } else {
                runs.push((i, i + 1));
                proof {
                    assert(view_runs(runs@) =~= prefix.push((i as int, i + 1)));
                }
            }
        }
        proof {
            assert(mask@.take(i + 1).drop_last() =~= mask@.take(i as int));
            assert(mask@.take(i + 1).last() == mask@[i as int]);
            assert(view_runs(runs@) =~= spec_runs(mask@.take(i + 1), reverse));
        }
        i = i + 1;
    }
    proof {
        assert(mask@.take(i as int) =~= mask@);
    }
    runs
}

/// The extended start of run `i`: moved left by `left`, clamped at 0 and at
/// the previous run's start.
pub open spec fn ext_start(runs: Seq<(int, int)>, i: int, left: int) -> int {
    let base = if runs[i].0 - left > 0 { runs[i].0 - left } else { 0 };
    if i > 0 && runs[i - 1].0 > base { runs[i - 1].0 } else { base }
}

/// The extended end of run `i`: moved right by `right`, clamped at the next
/// run's end, or at the row width for the last run.
pub open spec fn ext_end(runs: Seq<(int, int)>, i: int, right: int, w: int) -> int {
    let cap = if i + 1 < runs.len() { runs[i + 1].1 } else { w };
    if runs[i].1 + right < cap { runs[i].1 + right } else { cap }
}

/// Widen every run by the configured margins, each against its
/// pre-extension neighbors (one pass, not iterative).
pub open spec fn spec_extend(runs: Seq<(int, int)>, left: int, right: int, w: int) -> Seq<
    (int, int),
> {
    Seq::new(runs.len(), |i: int| (ext_start(runs, i, left), ext_end(runs, i, right, w)))
}

/// Merge each run into the previous output run when the gap between them is
/// at most `limit`; merging extends the previous run's end.
pub open spec fn spec_merge(runs: Seq<(int, int)>, limit: int) -> Seq<(int, int)>
    decreases runs.len(),
{
    if runs.len() == 0 {
        Seq::<(int, int)>::empty()
    } else {
        let prev = spec_merge(runs.drop_last(), limit);
        let cur = runs.last();
        if prev.len() > 0 && cur.0 <= prev.last().1 + limit {
            prev.update(prev.len() - 1, (prev.last().0, cur.1))
        } else {
            prev.push(cur)
        }
    }
}

/// The run list of one row under `s`: classify, extract, extend, merge.
pub open spec fn spec_row_runs(row: Seq<[u8; 4]>, s: Settings) -> Seq<(int, int)> {
    spec_merge(
        spec_extend(
            spec_runs(spec_mask(row, s.threshold), s.threshold_reverse),
            s.extend_threshold_left as int,
            s.extend_threshold_right as int,
            row.len() as int,
        ),
        s.merge_limit as int,
    )
}

/// The run list of one row, computed step by step and stored in `slices`.
#[derive(Debug)]
pub struct RowOp {
    pub slices: Vec<(usize, usize)>,
}

impl RowOp {
    /// An empty run list.
    pub fn new() -> (op: RowOp)
        ensures
            op.slices@.len() == 0,
    {
        RowOp { slices: Vec::new() }
    }

    /// Append one run.
    pub fn add_slice(&mut self, slice: (usize, usize))
        ensures
            final(self).slices@ == old(self).slices@.push(slice),
    {
        self.slices.push(slice);
    }

    /// Widen every run by the settings' margins, clamped against the row
    /// bounds and the pre-extension neighbors.
    pub fn extend_slices(&mut self, settings: &Settings, row_length: usize)
        ensures
            view_runs(final(self).slices@) == spec_extend(
                view_runs(old(self).slices@),
                settings.extend_threshold_left as int,
                settings.extend_threshold_right as int,
                row_length as int,
            ),
    {
        let ghost orig = view_runs(self.slices@);
        let left = settings.extend_threshold_left;
        let right = settings.extend_threshold_right;
        let n = self.slices.len();
        let mut out: Vec<(usize, usize)> = Vec::new();
        let mut i: usize = 0;
        while i < n
            invariant
                i <= n,
                n == self.slices@.len(),
                orig == view_runs(self.slices@),
                left == settings.extend_threshold_left,
                right == settings.extend_threshold_right,
                out@.len() == i,
                forall|k: int|
                    0 <= k < i ==> (#[trigger] out@[k]).0 == ext_start(orig, k, left as int)
                        && out@[k].1 == ext_end(orig, k, right as int, row_length as int),
            decreases n - i,
        {
            let (s, e) = self.slices[i];
            let cap: usize = if i + 1 < n {
                self.slices[i + 1].1
            } else {
                row_length
            };
            let end: usize = if cap > e && right < cap - e {
                e + right
            } else {
                cap
            };
            let base: usize = if s > left {
                s - left
            } else {
                0
            };
            let start: usize = if i > 0 && self.slices[i - 1].0 > base {
                self.slices[i - 1].0
            } else {
                base
            };
            assert(start == ext_start(orig, i as int, left as int));
            assert(end == ext_end(orig, i as int, right as int, row_length as int));
            out.push((start, end));
            i = i + 1;
        }
        self.slices = out;
        proof {
            assert(view_runs(self.slices@) =~= spec_extend(
                orig,
                left as int,
                right as int,
                row_length as int,
            ));
        }
    }

    /// Merge adjacent runs whose gap is at most the settings' merge limit.
    pub fn merge_slice(&mut self, settings: &Settings)
        ensures
            view_runs(final(self).slices@) == spec_merge(
                view_runs(old(self).slices@),
                settings.merge_limit as int,
            ),
    {
        let ghost orig = view_runs(self.slices@);
        let limit = settings.merge_limit;
        let n = self.slices.len();
        let mut out: Vec<(usize, usize)> = Vec::new();
        let mut i: usize = 0;
        while i < n
            invariant
                i <= n,
                n == self.slices@.len(),
                orig == view_runs(self.slices@),
                limit == settings.merge_limit,
                view_runs(out@) == spec_merge(orig.take(i as int), limit as int),
            decreases n - i,
        {
            let ghost prev = spec_merge(orig.take(i as int), limit as int);
            let (s, e) = self.slices[i];
            let m = out.len();
            if m > 0 && (s <= out[m - 1].1 || s - out[m - 1].1 <= limit) {
                let start = out[m - 1].0;
                out.set(m - 1, (start, e));
                proof {
                    assert(view_runs(out@) =~= prev.update(
                        prev.len() - 1,
                        (prev.last().0, e as int),
                    ));
                }
            } else {
                out.push((s, e));
                proof {
                    assert(view_runs(out@) =~= prev.push((s as int, e as int)));
                }
            }
            proof {
                assert(orig.take(i + 1).drop_last() =~= orig.take(i as int));
                assert(orig.take(i + 1).last() == orig[i as int]);
                assert(view_runs(out@) =~= spec_merge(orig.take(i + 1), limit as int));
            }
            i = i + 1;
        }
        self.slices = out;
        proof {
            assert(orig.take(n as int) =~= orig);
        }
    }

    /// Compute the whole run list of one row: classify every pixel against
    /// the threshold rule, extract the maximal selected runs, widen them by
    /// the extension margins, and merge runs separated by small gaps.
    pub fn apply_threshold(&mut self, row: &Vec<[u8; 4]>, settings: &Settings)
        requires
            old(self).slices@.len() == 0,
        ensures
            view_runs(final(self).slices@) == spec_row_runs(row@, *settings),
    {
        let mask = classify(row, &settings.threshold);
        let runs = extract_runs(&mask, settings.threshold_reverse);
        self.slices = runs;
        self.extend_slices(settings, row.len());
        self.merge_slice(settings);
    }
}

/// Extracted run lists are strictly increasing and non-overlapping, every
/// run lies within the row, and consecutive runs are separated by at least
/// one unselected index.
pub proof fn lemma_extracted_runs_wf(mask: Seq<bool>, reverse: bool)
    ensures
        gapped_runs(spec_runs(mask, reverse), mask.len() as int),
    decreases mask.len(),
{
    if mask.len() == 0 {
    } else {
        let prefix = spec_runs(mask.drop_last(), reverse);
        let i = mask.len() - 1;
        lemma_extracted_runs_wf(mask.drop_last(), reverse);
        assert(gapped_runs(prefix, i));
        let out = spec_runs(mask, reverse);
        if mask.last() != reverse {
            if prefix.len() > 0 && prefix.last().1 == i {
                assert(out == prefix.update(prefix.len() - 1, (prefix.last().0, i + 1)));
                assert forall|k: int| 0 <= k < out.len() implies 0 <= (#[trigger] out[k]).0
                    < out[k].1 <= mask.len() by {
                    assert(0 <= prefix[k].0 < prefix[k].1 <= i);
                }
            } else {
                assert(out == prefix.push((i, i + 1)));
                if prefix.len() > 0 {
                    assert(prefix.last().1 <= i);
                }
            }
        }
    }
}

/// A uniform mask yields either no run at all or a single run spanning the
/// whole row, depending on whether its value matches the selection polarity.
pub proof fn lemma_uniform_mask_runs(mask: Seq<bool>, reverse: bool, b: bool)
    requires
        forall|i: int| 0 <= i < mask.len() ==> mask[i] == b,
    ensures
        (mask.len() == 0 || b == reverse) ==> spec_runs(mask, reverse) =~= Seq::<
            (int, int),
        >::empty(),
        (mask.len() > 0 && b != reverse) ==> spec_runs(mask, reverse) =~= seq![
            (0int, mask.len() as int),
        ],
    decreases mask.len(),
{
    if mask.len() == 0 {
    } else {
        lemma_uniform_mask_runs(mask.drop_last(), reverse, b);
        assert(mask.last() == b);
        if b != reverse {
            if mask.len() == 1 {
                assert(spec_runs(mask, reverse) =~= seq![(0int, 1int)]);
            } else {
                let prefix = spec_runs(mask.drop_last(), reverse);
                assert(prefix =~= seq![(0int, mask.len() - 1)]);
                assert(prefix.last().1 == mask.len() - 1);
                assert(spec_runs(mask, reverse) =~= seq![(0int, mask.len() as int)]);
            }
        }
    }
}

/// Runs are nonempty, lie within a row of width `w`, and have non-decreasing
/// starts and non-decreasing ends.  This is what extension guarantees, and
/// all that merging needs.
pub open spec fn shaped_runs(runs: Seq<(int, int)>, w: int) -> bool {
    &&& forall|k: int| 0 <= k < runs.len() ==> 0 <= (#[trigger] runs[k]).0 < runs[k].1 <= w
    &&& forall|k: int|
        0 <= k < runs.len() - 1 ==> (#[trigger] runs[k]).0 <= runs[k + 1].0 && runs[k].1 <= runs[k
            + 1].1
}

/// Extension keeps every run nonempty and in bounds, and keeps starts and
/// ends non-decreasing.  (Extension alone may make neighboring runs overlap
/// when the margins exceed the gap between them; the merge pass that always
/// follows restores non-overlap.)
pub proof fn lemma_extend_shape(runs: Seq<(int, int)>, left: int, right: int, w: int)
    requires
        ordered_runs(runs, w),
        left >= 0,
        right >= 0,
    ensures
        spec_extend(runs, left, right, w).len() == runs.len(),
        shaped_runs(spec_extend(runs, left, right, w), w),
{
    let out = spec_extend(runs, left, right, w);
    assert forall|k: int| 0 <= k < out.len() implies 0 <= (#[trigger] out[k]).0 < out[k].1
        <= w by {
        assert(0 <= runs[k].0 < runs[k].1 <= w);
        if k > 0 {
            assert(runs[k - 1].1 <= runs[k].0);
            assert(0 <= runs[k - 1].0 < runs[k - 1].1);
        }
        if k + 1 < runs.len() {
            assert(runs[k].1 <= runs[k + 1].0);
            assert(runs[k + 1].0 < runs[k + 1].1 <= w);
        }
    }
    assert forall|k: int| 0 <= k < out.len() - 1 implies (#[trigger] out[k]).0 <= out[k + 1].0
        && out[k].1 <= out[k + 1].1 by {
        assert(0 <= runs[k].0 < runs[k].1 <= w);
        assert(runs[k].1 <= runs[k + 1].0);
        assert(runs[k + 1].0 < runs[k + 1].1 <= w);
        // the start of run k never moves past the original start of run k,
        // and the start of run k + 1 never moves before it
        assert(out[k].0 <= runs[k].0);
        assert(out[k + 1].0 >= runs[k].0);
        // the end of run k is capped by the end of run k + 1, which the
        // extended end of run k + 1 never drops below
        if k + 2 < runs.len() {
            assert(runs[k + 1].1 <= runs[k + 2].0 < runs[k + 2].1);
        }
        assert(out[k].1 <= runs[k + 1].1);
        assert(out[k + 1].1 >= runs[k + 1].1);
    }
}

/// Merging a shaped run list yields runs that are nonempty, in bounds, and
/// separated by gaps strictly greater than the merge limit; the run count
/// never grows, and the last end is preserved.
pub proof fn lemma_merge_wf(runs: Seq<(int, int)>, limit: int, w: int)
    requires
        shaped_runs(runs, w),
        limit >= 0,
    ensures
        ({
            let out = spec_merge(runs, limit);
            &&& forall|k: int| 0 <= k < out.len() ==> 0 <= (#[trigger] out[k]).0 < out[k].1 <= w
            &&& forall|k: int|
                0 <= k < out.len() - 1 ==> (#[trigger] out[k]).1 + limit < out[k + 1].0
            &&& out.len() <= runs.len()
            &&& runs.len() > 0 ==> out.len() > 0 && out.last().1 == runs.last().1
                && out.last().0 <= runs.last().0
        }),
    decreases runs.len(),
{
    if runs.len() == 0 {
    } else {
        let head = runs.drop_last();
        let cur = runs.last();
        assert(shaped_runs(head, w));
        lemma_merge_wf(head, limit, w);
        let prev = spec_merge(head, limit);
        if runs.len() > 1 {
            assert(head.last() == runs[runs.len() - 2]);
            assert(runs[runs.len() - 2].0 <= cur.0 && runs[runs.len() - 2].1 <= cur.1);
        }
        let out = spec_merge(runs, limit);
        if prev.len() > 0 && cur.0 <= prev.last().1 + limit {
            assert(out == prev.update(prev.len() - 1, (prev.last().0, cur.1)));
        } else {
            assert(out == prev.push(cur));
        }
    }
}

/// After extension and merging, any strictly increasing, non-overlapping run
/// list is still strictly increasing and non-overlapping — consecutive runs
/// even keep gaps strictly greater than the merge limit — and the run count
/// has not grown.
pub proof fn lemma_extend_merge_wf(
    runs: Seq<(int, int)>,
    left: int,
    right: int,
    w: int,
    limit: int,
)
    requires
        ordered_runs(runs, w),
        left >= 0,
        right >= 0,
        limit >= 0,
    ensures
        ({
            let out = spec_merge(spec_extend(runs, left, right, w), limit);
            &&& ordered_runs(out, w)
            &&& forall|k: int|
                0 <= k < out.len() - 1 ==> (#[trigger] out[k]).1 + limit < out[k + 1].0
            &&& out.len() <= runs.len()
        }),
{
    lemma_extend_shape(runs, left, right, w);
    lemma_merge_wf(spec_extend(runs, left, right, w), limit, w);
}

/// The run list computed for a row is strictly increasing, non-overlapping,
/// and within the row's bounds.
pub proof fn lemma_row_runs_wf(row: Seq<[u8; 4]>, s: Settings)
    ensures
        ordered_runs(spec_row_runs(row, s), row.len() as int),
{
    let mask = spec_mask(row, s.threshold);
    lemma_extracted_runs_wf(mask, s.threshold_reverse);
    let extracted = spec_runs(mask, s.threshold_reverse);
    assert(ordered_runs(extracted, row.len() as int));
    lemma_extend_merge_wf(
        extracted,
        s.extend_threshold_left as int,
        s.extend_threshold_right as int,
        row.len() as int,
        s.merge_limit as int,
    );
}

} // verus!
