//! The per-row pipeline and the whole-image scheduler.

use vstd::prelude::*;
use crate::settings::Settings;
use crate::runs::{
    RowOp, lemma_row_runs_wf, ordered_runs, spec_row_runs, view_runs,
};
use crate::ordering::sorted_by_key;

verus! {

/// Whether index `i` lies inside one of `runs`.
pub open spec fn covered(runs: Seq<(int, int)>, i: int) -> bool {
    exists|k: int| 0 <= k < runs.len() && (#[trigger] runs[k]).0 <= i < runs[k].1
}

/// `out` is `orig` with the pixels inside each of the row's runs permuted
/// into key order, and every pixel outside the runs untouched.  The run
/// boundaries themselves are not changed by reordering: each run's span
/// holds a permutation of exactly the pixels that stood there.
pub open spec fn row_sorted(orig: Seq<[u8; 4]>, out: Seq<[u8; 4]>, s: Settings) -> bool {
    let runs = spec_row_runs(orig, s);
    &&& out.len() == orig.len()
    &&& forall|k: int|
        0 <= k < runs.len() ==> {
            let sub_out = out.subrange((#[trigger] runs[k]).0, runs[k].1);
            let sub_orig = orig.subrange(runs[k].0, runs[k].1);
            sub_out.to_multiset() == sub_orig.to_multiset() && sorted_by_key(
                s.ordering,
                s.ordering_reverse,
                sub_out,
            )
        }
    &&& forall|i: int| 0 <= i < orig.len() && !covered(runs, i) ==> out[i] == orig[i]
}

/// In an ordered run list, every run ends at or before any later run starts.
proof fn lemma_ordered_runs_chain(runs: Seq<(int, int)>, w: int, m: int, k: int)
    requires
        ordered_runs(runs, w),
        0 <= m < k < runs.len(),
    ensures
        runs[m].1 <= runs[k].0,
    decreases k - m,
{
    if m + 1 < k {
        lemma_ordered_runs_chain(runs, w, m + 1, k);
    }
}

/// Run one row through the pipeline: compute the run list, then reorder the
/// pixels inside each run, leaving all other pixels untouched.
pub fn process_row(row: &Vec<[u8; 4]>, settings: &Settings) -> (out: Vec<[u8; 4]>)
    ensures
        out@.len() == row@.len(),
        row_sorted(row@, out@, *settings),
{
    let ghost runs_s = spec_row_runs(row@, *settings);
    let ghost width = row@.len() as int;
    proof {
        lemma_row_runs_wf(row@, *settings);
    }
    let mut op = RowOp::new();
    op.apply_threshold(row, settings);

    let mut out: Vec<[u8; 4]> = Vec::new();
    let mut i: usize = 0;
    while i < row.len()
        invariant
            i <= row@.len(),
            out@ == row@.take(i as int),
        decreases row@.len() - i,
    {
        out.push(row[i]);
        proof {
            assert(out@ =~= row@.take(i + 1));
        }
        i = i + 1;
    }
    proof {
        assert(out@ =~= row@);
    }

    let nruns = op.slices.len();
    let mut k: usize = 0;
    while k < nruns
        invariant
            k <= nruns,
            nruns == op.slices@.len(),
            view_runs(op.slices@) == runs_s,
            runs_s == spec_row_runs(row@, *settings),
            ordered_runs(runs_s, width),
            width == row@.len() as int,
            out@.len() == row@.len(),
            forall|m: int|
                0 <= m < k ==> {
                    let sub_out = out@.subrange((#[trigger] runs_s[m]).0, runs_s[m].1);
                    let sub_orig = row@.subrange(runs_s[m].0, runs_s[m].1);
                    sub_out.to_multiset() == sub_orig.to_multiset() && sorted_by_key(
                        settings.ordering,
                        settings.ordering_reverse,
                        sub_out,
                    )
                },
            forall|i: int|
                0 <= i < row@.len() && !covered(runs_s.take(k as int), i) ==> out@[i] == row@[i],
        decreases nruns - k,
    {
        let (s, e) = op.slices[k];
        proof {
            assert(runs_s[k as int] == (s as int, e as int));
            assert(0 <= s < e <= row@.len());
        }

        // the pixels of this run, straight from the source row
        let mut sub: Vec<[u8; 4]> = Vec::new();
        let mut j: usize = s;
        while j < e
            invariant
                s <= j <= e,
                e <= row@.len(),
                sub@ == row@.subrange(s as int, j as int),
            decreases e - j,
        {
            sub.push(row[j]);
            proof {
                assert(sub@ =~= row@.subrange(s as int, j + 1));
            }
            j = j + 1;
        }

        let sorted = settings.ordering.order_pixels(sub, settings.ordering_reverse);
        let ghost before = out@;

        // write the reordered pixels back into the run's span
        let mut j: usize = 0;
        while j < e - s
            invariant
                j <= e - s,
                s < e <= row@.len(),
                sorted@.len() == e - s,
                out@.len() == row@.len(),
                forall|i: int| 0 <= i < row@.len() && !(s <= i < s + j) ==> out@[i] == before[i],
                forall|i: int| s <= i < s + j ==> out@[i] == sorted@[i - s],
            decreases e - s - j,
        {
            out.set(s + j, sorted[j]);
            j = j + 1;
        }

        proof {
            // this run now holds the reordered pixels
            assert(out@.subrange(s as int, e as int) =~= sorted@);
            assert(sub@ =~= row@.subrange(s as int, e as int));
            // earlier runs end before this one starts, so they are untouched
            assert forall|m: int| 0 <= m < k + 1 implies {
                let sub_out = out@.subrange((#[trigger] runs_s[m]).0, runs_s[m].1);
                let sub_orig = row@.subrange(runs_s[m].0, runs_s[m].1);
                sub_out.to_multiset() == sub_orig.to_multiset() && sorted_by_key(
                    settings.ordering,
                    settings.ordering_reverse,
                    sub_out,
                )
            } by {
                if m < k {
                    lemma_ordered_runs_chain(runs_s, width, m, k as int);
                    assert(0 <= runs_s[m].0 < runs_s[m].1 <= s);
                    assert(out@.subrange(runs_s[m].0, runs_s[m].1) =~= before.subrange(
                        runs_s[m].0,
                        runs_s[m].1,
                    ));
                }
            }
            // indices outside the first k + 1 runs are still untouched
            assert forall|i: int|
                0 <= i < row@.len() && !covered(runs_s.take(k + 1), i) implies out@[i]
                == row@[i] by {
                assert(runs_s.take(k + 1)[k as int] == runs_s[k as int]);
                assert(!(s <= i < e));
                if covered(runs_s.take(k as int), i) {
                    let m = choose|m: int|
                        0 <= m < k && (#[trigger] runs_s.take(k as int)[m]).0 <= i < runs_s.take(
                            k as int,
                        )[m].1;
                    assert(runs_s.take(k + 1)[m] == runs_s.take(k as int)[m]);
                }
            }
        }
        k = k + 1;
    }
    proof {
        assert(runs_s.take(nruns as int) =~= runs_s);
    }
    out
}

/// Row `r` of a row-major pixel buffer whose rows are `w` pixels wide.
pub open spec fn spec_row(buf: Seq<[u8; 4]>, w: int, r: int) -> Seq<[u8; 4]> {
    buf.subrange(r * w, (r + 1) * w)
}

/// Every row of `out` is the corresponding row of `src` run through the
/// per-row pipeline.
pub open spec fn image_sorted(src: Seq<[u8; 4]>, out: Seq<[u8; 4]>, w: int, s: Settings) -> bool {
    &&& out.len() == src.len()
    &&& forall|r: int|
        0 <= r < src.len() as int / w ==> row_sorted(#[trigger] spec_row(src, w, r), spec_row(out, w, r), s)
}

/// The scheduler: decide whether the settings changed, and if so recompute
/// the whole destination buffer from the untouched source.
///
/// When `settings` equals the last applied snapshot, this is an idempotent
/// no-op: the destination keeps its bytes and no row is reprocessed.
/// Otherwise every row of `source` is run through the pipeline and the
/// result replaces `destination` wholesale, so runs computed on one
/// settings snapshot never compound onto a previous sort.
pub fn apply_sort(
    source: &Vec<[u8; 4]>,
    destination: &mut Vec<[u8; 4]>,
    width: usize,
    settings: &Settings,
    last_settings: &Settings,
) -> (changed: bool)
    requires
        width > 0,
        source@.len() as int % (width as int) == 0,
    ensures
        *settings == *last_settings ==> !changed && final(destination)@ == old(destination)@,
        *settings != *last_settings ==> changed && image_sorted(
            source@,
            final(destination)@,
            width as int,
            *settings,
        ),
{
    if *settings == *last_settings {
        return false;
    }

    let ghost w = width as int;
    let height = source.len() / width;
    proof {
        vstd::arithmetic::div_mod::lemma_fundamental_div_mod(source@.len() as int, w);
        assert(source@.len() as int == w * height);
    }

    let mut out: Vec<[u8; 4]> = Vec::new();
    let mut r: usize = 0;
    while r < height
        invariant
            r <= height,
            w == width as int,
            width > 0,
            source@.len() as int == w * height,
            source@.len() <= usize::MAX,
            out@.len() == r * w,
            forall|m: int|
                0 <= m < r ==> row_sorted(
                    #[trigger] spec_row(source@, w, m),
                    spec_row(out@, w, m),
                    *settings,
                ),
        decreases height - r,
    {
        proof {
            assert((r + 1) * w <= height * w) by (nonlinear_arith)
                requires
                    r < height,
                    w > 0,
            ;
            assert(r * w + w == (r + 1) * w) by (nonlinear_arith);
            assert(height * w == w * height) by (nonlinear_arith);
            assert(r * w + w <= source@.len() as int);
        }
        let row_start = r * width;

        let mut rowv: Vec<[u8; 4]> = Vec::new();
        let mut j: usize = 0;
        while j < width
            invariant
                j <= width,
                row_start + width <= source@.len(),
                source@.len() <= usize::MAX,
                rowv@ == source@.subrange(row_start as int, row_start + j),
            decreases width - j,
        {
            rowv.push(source[row_start + j]);
            proof {
                assert(rowv@ =~= source@.subrange(row_start as int, row_start + j + 1));
            }
            j = j + 1;
        }

        let sorted_row = process_row(&rowv, settings);

        let ghost out_before = out@;
        let mut j: usize = 0;
        while j < width
            invariant
                j <= width,
                sorted_row@.len() == width,
                out@ == out_before + sorted_row@.take(j as int),
            decreases width - j,
        {
            out.push(sorted_row[j]);
            proof {
                assert(out@ =~= out_before + sorted_row@.take(j + 1));
            }
            j = j + 1;
        }

        proof {
            assert(out@ =~= out_before + sorted_row@);
            assert(out@.subrange(r * w, r * w + w) =~= sorted_row@);
            assert(rowv@ =~= source@.subrange(r * w, r * w + w));
            assert forall|m: int|
                0 <= m < r + 1 implies row_sorted(
                #[trigger] spec_row(source@, w, m),
                spec_row(out@, w, m),
                *settings,
            ) by {
                if m < r {
                    assert((m + 1) * w <= r * w) by (nonlinear_arith)
                        requires
                            m < r,
                            w > 0,
                    ;
                    assert(0 <= m * w) by (nonlinear_arith)
                        requires
                            0 <= m,
                            w > 0,
                    ;
                    assert(m * w + w == (m + 1) * w) by (nonlinear_arith);
                    assert(spec_row(out@, w, m) =~= spec_row(out_before, w, m));
                } else {
                    assert(spec_row(out@, w, m) =~= sorted_row@);
                    assert(spec_row(source@, w, m) =~= rowv@);
                }
            }
        }
        r = r + 1;
    }
    proof {
        assert(height * w == w * height) by (nonlinear_arith);
        assert(out@.len() == source@.len());
        vstd::arithmetic::div_mod::lemma_fundamental_div_mod(source@.len() as int, w);
        assert(source@.len() as int / w == height) by (nonlinear_arith)
            requires
                w > 0,
                source@.len() as int == w * height,
        ;
    }
    *destination = out;
    true
}

} // verus!
