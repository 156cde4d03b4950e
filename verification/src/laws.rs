//! The library-wide guarantees, stated and proved over the model.

use vstd::prelude::*;

use crate::lemmas::lemma_candidates_from_fields;
use crate::lemmas::lemma_distance_keep_gaps;
use crate::lemmas::lemma_distance_keep_sorted;
use crate::lemmas::lemma_distance_stage_elems;
use crate::lemmas::lemma_height_stage_heights;
use crate::lemmas::lemma_plateau_stage_elems;
use crate::lemmas::lemma_prominence_stage_heights;
use crate::lemmas::lemma_sort_ranked_elems;
use crate::lemmas::lemma_sort_ranked_multiset;
use crate::lemmas::lemma_sort_ranked_sorted;
use crate::model::candidates;
use crate::model::distance_keep;
use crate::model::gap;
use crate::model::limits_empty;
use crate::model::mid_of;
use crate::model::ranked_sorted;
use crate::model::find_peaks_spec;
use crate::model::height_ok;
use crate::model::height_stage;
use crate::model::in_limits;
use crate::model::plateau_stage;
use crate::model::sort_ranked;
use crate::model::survivors;
use crate::model::FinderModel;
use crate::model::LimitsModel;
use crate::model::PeakModel;

verus! {

/// Every local-maximum candidate, before any further filtering, carries a
/// `left_diff` and a `right_diff` that lie inside the difference range it
/// was extracted under, and no height or prominence yet.
pub proof fn lemma_candidate_diffs(y: Seq<i64>, diff: LimitsModel, k: int)
    requires
        0 <= k < candidates(y, diff).len(),
    ensures
        in_limits(diff, candidates(y, diff)[k].left_diff),
        in_limits(diff, candidates(y, diff)[k].right_diff),
        candidates(y, diff)[k].height is None,
        candidates(y, diff)[k].prominence is None,
{
    if y.len() >= 2 {
        lemma_candidates_from_fields(y, diff, 2, y[1] - y[0], None);
    }
}

/// Every local-maximum candidate spans a flat run of samples, strictly
/// inside the data, and its `left_diff` and `right_diff` are exactly the
/// plateau value minus its nearest differing neighbour on that side.
pub proof fn lemma_candidate_plateau(y: Seq<i64>, diff: LimitsModel, k: int)
    requires
        0 <= k < candidates(y, diff).len(),
    ensures
        1 <= candidates(y, diff)[k].start,
        candidates(y, diff)[k].start < candidates(y, diff)[k].end,
        candidates(y, diff)[k].end <= y.len() - 1,
        forall|j: int|
            candidates(y, diff)[k].start <= j < candidates(y, diff)[k].end ==> #[trigger] y[j]
                == y[candidates(y, diff)[k].start],
        candidates(y, diff)[k].left_diff == y[candidates(y, diff)[k].start] - y[candidates(
            y,
            diff,
        )[k].start - 1],
        candidates(y, diff)[k].right_diff == y[candidates(y, diff)[k].start] - y[candidates(
            y,
            diff,
        )[k].end],
{
    if y.len() >= 2 {
        crate::lemmas::lemma_candidates_from_shape(y, diff, 2, y[1] - y[0], None);
        assert(crate::lemmas::plateau_shape(candidates(y, diff)[k], y));
    }
}

/// Every peak the pipeline returns obeys the height policy: with a height
/// range configured its `height` holds a value inside that range, and with
/// none configured the field is absent — whatever the other filters did.
pub proof fn lemma_peak_heights(m: FinderModel, k: int)
    requires
        0 <= k < find_peaks_spec(m).len(),
    ensures
        height_ok(find_peaks_spec(m)[k], m.height),
{
    if m.y.len() >= 2 {
        let c = candidates(m.y, m.difference);
        lemma_candidates_from_fields(m.y, m.difference, 2, m.y[1] - m.y[0], None);
        let no_height = |p: PeakModel| p.height is None;
        assert forall|i: int| 0 <= i < c.len() implies no_height(#[trigger] c[i]) by {}
        lemma_plateau_stage_elems(c, m.plateau_size, no_height);
        let c1 = plateau_stage(c, m.plateau_size);
        lemma_height_stage_heights(c1, m.height, m.y);
        let c2 = height_stage(c1, m.height, m.y);
        lemma_prominence_stage_heights(c2, m.prominence, m.y, m.height);
        let ok = |p: PeakModel| height_ok(p, m.height);
        assert forall|i: int| 0 <= i < survivors(m).len() implies ok(
            #[trigger] survivors(m)[i],
        ) by {}
        lemma_sort_ranked_elems(m.y, survivors(m), ok);
        let sorted = sort_ranked(m.y, survivors(m));
        assert forall|i: int| 0 <= i < sorted.len() implies ok(#[trigger] sorted[i]) by {}
        lemma_distance_stage_elems(sorted, m.x, m.distance, ok);
        assert(ok(find_peaks_spec(m)[k]));
    }
}

/// With a distance range configured, each returned peak lies within that
/// range of the peak kept just before it in the output order.
pub proof fn lemma_peak_spacing(m: FinderModel, k: int)
    requires
        !limits_empty(m.distance),
        1 <= k < find_peaks_spec(m).len(),
    ensures
        in_limits(m.distance, gap(m.x, find_peaks_spec(m)[k], find_peaks_spec(m)[k - 1])),
{
    if m.y.len() >= 2 {
        let sorted = sort_ranked(m.y, survivors(m));
        let out = find_peaks_spec(m);
        let xm0 = m.x[mid_of(sorted[0])] as int;
        let rest = distance_keep(sorted.drop_first(), m.x, m.distance, xm0);
        lemma_distance_keep_gaps(sorted.drop_first(), m.x, m.distance, xm0);
        assert(out[k] == rest[k - 1]);
        if k == 1 {
            assert(out[0] == sorted[0]);
        } else {
            assert(out[k - 1] == rest[k - 2]);
        }
    }
}

/// The pipeline's output is in the ranked order — descending plateau
/// value, ties by ascending position — and with no distance range
/// configured it is exactly the ranked sort of every surviving candidate,
/// with no removals.
pub proof fn lemma_output_order(m: FinderModel)
    ensures
        ranked_sorted(m.y, find_peaks_spec(m)),
        limits_empty(m.distance) && m.y.len() >= 2 ==> find_peaks_spec(m) == sort_ranked(
            m.y,
            survivors(m),
        ),
        limits_empty(m.distance) && m.y.len() >= 2 ==> find_peaks_spec(m).to_multiset()
            == survivors(m).to_multiset(),
{
    if m.y.len() < 2 {
    } else {
        let sorted = sort_ranked(m.y, survivors(m));
        lemma_sort_ranked_sorted(m.y, survivors(m));
        if limits_empty(m.distance) {
            lemma_sort_ranked_multiset(m.y, survivors(m));
        } else if sorted.len() > 0 {
            let xm0 = m.x[mid_of(sorted[0])] as int;
            let rest = distance_keep(sorted.drop_first(), m.x, m.distance, xm0);
            let out = find_peaks_spec(m);
            assert forall|a: int, b: int| 0 <= a < b < sorted.drop_first().len() implies
                !crate::model::ranked_before(
                m.y,
                #[trigger] sorted.drop_first()[b],
                #[trigger] sorted.drop_first()[a],
            ) by {
                assert(sorted.drop_first()[a] == sorted[a + 1]);
                assert(sorted.drop_first()[b] == sorted[b + 1]);
            }
            lemma_distance_keep_sorted(m.y, sorted.drop_first(), m.x, m.distance, xm0);
            let head_ok = |q: PeakModel| !crate::model::ranked_before(m.y, q, sorted[0]);
            assert forall|j: int| 0 <= j < sorted.drop_first().len() implies head_ok(
                #[trigger] sorted.drop_first()[j],
            ) by {
                assert(sorted.drop_first()[j] == sorted[j + 1]);
            }
            crate::lemmas::lemma_distance_keep_elems(
                sorted.drop_first(),
                m.x,
                m.distance,
                xm0,
                head_ok,
            );
            assert forall|i: int, j: int| 0 <= i < j < out.len() implies
                !crate::model::ranked_before(m.y, #[trigger] out[j], #[trigger] out[i]) by {
                assert(out[j] == rest[j - 1]);
                if i > 0 {
                    assert(out[i] == rest[i - 1]);
                } else {
                    assert(head_ok(rest[j - 1]));
                }
            }
        }
    }
}

} // verus!
