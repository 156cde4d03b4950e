//! Supporting lemmas about the model's recursive definitions.

use vstd::prelude::*;

use crate::model::all_pos_wf;
use crate::model::candidates;
use crate::model::candidates_from;
use crate::model::distance_keep;
use crate::model::distance_stage;
use crate::model::gap_to;
use crate::model::height_ok;
use crate::model::height_stage;
use crate::model::in_limits;
use crate::model::insert_ranked;
use crate::model::limits_empty;
use crate::model::mid_of;
use crate::model::plateau_stage;
use crate::model::pos_wf;
use crate::model::prominence_stage;
use crate::model::ranked_before;
use crate::model::ranked_sorted;
use crate::model::sort_ranked;
use crate::model::LimitsModel;
use crate::model::PeakModel;

verus! {

/// The plateau-size filter passes records through unchanged, so any
/// property of every record survives it.
pub(crate) proof fn lemma_plateau_stage_elems(
    ps: Seq<PeakModel>,
    lim: LimitsModel,
    pred: spec_fn(PeakModel) -> bool,
)
    requires
        forall|k: int| 0 <= k < ps.len() ==> pred(#[trigger] ps[k]),
    ensures
        forall|k: int|
            0 <= k < plateau_stage(ps, lim).len() ==> pred(#[trigger] plateau_stage(ps, lim)[k]),
    decreases ps.len(),
{
    if limits_empty(lim) || ps.len() == 0 {
    } else {
        assert forall|m: int| 0 <= m < ps.drop_last().len() implies pred(
            #[trigger] ps.drop_last()[m],
        ) by {
            assert(ps.drop_last()[m] == ps[m]);
        }
        lemma_plateau_stage_elems(ps.drop_last(), lim, pred);
        let front = plateau_stage(ps.drop_last(), lim);
        let out = plateau_stage(ps, lim);
        assert(pred(ps[ps.len() - 1]));
        assert forall|k: int| 0 <= k < out.len() implies pred(#[trigger] out[k]) by {
            if k < front.len() {
                assert(out[k] == front[k]);
            }
        }
    }
}

/// After the height filter every record obeys the height policy: the field
/// absent when the range is unconfigured, a value inside the range
/// otherwise.
pub(crate) proof fn lemma_height_stage_heights(ps: Seq<PeakModel>, lim: LimitsModel, y: Seq<i64>)
    requires
        limits_empty(lim) ==> forall|k: int|
            0 <= k < ps.len() ==> (#[trigger] ps[k]).height is None,
    ensures
        forall|k: int|
            0 <= k < height_stage(ps, lim, y).len() ==> height_ok(
                #[trigger] height_stage(ps, lim, y)[k],
                lim,
            ),
    decreases ps.len(),
{
    if limits_empty(lim) || ps.len() == 0 {
    } else {
        lemma_height_stage_heights(ps.drop_last(), lim, y);
        let front = height_stage(ps.drop_last(), lim, y);
        let out = height_stage(ps, lim, y);
        assert forall|k: int| 0 <= k < out.len() implies height_ok(#[trigger] out[k], lim) by {
            if k < front.len() {
                assert(out[k] == front[k]);
            }
        }
    }
}

/// The prominence filter never touches the height field, so the height
/// policy survives it.
pub(crate) proof fn lemma_prominence_stage_heights(
    ps: Seq<PeakModel>,
    lim: LimitsModel,
    y: Seq<i64>,
    hlim: LimitsModel,
)
    requires
        forall|k: int| 0 <= k < ps.len() ==> height_ok(#[trigger] ps[k], hlim),
    ensures
        forall|k: int|
            0 <= k < prominence_stage(ps, lim, y).len() ==> height_ok(
                #[trigger] prominence_stage(ps, lim, y)[k],
                hlim,
            ),
    decreases ps.len(),
{
    if limits_empty(lim) || ps.len() == 0 {
    } else {
        assert forall|m: int| 0 <= m < ps.drop_last().len() implies height_ok(
            #[trigger] ps.drop_last()[m],
            hlim,
        ) by {
            assert(ps.drop_last()[m] == ps[m]);
        }
        lemma_prominence_stage_heights(ps.drop_last(), lim, y, hlim);
        let front = prominence_stage(ps.drop_last(), lim, y);
        let out = prominence_stage(ps, lim, y);
        assert(height_ok(ps[ps.len() - 1], hlim));
        assert forall|k: int| 0 <= k < out.len() implies height_ok(#[trigger] out[k], hlim) by {
            if k < front.len() {
                assert(out[k] == front[k]);
            }
        }
    }
}

/// Ranked insertion only rearranges, so any property of every record
/// survives it.
pub(crate) proof fn lemma_insert_ranked_elems(
    y: Seq<i64>,
    s: Seq<PeakModel>,
    p: PeakModel,
    pred: spec_fn(PeakModel) -> bool,
)
    requires
        forall|k: int| 0 <= k < s.len() ==> pred(#[trigger] s[k]),
        pred(p),
    ensures
        forall|k: int|
            0 <= k < insert_ranked(y, s, p).len() ==> pred(#[trigger] insert_ranked(y, s, p)[k]),
    decreases s.len(),
{
    let out = insert_ranked(y, s, p);
    if s.len() == 0 {
        assert(out[0] == p);
    } else if ranked_before(y, p, s[0]) {
        assert forall|k: int| 0 <= k < out.len() implies pred(#[trigger] out[k]) by {
            if k > 0 {
                assert(out[k] == s[k - 1]);
            } else {
                assert(out[0] == p);
            }
        }
    } else {
        assert forall|m: int| 0 <= m < s.drop_first().len() implies pred(
            #[trigger] s.drop_first()[m],
        ) by {
            assert(s.drop_first()[m] == s[m + 1]);
        }
        lemma_insert_ranked_elems(y, s.drop_first(), p, pred);
        let rest = insert_ranked(y, s.drop_first(), p);
        assert forall|k: int| 0 <= k < out.len() implies pred(#[trigger] out[k]) by {
            if k > 0 {
                assert(out[k] == rest[k - 1]);
            } else {
                assert(out[0] == s[0]);
            }
        }
    }
}

/// The ranked sort only rearranges, so any property of every record
/// survives it.
pub(crate) proof fn lemma_sort_ranked_elems(
    y: Seq<i64>,
    s: Seq<PeakModel>,
    pred: spec_fn(PeakModel) -> bool,
)
    requires
        forall|k: int| 0 <= k < s.len() ==> pred(#[trigger] s[k]),
    ensures
        forall|k: int|
            0 <= k < sort_ranked(y, s).len() ==> pred(#[trigger] sort_ranked(y, s)[k]),
    decreases s.len(),
{
    if s.len() == 0 {
    } else {
        assert forall|m: int| 0 <= m < s.drop_last().len() implies pred(
            #[trigger] s.drop_last()[m],
        ) by {
            assert(s.drop_last()[m] == s[m]);
        }
        lemma_sort_ranked_elems(y, s.drop_last(), pred);
        assert(pred(s[s.len() - 1]));
        lemma_insert_ranked_elems(y, sort_ranked(y, s.drop_last()), s.last(), pred);
    }
}

/// Distance suppression only drops records, so any property of every
/// record survives it.
pub(crate) proof fn lemma_distance_keep_elems(
    ps: Seq<PeakModel>,
    x: Seq<i64>,
    lim: LimitsModel,
    prev_x: int,
    pred: spec_fn(PeakModel) -> bool,
)
    requires
        forall|k: int| 0 <= k < ps.len() ==> pred(#[trigger] ps[k]),
    ensures
        forall|k: int|
            0 <= k < distance_keep(ps, x, lim, prev_x).len() ==> pred(
                #[trigger] distance_keep(ps, x, lim, prev_x)[k],
            ),
    decreases ps.len(),
{
    if ps.len() == 0 {
    } else {
        assert forall|m: int| 0 <= m < ps.drop_first().len() implies pred(
            #[trigger] ps.drop_first()[m],
        ) by {
            assert(ps.drop_first()[m] == ps[m + 1]);
        }
        let xm = x[crate::model::mid_of(ps[0])] as int;
        let out = distance_keep(ps, x, lim, prev_x);
        if in_limits(lim, gap_to(x, ps[0], prev_x)) {
            lemma_distance_keep_elems(ps.drop_first(), x, lim, xm, pred);
            let rest = distance_keep(ps.drop_first(), x, lim, xm);
            assert forall|k: int| 0 <= k < out.len() implies pred(#[trigger] out[k]) by {
                if k > 0 {
                    assert(out[k] == rest[k - 1]);
                } else {
                    assert(out[0] == ps[0]);
                }
            }
        } else {
            lemma_distance_keep_elems(ps.drop_first(), x, lim, prev_x, pred);
            let rest = distance_keep(ps.drop_first(), x, lim, prev_x);
            assert(out == rest);
            assert forall|k: int| 0 <= k < out.len() implies pred(#[trigger] out[k]) by {
                assert(pred(rest[k]));
            }
        }
    }
}

/// The distance stage only drops records, so any property of every record
/// survives it.
pub(crate) proof fn lemma_distance_stage_elems(
    ps: Seq<PeakModel>,
    x: Seq<i64>,
    lim: LimitsModel,
    pred: spec_fn(PeakModel) -> bool,
)
    requires
        forall|k: int| 0 <= k < ps.len() ==> pred(#[trigger] ps[k]),
    ensures
        forall|k: int|
            0 <= k < distance_stage(ps, x, lim).len() ==> pred(
                #[trigger] distance_stage(ps, x, lim)[k],
            ),
{
    if limits_empty(lim) || ps.len() == 0 {
    } else {
        assert forall|m: int| 0 <= m < ps.drop_first().len() implies pred(
            #[trigger] ps.drop_first()[m],
        ) by {
            assert(ps.drop_first()[m] == ps[m + 1]);
        }
        lemma_distance_keep_elems(
            ps.drop_first(),
            x,
            lim,
            x[crate::model::mid_of(ps[0])] as int,
            pred,
        );
        let rest = distance_keep(ps.drop_first(), x, lim, x[crate::model::mid_of(ps[0])] as int);
        let out = distance_stage(ps, x, lim);
        assert forall|k: int| 0 <= k < out.len() implies pred(#[trigger] out[k]) by {
            if k > 0 {
                assert(out[k] == rest[k - 1]);
            } else {
                assert(out[0] == ps[0]);
            }
        }
    }
}

/// Every candidate the scan emits from state `(i, back, start)` has its
/// plateau strictly inside the data.
pub(crate) proof fn lemma_candidates_from_pos_wf(
    y: Seq<i64>,
    diff: LimitsModel,
    i: int,
    back: int,
    start: Option<int>,
)
    requires
        2 <= i,
        start matches Some(s) ==> 1 <= s <= i - 2,
    ensures
        all_pos_wf(candidates_from(y, diff, i, back, start), y.len() as int),
    decreases y.len() - i,
{
    if i >= y.len() {
    } else {
        let ahead = y[i - 1] - y[i];
        if in_limits(diff, back) && ahead == 0 {
            let opened = if start is Some {
                start
            } else {
                Some(i - 1)
            };
            lemma_candidates_from_pos_wf(y, diff, i + 1, back, opened);
        } else {
            lemma_candidates_from_pos_wf(y, diff, i + 1, -ahead, None);
            let rest = candidates_from(y, diff, i + 1, -ahead, None);
            if in_limits(diff, back) && in_limits(diff, ahead) {
                let out = candidates_from(y, diff, i, back, start);
                assert forall|k: int| 0 <= k < out.len() implies pos_wf(
                    #[trigger] out[k],
                    y.len() as int,
                ) by {
                    if k > 0 {
                        assert(out[k] == rest[k - 1]);
                    }
                }
            }
        }
    }
}

/// Every local-maximum candidate has its plateau strictly inside the data.
pub(crate) proof fn lemma_candidates_pos_wf(y: Seq<i64>, diff: LimitsModel)
    ensures
        all_pos_wf(candidates(y, diff), y.len() as int),
{
    if y.len() >= 2 {
        lemma_candidates_from_pos_wf(y, diff, 2, y[1] - y[0], None);
    }
}

/// Every candidate the scan emits from state `(i, back, start)` carries
/// steps inside the difference range and no optional property yet.
pub(crate) proof fn lemma_candidates_from_fields(
    y: Seq<i64>,
    diff: LimitsModel,
    i: int,
    back: int,
    start: Option<int>,
)
    ensures
        forall|k: int|
            0 <= k < candidates_from(y, diff, i, back, start).len() ==> {
                let p = #[trigger] candidates_from(y, diff, i, back, start)[k];
                in_limits(diff, p.left_diff) && in_limits(diff, p.right_diff) && p.height is None
                    && p.prominence is None
            },
    decreases y.len() - i,
{
    if i < 2 || i >= y.len() {
    } else {
        let ahead = y[i - 1] - y[i];
        if in_limits(diff, back) && ahead == 0 {
            let opened = if start is Some {
                start
            } else {
                Some(i - 1)
            };
            lemma_candidates_from_fields(y, diff, i + 1, back, opened);
        } else {
            lemma_candidates_from_fields(y, diff, i + 1, -ahead, None);
            let rest = candidates_from(y, diff, i + 1, -ahead, None);
            if in_limits(diff, back) && in_limits(diff, ahead) {
                let out = candidates_from(y, diff, i, back, start);
                assert forall|k: int| 0 <= k < out.len() implies {
                    let p = #[trigger] out[k];
                    in_limits(diff, p.left_diff) && in_limits(diff, p.right_diff) && p.height
                        is None && p.prominence is None
                } by {
                    if k > 0 {
                        assert(out[k] == rest[k - 1]);
                    }
                }
            }
        }
    }
}

/// The plateau-size filter keeps plateaus strictly inside the data.
pub(crate) proof fn lemma_plateau_stage_pos_wf(ps: Seq<PeakModel>, lim: LimitsModel, len: int)
    requires
        all_pos_wf(ps, len),
    ensures
        all_pos_wf(plateau_stage(ps, lim), len),
    decreases ps.len(),
{
    if limits_empty(lim) || ps.len() == 0 {
    } else {
        assert forall|m: int| 0 <= m < ps.drop_last().len() implies pos_wf(
            #[trigger] ps.drop_last()[m],
            len,
        ) by {
            assert(ps.drop_last()[m] == ps[m]);
        }
        lemma_plateau_stage_pos_wf(ps.drop_last(), lim, len);
        let front = plateau_stage(ps.drop_last(), lim);
        let out = plateau_stage(ps, lim);
        assert(pos_wf(ps.last(), len));
        assert forall|k: int| 0 <= k < out.len() implies pos_wf(#[trigger] out[k], len) by {
            if k < front.len() {
                assert(out[k] == front[k]);
            }
        }
    }
}

/// The height filter keeps plateaus strictly inside the data.
pub(crate) proof fn lemma_height_stage_pos_wf(
    ps: Seq<PeakModel>,
    lim: LimitsModel,
    y: Seq<i64>,
    len: int,
)
    requires
        all_pos_wf(ps, len),
    ensures
        all_pos_wf(height_stage(ps, lim, y), len),
    decreases ps.len(),
{
    if limits_empty(lim) || ps.len() == 0 {
    } else {
        assert forall|m: int| 0 <= m < ps.drop_last().len() implies pos_wf(
            #[trigger] ps.drop_last()[m],
            len,
        ) by {
            assert(ps.drop_last()[m] == ps[m]);
        }
        lemma_height_stage_pos_wf(ps.drop_last(), lim, y, len);
        let front = height_stage(ps.drop_last(), lim, y);
        let out = height_stage(ps, lim, y);
        assert(pos_wf(ps.last(), len));
        assert forall|k: int| 0 <= k < out.len() implies pos_wf(#[trigger] out[k], len) by {
            if k < front.len() {
                assert(out[k] == front[k]);
            }
        }
    }
}

/// The prominence filter keeps plateaus strictly inside the data.
pub(crate) proof fn lemma_prominence_stage_pos_wf(
    ps: Seq<PeakModel>,
    lim: LimitsModel,
    y: Seq<i64>,
    len: int,
)
    requires
        all_pos_wf(ps, len),
    ensures
        all_pos_wf(prominence_stage(ps, lim, y), len),
    decreases ps.len(),
{
    if limits_empty(lim) || ps.len() == 0 {
    } else {
        assert forall|m: int| 0 <= m < ps.drop_last().len() implies pos_wf(
            #[trigger] ps.drop_last()[m],
            len,
        ) by {
            assert(ps.drop_last()[m] == ps[m]);
        }
        lemma_prominence_stage_pos_wf(ps.drop_last(), lim, y, len);
        let front = prominence_stage(ps.drop_last(), lim, y);
        let out = prominence_stage(ps, lim, y);
        assert(pos_wf(ps.last(), len));
        assert forall|k: int| 0 <= k < out.len() implies pos_wf(#[trigger] out[k], len) by {
            if k < front.len() {
                assert(out[k] == front[k]);
            }
        }
    }
}

/// Inserting `p` into `s` by rank places it exactly at the first index
/// whose element `p` strictly precedes.
pub(crate) proof fn lemma_insert_ranked_at(y: Seq<i64>, s: Seq<PeakModel>, p: PeakModel, idx: int)
    requires
        0 <= idx <= s.len(),
        forall|m: int| 0 <= m < idx ==> !ranked_before(y, p, #[trigger] s[m]),
        idx < s.len() ==> ranked_before(y, p, s[idx]),
    ensures
        insert_ranked(y, s, p) == s.insert(idx, p),
    decreases s.len(),
{
    if s.len() == 0 {
        assert(insert_ranked(y, s, p) =~= s.insert(0, p));
    } else if idx == 0 {
        assert(s.insert(0, p) =~= seq![p] + s);
    } else {
        assert(!ranked_before(y, p, s[0]));
        assert forall|m: int| 0 <= m < idx - 1 implies !ranked_before(
            y,
            p,
            #[trigger] s.drop_first()[m],
        ) by {
            assert(s.drop_first()[m] == s[m + 1]);
        }
        assert(idx - 1 < s.drop_first().len() ==> ranked_before(y, p, s.drop_first()[idx - 1]));
        lemma_insert_ranked_at(y, s.drop_first(), p, idx - 1);
        assert(seq![s[0]] + s.drop_first().insert(idx - 1, p) =~= s.insert(idx, p));
    }
}

/// A record describes a flat plateau of `y` whose two recorded steps are
/// the differences to its nearest differing neighbours.
pub(crate) open spec fn plateau_shape(p: PeakModel, y: Seq<i64>) -> bool {
    &&& 1 <= p.start && p.start < p.end && p.end <= y.len() - 1
    &&& forall|k: int| p.start <= k < p.end ==> #[trigger] y[k] == y[p.start]
    &&& p.left_diff == y[p.start] - y[p.start - 1]
    &&& p.right_diff == y[p.start] - y[p.end]
}

/// From a consistent scan state, every emitted candidate is a flat plateau
/// with its steps taken against the nearest differing neighbours.
pub(crate) proof fn lemma_candidates_from_shape(
    y: Seq<i64>,
    diff: LimitsModel,
    i: int,
    back: int,
    start: Option<int>,
)
    requires
        2 <= i,
        start is None && 2 <= i <= y.len() ==> back == y[i - 1] - y[i - 2],
        start matches Some(s) ==> {
            &&& 1 <= s <= i - 2
            &&& i <= y.len()
            &&& back == y[s] - y[s - 1]
            &&& forall|k: int| s <= k <= i - 1 ==> y[k] == y[s]
        },
    ensures
        forall|m: int|
            0 <= m < candidates_from(y, diff, i, back, start).len() ==> plateau_shape(
                #[trigger] candidates_from(y, diff, i, back, start)[m],
                y,
            ),
    decreases y.len() - i,
{
    if i >= y.len() {
    } else {
        let ahead = y[i - 1] - y[i];
        let out = candidates_from(y, diff, i, back, start);
        if in_limits(diff, back) && ahead == 0 {
            let s = match start {
                Some(s) => s,
                None => i - 1,
            };
            assert forall|k: int| s <= k <= i implies y[k] == y[s] by {
                if k == i {
                    assert(y[i] == y[i - 1]);
                }
            }
            lemma_candidates_from_shape(y, diff, i + 1, back, Some(s));
            let next = candidates_from(y, diff, i + 1, back, Some(s));
            assert(out == next);
            assert forall|m: int| 0 <= m < out.len() implies plateau_shape(
                #[trigger] out[m],
                y,
            ) by {
                assert(plateau_shape(next[m], y));
            }
        } else {
            lemma_candidates_from_shape(y, diff, i + 1, -ahead, None);
            let rest = candidates_from(y, diff, i + 1, -ahead, None);
            if in_limits(diff, back) && in_limits(diff, ahead) {
                let emitted = out[0];
                assert(emitted.start == match start {
                    Some(s) => s,
                    None => i - 1,
                });
                assert forall|k: int| emitted.start <= k < emitted.end implies #[trigger] y[k]
                    == y[emitted.start] by {}
                assert(plateau_shape(emitted, y));
                assert forall|m: int| 0 <= m < out.len() implies plateau_shape(
                    #[trigger] out[m],
                    y,
                ) by {
                    if m > 0 {
                        assert(out[m] == rest[m - 1]);
                    }
                }
            } else {
                assert forall|m: int| 0 <= m < out.len() implies plateau_shape(
                    #[trigger] out[m],
                    y,
                ) by {
                    assert(plateau_shape(rest[m], y));
                }
            }
        }
    }
}

/// Ranked insertion into a ranked sequence yields a ranked sequence.
pub(crate) proof fn lemma_insert_ranked_sorted(y: Seq<i64>, s: Seq<PeakModel>, p: PeakModel)
    requires
        ranked_sorted(y, s),
    ensures
        ranked_sorted(y, insert_ranked(y, s, p)),
    decreases s.len(),
{
    let out = insert_ranked(y, s, p);
    if s.len() == 0 {
    } else if ranked_before(y, p, s[0]) {
        assert forall|i: int, j: int| 0 <= i < j < out.len() implies !ranked_before(
            y,
            #[trigger] out[j],
            #[trigger] out[i],
        ) by {
            assert(out[j] == s[j - 1]);
            if i > 0 {
                assert(out[i] == s[i - 1]);
            } else {
                if j - 1 > 0 {
                    assert(!ranked_before(y, s[j - 1], s[0]));
                }
            }
        }
    } else {
        assert forall|a: int, b: int| 0 <= a < b < s.drop_first().len() implies !ranked_before(
            y,
            #[trigger] s.drop_first()[b],
            #[trigger] s.drop_first()[a],
        ) by {
            assert(s.drop_first()[a] == s[a + 1]);
            assert(s.drop_first()[b] == s[b + 1]);
        }
        lemma_insert_ranked_sorted(y, s.drop_first(), p);
        let rest = insert_ranked(y, s.drop_first(), p);
        let head_ok = |q: PeakModel| !ranked_before(y, q, s[0]);
        assert forall|m: int| 0 <= m < s.drop_first().len() implies head_ok(
            #[trigger] s.drop_first()[m],
        ) by {
            assert(s.drop_first()[m] == s[m + 1]);
        }
        lemma_insert_ranked_elems(y, s.drop_first(), p, head_ok);
        assert forall|i: int, j: int| 0 <= i < j < out.len() implies !ranked_before(
            y,
            #[trigger] out[j],
            #[trigger] out[i],
        ) by {
            assert(out[j] == rest[j - 1]);
            if i > 0 {
                assert(out[i] == rest[i - 1]);
            } else {
                assert(head_ok(rest[j - 1]));
            }
        }
    }
}

/// The ranked sort yields a ranked sequence.
pub(crate) proof fn lemma_sort_ranked_sorted(y: Seq<i64>, s: Seq<PeakModel>)
    ensures
        ranked_sorted(y, sort_ranked(y, s)),
    decreases s.len(),
{
    if s.len() == 0 {
    } else {
        lemma_sort_ranked_sorted(y, s.drop_last());
        lemma_insert_ranked_sorted(y, sort_ranked(y, s.drop_last()), s.last());
    }
}

/// Ranked insertion adds exactly the inserted record to the contents.
pub(crate) proof fn lemma_insert_ranked_multiset(y: Seq<i64>, s: Seq<PeakModel>, p: PeakModel)
    ensures
        insert_ranked(y, s, p).to_multiset() == s.to_multiset().insert(p),
    decreases s.len(),
{
    broadcast use vstd::seq_lib::group_to_multiset_ensures;
    broadcast use vstd::multiset::group_multiset_axioms;

    let out = insert_ranked(y, s, p);
    if s.len() == 0 {
        assert(out =~= s.push(p));
        assert(out.to_multiset() =~= s.to_multiset().insert(p));
    } else if ranked_before(y, p, s[0]) {
        vstd::seq_lib::lemma_multiset_commutative(seq![p], s);
        assert(seq![p].to_multiset() =~= Seq::<PeakModel>::empty().to_multiset().insert(p)) by {
            assert(seq![p] =~= Seq::<PeakModel>::empty().push(p));
        }
        assert(out.to_multiset() =~= s.to_multiset().insert(p));
    } else {
        lemma_insert_ranked_multiset(y, s.drop_first(), p);
        let rest = insert_ranked(y, s.drop_first(), p);
        vstd::seq_lib::lemma_multiset_commutative(seq![s[0]], rest);
        vstd::seq_lib::lemma_multiset_commutative(seq![s[0]], s.drop_first());
        assert(seq![s[0]] + s.drop_first() =~= s);
        assert(out.to_multiset() =~= s.to_multiset().insert(p));
    }
}

/// The ranked sort rearranges the records and neither adds nor drops one.
pub(crate) proof fn lemma_sort_ranked_multiset(y: Seq<i64>, s: Seq<PeakModel>)
    ensures
        sort_ranked(y, s).to_multiset() == s.to_multiset(),
    decreases s.len(),
{
    broadcast use vstd::seq_lib::group_to_multiset_ensures;
    broadcast use vstd::multiset::group_multiset_axioms;

    if s.len() == 0 {
    } else {
        lemma_sort_ranked_multiset(y, s.drop_last());
        lemma_insert_ranked_multiset(y, sort_ranked(y, s.drop_last()), s.last());
        assert(s =~= s.drop_last().push(s.last()));
        assert(s.drop_last().push(s.last()).to_multiset() =~= s.drop_last().to_multiset().insert(
            s.last(),
        ));
        assert(sort_ranked(y, s).to_multiset() =~= s.to_multiset());
    }
}

/// Distance suppression of a ranked sequence yields a ranked sequence.
pub(crate) proof fn lemma_distance_keep_sorted(
    y: Seq<i64>,
    ps: Seq<PeakModel>,
    x: Seq<i64>,
    lim: LimitsModel,
    prev_x: int,
)
    requires
        ranked_sorted(y, ps),
    ensures
        ranked_sorted(y, distance_keep(ps, x, lim, prev_x)),
    decreases ps.len(),
{
    if ps.len() == 0 {
    } else {
        assert forall|a: int, b: int| 0 <= a < b < ps.drop_first().len() implies !ranked_before(
            y,
            #[trigger] ps.drop_first()[b],
            #[trigger] ps.drop_first()[a],
        ) by {
            assert(ps.drop_first()[a] == ps[a + 1]);
            assert(ps.drop_first()[b] == ps[b + 1]);
        }
        let xm = x[mid_of(ps[0])] as int;
        let out = distance_keep(ps, x, lim, prev_x);
        if in_limits(lim, gap_to(x, ps[0], prev_x)) {
            lemma_distance_keep_sorted(y, ps.drop_first(), x, lim, xm);
            let rest = distance_keep(ps.drop_first(), x, lim, xm);
            let head_ok = |q: PeakModel| !ranked_before(y, q, ps[0]);
            assert forall|m: int| 0 <= m < ps.drop_first().len() implies head_ok(
                #[trigger] ps.drop_first()[m],
            ) by {
                assert(ps.drop_first()[m] == ps[m + 1]);
            }
            lemma_distance_keep_elems(ps.drop_first(), x, lim, xm, head_ok);
            assert forall|i: int, j: int| 0 <= i < j < out.len() implies !ranked_before(
                y,
                #[trigger] out[j],
                #[trigger] out[i],
            ) by {
                assert(out[j] == rest[j - 1]);
                if i > 0 {
                    assert(out[i] == rest[i - 1]);
                } else {
                    assert(head_ok(rest[j - 1]));
                }
            }
        } else {
            lemma_distance_keep_sorted(y, ps.drop_first(), x, lim, prev_x);
        }
    }
}

/// Every record distance suppression keeps lies within the distance range
/// of the record kept just before it, the first one of `prev_x`.
pub(crate) proof fn lemma_distance_keep_gaps(
    ps: Seq<PeakModel>,
    x: Seq<i64>,
    lim: LimitsModel,
    prev_x: int,
)
    ensures
        distance_keep(ps, x, lim, prev_x).len() > 0 ==> in_limits(
            lim,
            gap_to(x, distance_keep(ps, x, lim, prev_x)[0], prev_x),
        ),
        forall|k: int|
            1 <= k < distance_keep(ps, x, lim, prev_x).len() ==> in_limits(
                lim,
                gap_to(
                    x,
                    #[trigger] distance_keep(ps, x, lim, prev_x)[k],
                    x[mid_of(distance_keep(ps, x, lim, prev_x)[k - 1])] as int,
                ),
            ),
    decreases ps.len(),
{
    if ps.len() == 0 {
    } else {
        let xm = x[mid_of(ps[0])] as int;
        let out = distance_keep(ps, x, lim, prev_x);
        if in_limits(lim, gap_to(x, ps[0], prev_x)) {
            lemma_distance_keep_gaps(ps.drop_first(), x, lim, xm);
            let rest = distance_keep(ps.drop_first(), x, lim, xm);
            assert forall|k: int| 1 <= k < out.len() implies in_limits(
                lim,
                gap_to(x, #[trigger] out[k], x[mid_of(out[k - 1])] as int),
            ) by {
                assert(out[k] == rest[k - 1]);
                if k == 1 {
                    assert(out[0] == ps[0]);
                } else {
                    assert(out[k - 1] == rest[k - 2]);
                }
            }
        } else {
            lemma_distance_keep_gaps(ps.drop_first(), x, lim, prev_x);
        }
    }
}

} // verus!
