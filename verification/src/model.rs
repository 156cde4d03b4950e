//! Mathematical model of peaks and bounded ranges.
//!
//! Executable code works on `i64` samples and positions; the contracts in
//! this crate speak about the ghost counterparts defined here, where every
//! quantity is an unbounded `int`.

use vstd::prelude::*;

verus! {

/// Largest magnitude allowed for a sample or position value.
///
/// Keeping every value within `[-VALUE_LIMIT, VALUE_LIMIT]` guarantees that
/// the difference of any two values still fits in an `i64`.
pub const VALUE_LIMIT: i64 = 0x3fff_ffff_ffff_ffff;

/// Ghost image of a [`crate::Limits`] value: an optional-lower/optional-upper
/// inclusive range over the mathematical integers.
pub ghost struct LimitsModel {
    pub lower: Option<int>,
    pub upper: Option<int>,
}

/// `v` lies inside the inclusive range `[lower, upper]`, where an absent
/// bound does not restrict that side.
pub open spec fn in_limits(limits: LimitsModel, v: int) -> bool {
    &&& (limits.lower matches Some(lo) ==> v >= lo)
    &&& (limits.upper matches Some(up) ==> v <= up)
}

/// Both bounds absent: the range accepts everything and the corresponding
/// filter stage is skipped entirely.
pub open spec fn limits_empty(limits: LimitsModel) -> bool {
    limits.lower is None && limits.upper is None
}

/// The unconfigured range.
pub open spec fn no_limits() -> LimitsModel {
    LimitsModel { lower: None, upper: None }
}

/// Ghost image of a [`crate::Peak`] record.
pub ghost struct PeakModel {
    /// First sample index of the plateau.
    pub start: int,
    /// One past the last sample index of the plateau.
    pub end: int,
    /// Plateau value minus the nearest differing neighbour to the left.
    pub left_diff: int,
    /// Plateau value minus the nearest differing neighbour to the right.
    pub right_diff: int,
    /// Plateau value, recorded only when a height bound is configured.
    pub height: Option<int>,
    /// Prominence, recorded only when a prominence bound is configured.
    pub prominence: Option<int>,
}

/// Every value of `s` is within `[-VALUE_LIMIT, VALUE_LIMIT]`.
pub open spec fn bounded_values(s: Seq<i64>) -> bool {
    forall|i: int| 0 <= i < s.len() ==> -VALUE_LIMIT <= #[trigger] s[i] <= VALUE_LIMIT
}

/// Ghost image of an optional plateau-start index.
pub open spec fn opt_idx(o: Option<usize>) -> Option<int> {
    match o {
        Some(s) => Some(s as int),
        None => None,
    }
}

/// The plateau of `p` lies strictly inside a sequence of length `len`:
/// it is non-empty and has a neighbouring sample on either side.
pub open spec fn pos_wf(p: PeakModel, len: int) -> bool {
    1 <= p.start && p.start < p.end && p.end <= len - 1
}

/// Every peak of `s` has a well-placed plateau (see [`pos_wf`]).
pub open spec fn all_pos_wf(s: Seq<PeakModel>, len: int) -> bool {
    forall|k: int| 0 <= k < s.len() ==> pos_wf(#[trigger] s[k], len)
}

/// The middle index of a plateau, rounding down for even widths.
pub open spec fn mid_of(p: PeakModel) -> int {
    (p.start + p.end) / 2
}

/// The tail of the local-maximum scan, from sample index `i` on.
///
/// The scan walks the samples left to right. `back` is the step from the
/// previous differing neighbour up to the sample before `i` ("previous
/// minus the one before it"), and `start` is the first index of the
/// currently open plateau, if one is open. At each sample the step down
/// from its predecessor is `ahead`:
/// - a flat step (`ahead == 0`) whose `back` lies inside the difference
///   range extends the open plateau (opening one at `i - 1` if none is);
/// - any other step closes the plateau, emits it as a candidate iff both
///   `back` and `ahead` lie inside the difference range, and carries
///   `-ahead` forward as the next `back`.
pub open spec fn candidates_from(
    y: Seq<i64>,
    diff: LimitsModel,
    i: int,
    back: int,
    start: Option<int>,
) -> Seq<PeakModel>
    decreases y.len() - i,
{
    if i < 2 || i >= y.len() {
        Seq::empty()
    } else {
        let ahead = y[i - 1] - y[i];
        if in_limits(diff, back) && ahead == 0 {
            let opened = if start is Some {
                start
            } else {
                Some(i - 1)
            };
            candidates_from(y, diff, i + 1, back, opened)
        } else {
            let rest = candidates_from(y, diff, i + 1, -ahead, None);
            if in_limits(diff, back) && in_limits(diff, ahead) {
                seq![
                    PeakModel {
                        start: match start {
                            Some(s) => s,
                            None => i - 1,
                        },
                        end: i,
                        left_diff: back,
                        right_diff: ahead,
                        height: None,
                        prominence: None,
                    },
                ] + rest
            } else {
                rest
            }
        }
    }
}

/// All local-maximum candidates of `y` under the difference range `diff`,
/// in ascending position order. Fewer than two samples yield none: a
/// candidate needs a differing neighbour on both sides.
pub open spec fn candidates(y: Seq<i64>, diff: LimitsModel) -> Seq<PeakModel> {
    if y.len() < 2 {
        Seq::empty()
    } else {
        candidates_from(y, diff, 2, y[1] - y[0], None)
    }
}

/// The plateau-size filter: a pass-through when unconfigured, otherwise it
/// keeps exactly the candidates whose plateau width lies in the range.
pub open spec fn plateau_stage(ps: Seq<PeakModel>, lim: LimitsModel) -> Seq<PeakModel>
    decreases ps.len(),
{
    if limits_empty(lim) {
        ps
    } else if ps.len() == 0 {
        Seq::empty()
    } else {
        let front = plateau_stage(ps.drop_last(), lim);
        let p = ps.last();
        if in_limits(lim, p.end - p.start) {
            front.push(p)
        } else {
            front
        }
    }
}

/// The height filter: a pass-through when unconfigured (heights stay
/// absent), otherwise it keeps exactly the candidates whose plateau value
/// lies in the range, recording that value into `height`.
pub open spec fn height_stage(ps: Seq<PeakModel>, lim: LimitsModel, y: Seq<i64>) -> Seq<
    PeakModel,
>
    decreases ps.len(),
{
    if limits_empty(lim) {
        ps
    } else if ps.len() == 0 {
        Seq::empty()
    } else {
        let front = height_stage(ps.drop_last(), lim, y);
        let p = ps.last();
        let h = y[p.start] as int;
        if in_limits(lim, h) {
            front.push(PeakModel { height: Some(h), ..p })
        } else {
            front
        }
    }
}

/// The floor of the valley to the left of index `j + 1`, relative to the
/// reference value `h`: the minimum over the samples at `j`, `j - 1`, ...
/// up to but excluding the first sample that exceeds `h`. `None` when that
/// scan takes no sample at all.
pub open spec fn left_valley(y: Seq<i64>, h: int, j: int) -> Option<int>
    decreases j + 1,
{
    if j < 0 {
        None
    } else if y[j] > h {
        None
    } else {
        match left_valley(y, h, j - 1) {
            None => Some(y[j] as int),
            Some(m) => Some(vstd::math::min(m, y[j] as int)),
        }
    }
}

/// The floor of the valley to the right of index `j - 1`, symmetric to
/// [`left_valley`].
pub open spec fn right_valley(y: Seq<i64>, h: int, j: int) -> Option<int>
    decreases y.len() - j,
{
    if j >= y.len() {
        None
    } else if y[j] > h {
        None
    } else {
        match right_valley(y, h, j + 1) {
            None => Some(y[j] as int),
            Some(m) => Some(vstd::math::min(m, y[j] as int)),
        }
    }
}

/// Ghost image of an optional running minimum.
pub open spec fn opt_val(o: Option<i64>) -> Option<int> {
    match o {
        Some(v) => Some(v as int),
        None => None,
    }
}

/// Combine the minimum over an already scanned stretch with the valley
/// found beyond it; `None` stands for "no sample taken".
pub open spec fn merge_min(acc: Option<int>, rest: Option<int>) -> Option<int> {
    match (acc, rest) {
        (None, r) => r,
        (Some(m), None) => Some(m),
        (Some(m), Some(r)) => Some(vstd::math::min(m, r)),
    }
}

/// Prominence of a plateau `[s, e)`: its value above the higher of the two
/// bounding valley floors, above the single defined one when the scan on
/// the other side took no sample, and zero when neither took any.
pub open spec fn prominence_of(y: Seq<i64>, s: int, e: int) -> int {
    let h = y[s] as int;
    match (left_valley(y, h, s - 1), right_valley(y, h, e)) {
        (None, None) => 0,
        (Some(v), None) => h - v,
        (None, Some(v)) => h - v,
        (Some(a), Some(b)) => h - vstd::math::max(a, b),
    }
}

/// The prominence filter: a pass-through when unconfigured (prominences
/// stay absent), otherwise it keeps exactly the candidates whose
/// prominence lies in the range, recording it into `prominence`.
pub open spec fn prominence_stage(ps: Seq<PeakModel>, lim: LimitsModel, y: Seq<i64>) -> Seq<
    PeakModel,
>
    decreases ps.len(),
{
    if limits_empty(lim) {
        ps
    } else if ps.len() == 0 {
        Seq::empty()
    } else {
        let front = prominence_stage(ps.drop_last(), lim, y);
        let p = ps.last();
        let prom = prominence_of(y, p.start, p.end);
        if in_limits(lim, prom) {
            front.push(PeakModel { prominence: Some(prom), ..p })
        } else {
            front
        }
    }
}

/// The output order: `a` comes strictly before `b` when its plateau value
/// (the raw sample, independent of the height filter) is larger, with ties
/// broken by ascending plateau position.
pub open spec fn ranked_before(y: Seq<i64>, a: PeakModel, b: PeakModel) -> bool {
    y[a.start] > y[b.start] || (y[a.start] == y[b.start] && a.start < b.start)
}

/// `s` is ordered by [`ranked_before`]: no element comes strictly before an
/// earlier one.
pub open spec fn ranked_sorted(y: Seq<i64>, s: Seq<PeakModel>) -> bool {
    forall|i: int, j: int|
        0 <= i < j < s.len() ==> !ranked_before(y, #[trigger] s[j], #[trigger] s[i])
}

/// Insert `p` into the ranked sequence `s`, after every element it does not
/// strictly precede; among equally ranked peaks the arriving one goes last.
pub open spec fn insert_ranked(y: Seq<i64>, s: Seq<PeakModel>, p: PeakModel) -> Seq<PeakModel>
    decreases s.len(),
{
    if s.len() == 0 {
        seq![p]
    } else if ranked_before(y, p, s[0]) {
        seq![p] + s
    } else {
        seq![s[0]] + insert_ranked(y, s.drop_first(), p)
    }
}

/// Sort `s` by [`ranked_before`]: descending plateau value, ties in the
/// order the candidates were produced (ascending position).
pub open spec fn sort_ranked(y: Seq<i64>, s: Seq<PeakModel>) -> Seq<PeakModel>
    decreases s.len(),
{
    if s.len() == 0 {
        Seq::empty()
    } else {
        insert_ranked(y, sort_ranked(y, s.drop_last()), s.last())
    }
}

/// The greedy suppression pass over the ranked peaks that follow the most
/// recently kept one, whose position value is `prev_x`: a peak is kept iff
/// the absolute difference between its position value and `prev_x` lies in
/// the range, and only then does `prev_x` advance.
pub open spec fn distance_keep(
    ps: Seq<PeakModel>,
    x: Seq<i64>,
    lim: LimitsModel,
    prev_x: int,
) -> Seq<PeakModel>
    decreases ps.len(),
{
    if ps.len() == 0 {
        Seq::empty()
    } else {
        let xm = x[mid_of(ps[0])] as int;
        if in_limits(lim, gap_to(x, ps[0], prev_x)) {
            seq![ps[0]] + distance_keep(ps.drop_first(), x, lim, xm)
        } else {
            distance_keep(ps.drop_first(), x, lim, prev_x)
        }
    }
}

/// The distance stage on the ranked peaks: a pass-through when the distance
/// range is unconfigured, otherwise the highest peak is always kept and the
/// rest pass through [`distance_keep`].
pub open spec fn distance_stage(ps: Seq<PeakModel>, x: Seq<i64>, lim: LimitsModel) -> Seq<
    PeakModel,
> {
    if limits_empty(lim) {
        ps
    } else if ps.len() == 0 {
        Seq::empty()
    } else {
        seq![ps[0]] + distance_keep(ps.drop_first(), x, lim, x[mid_of(ps[0])] as int)
    }
}

/// Ghost image of a [`crate::PeakFinder`]: the two data sequences and the
/// five configured ranges.
pub ghost struct FinderModel {
    pub y: Seq<i64>,
    pub x: Seq<i64>,
    pub height: LimitsModel,
    pub prominence: LimitsModel,
    pub difference: LimitsModel,
    pub plateau_size: LimitsModel,
    pub distance: LimitsModel,
}

/// The candidates that survive the plateau-size, height and prominence
/// filters, still in ascending position order.
pub open spec fn survivors(m: FinderModel) -> Seq<PeakModel> {
    prominence_stage(
        height_stage(plateau_stage(candidates(m.y, m.difference), m.plateau_size), m.height, m.y),
        m.prominence,
        m.y,
    )
}

/// The whole pipeline: local-maximum extraction, the plateau-size, height
/// and prominence filters, the ranked sort, and distance suppression.
/// Fewer than two samples yield an empty result.
pub open spec fn find_peaks_spec(m: FinderModel) -> Seq<PeakModel> {
    if m.y.len() < 2 {
        Seq::empty()
    } else {
        distance_stage(sort_ranked(m.y, survivors(m)), m.x, m.distance)
    }
}

/// What the height filter's policy leaves on a record: with the height
/// range unconfigured the field stays absent; otherwise it holds a value
/// inside the range.
pub open spec fn height_ok(p: PeakModel, lim: LimitsModel) -> bool {
    if limits_empty(lim) {
        p.height is None
    } else {
        p.height matches Some(h) && in_limits(lim, h)
    }
}

/// The absolute gap between the position value at the plateau middle of
/// `p` and the position value `prev_x`.
pub open spec fn gap_to(x: Seq<i64>, p: PeakModel, prev_x: int) -> int {
    let xp = x[mid_of(p)] as int;
    if xp > prev_x {
        xp - prev_x
    } else {
        prev_x - xp
    }
}

/// The absolute positional gap between the plateau middles of two peaks.
pub open spec fn gap(x: Seq<i64>, a: PeakModel, b: PeakModel) -> int {
    gap_to(x, a, x[mid_of(b)] as int)
}

} // verus!
