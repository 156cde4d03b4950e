//! The peak finder: data, configuration, and the filtering pipeline.

use vstd::prelude::*;

use crate::lemmas::lemma_candidates_pos_wf;
use crate::lemmas::lemma_height_stage_pos_wf;
use crate::lemmas::lemma_insert_ranked_at;
use crate::lemmas::lemma_plateau_stage_pos_wf;
use crate::lemmas::lemma_prominence_stage_pos_wf;
use crate::limits::Limits;
use crate::model::all_pos_wf;
use crate::model::bounded_values;
use crate::model::candidates;
use crate::model::candidates_from;
use crate::model::distance_keep;
use crate::model::distance_stage;
use crate::model::find_peaks_spec;
use crate::model::height_stage;
use crate::model::left_valley;
use crate::model::limits_empty;
use crate::model::merge_min;
use crate::model::no_limits;
use crate::model::opt_idx;
use crate::model::opt_val;
use crate::model::plateau_stage;
use crate::model::pos_wf;
use crate::model::prominence_of;
use crate::model::prominence_stage;
use crate::model::ranked_before;
use crate::model::right_valley;
use crate::model::sort_ranked;
use crate::model::FinderModel;
use crate::model::LimitsModel;
use crate::model::PeakModel;
use crate::model::VALUE_LIMIT;
use crate::peak::peak_views;
use crate::peak::Peak;

verus! {

/// Holds a sample sequence, a matching position sequence (sample indices by
/// default), and the five configurable acceptance ranges; a single
/// [`PeakFinder::find_peaks`] call runs the whole pipeline.
///
/// Sample and position values must stay within
/// `[-VALUE_LIMIT, VALUE_LIMIT]` so that no difference of two of them can
/// overflow an `i64`.
#[derive(Clone)]
pub struct PeakFinder {
    y_data: Vec<i64>,
    x_data: Vec<i64>,
    height: Limits<i64>,
    prominence: Limits<i64>,
    difference: Limits<i64>,
    plateau_size: Limits<usize>,
    distance: Limits<i64>,
}

impl View for PeakFinder {
    type V = FinderModel;

    closed spec fn view(&self) -> FinderModel {
        FinderModel {
            y: self.y_data@,
            x: self.x_data@,
            height: self.height@,
            prominence: self.prominence@,
            difference: self.difference@,
            plateau_size: self.plateau_size@,
            distance: self.distance@,
        }
    }
}

impl PeakFinder {
    /// The machine-level side conditions every finder satisfies: both
    /// sequences are bounded and of equal length, which keeps all the
    /// pipeline's arithmetic within `i64` and `usize`.
    pub open spec fn wf(self) -> bool {
        &&& bounded_values(self@.y)
        &&& bounded_values(self@.x)
        &&& self@.x.len() == self@.y.len()
        &&& self@.y.len() <= VALUE_LIMIT
    }

    /// A finder over `y_data` with positions defaulting to the sample
    /// indices and, unless the data is empty, a difference range that
    /// accepts exactly the non-negative steps.
    pub fn new(y_data: &Vec<i64>) -> (r: Self)
        requires
            bounded_values(y_data@),
            y_data@.len() <= VALUE_LIMIT,
        ensures
            r.wf(),
            r@.y == y_data@,
            r@.x.len() == y_data@.len(),
            forall|i: int| 0 <= i < r@.x.len() ==> r@.x[i] == i,
            r@.height == no_limits(),
            r@.prominence == no_limits(),
            r@.plateau_size == no_limits(),
            r@.distance == no_limits(),
            r@.difference == (if y_data@.len() == 0 {
                no_limits()
            } else {
                LimitsModel { lower: Some(0), upper: None }
            }),
    {
        let n = y_data.len();
        let mut x: Vec<i64> = Vec::new();
        let mut i: usize = 0;
        while i < n
            invariant
                i <= n,
                n <= VALUE_LIMIT,
                x@.len() == i,
                forall|k: int| 0 <= k < i ==> x@[k] == k,
            decreases n - i,
        {
            x.push(i as i64);
            i += 1;
        }
        let difference = if y_data.len() == 0 {
            Limits::empty()
        } else {
            Limits { lower: Some(0), upper: None }
        };
        Self {
            y_data: clone_values(y_data),
            x_data: x,
            height: Limits::empty(),
            prominence: Limits::empty(),
            difference,
            plateau_size: Limits::empty(),
            distance: Limits::empty(),
        }
    }

    /// A finder over `y_data` with an explicit position sequence, which
    /// must match the sample sequence in length.
    pub fn new_with_x(y_data: &Vec<i64>, x_data: &Vec<i64>) -> (r: Self)
        requires
            bounded_values(y_data@),
            bounded_values(x_data@),
            x_data@.len() == y_data@.len(),
            y_data@.len() <= VALUE_LIMIT,
        ensures
            r.wf(),
            r@.y == y_data@,
            r@.x == x_data@,
            r@.height == no_limits(),
            r@.prominence == no_limits(),
            r@.plateau_size == no_limits(),
            r@.distance == no_limits(),
            r@.difference == (if y_data@.len() == 0 {
                no_limits()
            } else {
                LimitsModel { lower: Some(0), upper: None }
            }),
    {
        let difference = if y_data.len() == 0 {
            Limits::empty()
        } else {
            Limits { lower: Some(0), upper: None }
        };
        Self {
            y_data: clone_values(y_data),
            x_data: clone_values(x_data),
            height: Limits::empty(),
            prominence: Limits::empty(),
            difference,
            plateau_size: Limits::empty(),
            distance: Limits::empty(),
        }
    }

    /// Set the lower height bound.
    pub fn with_min_height(self, h: i64) -> (r: Self)
        ensures
            r@ == (FinderModel {
                height: LimitsModel { lower: Some(h as int), ..self@.height },
                ..self@
            }),
    {
        let mut s = self;
        s.height.lower = Some(h);
        s
    }

    /// Set the upper height bound.
    pub fn with_max_height(self, h: i64) -> (r: Self)
        ensures
            r@ == (FinderModel {
                height: LimitsModel { upper: Some(h as int), ..self@.height },
                ..self@
            }),
    {
        let mut s = self;
        s.height.upper = Some(h);
        s
    }

    /// Set the lower prominence bound; a negative bound is a configuration
    /// error and is excluded up front.
    pub fn with_min_prominence(self, prominence: i64) -> (r: Self)
        requires
            prominence >= 0,
        ensures
            r@ == (FinderModel {
                prominence: LimitsModel { lower: Some(prominence as int), ..self@.prominence },
                ..self@
            }),
    {
        let mut s = self;
        s.prominence.lower = Some(prominence);
        s
    }

    /// Set the upper prominence bound; a negative bound is a configuration
    /// error and is excluded up front.
    pub fn with_max_prominence(self, prominence: i64) -> (r: Self)
        requires
            prominence >= 0,
        ensures
            r@ == (FinderModel {
                prominence: LimitsModel { upper: Some(prominence as int), ..self@.prominence },
                ..self@
            }),
    {
        let mut s = self;
        s.prominence.upper = Some(prominence);
        s
    }

    /// Set the lower bound on the steps beside a plateau; a negative bound
    /// is a configuration error and is excluded up front.
    pub fn with_min_difference(self, difference: i64) -> (r: Self)
        requires
            difference >= 0,
        ensures
            r@ == (FinderModel {
                difference: LimitsModel { lower: Some(difference as int), ..self@.difference },
                ..self@
            }),
    {
        let mut s = self;
        s.difference.lower = Some(difference);
        s
    }

    /// Set the upper bound on the steps beside a plateau; a negative bound
    /// is a configuration error and is excluded up front.
    pub fn with_max_difference(self, difference: i64) -> (r: Self)
        requires
            difference >= 0,
        ensures
            r@ == (FinderModel {
                difference: LimitsModel { upper: Some(difference as int), ..self@.difference },
                ..self@
            }),
    {
        let mut s = self;
        s.difference.upper = Some(difference);
        s
    }

    /// Set the lower plateau-width bound.
    pub fn with_min_plateau_size(self, size: usize) -> (r: Self)
        ensures
            r@ == (FinderModel {
                plateau_size: LimitsModel { lower: Some(size as int), ..self@.plateau_size },
                ..self@
            }),
    {
        let mut s = self;
        s.plateau_size.lower = Some(size);
        s
    }

    /// Set the upper plateau-width bound.
    pub fn with_max_plateau_size(self, size: usize) -> (r: Self)
        ensures
            r@ == (FinderModel {
                plateau_size: LimitsModel { upper: Some(size as int), ..self@.plateau_size },
                ..self@
            }),
    {
        let mut s = self;
        s.plateau_size.upper = Some(size);
        s
    }

    /// Set the lower bound on the spacing of accepted peaks; a negative
    /// bound is a configuration error and is excluded up front.
    pub fn with_min_distance(self, distance: i64) -> (r: Self)
        requires
            distance >= 0,
        ensures
            r@ == (FinderModel {
                distance: LimitsModel { lower: Some(distance as int), ..self@.distance },
                ..self@
            }),
    {
        let mut s = self;
        s.distance.lower = Some(distance);
        s
    }

    /// Set the upper bound on the spacing of accepted peaks; a negative
    /// bound is a configuration error and is excluded up front.
    pub fn with_max_distance(self, distance: i64) -> (r: Self)
        requires
            distance >= 0,
        ensures
            r@ == (FinderModel {
                distance: LimitsModel { upper: Some(distance as int), ..self@.distance },
                ..self@
            }),
    {
        let mut s = self;
        s.distance.upper = Some(distance);
        s
    }
}

impl PeakFinder {
    /// Scan the samples once, left to right, collecting every
    /// local-maximum candidate in ascending position order.
    pub fn get_local_maxima(&self) -> (r: Vec<Peak>)
        requires
            self.wf(),
            self@.y.len() >= 2,
        ensures
            peak_views(r@) == candidates(self@.y, self@.difference),
    {
        let y = &self.y_data;
        let n = y.len();
        let mut out: Vec<Peak> = Vec::new();
        let mut back: i64 = y[1] - y[0];
        let mut start: Option<usize> = None;
        let mut i: usize = 2;
        proof {
            assert(peak_views(out@) =~= Seq::<PeakModel>::empty());
        }
        while i < n
            invariant
                2 <= i <= n,
                n == y@.len(),
                y@ == self@.y,
                bounded_values(y@),
                -2 * VALUE_LIMIT <= back <= 2 * VALUE_LIMIT,
                start matches Some(s) ==> 1 <= s <= i - 2,
                candidates(self@.y, self@.difference) == peak_views(out@) + candidates_from(
                    y@,
                    self@.difference,
                    i as int,
                    back as int,
                    opt_idx(start),
                ),
            decreases n - i,
        {
            let ghost pre_out = out@;
            let ghost pre_back = back as int;
            let ghost pre_start = opt_idx(start);
            let ahead = y[i - 1] - y[i];
            let back_inside = self.difference.is_inside(&back);
            if back_inside && ahead == 0 {
                if start.is_none() {
                    start = Some(i - 1);
                }
                proof {
                    assert(candidates_from(y@, self@.difference, i as int, pre_back, pre_start)
                        == candidates_from(
                        y@,
                        self@.difference,
                        i + 1,
                        back as int,
                        opt_idx(start),
                    ));
                }
            } else {
                let ahead_inside = self.difference.is_inside(&ahead);
                if ahead_inside && back_inside {
                    let s = match start {
                        Some(s) => s,
                        None => i - 1,
                    };
                    out.push(Peak::new(s, i, back, ahead));
                    proof {
                        let emitted = PeakModel {
                            start: match pre_start {
                                Some(s) => s,
                                None => i - 1,
                            },
                            end: i as int,
                            left_diff: pre_back,
                            right_diff: ahead as int,
                            height: None,
                            prominence: None,
                        };
                        assert(peak_views(out@) =~= peak_views(pre_out).push(emitted));
                        assert(peak_views(pre_out) + (seq![emitted] + candidates_from(
                            y@,
                            self@.difference,
                            i + 1,
                            -(ahead as int),
                            None,
                        )) =~= peak_views(out@) + candidates_from(
                            y@,
                            self@.difference,
                            i + 1,
                            -(ahead as int),
                            None,
                        ));
                    }
                }
                start = None;
                back = -ahead;
            }
            i += 1;
        }
        proof {
            assert(candidates_from(y@, self@.difference, n as int, back as int, opt_idx(start))
                == Seq::<PeakModel>::empty());
            assert(peak_views(out@) + Seq::<PeakModel>::empty() =~= peak_views(out@));
        }
        out
    }
}

impl PeakFinder {
    /// Drop the candidates whose plateau width falls outside the
    /// plateau-size range; a pass-through when that range is unconfigured.
    pub fn filter_plateau(&self, peaks: Vec<Peak>) -> (r: Vec<Peak>)
        requires
            forall|k: int|
                0 <= k < peaks@.len() ==> (#[trigger] peaks@[k]).position_start
                    <= peaks@[k].position_end,
        ensures
            peak_views(r@) == plateau_stage(peak_views(peaks@), self@.plateau_size),
    {
        if self.plateau_size.is_empty() {
            return peaks;
        }
        let ghost vs = peak_views(peaks@);
        let mut out: Vec<Peak> = Vec::new();
        let mut k: usize = 0;
        proof {
            assert(vs.take(0) =~= Seq::<PeakModel>::empty());
            assert(peak_views(out@) =~= Seq::<PeakModel>::empty());
        }
        while k < peaks.len()
            invariant
                k <= peaks@.len(),
                vs == peak_views(peaks@),
                !limits_empty(self@.plateau_size),
                forall|m: int|
                    0 <= m < peaks@.len() ==> (#[trigger] peaks@[m]).position_start
                        <= peaks@[m].position_end,
                peak_views(out@) == plateau_stage(vs.take(k as int), self@.plateau_size),
            decreases peaks@.len() - k,
        {
            let ghost pre_out = out@;
            let p = peaks[k];
            let w = p.position_end - p.position_start;
            proof {
                assert(vs.take(k + 1).drop_last() =~= vs.take(k as int));
                assert(vs.take(k + 1).last() == peaks@[k as int]@);
            }
            if self.plateau_size.is_inside(&w) {
                out.push(p);
                proof {
                    assert(peak_views(out@) =~= peak_views(pre_out).push(p@));
                }
            }
            k += 1;
        }
        proof {
            assert(vs.take(peaks@.len() as int) =~= vs);
        }
        out
    }

    /// Drop the candidates whose plateau value falls outside the height
    /// range, recording that value into the survivors; a pass-through,
    /// leaving heights absent, when that range is unconfigured.
    pub fn filter_height(&self, peaks: Vec<Peak>) -> (r: Vec<Peak>)
        requires
            self.wf(),
            forall|k: int|
                0 <= k < peaks@.len() ==> (#[trigger] peaks@[k]).position_start < self@.y.len(),
        ensures
            peak_views(r@) == height_stage(peak_views(peaks@), self@.height, self@.y),
    {
        if self.height.is_empty() {
            return peaks;
        }
        let ghost vs = peak_views(peaks@);
        let mut out: Vec<Peak> = Vec::new();
        let mut k: usize = 0;
        proof {
            assert(vs.take(0) =~= Seq::<PeakModel>::empty());
            assert(peak_views(out@) =~= Seq::<PeakModel>::empty());
        }
        while k < peaks.len()
            invariant
                k <= peaks@.len(),
                vs == peak_views(peaks@),
                !limits_empty(self@.height),
                self@.y == self.y_data@,
                forall|m: int|
                    0 <= m < peaks@.len() ==> (#[trigger] peaks@[m]).position_start
                        < self.y_data@.len(),
                peak_views(out@) == height_stage(vs.take(k as int), self@.height, self@.y),
            decreases peaks@.len() - k,
        {
            let ghost pre_out = out@;
            let mut p = peaks[k];
            let h = self.y_data[p.position_start];
            proof {
                assert(vs.take(k + 1).drop_last() =~= vs.take(k as int));
                assert(vs.take(k + 1).last() == peaks@[k as int]@);
            }
            if self.height.is_inside(&h) {
                p.add_height(h);
                out.push(p);
                proof {
                    assert(peak_views(out@) =~= peak_views(pre_out).push(p@));
                }
            }
            k += 1;
        }
        proof {
            assert(vs.take(peaks@.len() as int) =~= vs);
        }
        out
    }
}

impl PeakFinder {
    /// Prominence of the plateau of `p`: two bounded scans outward from the
    /// plateau, each stopping at the first sample above the plateau value,
    /// then the plateau value above the higher surviving valley floor.
    pub fn calc_prominence(&self, p: &Peak) -> (r: i64)
        requires
            self.wf(),
            1 <= p.position_start,
            p.position_start < p.position_end,
            p.position_end <= self@.y.len() - 1,
        ensures
            r as int == prominence_of(self@.y, p@.start, p@.end),
    {
        let y = &self.y_data;
        let n = y.len();
        let h = y[p.position_start];
        let ghost hh = h as int;

        let mut left_min: Option<i64> = None;
        let mut j: usize = p.position_start;
        while j > 0 && y[j - 1] <= h
            invariant
                j <= p.position_start,
                p.position_start < n,
                n == y@.len(),
                y@ == self@.y,
                bounded_values(y@),
                hh == y@[p.position_start as int],
                h == y@[p.position_start as int],
                left_valley(y@, hh, p.position_start - 1) == merge_min(
                    opt_val(left_min),
                    left_valley(y@, hh, j - 1),
                ),
                left_min matches Some(m) ==> -VALUE_LIMIT <= m <= VALUE_LIMIT,
            decreases j,
        {
            let ghost pre_min = opt_val(left_min);
            let v = y[j - 1];
            proof {
                assert(left_valley(y@, hh, j - 1) == merge_min(
                    Some(v as int),
                    left_valley(y@, hh, j - 2),
                ));
            }
            left_min = match left_min {
                Some(m) => if v < m {
                    Some(v)
                } else {
                    Some(m)
                },
                None => Some(v),
            };
            j -= 1;
        }
        proof {
            assert(left_valley(y@, hh, j - 1) is None);
        }

        let mut right_min: Option<i64> = None;
        let mut k: usize = p.position_end;
        while k < n && y[k] <= h
            invariant
                p.position_end <= k <= n,
                p.position_start < n,
                n == y@.len(),
                y@ == self@.y,
                bounded_values(y@),
                hh == y@[p.position_start as int],
                h == y@[p.position_start as int],
                right_valley(y@, hh, p.position_end as int) == merge_min(
                    opt_val(right_min),
                    right_valley(y@, hh, k as int),
                ),
                right_min matches Some(m) ==> -VALUE_LIMIT <= m <= VALUE_LIMIT,
            decreases n - k,
        {
            let v = y[k];
            proof {
                assert(right_valley(y@, hh, k as int) == merge_min(
                    Some(v as int),
                    right_valley(y@, hh, k + 1),
                ));
            }
            right_min = match right_min {
                Some(m) => if v < m {
                    Some(v)
                } else {
                    Some(m)
                },
                None => Some(v),
            };
            k += 1;
        }
        proof {
            assert(right_valley(y@, hh, k as int) is None);
        }

        match (left_min, right_min) {
            (None, None) => 0,
            (Some(v), None) => h - v,
            (None, Some(v)) => h - v,
            (Some(a), Some(b)) => h - (if a >= b {
                a
            } else {
                b
            }),
        }
    }

    /// Drop the candidates whose prominence falls outside the prominence
    /// range, recording it into the survivors; a pass-through, leaving
    /// prominences absent, when that range is unconfigured.
    pub fn filter_prominence(&self, peaks: Vec<Peak>) -> (r: Vec<Peak>)
        requires
            self.wf(),
            forall|k: int|
                0 <= k < peaks@.len() ==> {
                    let p = #[trigger] peaks@[k];
                    1 <= p.position_start && p.position_start < p.position_end
                        && p.position_end <= self@.y.len() - 1
                },
        ensures
            peak_views(r@) == prominence_stage(peak_views(peaks@), self@.prominence, self@.y),
    {
        if self.prominence.is_empty() {
            return peaks;
        }
        let ghost vs = peak_views(peaks@);
        let mut out: Vec<Peak> = Vec::new();
        let mut k: usize = 0;
        proof {
            assert(vs.take(0) =~= Seq::<PeakModel>::empty());
            assert(peak_views(out@) =~= Seq::<PeakModel>::empty());
        }
        while k < peaks.len()
            invariant
                k <= peaks@.len(),
                vs == peak_views(peaks@),
                self.wf(),
                !limits_empty(self@.prominence),
                forall|m: int|
                    0 <= m < peaks@.len() ==> {
                        let p = #[trigger] peaks@[m];
                        1 <= p.position_start && p.position_start < p.position_end
                            && p.position_end <= self@.y.len() - 1
                    },
                peak_views(out@) == prominence_stage(vs.take(k as int), self@.prominence, self@.y),
            decreases peaks@.len() - k,
        {
            let ghost pre_out = out@;
            let mut p = peaks[k];
            let prom = self.calc_prominence(&p);
            proof {
                assert(vs.take(k + 1).drop_last() =~= vs.take(k as int));
                assert(vs.take(k + 1).last() == peaks@[k as int]@);
            }
            if self.prominence.is_inside(&prom) {
                p.add_prominence(prom);
                out.push(p);
                proof {
                    assert(peak_views(out@) =~= peak_views(pre_out).push(p@));
                }
            }
            k += 1;
        }
        proof {
            assert(vs.take(peaks@.len() as int) =~= vs);
        }
        out
    }
}

impl PeakFinder {
    /// `a` strictly precedes `b` in the output order: higher plateau value
    /// first, equal values by ascending plateau position.
    fn rank_lt(&self, a: &Peak, b: &Peak) -> (r: bool)
        requires
            self.wf(),
            a.position_start < self@.y.len(),
            b.position_start < self@.y.len(),
        ensures
            r == ranked_before(self@.y, a@, b@),
    {
        let ya = self.y_data[a.position_start];
        let yb = self.y_data[b.position_start];
        ya > yb || (ya == yb && a.position_start < b.position_start)
    }

    /// Stable insertion sort of the candidates into the output order.
    fn sort_by_rank(&self, peaks: Vec<Peak>) -> (r: Vec<Peak>)
        requires
            self.wf(),
            all_pos_wf(peak_views(peaks@), self@.y.len() as int),
        ensures
            peak_views(r@) == sort_ranked(self@.y, peak_views(peaks@)),
            all_pos_wf(peak_views(r@), self@.y.len() as int),
    {
        let ghost vs = peak_views(peaks@);
        let mut out: Vec<Peak> = Vec::new();
        let mut k: usize = 0;
        proof {
            assert(vs.take(0) =~= Seq::<PeakModel>::empty());
            assert(peak_views(out@) =~= Seq::<PeakModel>::empty());
        }
        while k < peaks.len()
            invariant
                k <= peaks@.len(),
                vs == peak_views(peaks@),
                self.wf(),
                all_pos_wf(vs, self@.y.len() as int),
                all_pos_wf(peak_views(out@), self@.y.len() as int),
                peak_views(out@) == sort_ranked(self@.y, vs.take(k as int)),
            decreases peaks@.len() - k,
        {
            let ghost pre_out = out@;
            let p = peaks[k];
            proof {
                assert(vs[k as int] == peaks@[k as int]@);
            }
            proof {
                assert(pos_wf(vs[k as int], self@.y.len() as int));
            }
            let mut idx: usize = 0;
            while idx < out.len()
                invariant
                    idx <= out@.len(),
                    out@ == pre_out,
                    vs == peak_views(peaks@),
                    k < peaks@.len(),
                    p == peaks@[k as int],
                    p.position_start < self@.y.len(),
                    self.wf(),
                    all_pos_wf(peak_views(out@), self@.y.len() as int),
                    forall|m: int|
                        0 <= m < idx ==> !ranked_before(
                            self@.y,
                            p@,
                            #[trigger] peak_views(out@)[m],
                        ),
                ensures
                    idx <= out@.len(),
                    forall|m: int|
                        0 <= m < idx ==> !ranked_before(
                            self@.y,
                            p@,
                            #[trigger] peak_views(out@)[m],
                        ),
                    idx < out@.len() ==> ranked_before(self@.y, p@, peak_views(out@)[idx as int]),
                decreases out@.len() - idx,
            {
                proof {
                    assert(pos_wf(peak_views(out@)[idx as int], self@.y.len() as int));
                }
                if self.rank_lt(&p, &out[idx]) {
                    break;
                }
                idx += 1;
            }
            proof {
                lemma_insert_ranked_at(self@.y, peak_views(pre_out), p@, idx as int);
            }
            out.insert(idx, p);
            proof {
                assert(peak_views(out@) =~= peak_views(pre_out).insert(idx as int, p@));
                assert(vs.take(k + 1).drop_last() =~= vs.take(k as int));
                assert(vs.take(k + 1).last() == vs[k as int]);
                assert(peak_views(out@) == sort_ranked(self@.y, vs.take(k + 1)));
            }
            k += 1;
        }
        proof {
            assert(vs.take(peaks@.len() as int) =~= vs);
        }
        out
    }

    /// Sort the surviving peaks into the output order, then greedily
    /// suppress every peak whose spacing from the most recently kept one
    /// falls outside the distance range; with that range unconfigured the
    /// ranked order itself is the final output.
    pub fn filter_distance(&self, peaks: Vec<Peak>) -> (r: Vec<Peak>)
        requires
            self.wf(),
            all_pos_wf(peak_views(peaks@), self@.y.len() as int),
        ensures
            peak_views(r@) == distance_stage(
                sort_ranked(self@.y, peak_views(peaks@)),
                self@.x,
                self@.distance,
            ),
    {
        let sorted = self.sort_by_rank(peaks);
        if self.distance.is_empty() {
            return sorted;
        }
        if sorted.len() == 0 {
            proof {
                assert(peak_views(sorted@) =~= Seq::<PeakModel>::empty());
            }
            return sorted;
        }
        let ghost svs = peak_views(sorted@);
        let mut out: Vec<Peak> = Vec::new();
        let first = sorted[0];
        out.push(first);
        proof {
            assert(pos_wf(svs[0], self@.y.len() as int));
            assert((svs[0].start + svs[0].end) / 2 < svs[0].end);
        }
        let mut x_prev = self.x_data[first.middle_position()];
        let mut k: usize = 1;
        proof {
            assert(svs.skip(1) =~= svs.drop_first());
            assert(peak_views(out@) =~= seq![svs[0]]);
        }
        while k < sorted.len()
            invariant
                1 <= k <= sorted@.len(),
                svs == peak_views(sorted@),
                self.wf(),
                all_pos_wf(svs, self@.y.len() as int),
                !limits_empty(self@.distance),
                -VALUE_LIMIT <= x_prev <= VALUE_LIMIT,
                distance_stage(svs, self@.x, self@.distance) == peak_views(out@) + distance_keep(
                    svs.skip(k as int),
                    self@.x,
                    self@.distance,
                    x_prev as int,
                ),
            decreases sorted@.len() - k,
        {
            let ghost pre_out = out@;
            let p = sorted[k];
            let xm = self.x_data[p.middle_position()];
            let dist = if xm > x_prev {
                xm - x_prev
            } else {
                x_prev - xm
            };
            proof {
                assert(svs.skip(k as int).drop_first() =~= svs.skip(k + 1));
                assert(svs.skip(k as int)[0] == svs[k as int]);
            }
            if self.distance.is_inside(&dist) {
                out.push(p);
                proof {
                    assert(peak_views(out@) =~= peak_views(pre_out).push(p@));
                    assert(peak_views(pre_out) + (seq![svs[k as int]] + distance_keep(
                        svs.skip(k + 1),
                        self@.x,
                        self@.distance,
                        xm as int,
                    )) =~= peak_views(out@) + distance_keep(
                        svs.skip(k + 1),
                        self@.x,
                        self@.distance,
                        xm as int,
                    ));
                }
                x_prev = xm;
            }
            k += 1;
        }
        proof {
            assert(svs.skip(sorted@.len() as int) =~= Seq::<PeakModel>::empty());
            assert(peak_views(out@) + Seq::<PeakModel>::empty() =~= peak_views(out@));
        }
        out
    }
}

impl PeakFinder {
    /// Run the whole pipeline: local-maximum extraction, the plateau-size,
    /// height and prominence filters, the ranked sort and distance
    /// suppression. The result is in descending order of plateau value,
    /// not ascending position; fewer than two samples yield no peaks.
    ///
    /// The finder is untouched: repeating the call on the same finder
    /// yields the same output.
    pub fn find_peaks(&self) -> (r: Vec<Peak>)
        requires
            self.wf(),
        ensures
            peak_views(r@) == find_peaks_spec(self@),
            self@.y.len() < 2 ==> r@.len() == 0,
    {
        if self.y_data.len() < 2 {
            let r: Vec<Peak> = Vec::new();
            proof {
                assert(peak_views(r@) =~= Seq::<PeakModel>::empty());
            }
            return r;
        }
        let ghost n = self@.y.len() as int;
        let c0 = self.get_local_maxima();
        proof {
            lemma_candidates_pos_wf(self@.y, self@.difference);
            assert forall|k: int| 0 <= k < c0@.len() implies (#[trigger] c0@[k]).position_start
                <= c0@[k].position_end by {
                assert(peak_views(c0@)[k] == c0@[k]@);
                assert(pos_wf(peak_views(c0@)[k], n));
            }
        }
        let c1 = self.filter_plateau(c0);
        proof {
            lemma_plateau_stage_pos_wf(peak_views(c0@), self@.plateau_size, n);
            assert forall|k: int| 0 <= k < c1@.len() implies (#[trigger] c1@[k]).position_start
                < self@.y.len() by {
                assert(peak_views(c1@)[k] == c1@[k]@);
                assert(pos_wf(peak_views(c1@)[k], n));
            }
        }
        let c2 = self.filter_height(c1);
        proof {
            lemma_height_stage_pos_wf(peak_views(c1@), self@.height, self@.y, n);
            assert forall|k: int| 0 <= k < c2@.len() implies {
                let p = #[trigger] c2@[k];
                1 <= p.position_start && p.position_start < p.position_end && p.position_end
                    <= self@.y.len() - 1
            } by {
                assert(peak_views(c2@)[k] == c2@[k]@);
                assert(pos_wf(peak_views(c2@)[k], n));
            }
        }
        let c3 = self.filter_prominence(c2);
        proof {
            lemma_prominence_stage_pos_wf(peak_views(c2@), self@.prominence, self@.y, n);
        }
        self.filter_distance(c3)
    }
}

/// An element-by-element copy of a vector of plain values.
fn clone_values(v: &Vec<i64>) -> (r: Vec<i64>)
    ensures
        r@ == v@,
{
    let mut r: Vec<i64> = Vec::new();
    let mut i: usize = 0;
    while i < v.len()
        invariant
            i <= v@.len(),
            r@ == v@.take(i as int),
        decreases v@.len() - i,
    {
        r.push(v[i]);
        proof {
            assert(v@.take(i + 1) =~= v@.take(i as int).push(v@[i as int]));
        }
        i += 1;
    }
    proof {
        assert(v@.take(v@.len() as int) =~= v@);
    }
    r
}

} // verus!
