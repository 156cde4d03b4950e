//! The record describing one detected peak.

use vstd::prelude::*;

use crate::model::PeakModel;

verus! {

/// One detected peak.
///
/// `position_start .. position_end` is the half-open range of sample indices
/// the peak's plateau spans; all samples in that range hold the same value
/// and the range is never empty. `height` and `prominence` stay `None`
/// unless the corresponding bound was configured on the finder: their
/// computation is skipped when nobody asked for it.
#[derive(Debug, Clone, Copy, PartialEq, Eq)]
pub struct Peak {
    /// First sample index of the plateau.
    pub position_start: usize,
    /// One past the last sample index of the plateau.
    pub position_end: usize,
    /// Plateau value minus the nearest differing neighbour to the left.
    pub left_diff: i64,
    /// Plateau value minus the nearest differing neighbour to the right.
    pub right_diff: i64,
    /// Plateau value, when a height bound was configured.
    pub height: Option<i64>,
    /// Prominence, when a prominence bound was configured.
    pub prominence: Option<i64>,
}

/// The ghost images of a sequence of peak records.
pub open spec fn peak_views(s: Seq<Peak>) -> Seq<PeakModel> {
    s.map_values(|p: Peak| p@)
}

impl View for Peak {
    type V = PeakModel;

    open spec fn view(&self) -> PeakModel {
        PeakModel {
            start: self.position_start as int,
            end: self.position_end as int,
            left_diff: self.left_diff as int,
            right_diff: self.right_diff as int,
            height: match self.height {
                Some(h) => Some(h as int),
                None => None,
            },
            prominence: match self.prominence {
                Some(p) => Some(p as int),
                None => None,
            },
        }
    }
}

impl Peak {
    /// A fresh candidate: plateau position and its two neighbouring steps,
    /// with no optional property computed yet.
    pub fn new(position_start: usize, position_end: usize, left_diff: i64, right_diff: i64) -> (r: Self)
        ensures
            r@ == (PeakModel {
                start: position_start as int,
                end: position_end as int,
                left_diff: left_diff as int,
                right_diff: right_diff as int,
                height: None,
                prominence: None,
            }),
    {
        Self {
            position_start,
            position_end,
            left_diff,
            right_diff,
            height: None,
            prominence: None,
        }
    }

    /// Record the plateau's sample value.
    pub fn add_height(&mut self, h: i64)
        ensures
            final(self)@ == (PeakModel { height: Some(h as int), ..old(self)@ }),
    {
        self.height = Some(h);
    }

    /// Record the computed prominence.
    pub fn add_prominence(&mut self, p: i64)
        ensures
            final(self)@ == (PeakModel { prominence: Some(p as int), ..old(self)@ }),
    {
        self.prominence = Some(p);
    }

    /// The middle index of the plateau; for an even plateau width this
    /// rounds down, toward the left half.
    pub fn middle_position(&self) -> (r: usize)
        requires
            self.position_start <= self.position_end,
        ensures
            r == (self@.start + self@.end) / 2,
    {
        self.position_start + (self.position_end - self.position_start) / 2
    }
}

} // verus!
