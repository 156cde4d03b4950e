//! Optional-lower/optional-upper inclusive acceptance ranges.

use vstd::prelude::*;

use crate::model::in_limits;
use crate::model::LimitsModel;

verus! {

/// An inclusive range with independently optional lower and upper bounds.
///
/// An absent bound does not restrict that side; with both bounds absent the
/// range is *empty* in the sense of "unconfigured": it accepts every value
/// and callers skip the associated filter work altogether.
#[derive(Debug, Clone)]
pub struct Limits<T> {
    pub lower: Option<T>,
    pub upper: Option<T>,
}

impl<T> Limits<T> {
    /// The unconfigured range: no bound on either side.
    pub fn empty() -> (r: Self)
        ensures
            r.lower is None,
            r.upper is None,
    {
        Self { lower: None, upper: None }
    }

    /// True iff neither bound is set.
    pub fn is_empty(&self) -> (r: bool)
        ensures
            r == (self.lower is None && self.upper is None),
    {
        self.lower.is_none() && self.upper.is_none()
    }
}

impl View for Limits<i64> {
    type V = LimitsModel;

    open spec fn view(&self) -> LimitsModel {
        LimitsModel {
            lower: match self.lower {
                Some(lo) => Some(lo as int),
                None => None,
            },
            upper: match self.upper {
                Some(up) => Some(up as int),
                None => None,
            },
        }
    }
}

impl View for Limits<usize> {
    type V = LimitsModel;

    open spec fn view(&self) -> LimitsModel {
        LimitsModel {
            lower: match self.lower {
                Some(lo) => Some(lo as int),
                None => None,
            },
            upper: match self.upper {
                Some(up) => Some(up as int),
                None => None,
            },
        }
    }
}

impl Limits<i64> {
    /// Inclusive membership test; an absent bound never rejects.
    pub fn is_inside(&self, v: &i64) -> (r: bool)
        ensures
            r == in_limits(self@, *v as int),
    {
        (match self.lower {
            Some(lo) => *v >= lo,
            None => true,
        }) && (match self.upper {
            Some(up) => *v <= up,
            None => true,
        })
    }
}

impl Limits<usize> {
    /// Inclusive membership test; an absent bound never rejects.
    pub fn is_inside(&self, v: &usize) -> (r: bool)
        ensures
            r == in_limits(self@, *v as int),
    {
        (match self.lower {
            Some(lo) => *v >= lo,
            None => true,
        }) && (match self.upper {
            Some(up) => *v <= up,
            None => true,
        })
    }
}

} // verus!
