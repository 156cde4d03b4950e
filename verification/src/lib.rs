//! Peak detection in one-dimensional sample sequences.
//!
//! A [`PeakFinder`] scans a sequence of samples for local maxima
//! ("peaks", possibly flat-topped plateaus) and filters the candidates by
//! configurable bounds on height, prominence, neighbouring step size,
//! plateau width and spacing between accepted peaks.

mod finder;
mod laws;
mod lemmas;
mod limits;
mod model;
mod peak;

pub use finder::PeakFinder;
pub use laws::lemma_candidate_diffs;
pub use laws::lemma_candidate_plateau;
pub use laws::lemma_output_order;
pub use laws::lemma_peak_heights;
pub use laws::lemma_peak_spacing;
pub use limits::Limits;
pub use model::bounded_values;
pub use model::candidates;
pub use model::find_peaks_spec;
pub use model::gap;
pub use model::height_ok;
pub use model::in_limits;
pub use model::limits_empty;
pub use model::mid_of;
pub use model::ranked_before;
pub use model::ranked_sorted;
pub use model::sort_ranked;
pub use model::survivors;
pub use model::FinderModel;
pub use model::LimitsModel;
pub use model::PeakModel;
pub use model::VALUE_LIMIT;
pub use peak::peak_views;
pub use peak::Peak;
