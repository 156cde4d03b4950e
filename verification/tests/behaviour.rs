use find_peaks::Limits;
use find_peaks::Peak;
use find_peaks::PeakFinder;
use find_peaks::VALUE_LIMIT;

fn peak(
    position_start: usize,
    position_end: usize,
    left_diff: i64,
    right_diff: i64,
    height: Option<i64>,
    prominence: Option<i64>,
) -> Peak {
    Peak { position_start, position_end, left_diff, right_diff, height, prominence }
}

#[test]
fn repeated_calls_agree() {
    let y: Vec<i64> = vec![1, 2, 3, 0, 5, 0, 4, 4, 1];
    let fp = PeakFinder::new(&y).with_min_height(0).with_min_prominence(1);
    let first = fp.find_peaks();
    let second = fp.find_peaks();
    assert_eq!(first, second);
    assert!(!first.is_empty());
}

#[test]
fn equal_heights_keep_position_order() {
    let y: Vec<i64> = vec![0, 5, 0, 5, 0];
    let ps = PeakFinder::new(&y).with_min_height(0).find_peaks();
    assert_eq!(
        ps,
        vec![peak(1, 2, 5, 5, Some(5), None), peak(3, 4, 5, 5, Some(5), None)]
    );
}

#[test]
fn ranked_without_height_bound() {
    let y: Vec<i64> = vec![0, 3, 0, 5, 0];
    let ps = PeakFinder::new(&y).find_peaks();
    assert_eq!(
        ps,
        vec![peak(3, 4, 5, 5, None, None), peak(1, 2, 3, 3, None, None)]
    );
}

#[test]
fn close_peak_suppressed() {
    let y: Vec<i64> = vec![1, 2, 3, 0, 5, 0];
    let ps = PeakFinder::new(&y).with_min_distance(3).find_peaks();
    assert_eq!(ps, vec![peak(4, 5, 5, 5, None, None)]);
}

#[test]
fn distant_peak_kept() {
    let y: Vec<i64> = vec![1, 2, 3, 0, 5, 0];
    let ps = PeakFinder::new(&y).with_min_distance(2).find_peaks();
    assert_eq!(
        ps,
        vec![peak(4, 5, 5, 5, None, None), peak(2, 3, 1, 3, None, None)]
    );
}

#[test]
fn extreme_sample_values() {
    let y: Vec<i64> = vec![-VALUE_LIMIT, VALUE_LIMIT, -VALUE_LIMIT];
    let ps = PeakFinder::new(&y).with_min_height(0).find_peaks();
    assert_eq!(
        ps,
        vec![peak(1, 2, 2 * VALUE_LIMIT, 2 * VALUE_LIMIT, Some(VALUE_LIMIT), None)]
    );
}

#[test]
fn max_height_bound_drops_tall_peak() {
    let y: Vec<i64> = vec![1, 2, 3, 0, 5, 0];
    let ps = PeakFinder::new(&y).with_max_height(4).find_peaks();
    assert_eq!(ps, vec![peak(2, 3, 1, 3, Some(3), None)]);
}

#[test]
fn max_prominence_bound() {
    let y: Vec<i64> = vec![1, 2, 3, 0, 5, 0];
    let ps = PeakFinder::new(&y).with_max_prominence(3).find_peaks();
    assert_eq!(ps, vec![peak(2, 3, 1, 3, None, Some(2))]);
}

#[test]
fn max_plateau_size_bound() {
    let y: Vec<i64> = vec![1, 2, 3, 3, 3, 0, 5, 5, 0];
    let ps = PeakFinder::new(&y).with_max_plateau_size(2).find_peaks();
    assert_eq!(ps, vec![peak(6, 8, 5, 5, None, None)]);
}

#[test]
fn middle_position_rounds_down() {
    let even = Peak::new(2, 4, 1, 1);
    assert_eq!(even.middle_position(), 3);
    let odd = Peak::new(2, 5, 1, 1);
    assert_eq!(odd.middle_position(), 3);
    let single = Peak::new(4, 5, 1, 1);
    assert_eq!(single.middle_position(), 4);
}

#[test]
fn limits_membership() {
    let empty: Limits<i64> = Limits::empty();
    assert!(empty.is_empty());
    assert!(empty.is_inside(&-7));

    let band = Limits { lower: Some(1i64), upper: Some(5i64) };
    assert!(!band.is_empty());
    assert!(band.is_inside(&1));
    assert!(band.is_inside(&3));
    assert!(band.is_inside(&5));
    assert!(!band.is_inside(&0));
    assert!(!band.is_inside(&6));

    let lower_only = Limits { lower: Some(2i64), upper: None };
    assert!(lower_only.is_inside(&100));
    assert!(!lower_only.is_inside(&1));

    let width = Limits { lower: None, upper: Some(3usize) };
    assert!(width.is_inside(&0));
    assert!(!width.is_inside(&4));
}

#[test]
fn flat_run_entered_downhill() {
    // The step into the flat run is falling, so it fails the default
    // difference range and the first flat pair only resets the carried
    // step to zero; a plateau then opens one sample later, with a zero
    // left step, and closes at the drop.
    let y: Vec<i64> = vec![5, 3, 3, 3, 0];
    let ps = PeakFinder::new(&y).find_peaks();
    assert_eq!(ps, vec![peak(2, 4, 0, 3, None, None)]);
}

#[test]
fn prominence_between_valleys() {
    let y: Vec<i64> = vec![4, 1, 3, 2, 6, 0];
    let fp = PeakFinder::new(&y).with_min_prominence(0);
    let ps = fp.find_peaks();
    assert_eq!(
        ps,
        vec![peak(4, 5, 4, 6, None, Some(5)), peak(2, 3, 2, 1, None, Some(1))]
    );
}
