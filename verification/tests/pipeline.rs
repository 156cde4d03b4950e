use find_peaks::Peak;
use find_peaks::PeakFinder;

fn peak(
    position_start: usize,
    position_end: usize,
    left_diff: i64,
    right_diff: i64,
    height: Option<i64>,
    prominence: Option<i64>,
) -> Peak {
    Peak { position_start, position_end, left_diff, right_diff, height, prominence }
}

#[test]
fn findpeaks() {
    let y: Vec<i64> = vec![1, 2, 3, 0, 5, 0];
    let fp = PeakFinder::new(&y).with_min_height(0);
    let ps = fp.find_peaks();
    assert_eq!(
        ps,
        vec![peak(4, 5, 5, 5, Some(5), None), peak(2, 3, 1, 3, Some(3), None)]
    );
}

#[test]
fn proms() {
    let y: Vec<i64> = vec![1, 2, 3, 0, 5, 0];
    let fp = PeakFinder::new(&y).with_min_height(0).with_min_prominence(1);
    let ps = fp.find_peaks();
    assert_eq!(
        ps,
        vec![peak(4, 5, 5, 5, Some(5), Some(5)), peak(2, 3, 1, 3, Some(3), Some(2))]
    );
}

#[test]
fn plateaus() {
    let y: Vec<i64> = vec![1, 2, 3, 3, 3, 0, 5, 5, 0];
    let fp = PeakFinder::new(&y).with_min_height(0).with_min_prominence(0);

    let ps = fp.find_peaks();
    assert_eq!(
        ps,
        vec![peak(6, 8, 5, 5, Some(5), Some(5)), peak(2, 5, 1, 3, Some(3), Some(2))]
    );

    let fp = fp.with_min_plateau_size(3);
    let ps = fp.find_peaks();
    assert_eq!(ps, vec![peak(2, 5, 1, 3, Some(3), Some(2))]);
}

#[test]
fn plateau_with_diff() {
    let y: Vec<i64> = vec![1, 2, 3, 3, 3, 0, 5, 5, 0];
    let fp = PeakFinder::new(&y)
        .with_min_prominence(0)
        .with_min_height(0)
        .with_min_difference(4);
    let ps = fp.find_peaks();
    assert_eq!(ps, vec![peak(6, 8, 5, 5, Some(5), Some(5))]);
}

#[test]
fn with_x() {
    let y: Vec<i64> = vec![1, 2, 3, 0, 5, 0];
    let x: Vec<i64> = (1..7).collect();
    let ps = PeakFinder::new_with_x(&y, &x)
        .with_min_height(0)
        .with_min_distance(2)
        .find_peaks();
    assert_eq!(
        ps,
        vec![peak(4, 5, 5, 5, Some(5), None), peak(2, 3, 1, 3, Some(3), None)]
    );
}

#[test]
fn empty_data() {
    let y: Vec<i64> = vec![];
    let ps = PeakFinder::new(&y).with_min_prominence(1).find_peaks();
    assert_eq!(ps, Vec::new());
}

#[test]
fn single_point() {
    let y: Vec<i64> = vec![1];
    let ps = PeakFinder::new(&y).find_peaks();
    assert_eq!(ps, vec![]);
}

#[test]
fn two_points() {
    let y: Vec<i64> = vec![2, 2];
    let ps = PeakFinder::new(&y).find_peaks();
    assert_eq!(ps, vec![]);
}
