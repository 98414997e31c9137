use cp_model::domain::Domain;
use cp_model::Error;

#[test]
fn canonicalizes_unordered_overlapping_intervals() {
    let pairs: Vec<(i64, i64)> = vec![(5, 9), (0, 3), (2, 6)];
    let d = Domain::from_intervals(&pairs).unwrap();
    assert_eq!(d.intervals().as_slice(), &[(0, 9)]);
    assert!(!d.contains(-1));
    assert!(d.contains(0));
    assert!(d.contains(4));
    assert!(d.contains(9));
    assert!(!d.contains(10));
}

#[test]
fn merges_adjacent_intervals() {
    let pairs: Vec<(i64, i64)> = vec![(0, 1), (2, 3)];
    let d = Domain::from_intervals(&pairs).unwrap();
    assert_eq!(d.intervals().as_slice(), &[(0, 3)]);
}

#[test]
fn keeps_separated_intervals_apart() {
    let pairs: Vec<(i64, i64)> = vec![(3, 4), (0, 1)];
    let d = Domain::from_intervals(&pairs).unwrap();
    assert_eq!(d.intervals().as_slice(), &[(0, 1), (3, 4)]);
    assert!(d.contains(1));
    assert!(!d.contains(2));
    assert!(d.contains(3));
}

#[test]
fn interval_order_does_not_change_membership() {
    let forward: Vec<(i64, i64)> = vec![(0, 2), (10, 12), (5, 7)];
    let backward: Vec<(i64, i64)> = vec![(5, 7), (0, 2), (10, 12)];
    let d1 = Domain::from_intervals(&forward).unwrap();
    let d2 = Domain::from_intervals(&backward).unwrap();
    assert_eq!(d1.intervals(), d2.intervals());
    for v in -2..15 {
        let expected = (0..=2).contains(&v) || (5..=7).contains(&v) || (10..=12).contains(&v);
        assert_eq!(d1.contains(v), expected);
        assert_eq!(d2.contains(v), expected);
    }
}

#[test]
fn rejects_empty_interval_list() {
    let pairs: Vec<(i64, i64)> = vec![];
    assert_eq!(Domain::from_intervals(&pairs).unwrap_err(), Error::InvalidDomain);
}

#[test]
fn rejects_inverted_interval() {
    let pairs: Vec<(i64, i64)> = vec![(0, 3), (7, 5)];
    assert_eq!(Domain::from_intervals(&pairs).unwrap_err(), Error::InvalidDomain);
}

#[test]
fn single_interval_constructor() {
    let d = Domain::single_interval(-4, 4).unwrap();
    assert_eq!(d.intervals().as_slice(), &[(-4, 4)]);
    assert!(d.contains(-4));
    assert!(d.contains(4));
    assert!(!d.contains(5));
    assert_eq!(Domain::single_interval(1, 0).unwrap_err(), Error::InvalidDomain);
}

#[test]
fn handles_extreme_bounds() {
    let d = Domain::single_interval(i64::MIN, i64::MAX).unwrap();
    assert!(d.contains(i64::MIN));
    assert!(d.contains(0));
    assert!(d.contains(i64::MAX));
    let pairs: Vec<(i64, i64)> = vec![(i64::MAX - 1, i64::MAX), (i64::MIN, i64::MIN + 1)];
    let e = Domain::from_intervals(&pairs).unwrap();
    assert_eq!(
        e.intervals().as_slice(),
        &[(i64::MIN, i64::MIN + 1), (i64::MAX - 1, i64::MAX)]
    );
    assert!(!e.contains(0));
}

#[test]
fn boolean_domain_is_zero_one() {
    let d = Domain::boolean();
    assert_eq!(d.intervals().as_slice(), &[(0, 1)]);
    assert!(d.contains(0));
    assert!(d.contains(1));
    assert!(!d.contains(2));
    assert!(!d.contains(-1));
}
