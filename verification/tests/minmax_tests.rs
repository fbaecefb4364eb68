use judgekit::errors::EmptySequenceError;
use judgekit::minmax::{max, min};

#[test]
fn max_is_a_member_and_an_upper_bound() {
    let list: Vec<i64> = vec![3, -7, 12, 12, 0];
    let m = max(&list).unwrap();
    assert_eq!(m, 12);
    assert!(list.contains(&m));
    assert!(list.iter().all(|&x| x <= m));
}

#[test]
fn min_is_a_member_and_a_lower_bound() {
    let list: Vec<i64> = vec![3, -7, 12, 12, 0];
    let m = min(&list).unwrap();
    assert_eq!(m, -7);
    assert!(list.contains(&m));
    assert!(list.iter().all(|&x| m <= x));
}

#[test]
fn extrema_of_singleton() {
    assert_eq!(max(&[5]), Ok(5));
    assert_eq!(min(&[5]), Ok(5));
}

#[test]
fn extrema_of_all_negative() {
    assert_eq!(max(&[-5, -2, -9]), Ok(-2));
    assert_eq!(min(&[-5, -2, -9]), Ok(-9));
}

#[test]
fn extrema_of_extremes() {
    assert_eq!(max(&[i64::MIN, i64::MAX]), Ok(i64::MAX));
    assert_eq!(min(&[i64::MIN, i64::MAX]), Ok(i64::MIN));
}

#[test]
fn empty_sequence_fails() {
    assert_eq!(max(&[]), Err(EmptySequenceError));
    assert_eq!(min(&[]), Err(EmptySequenceError));
}
