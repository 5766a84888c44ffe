use algorithms::recursions::{length, max, rec_sum};

#[test]
fn rec_sum_test() {
    assert_eq!(12, rec_sum(&[2, 4, 6]));
    assert_eq!(0, rec_sum(&[0]));
}

#[test]
fn length_test() {
    assert_eq!(3, length(&[2, 4, 6]));
    assert_eq!(1, length(&[0]));
}

#[test]
fn max_test() {
    assert_eq!(283213, max(&[2, 4, 6, 283213, 12, 23]));
    assert_eq!(0, max(&[0]))
}

#[test]
fn rec_sum_reaches_the_largest_value() {
    assert_eq!(u32::MAX, rec_sum(&[u32::MAX - 3, 1, 2]));
    assert_eq!(7, rec_sum(&[7]));
}

#[test]
fn length_of_nothing_is_zero() {
    assert_eq!(0, length(&[]));
    assert_eq!(5, length(&[9, 9, 9, 9, 9]));
}

#[test]
fn max_is_found_at_either_end() {
    assert_eq!(9, max(&[9, 1, 2]));
    assert_eq!(9, max(&[1, 2, 9]));
    assert_eq!(4, max(&[4, 4, 4]));
    assert_eq!(u32::MAX, max(&[0, u32::MAX, 0]));
}
