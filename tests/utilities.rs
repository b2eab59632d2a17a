use talc::utilities::{clamped, clipped, distance, ordered, same_sign, Split};

#[test]
fn same_signs() {
    assert!(same_sign(-1, -1));
    assert!(same_sign(1, 1));
    assert!(!same_sign(-1, 1));
    assert!(!same_sign(1, -1));
}

#[test]
fn zero_has_no_sign() {
    assert!(!same_sign(0, 0));
    assert!(!same_sign(0, 5));
    assert!(!same_sign(-5, 0));
}

#[test]
fn clamped_values() {
    assert_eq!(clamped(-5, 0, 10), 0);
    assert_eq!(clamped(15, 0, 10), 10);
    assert_eq!(clamped(7, 0, 10), 7);
    assert_eq!(clamped(3, 3, 3), 3);
}

#[test]
fn ordered_pairs() {
    assert_eq!(ordered(4, 2), (2, 4));
    assert_eq!(ordered(2, 4), (2, 4));
    assert_eq!(ordered(-1, -1), (-1, -1));
}

#[test]
fn clipped_pairs() {
    assert_eq!(clipped((-5, 5), 0, 10), Some((0, 5)));
    assert_eq!(clipped((5, 15), 0, 10), Some((5, 10)));
    assert_eq!(clipped((11, 15), 0, 10), None);
    assert_eq!(clipped((-5, 15), 0, 10), None);
}

#[test]
fn distances() {
    assert_eq!(distance(3, 10), 7);
    assert_eq!(distance(10, 3), 7);
    assert_eq!(distance(i32::MIN, i32::MAX), u32::MAX);
}

#[test]
fn split_hands_out_values_in_order() {
    let mut s = Split::Two(1, 2);
    assert_eq!(s.len(), 2);
    assert_eq!(s.next(), Some(1));
    assert_eq!(s.len(), 1);
    assert_eq!(s.next(), Some(2));
    assert_eq!(s.next(), None);
    let mut e: Split<u8> = Split::default();
    assert_eq!(e.len(), 0);
    assert_eq!(e.next(), None);
}

#[test]
fn split_from_values() {
    assert_eq!(Split::from(3), Split::One(3));
    assert_eq!(Split::from((3, 4)), Split::Two(3, 4));
}
