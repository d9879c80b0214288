use honeydew::axes::Sign;
use honeydew::wrap_int::WrapInt;
use std::cmp::Ordering;

#[test]
fn addition_and_subtraction_wrap_round_the_ring() {
    let top = WrapInt::from(32767i16);
    let one = WrapInt::from(1i16);
    assert_eq!((top + one).to_i16(), -32768);
    assert_eq!((WrapInt::from(-32768i16) - one).to_i16(), 32767);
    assert_eq!((WrapInt::from(65535u16) + one).to_u16(), 0);
    assert_eq!((WrapInt::from(0u16) - one).to_u16(), 65535);
}

#[test]
fn unsigned_and_signed_readings_agree() {
    assert_eq!(WrapInt::from(65535u16).to_i16(), -1);
    assert_eq!(WrapInt::from(32768u16).to_i16(), -32768);
    assert_eq!(WrapInt::from(32767u16).to_i16(), 32767);
    assert_eq!(WrapInt::from(-1i16).to_u16(), 65535);
    assert_eq!(WrapInt::from(-32768i16).to_u16(), 32768);
    assert_eq!(WrapInt::from(12345u16).to_u16(), 12345);
}

#[test]
fn negation_is_the_inverse_and_fixes_the_far_point() {
    assert_eq!((-WrapInt::from(5i16)).to_i16(), -5);
    assert_eq!((-WrapInt::from(-7i16)).to_i16(), 7);
    assert_eq!((-WrapInt::from(0i16)).to_i16(), 0);
    assert_eq!((-WrapInt::from(-32768i16)).to_i16(), -32768);
}

#[test]
fn distance_from_zero_goes_the_shorter_way() {
    assert_eq!(WrapInt::from(0i16).distance_from_zero(), 0);
    assert_eq!(WrapInt::from(17i16).distance_from_zero(), 17);
    assert_eq!(WrapInt::from(-17i16).distance_from_zero(), 17);
    assert_eq!(WrapInt::from(65535u16).distance_from_zero(), 1);
    assert_eq!(WrapInt::from(-32768i16).distance_from_zero(), 32768);
    assert_eq!(WrapInt::from(32767i16).distance_from_zero(), 32767);
}

#[test]
fn sign_tells_the_side_of_zero() {
    assert_eq!(WrapInt::from(0i16).sign(), None);
    assert_eq!(WrapInt::from(3i16).sign(), Some(Sign::Positive));
    assert_eq!(WrapInt::from(-3i16).sign(), Some(Sign::Negative));
    assert_eq!(WrapInt::from(40000u16).sign(), Some(Sign::Negative));
}

#[test]
fn default_is_zero() {
    assert_eq!(WrapInt::default(), WrapInt::from(0i16));
}

#[test]
fn nearby_timestamps_compare_exactly_one_way() {
    let pairs: [(u16, u16); 6] =
        [(0, 1), (1, 0), (5, 5), (65535, 0), (0, 65535), (40000, 7231)];
    for (x, y) in pairs {
        let a = WrapInt::from(x);
        let b = WrapInt::from(y);
        let outcomes = [a < b, a == b, a > b];
        assert_eq!(outcomes.iter().filter(|held| **held).count(), 1, "{} against {}", x, y);
    }
}

#[test]
fn comparison_goes_by_distance_on_the_ring() {
    let a = WrapInt::from(65000u16);
    assert!(a < WrapInt::from(65001u16));
    assert!(a < WrapInt::from(200u16));
    assert!(a < a + WrapInt::from(32767i16));
    assert!(a > a - WrapInt::from(32767i16));
    assert!(!(a < a));
    assert_eq!(a.partial_cmp(&WrapInt::from(200u16)), Some(Ordering::Less));
    assert_eq!(WrapInt::from(200u16).partial_cmp(&a), Some(Ordering::Greater));
    assert_eq!(a.partial_cmp(&a), Some(Ordering::Equal));
}

#[test]
fn opposite_timestamps_do_not_compare() {
    let a = WrapInt::from(100u16);
    let b = WrapInt::from(100u16 + 32768);
    assert_eq!(a.partial_cmp(&b), None);
    assert_eq!(b.partial_cmp(&a), None);
    assert!(!(a < b));
    assert!(!(a > b));
    assert!(a != b);
}

#[test]
fn a_counter_that_wraps_keeps_its_order() {
    let mut now = WrapInt::from(65530u16);
    for _ in 0..20 {
        let next = now + WrapInt::from(1i16);
        assert!(now < next);
        assert!(!(next < now));
        now = next;
    }
    assert_eq!(now.to_u16(), 14);
}
