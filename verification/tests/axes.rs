use honeydew::axes::{Dim, DimMap, Direction, Sign, SignMap};
use honeydew::wrap_int::WrapInt;

#[test]
fn a_direction_is_an_axis_and_a_sense() {
    assert_eq!(Direction::new(Dim::X, Sign::Negative), Direction::Left);
    assert_eq!(Direction::new(Dim::X, Sign::Positive), Direction::Right);
    assert_eq!(Direction::new(Dim::Y, Sign::Negative), Direction::Up);
    assert_eq!(Direction::new(Dim::Y, Sign::Positive), Direction::Down);
    for dir in Direction::iter_domain() {
        assert_eq!(Direction::new(dir.dim(), dir.sign()), dir);
        assert_eq!(dir.dim().sign(dir.sign()), dir);
    }
}

#[test]
fn inverting_a_direction_twice_gives_it_back() {
    assert_eq!(Direction::Up.invert(), Direction::Down);
    assert_eq!(Direction::Left.invert(), Direction::Right);
    assert_eq!(-Direction::Down, Direction::Up);
    for dir in Direction::iter_domain() {
        assert_eq!(dir.invert().invert(), dir);
        assert_eq!(dir.invert().dim(), dir.dim());
        assert_eq!(dir.invert().sign(), !dir.sign());
    }
}

#[test]
fn horizontal_directions_run_along_x() {
    assert!(Direction::Left.horizontal());
    assert!(Direction::Right.horizontal());
    assert!(!Direction::Up.horizontal());
    assert!(!Direction::Down.horizontal());
}

#[test]
fn domains_list_every_value_once() {
    assert_eq!(Dim::iter_domain(), [Dim::X, Dim::Y]);
    assert_eq!(Sign::iter_domain(), [Sign::Positive, Sign::Negative]);
    assert_eq!(
        Direction::iter_domain(),
        [Direction::Up, Direction::Down, Direction::Left, Direction::Right]
    );
    assert_eq!(Dim::X.map_index(), 0);
    assert_eq!(Dim::Y.map_index(), 1);
    assert_eq!(Sign::Positive.map_index(), 0);
    assert_eq!(Sign::Negative.map_index(), 1);
}

#[test]
fn not_gives_the_other_axis_and_the_other_sense() {
    assert_eq!(!Dim::X, Dim::Y);
    assert_eq!(!Dim::Y, Dim::X);
    assert_eq!(!Sign::Positive, Sign::Negative);
    assert_eq!(!Sign::Negative, Sign::Positive);
}

#[test]
fn a_sense_applied_to_a_number_keeps_or_negates_it() {
    let five = WrapInt::from(5i16);
    assert_eq!(Sign::Positive * five, five);
    assert_eq!(Sign::Negative * five, WrapInt::from(-5i16));
}

#[test]
fn dim_maps_keep_one_value_per_axis() {
    let mut map = DimMap::new([10u16, 20u16]);
    assert_eq!(*map.get(Dim::X), 10);
    assert_eq!(*map.get(Dim::Y), 20);
    map.set(Dim::Y, 21);
    assert_eq!(map, DimMap::new_xy(10, 21));
    assert_eq!(map.yx(), DimMap::new_xy(21, 10));
    assert_eq!(map.map(|v: &u16| *v as u32 + 1), DimMap::new_xy(11u32, 22u32));
    let built = DimMap::new_xy_with(|dim: Dim| match dim {
        Dim::X => 'x',
        Dim::Y => 'y',
    });
    assert_eq!(built.arr, ['x', 'y']);
}

#[test]
fn sign_maps_keep_one_value_per_sense() {
    let mut map = SignMap::new([1u8, 2u8]);
    assert_eq!(*map.get(Sign::Positive), 1);
    assert_eq!(*map.get(Sign::Negative), 2);
    map.set(Sign::Positive, 9);
    assert_eq!(map.arr, [9, 2]);
}
