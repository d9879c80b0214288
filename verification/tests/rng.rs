use honeydew::axes::{Dim, Direction};
use honeydew::rng::CachedRng;

#[test]
fn bits_stay_within_the_width_asked_for() {
    let mut rng = CachedRng::new_seeded(1);
    for bits in 0u8..=32 {
        for _ in 0..50 {
            let got = rng.gen_bits(bits) as u64;
            assert!(got < (1u64 << bits), "{} bits gave {}", bits, got);
        }
    }
}

#[test]
fn zero_bits_are_zero() {
    let mut rng = CachedRng::new_seeded(99);
    assert_eq!(rng.gen_bits(0), 0);
}

#[test]
fn a_word_is_dealt_out_lowest_bits_first() {
    let mut whole = CachedRng::new_seeded(42);
    let mut parts = CachedRng::new_seeded(42);
    let word = whole.gen_bits(32);
    let low = parts.gen_bits(8);
    let mid = parts.gen_bits(16);
    let high = parts.gen_bits(8);
    assert_eq!(low, word & 0xff);
    assert_eq!(mid, (word >> 8) & 0xffff);
    assert_eq!(high, word >> 24);
}

#[test]
fn equal_seeds_give_equal_streams() {
    let mut a = CachedRng::new_seeded(2024);
    let mut b = CachedRng::new_seeded(2024);
    for _ in 0..100 {
        assert_eq!(a.gen_bits(13), b.gen_bits(13));
        assert_eq!(a.gen_bool(), b.gen_bool());
        assert_eq!(a.gen_u16_below(128), b.gen_u16_below(128));
        assert_eq!(a.shuffled_directions(), b.shuffled_directions());
    }
}

#[test]
fn different_seeds_give_different_streams() {
    let mut a = CachedRng::new_seeded(1);
    let mut b = CachedRng::new_seeded(2);
    let from_a: Vec<u32> = (0..8).map(|_| a.gen_bits(32)).collect();
    let from_b: Vec<u32> = (0..8).map(|_| b.gen_bits(32)).collect();
    assert_ne!(from_a, from_b);
}

#[test]
fn bounded_numbers_stay_below_the_bound() {
    let mut rng = CachedRng::new_seeded(5);
    for bound in [1u16, 2, 3, 128, 65535] {
        for _ in 0..200 {
            assert!(rng.gen_u16_below(bound) < bound);
        }
    }
}

#[test]
fn bounded_numbers_are_not_all_the_same() {
    let mut rng = CachedRng::new_seeded(5);
    let drawn: Vec<u16> = (0..64).map(|_| rng.gen_u16_below(128)).collect();
    assert!(drawn.iter().any(|v| *v != drawn[0]));
}

#[test]
fn shuffled_directions_are_the_four_directions() {
    let mut rng = CachedRng::new_seeded(11);
    let mut orders = vec![];
    for _ in 0..50 {
        let dirs = rng.shuffled_directions();
        for dir in Direction::iter_domain() {
            assert_eq!(dirs.iter().filter(|d| **d == dir).count(), 1);
        }
        orders.push(dirs);
    }
    assert!(orders.iter().any(|order| *order != Direction::iter_domain()));
}

#[test]
fn random_bools_and_axes_take_both_values() {
    let mut rng = CachedRng::new_seeded(3);
    let bools: Vec<bool> = (0..64).map(|_| rng.gen_bool()).collect();
    assert!(bools.contains(&true) && bools.contains(&false));
    let dims: Vec<Dim> = (0..64).map(|_| Dim::random(&mut rng)).collect();
    assert!(dims.contains(&Dim::X) && dims.contains(&Dim::Y));
}

#[test]
fn random_seeds_can_be_drawn() {
    let seed = CachedRng::random_seed();
    let mut a = CachedRng::new_seeded(seed);
    let mut b = CachedRng::new_seeded(seed);
    assert_eq!(a.gen_bits(32), b.gen_bits(32));
}
