use honeydew::axes::{Dim, DimMap, Sign};
use honeydew::game::room::{Coord, Room};
use honeydew::game::{
    move_size, Entities, Player, PlayerColor, Pos, Size, MOVE_SPEED, NUM_PLAYERS,
    NUM_TELEPORTERS,
};
use honeydew::rng::CachedRng;
use honeydew::wrap_int::WrapInt;
use std::cmp::Ordering;

fn pos(x: u16, y: u16) -> Pos {
    DimMap::new_xy(WrapInt::from(x), WrapInt::from(y))
}

fn size(x: u16, y: u16) -> Size {
    DimMap::new_xy(x, y)
}

#[test]
fn the_colors_hunt_each_other_in_a_cycle() {
    assert_eq!(PlayerColor::Black.prey(), PlayerColor::Blue);
    assert_eq!(PlayerColor::Blue.prey(), PlayerColor::Orange);
    assert_eq!(PlayerColor::Orange.prey(), PlayerColor::Black);
    for color in PlayerColor::iter_domain() {
        assert_eq!(color.predator(), color.prey().prey());
        assert_eq!(color.predator().prey(), color);
        assert_eq!(color.prey().predator(), color);
        assert_eq!(color.prey().prey().prey(), color);
        assert_ne!(color.prey(), color);
        assert_ne!(color.predator(), color);
        assert_ne!(color.predator(), color.prey());
        assert_eq!(color.predator_prey(), [color.predator(), color.prey()]);
    }
}

#[test]
fn the_colors_have_their_places() {
    assert_eq!(
        PlayerColor::iter_domain(),
        [PlayerColor::Black, PlayerColor::Blue, PlayerColor::Orange]
    );
    assert_eq!(PlayerColor::Black.to_index(), 0);
    assert_eq!(PlayerColor::Blue.to_index(), 1);
    assert_eq!(PlayerColor::Orange.to_index(), 2);
    assert_eq!(NUM_PLAYERS, 3);
    assert_eq!(NUM_TELEPORTERS, 2);
}

#[test]
fn a_player_covers_a_cell_in_sixteen_ticks() {
    assert_eq!(MOVE_SPEED, 16);
    assert_eq!(move_size(), size(256, 512));
    assert_eq!(move_size().scalar_mul(16), size(4096, 8192));
    assert_eq!(size(4096, 8192).scalar_div(16), move_size());
    assert_eq!(size(7, 9).scalar_div(2), size(3, 4));
}

#[test]
fn points_add_and_subtract_axis_by_axis_on_the_ring() {
    assert_eq!(pos(65_535, 1) + pos(2, 65_535), pos(1, 0));
    assert_eq!(pos(0, 0) - pos(1, 65_535), pos(65_535, 1));
    assert_eq!(-pos(1, 65_535), pos(65_535, 1));
    assert_eq!(pos(65_535, 3).manhattan_to_zero(), 4);
    assert_eq!(pos(32_768, 32_768).manhattan_to_zero(), 65_536);
    assert_eq!(Pos::diagonal(WrapInt::from(7u16)), pos(7, 7));
    assert_eq!(size(1, 2) + size(30, 40), size(31, 42));
    assert_eq!((pos(10, 20) - pos(30, 5)).distances_from_zero(), size(20, 15));
    assert_eq!((pos(0, 0) - pos(32_768, 32_767)).distances_from_zero(), size(32_768, 32_767));
}

#[test]
fn sizes_compare_axis_by_axis() {
    assert_eq!(size(1, 1).partial_cmp(&size(2, 2)), Some(Ordering::Less));
    assert_eq!(size(1, 2).partial_cmp(&size(2, 2)), Some(Ordering::Less));
    assert_eq!(size(2, 1).partial_cmp(&size(2, 2)), Some(Ordering::Less));
    assert_eq!(size(2, 2).partial_cmp(&size(2, 2)), Some(Ordering::Equal));
    assert_eq!(size(3, 2).partial_cmp(&size(2, 2)), Some(Ordering::Greater));
    assert_eq!(size(3, 3).partial_cmp(&size(2, 2)), Some(Ordering::Greater));
    assert_eq!(size(1, 3).partial_cmp(&size(2, 2)), None);
    assert_eq!(size(3, 1).partial_cmp(&size(2, 2)), None);
    assert!(size(1, 2) < size(2, 2));
    assert!(!(size(1, 3) < size(2, 2)));
    assert!(!(size(2, 2) < size(2, 2)));
}

#[test]
fn a_player_rests_at_the_origin_by_default() {
    let player = Player::default();
    assert_eq!(player.pos, pos(0, 0));
    assert_eq!(player.vel, DimMap::new_xy(None::<Sign>, None::<Sign>));
}

#[test]
fn a_random_world_puts_everything_in_the_middle_of_a_cell_and_apart() {
    for seed in 0u64..30 {
        let mut rng = CachedRng::new_seeded(seed);
        let entities = Entities::random(&mut rng);
        let mut all: Vec<Pos> = entities.players.iter().map(|p| p.pos).collect();
        all.extend(entities.teleporters.iter().copied());
        for (k, p) in all.iter().enumerate() {
            assert_eq!(Coord::from_pos_flooring(*p).center_pos(), *p);
            for q in all.iter().skip(k + 1) {
                let apart = (*p - *q).distances_from_zero();
                assert!(*apart.get(Dim::X) >= 8192 || *apart.get(Dim::Y) >= 16384);
            }
        }
        for player in entities.players.iter() {
            assert_eq!(player.vel, Player::default().vel);
        }
    }
}

#[test]
fn free_space_is_free() {
    let mut rng = CachedRng::new_seeded(8);
    let entities = Entities::random(&mut rng);
    for _ in 0..200 {
        let found = entities.random_free_space(&mut rng);
        assert!(entities.is_clear_of(found));
        assert_eq!(Coord::from_pos_flooring(found).center_pos(), found);
    }
    for player in entities.players.iter() {
        assert!(!entities.is_clear_of(player.pos));
    }
}

#[test]
fn equal_seeds_give_equal_worlds() {
    let world = |seed: u64| {
        let (room, mut rng) = Room::new_seeded(seed);
        (room, Entities::random(&mut rng))
    };
    assert_eq!(world(12), world(12));
    assert_ne!(world(12).1, world(13).1);
}
