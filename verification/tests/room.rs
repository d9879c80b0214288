use honeydew::axes::{Dim, DimMap, Direction};
use honeydew::bit_set::BitIndex;
use honeydew::game::room::{
    cell_size_along, cell_size, half_cell_size, Coord, Room, CELL_COUNT_X,
    CELL_COUNT_Y, CELL_SIZE_X, CELL_SIZE_Y, ROOM_SIZE, TOT_CELL_COUNT,
};
use honeydew::game::Pos;
use honeydew::rng::CachedRng;
use honeydew::wrap_int::WrapInt;

fn pos(x: u16, y: u16) -> Pos {
    DimMap::new_xy(WrapInt::from(x), WrapInt::from(y))
}

#[test]
fn the_cells_tile_the_room() {
    assert_eq!(CELL_SIZE_X as u32 * CELL_COUNT_X as u32, ROOM_SIZE);
    assert_eq!(CELL_SIZE_Y as u32 * CELL_COUNT_Y as u32, ROOM_SIZE);
    assert_eq!(CELL_COUNT_X as u16 * CELL_COUNT_Y as u16, TOT_CELL_COUNT);
    assert_eq!(cell_size(), DimMap::new_xy(4096, 8192));
    assert_eq!(half_cell_size(), DimMap::new_xy(2048, 4096));
    assert_eq!(cell_size_along(Dim::X), 4096);
    assert_eq!(cell_size_along(Dim::Y), 8192);
}

#[test]
fn a_cell_is_known_by_its_index() {
    for bi in BitIndex::iter_domain() {
        let coord = Coord::from_bit_index(bi);
        assert_eq!(coord.bit_index(), bi);
        let col = bi.0 % 16;
        let row = bi.0 / 16;
        assert_eq!(coord.corner_pos(), pos(col * 4096, row * 8192));
        assert_eq!(coord.center_pos(), pos(col * 4096 + 2048, row * 8192 + 4096));
        assert_eq!(Coord::from_pos_flooring(coord.center_pos()), coord);
        assert_eq!(Coord::from_pos_flooring(coord.corner_pos()), coord);
    }
    assert_eq!(Coord::default().bit_index(), BitIndex(0));
}

#[test]
fn flooring_finds_the_cell_that_holds_a_point() {
    assert_eq!(Coord::from_pos_flooring(pos(0, 0)).bit_index(), BitIndex(0));
    assert_eq!(Coord::from_pos_flooring(pos(4095, 8191)).bit_index(), BitIndex(0));
    assert_eq!(Coord::from_pos_flooring(pos(4096, 8191)).bit_index(), BitIndex(1));
    assert_eq!(Coord::from_pos_flooring(pos(4095, 8192)).bit_index(), BitIndex(16));
    assert_eq!(Coord::from_pos_flooring(pos(65535, 65535)).bit_index(), BitIndex(127));
}

#[test]
fn rounding_finds_the_cell_with_the_nearest_corner() {
    assert_eq!(Coord::from_pos_rounding(pos(2047, 4095)).bit_index(), BitIndex(0));
    assert_eq!(Coord::from_pos_rounding(pos(2048, 4095)).bit_index(), BitIndex(1));
    assert_eq!(Coord::from_pos_rounding(pos(2047, 4096)).bit_index(), BitIndex(16));
    assert_eq!(Coord::from_pos_rounding(pos(65535, 65535)).bit_index(), BitIndex(0));
}

#[test]
fn stepping_wraps_round_the_edges() {
    let origin = Coord::from_bit_index(BitIndex(0));
    assert_eq!(origin.stepped(Direction::Right).bit_index(), BitIndex(1));
    assert_eq!(origin.stepped(Direction::Down).bit_index(), BitIndex(16));
    assert_eq!(origin.stepped(Direction::Left).bit_index(), BitIndex(15));
    assert_eq!(origin.stepped(Direction::Up).bit_index(), BitIndex(112));
    let last = Coord::from_bit_index(BitIndex(127));
    assert_eq!(last.stepped(Direction::Right).bit_index(), BitIndex(112));
    assert_eq!(last.stepped(Direction::Down).bit_index(), BitIndex(15));
    for bi in BitIndex::iter_domain() {
        let coord = Coord::from_bit_index(bi);
        for dir in Direction::iter_domain() {
            assert_eq!(coord.stepped(dir).stepped(dir.invert()), coord);
            assert!(!coord.same_cell(coord.stepped(dir)));
        }
        assert!(coord.same_cell(coord));
    }
}

#[test]
fn a_step_crosses_the_wall_of_the_cell_below_or_to_the_right() {
    let up = Direction::Up.crosses_wall_info();
    assert_eq!((up.dim, up.managed_by_src), (Dim::X, true));
    let down = Direction::Down.crosses_wall_info();
    assert_eq!((down.dim, down.managed_by_src), (Dim::X, false));
    let left = Direction::Left.crosses_wall_info();
    assert_eq!((left.dim, left.managed_by_src), (Dim::Y, true));
    let right = Direction::Right.crosses_wall_info();
    assert_eq!((right.dim, right.managed_by_src), (Dim::Y, false));
}

#[test]
fn equal_seeds_give_equal_rooms() {
    for seed in [0u64, 1, 2, 0xdead_beef, u64::MAX] {
        let (a, _) = Room::new_seeded(seed);
        let (b, _) = Room::new_seeded(seed);
        assert_eq!(a, b);
    }
    let (a, _) = Room::new_seeded(1);
    let (b, _) = Room::new_seeded(2);
    assert_ne!(a, b);
}

#[test]
fn a_room_has_the_walls_of_a_maze_less_a_few() {
    for seed in 0u64..20 {
        let (room, _) = Room::new_seeded(seed);
        let count = room.wall_count();
        assert!(count <= 129, "seed {} leaves {} walls", seed, count);
        assert!(count >= 97, "seed {} leaves {} walls", seed, count);
    }
}

#[test]
fn every_cell_of_a_room_can_be_reached() {
    for seed in 0u64..20 {
        let (room, _) = Room::new_seeded(seed);
        let mut reached = vec![false; 128];
        let mut pending = vec![Coord::from_bit_index(BitIndex(0))];
        reached[0] = true;
        while let Some(coord) = pending.pop() {
            for dir in Direction::iter_domain() {
                if let Some(dest) = coord.stepped_in_room(&room, dir) {
                    let i = dest.bit_index().0 as usize;
                    if !reached[i] {
                        reached[i] = true;
                        pending.push(dest);
                    }
                }
            }
        }
        assert!(reached.iter().all(|r| *r), "seed {}", seed);
    }
}

#[test]
fn walls_block_steps_both_ways() {
    let (room, _) = Room::new_seeded(5);
    for bi in BitIndex::iter_domain() {
        let coord = Coord::from_bit_index(bi);
        for dir in Direction::iter_domain() {
            let there = coord.stepped_in_room(&room, dir);
            let back = coord.stepped(dir).stepped_in_room(&room, dir.invert());
            assert_eq!(there.is_some(), back.is_some());
            if let Some(dest) = there {
                assert_eq!(dest, coord.stepped(dir));
            }
        }
        assert_eq!(
            coord.stepped_in_room(&room, Direction::Up).is_none(),
            room.has_wall(coord, Dim::X)
        );
        assert_eq!(
            coord.stepped_in_room(&room, Direction::Left).is_none(),
            room.has_wall(coord, Dim::Y)
        );
    }
}

#[test]
fn the_walls_are_listed_kind_by_kind_in_ascending_order() {
    let (room, _) = Room::new_seeded(9);
    let walls = room.iter_walls();
    assert_eq!(walls.len() as u32, room.wall_count());
    for (coord, dim) in walls.iter() {
        assert!(room.has_wall(*coord, *dim));
    }
    let keys: Vec<(usize, u16)> =
        walls.iter().map(|(coord, dim)| (dim.map_index(), coord.bit_index().0)).collect();
    let mut sorted = keys.clone();
    sorted.sort();
    sorted.dedup();
    assert_eq!(keys, sorted);
}

#[test]
fn the_cells_to_check_surround_the_point() {
    let at = pos(5 * 4096 + 100, 3 * 8192 + 4096 + 50);
    let index = |coords: [Coord; 6]| coords.map(|c| c.bit_index().0);
    let (col, row) = (5u16, 3u16);
    assert_eq!(
        index(Room::wall_cells_to_check_at(at, Dim::X)),
        [
            row * 16 + col,
            (row + 1) * 16 + col,
            row * 16 + col - 1,
            row * 16 + col + 1,
            (row + 1) * 16 + col - 1,
            (row + 1) * 16 + col + 1,
        ]
    );
    assert_eq!(
        index(Room::wall_cells_to_check_at(at, Dim::Y)),
        [
            row * 16 + col - 1,
            row * 16 + col,
            (row - 1) * 16 + col - 1,
            (row - 1) * 16 + col,
            (row + 1) * 16 + col - 1,
            (row + 1) * 16 + col,
        ]
    );
}

#[test]
fn random_cells_are_cells() {
    let mut rng = CachedRng::new_seeded(77);
    for _ in 0..500 {
        let coord = Coord::random(&mut rng);
        assert!(coord.bit_index().0 < 128);
        assert_eq!(Coord::from_bit_index(coord.bit_index()), coord);
    }
}
