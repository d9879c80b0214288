use honeydew::axes::{DimMap, Direction, Sign};
use honeydew::bit_set::BitIndex;
use honeydew::game::ai::{coord_dist, coord_of_player, diff_to_vel, pos_of_player, Ai, SinkAi};
use honeydew::game::room::{Coord, Room};
use honeydew::game::{Entities, PlayerColor, Pos, Size, Vel, World};
use honeydew::rng::CachedRng;
use honeydew::wrap_int::WrapInt;

fn pos(x: i16, y: i16) -> Pos {
    DimMap::new_xy(WrapInt::from(x), WrapInt::from(y))
}

fn vel(x: Option<Sign>, y: Option<Sign>) -> Vel {
    DimMap::new_xy(x, y)
}

fn view() -> Size {
    DimMap::new_xy(16384, 32768)
}

fn world(seed: u64) -> World {
    let (room, mut rng) = Room::new_seeded(seed);
    World { room, entities: Entities::random(&mut rng) }
}

#[test]
fn the_heading_goes_along_the_axis_with_the_longer_way() {
    assert_eq!(diff_to_vel(pos(0, 0)), vel(None, None));
    assert_eq!(diff_to_vel(pos(5, 0)), vel(Some(Sign::Positive), None));
    assert_eq!(diff_to_vel(pos(-5, 0)), vel(Some(Sign::Negative), None));
    assert_eq!(diff_to_vel(pos(0, 5)), vel(None, Some(Sign::Positive)));
    assert_eq!(diff_to_vel(pos(0, -5)), vel(None, Some(Sign::Negative)));
    assert_eq!(diff_to_vel(pos(5, -4)), vel(Some(Sign::Positive), None));
    assert_eq!(diff_to_vel(pos(4, -5)), vel(None, Some(Sign::Negative)));
    assert_eq!(diff_to_vel(pos(5, 5)), vel(None, Some(Sign::Positive)));
    assert_eq!(diff_to_vel(pos(-32768, 32767)), vel(Some(Sign::Negative), None));
}

#[test]
fn cells_lie_their_corners_apart() {
    let a = Coord::from_bit_index(BitIndex(0));
    let b = Coord::from_bit_index(BitIndex(17));
    assert_eq!(coord_dist(a, b), DimMap::new_xy(4096, 8192));
    assert_eq!(coord_dist(b, a), DimMap::new_xy(4096, 8192));
    let far = Coord::from_bit_index(BitIndex(127));
    assert_eq!(coord_dist(a, far), DimMap::new_xy(4096, 8192));
    assert_eq!(coord_dist(a, a), DimMap::new_xy(0, 0));
}

#[test]
fn a_player_is_found_in_the_cell_that_holds_it() {
    let world = world(3);
    for color in PlayerColor::iter_domain() {
        let at = world.entities.players[color.to_index()].pos;
        assert_eq!(pos_of_player(&world, color), at);
        assert_eq!(coord_of_player(&world, color), Coord::from_pos_flooring(at));
    }
}

#[test]
fn a_player_off_the_middle_of_its_cell_makes_for_the_middle() {
    let mut world = world(4);
    let mut ai = SinkAi::new(PlayerColor::Blue, &world, view());
    let mut rng = CachedRng::new_seeded(4);
    let middle = world.entities.players[1].pos;
    assert_eq!(ai.update(&world, &mut rng), ai_choice_or_rest(&world, middle));
    world.entities.players[1].pos = middle + pos(-100, 20);
    let mut ai = SinkAi::new(PlayerColor::Blue, &world, view());
    assert_eq!(SinkAi::update(&mut ai, &world, &mut rng), vel(Some(Sign::Positive), None));
    world.entities.players[1].pos = middle + pos(-100, 200);
    assert_eq!(SinkAi::update(&mut ai, &world, &mut rng), vel(None, Some(Sign::Negative)));
}

fn ai_choice_or_rest(world: &World, middle: Pos) -> Vel {
    // a player in the middle of its cell heads for a cell next to it or stays
    let mut ai = SinkAi::new(PlayerColor::Blue, world, view());
    let mut rng = CachedRng::new_seeded(4);
    let chosen = ai.update(world, &mut rng);
    let at = Coord::from_pos_flooring(middle);
    let open: Vec<Vel> = Direction::iter_domain()
        .into_iter()
        .filter(|dir| at.stepped_in_room(&world.room, *dir).is_some())
        .map(|dir| match dir {
            Direction::Up => vel(None, Some(Sign::Negative)),
            Direction::Down => vel(None, Some(Sign::Positive)),
            Direction::Left => vel(Some(Sign::Negative), None),
            Direction::Right => vel(Some(Sign::Positive), None),
        })
        .collect();
    assert!(chosen == vel(None, None) || open.contains(&chosen), "{:?}", chosen);
    chosen
}

#[test]
fn a_player_that_was_moved_makes_for_its_new_cell() {
    let mut world = world(8);
    let mut ai = SinkAi::new(PlayerColor::Orange, &world, view());
    let mut rng = CachedRng::new_seeded(8);
    for _ in 0..50 {
        ai.update(&world, &mut rng);
    }
    let there = Coord::from_bit_index(BitIndex(77));
    world.entities.players[2].pos = there.center_pos() + pos(300, 0);
    ai.i_was_moved(&world);
    assert_eq!(SinkAi::update(&mut ai, &world, &mut rng), vel(Some(Sign::Negative), None));
}

#[test]
fn a_player_by_itself_never_walks_through_a_wall() {
    let mut walked = 0;
    for seed in 0u64..12 {
        let mut world = world(seed);
        let mut ai = SinkAi::new(PlayerColor::Black, &world, view());
        let mut rng = CachedRng::new_seeded(seed);
        let mut cells = vec![];
        for _ in 0..4000 {
            let chosen = Ai::update(&mut ai, &world, &mut rng);
            let mut player = world.entities.players[0];
            player.step(chosen);
            let from = Coord::from_pos_flooring(world.entities.players[0].pos);
            let to = Coord::from_pos_flooring(player.pos);
            if from != to {
                let crossed = Direction::iter_domain()
                    .into_iter()
                    .find(|dir| from.stepped(*dir) == to)
                    .expect("a step leads to a neighbour");
                assert!(from.stepped_in_room(&world.room, crossed).is_some());
                cells.push(to);
            }
            world.entities.players[0] = player;
        }
        walked += cells.len();
    }
    assert!(walked > 0);
}
