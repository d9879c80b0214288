use honeydew::axes::{Dim, DimMap, Direction, Sign};
use honeydew::game::config::{Config, IfClient, InputConfig, KEY_A, KEY_D, KEY_ESCAPE, KEY_S, KEY_W};
use honeydew::game::net::{Addr, Client, Server};
use honeydew::game::room::{Coord, Room};
use honeydew::game::state::{
    move_size_diag, player_size, teleporter_size, wall_size, GameState,
    KeyAction, KeyState, MyDoorIndexSet, Net, Rect, MAX_WALLS, NUM_MY_DOORS,
};
use honeydew::game::{Entities, Player, PlayerColor, Pos, Vel, World};
use honeydew::bit_set::BitIndex;
use honeydew::rng::CachedRng;
use honeydew::wrap_int::WrapInt;

fn pos(x: u16, y: u16) -> Pos {
    DimMap::new_xy(WrapInt::from(x), WrapInt::from(y))
}

fn vel(x: Option<Sign>, y: Option<Sign>) -> Vel {
    DimMap::new_xy(x, y)
}

fn view() -> honeydew::game::Size {
    DimMap::new_xy(16384, 32768)
}

fn some_world(seed: u64) -> World {
    let (room, mut rng) = Room::new_seeded(seed);
    World { room, entities: Entities::random(&mut rng) }
}

fn alone(net: &Net) -> [bool; 3] {
    match net {
        Net::Server { ais, .. } => [ais[0].is_some(), ais[1].is_some(), ais[2].is_some()],
        Net::Client(_) => panic!("a host is no guest"),
    }
}

fn keys() -> InputConfig {
    Config::default().input
}

fn client_game(seed: u64, controlling: PlayerColor) -> GameState {
    let (room, mut rng) = Room::new_seeded(seed);
    let entities = Entities::random(&mut rng);
    let world = World { room, entities };
    let net = Net::Client(Client::synchronized(WrapInt::from(0i16)));
    GameState::new(net, world, controlling, keys(), CachedRng::new_seeded(seed))
}

fn server_game(seed: u64, controlling: PlayerColor) -> GameState {
    let (room, mut rng) = Room::new_seeded(seed);
    let entities = Entities::random(&mut rng);
    let world = World { room, entities };
    let net = Net::hosting(Server::with_seed(seed), &vec![], controlling, &world, view());
    GameState::new(net, world, controlling, keys(), CachedRng::new_seeded(seed))
}

#[test]
fn the_sizes_follow_from_the_size_of_a_cell() {
    assert_eq!(player_size(), DimMap::new_xy(1820, 3640));
    assert_eq!(teleporter_size(), DimMap::new_xy(2048, 4096));
    assert_eq!(wall_size(Dim::X), DimMap::new_xy(4096, 1170));
    assert_eq!(wall_size(Dim::Y), DimMap::new_xy(585, 8192));
    assert_eq!(move_size_diag(), DimMap::new_xy(182, 365));
    assert_eq!(NUM_MY_DOORS, MAX_WALLS / 64);
}

#[test]
fn a_set_of_doors_holds_what_was_put_in() {
    let mut set = MyDoorIndexSet::default();
    for i in 0..16 {
        assert!(!set.contains(i));
    }
    set.insert(3);
    assert!(set.contains(3));
    assert!(!set.contains(2));
    assert_eq!(set.inserted(3), set);
    let more = set.inserted(15).inserted(0);
    assert!(more.contains(0) && more.contains(3) && more.contains(15));
    assert!(!more.contains(1));
    assert_ne!(more, set);
}

#[test]
fn a_box_holds_the_points_nearer_than_its_extent() {
    let rect = Rect { center: pos(100, 65_500), size: DimMap::new_xy(10, 50) };
    assert!(rect.contains(pos(100, 65_500)));
    assert!(rect.contains(pos(109, 65_500)));
    assert!(rect.contains(pos(91, 65_500)));
    assert!(!rect.contains(pos(110, 65_500)));
    assert!(!rect.contains(pos(90, 65_500)));
    assert!(rect.contains(pos(100, 13)));
    assert!(!rect.contains(pos(100, 14)));
    assert!(rect.contains(pos(100, 65_451)));
    assert!(!rect.contains(pos(100, 65_450)));
}

#[test]
fn the_edges_of_a_box_lie_its_extent_from_the_middle() {
    let rect = Rect { center: pos(100, 65_500), size: DimMap::new_xy(10, 50) };
    assert_eq!(rect.aligned_to_edge(Direction::Left), WrapInt::from(90u16));
    assert_eq!(rect.aligned_to_edge(Direction::Right), WrapInt::from(110u16));
    assert_eq!(rect.aligned_to_edge(Direction::Up), WrapInt::from(65_450u16));
    assert_eq!(rect.aligned_to_edge(Direction::Down), WrapInt::from(14u16));
}

#[test]
fn a_player_steps_by_the_move_size() {
    let mut player = Player { pos: pos(1000, 2000), vel: vel(None, None) };
    player.step(vel(None, None));
    assert_eq!(player.pos, pos(1000, 2000));
    player.step(vel(Some(Sign::Positive), None));
    assert_eq!(player.pos, pos(1256, 2000));
    player.step(vel(None, Some(Sign::Negative)));
    assert_eq!(player.pos, pos(1256, 1488));
    player.step(vel(Some(Sign::Negative), Some(Sign::Positive)));
    assert_eq!(player.pos, pos(1256 - 182, 1488 + 365));
    assert_eq!(player.vel, vel(None, None));
    let mut edge = Player { pos: pos(65_500, 100), vel: vel(None, None) };
    edge.step(vel(Some(Sign::Positive), Some(Sign::Negative)));
    assert_eq!(edge.pos, pos(146, 65_271));
}

#[test]
fn a_player_is_set_back_to_the_edge_it_came_across() {
    let rect = Rect { center: pos(1000, 1000), size: DimMap::new_xy(100, 100) };
    let mut still = Player { pos: pos(990, 990), vel: vel(None, None) };
    still.snap_pos_wrt_vel(&rect);
    assert_eq!(still.pos, pos(990, 990));

    let mut right = Player { pos: pos(950, 990), vel: vel(Some(Sign::Positive), None) };
    right.snap_pos_wrt_vel(&rect);
    assert_eq!(right.pos, pos(900, 990));

    let mut up = Player { pos: pos(950, 1050), vel: vel(None, Some(Sign::Negative)) };
    up.snap_pos_wrt_vel(&rect);
    assert_eq!(up.pos, pos(950, 1100));

    let mut slanted = Player {
        pos: pos(910, 960),
        vel: vel(Some(Sign::Positive), Some(Sign::Positive)),
    };
    slanted.snap_pos_wrt_vel(&rect);
    assert_eq!(slanted.pos, pos(900, 960));

    let mut other = Player {
        pos: pos(960, 910),
        vel: vel(Some(Sign::Positive), Some(Sign::Positive)),
    };
    other.snap_pos_wrt_vel(&rect);
    assert_eq!(other.pos, pos(960, 900));

    let mut even = Player {
        pos: pos(950, 950),
        vel: vel(Some(Sign::Positive), Some(Sign::Positive)),
    };
    even.snap_pos_wrt_vel(&rect);
    assert_eq!(even.pos, pos(950, 900));
}

#[test]
fn the_middle_of_a_wall_lies_on_the_edge_of_its_cell() {
    let coord = Coord::from_bit_index(BitIndex(17));
    assert_eq!(GameState::wall_pos(coord, Dim::X), pos(4096 + 2048, 8192));
    assert_eq!(GameState::wall_pos(coord, Dim::Y), pos(4096, 8192 + 4096));
}

#[test]
fn keys_steer_the_own_player() {
    let mut game = client_game(3, PlayerColor::Blue);
    let others = [game.world.entities.players[0], game.world.entities.players[2]];
    let own = |game: &GameState| game.world.entities.players[1].vel;

    game.update_move_key(Direction::Left, KeyState::Pressed);
    assert_eq!(own(&game), vel(Some(Sign::Negative), None));
    game.update_move_key(Direction::Right, KeyState::Pressed);
    assert_eq!(own(&game), vel(None, None));
    game.update_move_key(Direction::Left, KeyState::Released);
    assert_eq!(own(&game), vel(Some(Sign::Positive), None));
    game.update_move_key(Direction::Up, KeyState::Pressed);
    assert_eq!(own(&game), vel(Some(Sign::Positive), Some(Sign::Negative)));
    game.update_move_key(Direction::Right, KeyState::Released);
    assert_eq!(own(&game), vel(None, Some(Sign::Negative)));
    game.update_move_key(Direction::Up, KeyState::Released);
    game.update_move_key(Direction::Down, KeyState::Pressed);
    assert_eq!(own(&game), vel(None, Some(Sign::Positive)));
    assert_eq!([game.world.entities.players[0], game.world.entities.players[2]], others);
}

#[test]
fn keys_do_what_they_are_bound_to() {
    let mut game = client_game(3, PlayerColor::Black);
    assert_eq!(game.key_action(KEY_ESCAPE), KeyAction::Halt);
    assert_eq!(game.key_action(KEY_W), KeyAction::Steer(Direction::Up));
    assert_eq!(game.key_action(KEY_S), KeyAction::Steer(Direction::Down));
    assert_eq!(game.key_action(KEY_A), KeyAction::Steer(Direction::Left));
    assert_eq!(game.key_action(KEY_D), KeyAction::Steer(Direction::Right));
    assert_eq!(game.key_action(0), KeyAction::Ignore);

    let before = game.world.entities;
    assert!(game.handle_key(0, KeyState::Pressed));
    assert_eq!(game.world.entities, before);
    assert!(game.handle_key(KEY_D, KeyState::Pressed));
    assert_eq!(game.world.entities.players[0].vel, vel(Some(Sign::Positive), None));
    assert!(!game.handle_key(KEY_ESCAPE, KeyState::Pressed));

    game.input_config.up = KEY_ESCAPE;
    assert_eq!(game.key_action(KEY_ESCAPE), KeyAction::Halt);
}

#[test]
fn the_default_configuration_hosts_a_game_on_this_machine() {
    let config = Config::default();
    let here = Addr::V4 { ip: 0x7f00_0001, port: 8000 };
    assert!(config.server_mode);
    assert_eq!(config.if_client, IfClient { server_addr: here, preferred_color: PlayerColor::Black });
    assert_eq!(config.if_server.server_addr, here);
    assert_eq!(config.if_server.player_color, PlayerColor::Black);
    assert_eq!(config.if_server.room_seed, None);
    assert_eq!(
        config.if_server.ai_enabled,
        vec![PlayerColor::Black, PlayerColor::Blue, PlayerColor::Orange]
    );
    assert_eq!(
        config.input,
        InputConfig { exit: KEY_ESCAPE, up: KEY_W, down: KEY_S, left: KEY_A, right: KEY_D }
    );
}

#[test]
fn a_host_lets_the_other_colors_play_by_themselves() {
    let world = some_world(1);
    let all = vec![PlayerColor::Black, PlayerColor::Blue, PlayerColor::Orange];
    let host = |enabled: &Vec<PlayerColor>| {
        Net::hosting(Server::with_seed(1), enabled, PlayerColor::Blue, &world, view())
    };
    assert_eq!(alone(&host(&all)), [true, false, true]);
    assert_eq!(alone(&host(&vec![PlayerColor::Orange])), [false, false, true]);
    assert_eq!(alone(&host(&vec![PlayerColor::Blue])), [false, false, false]);
    assert_eq!(alone(&host(&vec![])), [false, false, false]);
    assert!(host(&all).is_server());
    assert!(!Net::Client(Client::synchronized(WrapInt::from(0i16))).is_server());
}

#[test]
fn a_peer_that_joins_takes_over_its_color() {
    let world = some_world(5);
    let enabled = vec![PlayerColor::Blue, PlayerColor::Orange];
    let net = Net::hosting(Server::with_seed(5), &enabled, PlayerColor::Black, &world, view());
    let mut game = GameState::new(net, world, PlayerColor::Black, keys(), CachedRng::new_seeded(5));
    assert_eq!(alone(&game.net), [false, true, true]);
    game.world.entities.players[2].vel = vel(Some(Sign::Positive), Some(Sign::Negative));
    let before = game.world.entities;
    game.peer_joined(PlayerColor::Orange);
    assert_eq!(alone(&game.net), [false, true, false]);
    let mut expected = before;
    expected.players[2].vel = vel(None, None);
    assert_eq!(game.world.entities, expected);
}

#[test]
fn players_that_play_by_themselves_steer_themselves() {
    let world = some_world(6);
    let enabled = vec![PlayerColor::Blue, PlayerColor::Orange];
    let net = Net::hosting(Server::with_seed(6), &enabled, PlayerColor::Black, &world, view());
    let mut game = GameState::new(net, world, PlayerColor::Black, keys(), CachedRng::new_seeded(6));
    let mut steered = [false; 3];
    for _ in 0..600 {
        let before = game.world.entities;
        game.update_ais();
        for k in 0..3 {
            assert_eq!(game.world.entities.players[k].pos, before.players[k].pos);
            let now = game.world.entities.players[k].vel;
            assert!(now.arr[0].is_none() || now.arr[1].is_none());
            if now != vel(None, None) {
                steered[k] = true;
            }
        }
        assert_eq!(game.world.entities.players[0], before.players[0]);
        assert_eq!(game.world.entities.teleporters, before.teleporters);
        game.move_and_collide();
        assert_eq!(alone(&game.net), [false, true, true]);
    }
    assert!(!steered[0]);
    assert!(steered[1] || steered[2]);
}

#[test]
fn doors_sit_in_walls_and_apart() {
    for seed in 0u64..10 {
        let game = client_game(seed, PlayerColor::Black);
        for (k, door) in game.my_doors.iter().enumerate() {
            assert!(game.world.room.has_wall(door.coord, door.dim));
            assert_eq!(door.moving_through, None);
            for other in game.my_doors.iter().skip(k + 1) {
                let apart = (door.coord.corner_pos() - other.coord.corner_pos()).distances_from_zero();
                assert!(!(apart < DimMap::new_xy(8192, 16384)));
            }
        }
    }
}

#[test]
fn a_tick_on_a_client_moves_everybody_by_a_step() {
    let mut game = client_game(21, PlayerColor::Black);
    game.world.entities.players[1].vel = vel(Some(Sign::Positive), None);
    game.world.entities.players[2].vel = vel(Some(Sign::Negative), Some(Sign::Negative));
    let before = game.world.entities;
    let moved = game.move_and_collide();
    assert_eq!(moved, [false, false, false]);
    assert_eq!(game.world.entities.teleporters, before.teleporters);
    assert_eq!(game.world.entities.players[0], before.players[0]);
    assert_eq!(game.world.entities.players[1].pos, before.players[1].pos + pos(256, 0));
    assert_eq!(
        game.world.entities.players[2].pos,
        before.players[2].pos - pos(182, 365)
    );
    for k in 0..3 {
        assert_eq!(game.world.entities.players[k].vel, before.players[k].vel);
    }
}

#[test]
fn a_player_that_steps_on_a_teleporter_is_sent_off_on_the_host() {
    let mut game = server_game(33, PlayerColor::Black);
    let at = game.world.entities.teleporters[0];
    game.world.entities.players[1].pos = at;
    let moved = game.move_and_collide();
    assert_eq!(moved, [false, true, false]);
    assert_ne!(game.world.entities.players[1].pos, at);
    assert_ne!(game.world.entities.teleporters[0], at);
    let landed = game.world.entities.players[1].pos;
    assert_eq!(Coord::from_pos_flooring(landed).center_pos(), landed);

    let mut guest = client_game(33, PlayerColor::Black);
    let at = guest.world.entities.teleporters[0];
    guest.world.entities.players[1].pos = at;
    assert_eq!(guest.move_and_collide(), [false, false, false]);
    assert_eq!(guest.world.entities.players[1].pos, at);
    assert_eq!(guest.world.entities.teleporters[0], at);
}

#[test]
fn prey_that_is_caught_is_sent_off_on_the_host() {
    let mut game = server_game(34, PlayerColor::Orange);
    let before = game.world.entities;
    // black hunts blue
    game.world.entities.players[0].pos = before.players[1].pos + pos(100, 100);
    let moved = game.move_and_collide();
    assert!(moved[1]);
    assert!(!moved[0]);
    assert_ne!(game.world.entities.players[1].pos, before.players[1].pos);
    assert_eq!(game.world.entities.players[0].pos, before.players[1].pos + pos(100, 100));
}

#[test]
fn walls_hold_the_own_player_back() {
    let mut game = client_game(40, PlayerColor::Black);
    let walled = game
        .world
        .room
        .iter_walls()
        .into_iter()
        .find(|(coord, dim)| {
            *dim == Dim::X
                && !game.my_doors.iter().any(|door| door.dim == Dim::X && door.coord == *coord)
        })
        .unwrap();
    let middle = GameState::wall_pos(walled.0, Dim::X);
    // just below the wall, moving up into it
    game.world.entities.players[0] =
        Player { pos: middle + pos(0, 2405 + 100), vel: vel(None, Some(Sign::Negative)) };
    game.move_and_collide();
    let now = game.world.entities.players[0].pos;
    assert_eq!(now, middle + pos(0, 2405));
    for _ in 0..10 {
        game.move_and_collide();
        assert_eq!(game.world.entities.players[0].pos, now);
    }
}

#[test]
fn many_ticks_keep_the_game_in_order() {
    let mut game = server_game(50, PlayerColor::Blue);
    let mut rng = CachedRng::new_seeded(1);
    for _ in 0..2000 {
        for k in 0..3 {
            let pick = |bits: u32| match bits {
                0 => None,
                1 => Some(Sign::Positive),
                _ => Some(Sign::Negative),
            };
            if rng.gen_bits(4) == 0 {
                game.world.entities.players[k].vel =
                    vel(pick(rng.gen_bits(2) % 3), pick(rng.gen_bits(2) % 3));
            }
        }
        let before = game.world.entities;
        game.move_and_collide();
        for k in 0..3 {
            assert_eq!(game.world.entities.players[k].vel, before.players[k].vel);
        }
        for door in game.my_doors.iter() {
            assert!(door.coord.bit_index().0 < 128);
        }
    }
}
