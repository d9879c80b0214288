use honeydew::axes::{DimMap, Sign};
use honeydew::game::config::IfServer;
use honeydew::game::net::{
    is_small_step, Addr, Client, ClientAction, ClientEvent, Msg, Server, ServerAction,
    ServerClient, ServerEvent, TimelyGameData,
};
use honeydew::game::room::Room;
use honeydew::game::{Entities, Player, PlayerColor, Pos, Vel};
use honeydew::wrap_int::WrapInt;

const BLACK: PlayerColor = PlayerColor::Black;
const BLUE: PlayerColor = PlayerColor::Blue;
const ORANGE: PlayerColor = PlayerColor::Orange;

fn addr(port: u16) -> Addr {
    Addr::V4 { ip: 0x7f00_0001, port }
}

fn pos(x: u16, y: u16) -> Pos {
    DimMap::new_xy(WrapInt::from(x), WrapInt::from(y))
}

fn still() -> Vel {
    DimMap::new_xy(None, None)
}

fn moving(x: Option<Sign>, y: Option<Sign>) -> Vel {
    DimMap::new_xy(x, y)
}

fn ts(t: u16) -> WrapInt {
    WrapInt::from(t)
}

fn entities() -> Entities {
    Entities {
        players: [
            Player { pos: pos(10_000, 10_000), vel: still() },
            Player { pos: pos(20_000, 20_000), vel: still() },
            Player { pos: pos(30_000, 30_000), vel: still() },
        ],
        teleporters: [pos(40_000, 40_000), pos(50_000, 50_000)],
    }
}

fn hello(server: &mut Server, my_color: PlayerColor, from: Addr, preferred: PlayerColor) -> ServerAction {
    let mut world = entities();
    let action = server.update(
        my_color,
        &mut world,
        ServerEvent::Received { msg: Msg::CtsHello { preferred_color: preferred }, sender: from },
    );
    assert_eq!(world, entities());
    action
}

fn update_from(
    server: &mut Server,
    my_color: PlayerColor,
    world: &mut Entities,
    from: Addr,
    player: Player,
    timestamp: u16,
) {
    let action = server.update(
        my_color,
        world,
        ServerEvent::Received {
            msg: Msg::CtsUpdate { player, timestamp: ts(timestamp) },
            sender: from,
        },
    );
    assert_eq!(action, ServerAction::Idle);
}

fn snapshot(world: Entities, timestamp: u16) -> ClientEvent {
    ClientEvent::Received {
        msg: Msg::StcUpdate { timely: TimelyGameData { entities: world, timestamp: ts(timestamp) } },
    }
}

#[test]
fn handshake() {
    let seed = 0x5eed;
    let config = IfServer {
        server_addr: addr(8000),
        player_color: BLACK,
        room_seed: Some(seed),
        ai_enabled: vec![],
    };
    let (mut server, mut server_world, my_color) = Server::new(&config);
    assert_eq!(my_color, BLACK);
    assert_eq!(server.room_seed(), seed);

    let request = Client::hello(BLUE).encode();
    let event = ServerEvent::Received { msg: Msg::decode(&request).unwrap(), sender: addr(9000) };
    let action = server.update(my_color, &mut server_world.entities, event);
    assert_eq!(action, ServerAction::Greet { to: addr(9000), color: BLUE, fresh: true });

    let reply = server.hello(BLUE, &server_world.entities);
    assert_eq!(
        reply,
        Msg::StcHello {
            timely: TimelyGameData { entities: server_world.entities, timestamp: ts(0) },
            your_color: BLUE,
            room_seed: seed,
        }
    );
    let answer = Msg::decode(&reply.encode()).unwrap();
    let (client, client_world, color) = Client::new(&answer).unwrap();
    assert_eq!(color, BLUE);
    assert_eq!(client.last_server_timestamp(), ts(0));
    assert_eq!(client.timestamp(), ts(0));
    assert_eq!(client_world.entities, server_world.entities);
    assert_eq!(client_world.room, Room::new_seeded(seed).0);
    assert_eq!(client_world.room, server_world.room);
}

#[test]
fn only_an_answer_to_a_hello_makes_a_client() {
    assert!(Client::new(&Msg::CtsHello { preferred_color: BLUE }).is_none());
    assert!(Client::new(&Msg::CtsUpdate {
        player: Player { pos: pos(0, 0), vel: still() },
        timestamp: ts(1),
    })
    .is_none());
    assert!(Client::new(&Msg::StcUpdate {
        timely: TimelyGameData { entities: entities(), timestamp: ts(1) },
    })
    .is_none());
}

#[test]
fn a_server_without_a_seed_draws_one() {
    let config =
        IfServer { server_addr: addr(8000), player_color: ORANGE, room_seed: None, ai_enabled: vec![] };
    let (server, world, my_color) = Server::new(&config);
    assert_eq!(my_color, ORANGE);
    assert_eq!(world.room, Room::new_seeded(server.room_seed()).0);
    assert_eq!(server.timestamp(), ts(0));
    for color in PlayerColor::iter_domain() {
        assert_eq!(server.client(color), None);
    }
}

#[test]
fn reconnection_attempt_with_occupied_color() {
    let mut server = Server::with_seed(1);
    assert_eq!(
        hello(&mut server, ORANGE, addr(1), BLACK),
        ServerAction::Greet { to: addr(1), color: BLACK, fresh: true }
    );
    assert_eq!(
        hello(&mut server, ORANGE, addr(2), BLACK),
        ServerAction::Greet { to: addr(2), color: BLACK.prey(), fresh: true }
    );
    assert_eq!(BLACK.prey(), BLUE);
    assert_eq!(server.client(BLACK).map(|c| c.addr), Some(addr(1)));
    assert_eq!(server.client(BLUE).map(|c| c.addr), Some(addr(2)));
    assert_eq!(server.client(ORANGE), None);
}

#[test]
fn the_first_peer_gets_the_color_it_prefers() {
    for my_color in PlayerColor::iter_domain() {
        for preferred in PlayerColor::iter_domain() {
            if preferred == my_color {
                continue;
            }
            let mut server = Server::with_seed(1);
            assert_eq!(
                hello(&mut server, my_color, addr(1), preferred),
                ServerAction::Greet { to: addr(1), color: preferred, fresh: true }
            );
        }
    }
}

#[test]
fn the_second_peer_gets_the_prey_or_else_the_predator() {
    for my_color in PlayerColor::iter_domain() {
        for preferred in PlayerColor::iter_domain() {
            if preferred == my_color {
                continue;
            }
            let mut server = Server::with_seed(1);
            hello(&mut server, my_color, addr(1), preferred);
            let next = if preferred.prey() != my_color { preferred.prey() } else { preferred.predator() };
            assert_eq!(
                hello(&mut server, my_color, addr(2), preferred),
                ServerAction::Greet { to: addr(2), color: next, fresh: true }
            );
        }
    }
}

#[test]
fn a_peer_that_prefers_the_color_of_the_server_gets_its_prey() {
    let mut server = Server::with_seed(1);
    assert_eq!(
        hello(&mut server, BLUE, addr(1), BLUE),
        ServerAction::Greet { to: addr(1), color: ORANGE, fresh: true }
    );
    assert_eq!(
        hello(&mut server, BLUE, addr(2), BLUE),
        ServerAction::Greet { to: addr(2), color: BLACK, fresh: true }
    );
}

#[test]
fn a_repeated_hello_keeps_the_color() {
    let mut server = Server::with_seed(1);
    hello(&mut server, BLACK, addr(1), ORANGE);
    let before = server.clone();
    assert_eq!(
        hello(&mut server, BLACK, addr(1), ORANGE),
        ServerAction::Greet { to: addr(1), color: ORANGE, fresh: false }
    );
    assert_eq!(
        hello(&mut server, BLACK, addr(1), BLUE),
        ServerAction::Greet { to: addr(1), color: ORANGE, fresh: false }
    );
    assert_eq!(server, before);
}

#[test]
fn full_capacity() {
    let mut server = Server::with_seed(1);
    hello(&mut server, BLACK, addr(1), BLUE);
    hello(&mut server, BLACK, addr(2), BLUE);
    let before = server.clone();
    for preferred in PlayerColor::iter_domain() {
        assert_eq!(hello(&mut server, BLACK, addr(3), preferred), ServerAction::Idle);
        assert_eq!(server, before);
    }
}

#[test]
fn a_new_peer_is_remembered_with_the_time_of_the_server() {
    let mut server = Server::with_seed(1);
    let mut world = entities();
    for _ in 0..5 {
        server.update(BLACK, &mut world, ServerEvent::Drained);
    }
    hello(&mut server, BLACK, addr(1), BLUE);
    assert_eq!(
        server.client(BLUE),
        Some(ServerClient { addr: addr(1), last_client_timestamp: ts(5) })
    );
}

#[test]
fn a_small_step_is_taken_over_whole() {
    let mut server = Server::with_seed(1);
    hello(&mut server, BLACK, addr(1), BLUE);
    let mut world = entities();
    let claimed =
        Player { pos: pos(20_000 + 3071, 20_000 - 6143), vel: moving(Some(Sign::Positive), None) };
    update_from(&mut server, BLACK, &mut world, addr(1), claimed, 1);
    let mut expected = entities();
    expected.players[1] = claimed;
    assert_eq!(world, expected);
    assert_eq!(server.client(BLUE).unwrap().last_client_timestamp, ts(1));
}

#[test]
fn a_jump_keeps_the_position_and_takes_the_velocity() {
    for (dx, dy) in [(3073u16, 0u16), (0, 6145), (3072, 6144), (32768, 0), (60_000, 60_000)] {
        let mut server = Server::with_seed(1);
        hello(&mut server, BLACK, addr(1), BLUE);
        let mut world = entities();
        let claimed = Player {
            pos: pos(20_000u16.wrapping_add(dx), 20_000u16.wrapping_sub(dy)),
            vel: moving(None, Some(Sign::Negative)),
        };
        update_from(&mut server, BLACK, &mut world, addr(1), claimed, 1);
        let mut expected = entities();
        expected.players[1].vel = claimed.vel;
        assert_eq!(world, expected, "jump by {} and {}", dx, dy);
        assert_eq!(server.client(BLUE).unwrap().last_client_timestamp, ts(1));
    }
}

#[test]
fn the_bound_itself_is_a_small_step_on_one_axis_only() {
    let from = pos(100, 100);
    assert!(is_small_step(from, pos(100 + 3072, 100 + 6143)));
    assert!(is_small_step(from, pos(100 + 3071, 100 + 6144)));
    assert!(!is_small_step(from, pos(100 + 3072, 100 + 6144)));
    assert!(is_small_step(from, pos(100u16.wrapping_sub(3072), 100)));
    assert!(!is_small_step(from, pos(100 + 3073, 100)));
    assert!(!is_small_step(from, pos(100, 100 + 6145)));
    assert!(is_small_step(from, from));
    assert!(is_small_step(pos(65_000, 65_000), pos(500, 500)));
}

#[test]
fn a_stale_update_changes_nothing() {
    let mut server = Server::with_seed(1);
    hello(&mut server, BLACK, addr(1), BLUE);
    let mut world = entities();
    let first = Player { pos: pos(20_100, 20_100), vel: moving(Some(Sign::Positive), None) };
    update_from(&mut server, BLACK, &mut world, addr(1), first, 7);
    let after_first = (server.clone(), world);

    update_from(&mut server, BLACK, &mut world, addr(1), first, 7);
    assert_eq!((server.clone(), world), after_first);

    let other = Player { pos: pos(20_200, 20_200), vel: still() };
    update_from(&mut server, BLACK, &mut world, addr(1), other, 7);
    update_from(&mut server, BLACK, &mut world, addr(1), other, 6);
    update_from(&mut server, BLACK, &mut world, addr(1), other, 0);
    update_from(&mut server, BLACK, &mut world, addr(1), other, 7u16.wrapping_add(32768));
    assert_eq!((server.clone(), world), after_first);

    update_from(&mut server, BLACK, &mut world, addr(1), other, 8);
    assert_eq!(world.players[1], other);
    assert_eq!(server.client(BLUE).unwrap().last_client_timestamp, ts(8));
}

#[test]
fn an_update_from_a_stranger_changes_nothing() {
    let mut server = Server::with_seed(1);
    hello(&mut server, BLACK, addr(1), BLUE);
    let before = server.clone();
    let mut world = entities();
    let claimed = Player { pos: pos(20_001, 20_001), vel: moving(Some(Sign::Positive), None) };
    update_from(&mut server, BLACK, &mut world, addr(2), claimed, 1);
    assert_eq!(world, entities());
    assert_eq!(server, before);
}

#[test]
fn an_update_changes_the_player_of_its_sender_only() {
    let mut server = Server::with_seed(1);
    hello(&mut server, BLACK, addr(1), BLUE);
    hello(&mut server, BLACK, addr(2), ORANGE);
    let mut world = entities();
    let claimed = Player { pos: pos(30_010, 30_010), vel: moving(None, Some(Sign::Positive)) };
    update_from(&mut server, BLACK, &mut world, addr(2), claimed, 1);
    let mut expected = entities();
    expected.players[2] = claimed;
    assert_eq!(world, expected);
    assert_eq!(server.client(BLUE).unwrap().last_client_timestamp, ts(0));
}

#[test]
fn the_server_ignores_its_own_kinds_of_message() {
    let mut server = Server::with_seed(1);
    hello(&mut server, BLACK, addr(1), BLUE);
    let before = server.clone();
    let mut world = entities();
    let timely = TimelyGameData { entities: entities(), timestamp: ts(9) };
    for msg in [
        Msg::StcUpdate { timely },
        Msg::StcHello { timely, your_color: BLUE, room_seed: 3 },
    ] {
        let action =
            server.update(BLACK, &mut world, ServerEvent::Received { msg, sender: addr(1) });
        assert_eq!(action, ServerAction::Idle);
        assert_eq!(world, entities());
        assert_eq!(server, before);
    }
}

#[test]
fn a_broadcast_goes_to_every_peer_and_advances_the_clock() {
    let mut server = Server::with_seed(1);
    let mut world = entities();
    assert_eq!(
        server.update(BLUE, &mut world, ServerEvent::Drained),
        ServerAction::Broadcast {
            msg: Msg::StcUpdate { timely: TimelyGameData { entities: entities(), timestamp: ts(0) } },
            to: vec![],
        }
    );
    hello(&mut server, BLUE, addr(1), ORANGE);
    assert_eq!(
        server.update(BLUE, &mut world, ServerEvent::Drained),
        ServerAction::Broadcast {
            msg: Msg::StcUpdate { timely: TimelyGameData { entities: entities(), timestamp: ts(1) } },
            to: vec![addr(1)],
        }
    );
    hello(&mut server, BLUE, addr(2), ORANGE);
    assert_eq!(
        server.update(BLUE, &mut world, ServerEvent::Drained),
        ServerAction::Broadcast {
            msg: Msg::StcUpdate { timely: TimelyGameData { entities: entities(), timestamp: ts(2) } },
            to: vec![addr(2), addr(1)],
        }
    );
    assert_eq!(server.timestamp(), ts(3));
    assert_eq!(world, entities());
}

#[test]
fn the_clock_of_the_server_wraps() {
    let mut server = Server::with_seed(1);
    let mut world = entities();
    for _ in 0..65_536u32 {
        server.broadcast(BLACK, &world);
    }
    assert_eq!(server.timestamp(), ts(0));
    server.update(BLACK, &mut world, ServerEvent::Drained);
    assert_eq!(server.timestamp(), ts(1));
}

#[test]
fn drift_correction() {
    let threshold = 3072u16;
    let local = Player { pos: pos(20_000, 20_000), vel: moving(Some(Sign::Positive), None) };
    let mut mine = entities();
    mine.players[1] = local;

    let mut near = entities();
    near.players[0].pos = pos(11, 11);
    near.players[1] = Player { pos: pos(20_000 + threshold - 1, 20_000), vel: still() };
    let mut client = Client::synchronized(ts(0));
    let mut world = mine;
    assert_eq!(client.update(BLUE, &mut world, snapshot(near, 1)), ClientAction::KeepReceiving);
    assert_eq!(world.players[1], local);
    assert_eq!(world.players[0], near.players[0]);
    assert_eq!(world.players[2], near.players[2]);
    assert_eq!(world.teleporters, near.teleporters);

    let mut far = near;
    far.players[1].pos = pos(20_000 + threshold + 1, 20_000);
    let mut client = Client::synchronized(ts(0));
    let mut world = mine;
    client.update(BLUE, &mut world, snapshot(far, 1));
    assert_eq!(world.players[1], Player { pos: far.players[1].pos, vel: local.vel });
}

#[test]
fn a_stale_snapshot_changes_nothing() {
    let mut client = Client::synchronized(ts(10));
    let mut world = entities();
    let mut reported = entities();
    reported.players[0].pos = pos(1, 1);
    reported.players[2].pos = pos(2, 2);

    for stale in [10u16, 9, 0, 10u16.wrapping_add(32768), 10u16.wrapping_add(40_000)] {
        assert_eq!(client.update(BLUE, &mut world, snapshot(reported, stale)), ClientAction::KeepReceiving);
        assert_eq!(world, entities());
        assert_eq!(client.last_server_timestamp(), ts(10));
    }

    client.update(BLUE, &mut world, snapshot(reported, 11));
    assert_eq!(world, reported);
    let after_first = (client.clone(), world);
    let mut other = entities();
    other.players[0].pos = pos(5, 5);
    client.update(BLUE, &mut world, snapshot(other, 11));
    assert_eq!((client.clone(), world), after_first);
}

#[test]
fn a_client_reports_its_own_player_and_advances_its_clock() {
    let mut client = Client::synchronized(ts(3));
    let mut world = entities();
    for (tick, event) in [
        ClientEvent::Drained,
        ClientEvent::Received { msg: Msg::CtsHello { preferred_color: BLUE } },
        ClientEvent::Received {
            msg: Msg::StcHello {
                timely: TimelyGameData { entities: entities(), timestamp: ts(50) },
                your_color: BLUE,
                room_seed: 0,
            },
        },
    ]
    .into_iter()
    .enumerate()
    {
        assert_eq!(
            client.update(ORANGE, &mut world, event),
            ClientAction::Report {
                msg: Msg::CtsUpdate { player: entities().players[2], timestamp: ts(tick as u16) },
            }
        );
        assert_eq!(world, entities());
        assert_eq!(client.last_server_timestamp(), ts(3));
    }
    assert_eq!(client.timestamp(), ts(3));
}

#[test]
fn a_whole_exchange_between_a_server_and_a_client() {
    let (mut server, mut server_world, my_color) = Server::new(&IfServer {
        server_addr: addr(8000),
        player_color: BLACK,
        room_seed: Some(4),
        ai_enabled: vec![BLUE, ORANGE],
    });
    let peer = addr(9000);
    let request = Msg::decode(&Client::hello(ORANGE).encode()).unwrap();
    let greeted = server.update(
        my_color,
        &mut server_world.entities,
        ServerEvent::Received { msg: request, sender: peer },
    );
    assert_eq!(greeted, ServerAction::Greet { to: peer, color: ORANGE, fresh: true });
    server_world.entities.players[2].vel = still();
    let reply = server.hello(ORANGE, &server_world.entities).encode();
    let (mut client, mut client_world, color) = Client::new(&Msg::decode(&reply).unwrap()).unwrap();

    for tick in 1..=3u16 {
        client_world.entities.players[2].pos =
            client_world.entities.players[2].pos + pos(256, 0);
        client_world.entities.players[2].vel = moving(Some(Sign::Positive), None);
        let report = match client.update(color, &mut client_world.entities, ClientEvent::Drained) {
            ClientAction::Report { msg } => msg.encode(),
            other => panic!("expected a report, got {:?}", other),
        };
        // the first report carries the time zero, which the server has seen already
        server.update(
            my_color,
            &mut server_world.entities,
            ServerEvent::Received { msg: Msg::decode(&report).unwrap(), sender: peer },
        );
        let (snapshot, to) = match server.update(my_color, &mut server_world.entities, ServerEvent::Drained)
        {
            ServerAction::Broadcast { msg, to } => (msg.encode(), to),
            other => panic!("expected a broadcast, got {:?}", other),
        };
        assert_eq!(to, vec![peer]);
        client.update(
            color,
            &mut client_world.entities,
            ClientEvent::Received { msg: Msg::decode(&snapshot).unwrap() },
        );
        if tick >= 2 {
            assert_eq!(server_world.entities.players[2], client_world.entities.players[2]);
        }
    }
    assert_eq!(server_world.entities.players[0], client_world.entities.players[0]);
    assert_eq!(server_world.entities.players[1], client_world.entities.players[1]);
}
