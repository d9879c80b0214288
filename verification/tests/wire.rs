use bincode::Options;
use honeydew::axes::{DimMap, Sign};
use honeydew::game::net::{Msg, TimelyGameData};
use honeydew::game::wire::MAX_ENCODED_LEN;
use honeydew::game::{Entities, Player, PlayerColor, Pos, Vel};
use honeydew::wrap_int::WrapInt;

fn pos(x: i16, y: i16) -> Pos {
    DimMap::new_xy(WrapInt::from(x), WrapInt::from(y))
}

fn vel(x: Option<Sign>, y: Option<Sign>) -> Vel {
    DimMap::new_xy(x, y)
}

fn sample_entities() -> Entities {
    Entities {
        players: [
            Player { pos: pos(0, 0), vel: vel(None, None) },
            Player { pos: pos(-32768, 32767), vel: vel(Some(Sign::Positive), Some(Sign::Negative)) },
            Player { pos: pos(125, -126), vel: vel(Some(Sign::Negative), None) },
        ],
        teleporters: [pos(2048, 4096), pos(-2048, -4096)],
    }
}

fn sample_messages() -> Vec<Msg> {
    let timely = TimelyGameData { entities: sample_entities(), timestamp: WrapInt::from(-1i16) };
    vec![
        Msg::CtsHello { preferred_color: PlayerColor::Black },
        Msg::CtsHello { preferred_color: PlayerColor::Blue },
        Msg::CtsHello { preferred_color: PlayerColor::Orange },
        Msg::StcHello { timely, your_color: PlayerColor::Orange, room_seed: 0 },
        Msg::StcHello { timely, your_color: PlayerColor::Blue, room_seed: 250 },
        Msg::StcHello { timely, your_color: PlayerColor::Blue, room_seed: 251 },
        Msg::StcHello { timely, your_color: PlayerColor::Blue, room_seed: 65535 },
        Msg::StcHello { timely, your_color: PlayerColor::Blue, room_seed: 65536 },
        Msg::StcHello { timely, your_color: PlayerColor::Blue, room_seed: 0xffff_ffff },
        Msg::StcHello { timely, your_color: PlayerColor::Blue, room_seed: 0x1_0000_0000 },
        Msg::StcHello { timely, your_color: PlayerColor::Black, room_seed: u64::MAX },
        Msg::CtsUpdate {
            player: Player { pos: pos(1, -1), vel: vel(None, Some(Sign::Negative)) },
            timestamp: WrapInt::from(300i16),
        },
        Msg::CtsUpdate {
            player: Player { pos: pos(-32768, 32767), vel: vel(Some(Sign::Positive), None) },
            timestamp: WrapInt::from(-32768i16),
        },
        Msg::StcUpdate { timely },
        Msg::StcUpdate {
            timely: TimelyGameData {
                entities: sample_entities(),
                timestamp: WrapInt::from(32767i16),
            },
        },
    ]
}

fn number_of_color(color: PlayerColor) -> u32 {
    match color {
        PlayerColor::Black => 0,
        PlayerColor::Blue => 1,
        PlayerColor::Orange => 2,
    }
}

fn number_of_sign(sign: Sign) -> u32 {
    match sign {
        Sign::Positive => 0,
        Sign::Negative => 1,
    }
}

type PlainPlayer = ([i16; 2], [Option<u32>; 2]);
type PlainTimely = ([PlainPlayer; 3], [[i16; 2]; 2], i16);

fn plain_pos(p: &Pos) -> [i16; 2] {
    [p.arr[0].to_i16(), p.arr[1].to_i16()]
}

fn plain_player(p: &Player) -> PlainPlayer {
    (plain_pos(&p.pos), [p.vel.arr[0].map(number_of_sign), p.vel.arr[1].map(number_of_sign)])
}

fn plain_timely(t: &TimelyGameData) -> PlainTimely {
    (
        [
            plain_player(&t.entities.players[0]),
            plain_player(&t.entities.players[1]),
            plain_player(&t.entities.players[2]),
        ],
        [plain_pos(&t.entities.teleporters[0]), plain_pos(&t.entities.teleporters[1])],
        t.timestamp.to_i16(),
    )
}

fn bincode_bytes(msg: &Msg) -> Vec<u8> {
    let options = bincode::DefaultOptions::new().with_limit(1024).with_varint_encoding();
    match msg {
        Msg::CtsHello { preferred_color } => {
            options.serialize(&(0u32, number_of_color(*preferred_color))).unwrap()
        }
        Msg::StcHello { timely, your_color, room_seed } => options
            .serialize(&(1u32, plain_timely(timely), number_of_color(*your_color), *room_seed))
            .unwrap(),
        Msg::CtsUpdate { player, timestamp } => {
            options.serialize(&(2u32, plain_player(player), timestamp.to_i16())).unwrap()
        }
        Msg::StcUpdate { timely } => options.serialize(&(3u32, plain_timely(timely))).unwrap(),
    }
}

#[test]
fn every_message_survives_the_wire() {
    for msg in sample_messages() {
        let bytes = msg.encode();
        assert!(bytes.len() <= MAX_ENCODED_LEN);
        assert_eq!(Msg::decode(&bytes), Some(msg));
    }
}

#[test]
fn a_hello_is_two_bytes() {
    assert_eq!(Msg::CtsHello { preferred_color: PlayerColor::Black }.encode(), vec![0, 0]);
    assert_eq!(Msg::CtsHello { preferred_color: PlayerColor::Blue }.encode(), vec![0, 1]);
    assert_eq!(Msg::CtsHello { preferred_color: PlayerColor::Orange }.encode(), vec![0, 2]);
}

#[test]
fn an_update_is_laid_out_field_by_field() {
    let msg = Msg::CtsUpdate {
        player: Player { pos: pos(1, -1), vel: vel(None, Some(Sign::Negative)) },
        timestamp: WrapInt::from(300i16),
    };
    assert_eq!(msg.encode(), vec![2, 2, 1, 0, 1, 1, 251, 88, 2]);
}

#[test]
fn wide_integers_follow_their_marker_low_byte_first() {
    let timely = TimelyGameData { entities: Entities {
        players: [
            Player { pos: pos(0, 0), vel: vel(None, None) },
            Player { pos: pos(0, 0), vel: vel(None, None) },
            Player { pos: pos(0, 0), vel: vel(None, None) },
        ],
        teleporters: [pos(0, 0), pos(0, 0)],
    }, timestamp: WrapInt::from(0i16) };
    let head: Vec<u8> = vec![1, 0, 0, 0, 0, 0, 0, 0, 0, 0, 0, 0, 0, 0, 0, 0, 0, 0, 2];
    let with_seed = |room_seed: u64| {
        Msg::StcHello { timely, your_color: PlayerColor::Orange, room_seed }.encode()
    };
    let expect = |tail: &[u8]| {
        let mut all = head.clone();
        all.extend_from_slice(tail);
        all
    };
    assert_eq!(with_seed(250), expect(&[250]));
    assert_eq!(with_seed(251), expect(&[251, 251, 0]));
    assert_eq!(with_seed(0x1234), expect(&[251, 0x34, 0x12]));
    assert_eq!(with_seed(0x12345678), expect(&[252, 0x78, 0x56, 0x34, 0x12]));
    assert_eq!(
        with_seed(0x0102030405060708),
        expect(&[253, 0x08, 0x07, 0x06, 0x05, 0x04, 0x03, 0x02, 0x01])
    );
}

#[test]
fn the_longest_message_fills_the_bound() {
    let far = Player {
        pos: pos(-32768, -32768),
        vel: vel(Some(Sign::Negative), Some(Sign::Negative)),
    };
    let msg = Msg::StcHello {
        timely: TimelyGameData {
            entities: Entities {
                players: [far, far, far],
                teleporters: [pos(-32768, -32768), pos(-32768, -32768)],
            },
            timestamp: WrapInt::from(-32768i16),
        },
        your_color: PlayerColor::Orange,
        room_seed: u64::MAX,
    };
    let bytes = msg.encode();
    assert_eq!(bytes.len(), MAX_ENCODED_LEN);
    assert_eq!(Msg::decode(&bytes), Some(msg));
}

#[test]
fn encoding_agrees_with_bincode() {
    for msg in sample_messages() {
        assert_eq!(msg.encode(), bincode_bytes(&msg), "{:?}", msg);
    }
}

#[test]
fn decoding_reads_what_bincode_wrote() {
    for msg in sample_messages() {
        assert_eq!(Msg::decode(&bincode_bytes(&msg)), Some(msg));
    }
}

#[test]
fn an_empty_datagram_is_no_message() {
    assert_eq!(Msg::decode(&[]), None);
}

#[test]
fn a_datagram_cut_short_is_no_message() {
    for msg in sample_messages() {
        let bytes = msg.encode();
        for len in 0..bytes.len() {
            assert_eq!(Msg::decode(&bytes[..len]), None, "{:?} cut to {}", msg, len);
        }
    }
}

#[test]
fn a_datagram_with_bytes_to_spare_is_no_message() {
    for msg in sample_messages() {
        let mut bytes = msg.encode();
        bytes.push(0);
        assert_eq!(Msg::decode(&bytes), None);
    }
}

#[test]
fn unknown_kinds_colors_and_senses_are_no_message() {
    assert_eq!(Msg::decode(&[4, 0]), None);
    assert_eq!(Msg::decode(&[250, 0]), None);
    assert_eq!(Msg::decode(&[0, 3]), None);
    assert_eq!(Msg::decode(&[254, 0]), None);
    assert_eq!(Msg::decode(&[255, 0]), None);
    // an update whose first motion is neither absent nor present
    assert_eq!(Msg::decode(&[2, 0, 0, 2, 0, 0]), None);
    // an update whose first motion has a sense that does not exist
    assert_eq!(Msg::decode(&[2, 0, 0, 1, 2, 0, 0]), None);
    // the same update with proper motions
    assert!(Msg::decode(&[2, 0, 0, 1, 1, 0, 0]).is_some());
}

#[test]
fn a_timestamp_out_of_range_is_no_message() {
    // 65536 folded back is 32768, which no timestamp holds
    assert_eq!(Msg::decode(&[2, 0, 0, 0, 0, 252, 0, 0, 1, 0]), None);
    // 65535 folded back is -32768
    assert_eq!(
        Msg::decode(&[2, 0, 0, 0, 0, 252, 255, 255, 0, 0]),
        Some(Msg::CtsUpdate {
            player: Player { pos: pos(0, 0), vel: vel(None, None) },
            timestamp: WrapInt::from(-32768i16),
        })
    );
}

#[test]
fn a_longer_form_than_needed_is_read_all_the_same() {
    let short = Msg::decode(&[0, 1]);
    assert_eq!(short, Some(Msg::CtsHello { preferred_color: PlayerColor::Blue }));
    assert_eq!(Msg::decode(&[251, 0, 0, 251, 1, 0]), short);
    assert_eq!(Msg::decode(&[252, 0, 0, 0, 0, 1]), short);
    assert_eq!(Msg::decode(&[0, 253, 1, 0, 0, 0, 0, 0, 0, 0]), short);
    let options = bincode::DefaultOptions::new().with_limit(1024).with_varint_encoding();
    let by_bincode: (u32, u32) = options.deserialize(&[251, 0, 0, 251, 1, 0]).unwrap();
    assert_eq!(by_bincode, (0, 1));
}
