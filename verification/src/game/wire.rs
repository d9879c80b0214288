//! The wire format of the protocol's messages.
//!
//! A datagram holds exactly one message. Integers wider than a byte are
//! written in a variable-length form: a value up to 250 is one byte; larger
//! values follow a marker byte (251, 252 or 253) as two, four or eight bytes,
//! low byte first. Signed integers are folded onto the unsigned ones first,
//! so that values near zero stay short. A choice among variants is the
//! number of the variant in that form; an optional value is a byte 0, or a
//! byte 1 and then the value. Structures are their fields one after another.
//!
//! A reader accepts a marker with any value that fits the field, also where a
//! shorter form exists; it accepts no byte beyond the message.
use crate::axes::{Dim, DimMap, Sign};
use crate::game::net::{Msg, TimelyGameData, Timestamp};
use crate::game::{Entities, Player, PlayerColor, Pos, Vel};
use crate::wrap_int::WrapInt;
use vstd::prelude::*;

verus! {

/// No encoded message is longer than this.
pub const MAX_ENCODED_LEN: usize = 56;

/// The byte of `v` that starts `shift` bits above the lowest.
pub open spec fn byte_of(v: u64, shift: u64) -> u8 {
    ((v >> shift) & 0xff) as u8
}

/// The two low bytes of `v`, low byte first.
pub open spec fn le2(v: u64) -> Seq<u8> {
    seq![byte_of(v, 0), byte_of(v, 8)]
}

/// The four low bytes of `v`, low byte first.
pub open spec fn le4(v: u64) -> Seq<u8> {
    seq![byte_of(v, 0), byte_of(v, 8), byte_of(v, 16), byte_of(v, 24)]
}

/// The eight bytes of `v`, low byte first.
pub open spec fn le8(v: u64) -> Seq<u8> {
    seq![
        byte_of(v, 0),
        byte_of(v, 8),
        byte_of(v, 16),
        byte_of(v, 24),
        byte_of(v, 32),
        byte_of(v, 40),
        byte_of(v, 48),
        byte_of(v, 56),
    ]
}

/// The value whose two bytes are `b0` and `b1`, low byte first.
pub open spec fn from_le2(b0: u8, b1: u8) -> u64 {
    (b0 as u64) | ((b1 as u64) << 8)
}

/// The value whose four bytes are `b0` to `b3`, low byte first.
pub open spec fn from_le4(b0: u8, b1: u8, b2: u8, b3: u8) -> u64 {
    (b0 as u64) | ((b1 as u64) << 8) | ((b2 as u64) << 16) | ((b3 as u64) << 24)
}

/// The value whose eight bytes are `lo`'s four and then `hi`'s four, low byte
/// first.
pub open spec fn from_le8(lo: u64, hi: u64) -> u64 {
    lo | (hi << 32)
}

/// The variable-length form of `v`.
pub open spec fn varint(v: u64) -> Seq<u8> {
    if v <= 250 {
        seq![v as u8]
    } else if v <= 0xffff {
        seq![251u8] + le2(v)
    } else if v <= 0xffff_ffff {
        seq![252u8] + le4(v)
    } else {
        seq![253u8] + le8(v)
    }
}

/// Reads a variable-length integer that starts at `at`: its value and where
/// the next field starts.
pub open spec fn parse_varint(s: Seq<u8>, at: int) -> Option<(u64, int)> {
    if at < 0 || at >= s.len() {
        None
    } else if s[at] <= 250 {
        Some((s[at] as u64, at + 1))
    } else if s[at] == 251 {
        if at + 3 <= s.len() {
            Some((from_le2(s[at + 1], s[at + 2]), at + 3))
        } else {
            None
        }
    } else if s[at] == 252 {
        if at + 5 <= s.len() {
            Some((from_le4(s[at + 1], s[at + 2], s[at + 3], s[at + 4]), at + 5))
        } else {
            None
        }
    } else if s[at] == 253 {
        if at + 9 <= s.len() {
            Some(
                (
                    from_le8(
                        from_le4(s[at + 1], s[at + 2], s[at + 3], s[at + 4]),
                        from_le4(s[at + 5], s[at + 6], s[at + 7], s[at + 8]),
                    ),
                    at + 9,
                ),
            )
        } else {
            None
        }
    } else {
        None
    }
}

/// The signed integers folded onto the unsigned ones: 0, -1, 1, -2, 2 and so
/// on become 0, 1, 2, 3, 4 and so on.
pub open spec fn zigzag(x: int) -> int {
    if x < 0 {
        -2 * x - 1
    } else {
        2 * x
    }
}

/// The inverse of [`zigzag`].
pub open spec fn unzigzag(n: int) -> int {
    if n % 2 == 0 {
        n / 2
    } else {
        -(n / 2) - 1
    }
}

/// `s` holds `part` from `at` on.
pub open spec fn holds_at(s: Seq<u8>, at: int, part: Seq<u8>) -> bool {
    &&& 0 <= at
    &&& at + part.len() <= s.len()
    &&& s.subrange(at, at + part.len()) == part
}

pub open spec fn timestamp_bytes(t: Timestamp) -> Seq<u8> {
    varint(zigzag(t@) as u64)
}

pub open spec fn parse_timestamp(s: Seq<u8>, at: int) -> Option<(Timestamp, int)> {
    match parse_varint(s, at) {
        Some((n, next)) => if n <= 0xffff {
            Some((WrapInt(unzigzag(n as int) as i16), next))
        } else {
            None
        },
        None => None,
    }
}

/// The number under which a color travels.
pub open spec fn color_number(c: PlayerColor) -> u64 {
    c.index() as u64
}

pub open spec fn color_bytes(c: PlayerColor) -> Seq<u8> {
    varint(color_number(c))
}

pub open spec fn parse_color(s: Seq<u8>, at: int) -> Option<(PlayerColor, int)> {
    match parse_varint(s, at) {
        Some((n, next)) => if n == 0 {
            Some((PlayerColor::Black, next))
        } else if n == 1 {
            Some((PlayerColor::Blue, next))
        } else if n == 2 {
            Some((PlayerColor::Orange, next))
        } else {
            None
        },
        None => None,
    }
}

/// One axis of a velocity.
pub open spec fn motion_bytes(m: Option<Sign>) -> Seq<u8> {
    match m {
        None => seq![0u8],
        Some(sign) => seq![1u8] + varint(sign.index() as u64),
    }
}

pub open spec fn parse_motion(s: Seq<u8>, at: int) -> Option<(Option<Sign>, int)> {
    if at < 0 || at >= s.len() {
        None
    } else if s[at] == 0 {
        Some((None, at + 1))
    } else if s[at] == 1 {
        match parse_varint(s, at + 1) {
            Some((n, next)) => if n == 0 {
                Some((Some(Sign::Positive), next))
            } else if n == 1 {
                Some((Some(Sign::Negative), next))
            } else {
                None
            },
            None => None,
        }
    } else {
        None
    }
}

pub open spec fn pos_bytes(p: Pos) -> Seq<u8> {
    timestamp_bytes(p.at(Dim::X)) + timestamp_bytes(p.at(Dim::Y))
}

pub open spec fn parse_pos(s: Seq<u8>, at: int) -> Option<(Pos, int)> {
    match parse_timestamp(s, at) {
        Some((x, mid)) => match parse_timestamp(s, mid) {
            Some((y, next)) => Some((DimMap::xy(x, y), next)),
            None => None,
        },
        None => None,
    }
}

pub open spec fn vel_bytes(v: Vel) -> Seq<u8> {
    motion_bytes(v.at(Dim::X)) + motion_bytes(v.at(Dim::Y))
}

pub open spec fn parse_vel(s: Seq<u8>, at: int) -> Option<(Vel, int)> {
    match parse_motion(s, at) {
        Some((x, mid)) => match parse_motion(s, mid) {
            Some((y, next)) => Some((DimMap::xy(x, y), next)),
            None => None,
        },
        None => None,
    }
}

#[verifier::opaque]
pub open spec fn player_bytes(p: Player) -> Seq<u8> {
    pos_bytes(p.pos) + vel_bytes(p.vel)
}

#[verifier::opaque]
pub open spec fn parse_player(s: Seq<u8>, at: int) -> Option<(Player, int)> {
    match parse_pos(s, at) {
        Some((pos, mid)) => match parse_vel(s, mid) {
            Some((vel, next)) => Some((Player { pos, vel }, next)),
            None => None,
        },
        None => None,
    }
}

#[verifier::opaque]
pub open spec fn entities_bytes(e: Entities) -> Seq<u8> {
    player_bytes(e.players[0]) + player_bytes(e.players[1]) + player_bytes(e.players[2])
        + pos_bytes(e.teleporters[0]) + pos_bytes(e.teleporters[1])
}

#[verifier::opaque]
pub open spec fn parse_entities(s: Seq<u8>, at: int) -> Option<(Entities, int)> {
    match parse_player(s, at) {
        Some((black, at_blue)) => match parse_player(s, at_blue) {
            Some((blue, at_orange)) => match parse_player(s, at_orange) {
                Some((orange, at_first)) => match parse_pos(s, at_first) {
                    Some((first, at_second)) => match parse_pos(s, at_second) {
                        Some((second, next)) => Some(
                            (Entities { players: [black, blue, orange], teleporters: [first, second] }, next),
                        ),
                        None => None,
                    },
                    None => None,
                },
                None => None,
            },
            None => None,
        },
        None => None,
    }
}

#[verifier::opaque]
pub open spec fn timely_bytes(t: TimelyGameData) -> Seq<u8> {
    entities_bytes(t.entities) + timestamp_bytes(t.timestamp)
}

#[verifier::opaque]
pub open spec fn parse_timely(s: Seq<u8>, at: int) -> Option<(TimelyGameData, int)> {
    match parse_entities(s, at) {
        Some((entities, mid)) => match parse_timestamp(s, mid) {
            Some((timestamp, next)) => Some((TimelyGameData { entities, timestamp }, next)),
            None => None,
        },
        None => None,
    }
}

/// The bytes of a message: the number of its kind, then its fields.
pub open spec fn encoded(m: Msg) -> Seq<u8> {
    match m {
        Msg::CtsHello { preferred_color } => varint(0) + color_bytes(preferred_color),
        Msg::StcHello { timely, your_color, room_seed } => varint(1) + timely_bytes(timely)
            + color_bytes(your_color) + varint(room_seed),
        Msg::CtsUpdate { player, timestamp } => varint(2) + player_bytes(player) + timestamp_bytes(
            timestamp,
        ),
        Msg::StcUpdate { timely } => varint(3) + timely_bytes(timely),
    }
}

/// Reads a message that starts at `at`.
pub open spec fn parse_msg(s: Seq<u8>, at: int) -> Option<(Msg, int)> {
    match parse_varint(s, at) {
        Some((kind, after_kind)) => if kind == 0 {
            match parse_color(s, after_kind) {
                Some((preferred_color, next)) => Some((Msg::CtsHello { preferred_color }, next)),
                None => None,
            }
        } else if kind == 1 {
            match parse_timely(s, after_kind) {
                Some((timely, after_body)) => match parse_color(s, after_body) {
                    Some((your_color, after_color)) => match parse_varint(s, after_color) {
                        Some((room_seed, next)) => Some(
                            (Msg::StcHello { timely, your_color, room_seed }, next),
                        ),
                        None => None,
                    },
                    None => None,
                },
                None => None,
            }
        } else if kind == 2 {
            match parse_player(s, after_kind) {
                Some((player, after_body)) => match parse_timestamp(s, after_body) {
                    Some((timestamp, next)) => Some((Msg::CtsUpdate { player, timestamp }, next)),
                    None => None,
                },
                None => None,
            }
        } else if kind == 3 {
            match parse_timely(s, after_kind) {
                Some((timely, next)) => Some((Msg::StcUpdate { timely }, next)),
                None => None,
            }
        } else {
            None
        },
        None => None,
    }
}

/// The message that a datagram holds: the one that reading from the start
/// gives, provided that it ends where the datagram ends.
pub open spec fn decoded(s: Seq<u8>) -> Option<Msg> {
    match parse_msg(s, 0) {
        Some((m, end)) => if end == s.len() {
            Some(m)
        } else {
            None
        },
        None => None,
    }
}

/// Where `s` holds two parts one after the other, it holds each of them.
pub proof fn lemma_holds_at_split(s: Seq<u8>, at: int, a: Seq<u8>, b: Seq<u8>)
    requires
        holds_at(s, at, a + b),
    ensures
        holds_at(s, at, a),
        holds_at(s, at + a.len(), b),
{
    let whole = s.subrange(at, at + (a + b).len());
    assert forall|i: int| 0 <= i < a.len() implies s.subrange(at, at + a.len())[i] == a[i] by {
        assert(whole[i] == (a + b)[i]);
    }
    assert(s.subrange(at, at + a.len()) =~= a);
    assert forall|i: int| 0 <= i < b.len() implies s.subrange(
        at + a.len(),
        at + a.len() + b.len(),
    )[i] == b[i] by {
        assert(whole[a.len() + i] == (a + b)[a.len() + i]);
    }
    assert(s.subrange(at + a.len(), at + a.len() + b.len()) =~= b);
}

/// Every byte of a part that `s` holds is found in `s`.
pub proof fn lemma_holds_at_index(s: Seq<u8>, at: int, part: Seq<u8>, i: int)
    requires
        holds_at(s, at, part),
        0 <= i < part.len(),
    ensures
        s[at + i] == part[i],
{
    assert(s.subrange(at, at + part.len())[i] == part[i]);
}

proof fn lemma_le2(v: u64)
    requires
        v <= 0xffff,
    ensures
        from_le2(le2(v)[0], le2(v)[1]) == v,
{
    assert((((v >> 0) & 0xff) as u8 as u64) | ((((v >> 8) & 0xff) as u8 as u64) << 8) == v)
        by (bit_vector)
        requires
            v <= 0xffff,
    ;
}

proof fn lemma_le4(v: u64)
    requires
        v <= 0xffff_ffff,
    ensures
        from_le4(le4(v)[0], le4(v)[1], le4(v)[2], le4(v)[3]) == v,
{
    assert((((v >> 0) & 0xff) as u8 as u64) | ((((v >> 8) & 0xff) as u8 as u64) << 8) | ((((v
        >> 16) & 0xff) as u8 as u64) << 16) | ((((v >> 24) & 0xff) as u8 as u64) << 24) == v)
        by (bit_vector)
        requires
            v <= 0xffff_ffff,
    ;
}

proof fn lemma_le8(v: u64)
    ensures
        from_le8(
            from_le4(le8(v)[0], le8(v)[1], le8(v)[2], le8(v)[3]),
            from_le4(le8(v)[4], le8(v)[5], le8(v)[6], le8(v)[7]),
        ) == v,
{
    assert(((((v >> 0) & 0xff) as u8 as u64) | ((((v >> 8) & 0xff) as u8 as u64) << 8) | ((((v >> 16)
        & 0xff) as u8 as u64) << 16) | ((((v >> 24) & 0xff) as u8 as u64) << 24)) | ((((v >> 32)
        & 0xff) as u8 as u64) | ((((v >> 40) & 0xff) as u8 as u64) << 8) | ((((v >> 48)
        & 0xff) as u8 as u64) << 16) | ((((v >> 56) & 0xff) as u8 as u64) << 24)) << 32 == v)
        by (bit_vector);
}

/// A variable-length integer is between one and nine bytes long.
pub proof fn lemma_varint_len(v: u64)
    ensures
        1 <= varint(v).len() <= 9,
        v <= 250 ==> varint(v).len() == 1,
        v <= 0xffff ==> varint(v).len() <= 3,
{
}

/// Reading a variable-length integer where one was written gives back the
/// value and ends where the written bytes end.
pub proof fn lemma_parse_varint(s: Seq<u8>, at: int, v: u64)
    requires
        holds_at(s, at, varint(v)),
    ensures
        parse_varint(s, at) == Some((v, at + varint(v).len())),
{
    let part = varint(v);
    assert forall|i: int| 0 <= i < part.len() implies s[at + i] == part[i] by {
        lemma_holds_at_index(s, at, part, i);
    }
    assert(s[at] == part[0]);
    if v <= 250 {
    } else if v <= 0xffff {
        assert(s[at + 1] == part[1] && s[at + 2] == part[2]);
        lemma_le2(v);
    } else if v <= 0xffff_ffff {
        assert(s[at + 1] == part[1] && s[at + 2] == part[2] && s[at + 3] == part[3] && s[at + 4]
            == part[4]);
        lemma_le4(v);
    } else {
        assert(s[at + 1] == part[1] && s[at + 2] == part[2] && s[at + 3] == part[3] && s[at + 4]
            == part[4]);
        assert(s[at + 5] == part[5] && s[at + 6] == part[6] && s[at + 7] == part[7] && s[at + 8]
            == part[8]);
        lemma_le8(v);
    }
}

/// Folding and unfolding a sixteen-bit signed integer gives it back.
pub proof fn lemma_zigzag(x: int)
    requires
        -32768 <= x <= 32767,
    ensures
        0 <= zigzag(x) <= 0xffff,
        unzigzag(zigzag(x)) == x,
{
}

pub proof fn lemma_parse_timestamp(s: Seq<u8>, at: int, t: Timestamp)
    requires
        holds_at(s, at, timestamp_bytes(t)),
    ensures
        parse_timestamp(s, at) == Some((t, at + timestamp_bytes(t).len())),
        1 <= timestamp_bytes(t).len() <= 3,
{
    lemma_zigzag(t@);
    lemma_parse_varint(s, at, zigzag(t@) as u64);
    lemma_varint_len(zigzag(t@) as u64);
}

pub proof fn lemma_parse_color(s: Seq<u8>, at: int, c: PlayerColor)
    requires
        holds_at(s, at, color_bytes(c)),
    ensures
        parse_color(s, at) == Some((c, at + 1)),
        color_bytes(c).len() == 1,
{
    lemma_parse_varint(s, at, color_number(c));
}

pub proof fn lemma_parse_motion(s: Seq<u8>, at: int, m: Option<Sign>)
    requires
        holds_at(s, at, motion_bytes(m)),
    ensures
        parse_motion(s, at) == Some((m, at + motion_bytes(m).len())),
        1 <= motion_bytes(m).len() <= 2,
{
    lemma_holds_at_index(s, at, motion_bytes(m), 0);
    match m {
        None => {},
        Some(sign) => {
            lemma_holds_at_split(s, at, seq![1u8], varint(sign.index() as u64));
            lemma_parse_varint(s, at + 1, sign.index() as u64);
        },
    }
}

pub proof fn lemma_parse_pos(s: Seq<u8>, at: int, p: Pos)
    requires
        holds_at(s, at, pos_bytes(p)),
    ensures
        parse_pos(s, at) == Some((p, at + pos_bytes(p).len())),
        2 <= pos_bytes(p).len() <= 6,
{
    let x = timestamp_bytes(p.at(Dim::X));
    lemma_holds_at_split(s, at, x, timestamp_bytes(p.at(Dim::Y)));
    lemma_parse_timestamp(s, at, p.at(Dim::X));
    lemma_parse_timestamp(s, at + x.len(), p.at(Dim::Y));
    DimMap::lemma_ext(DimMap::xy(p.at(Dim::X), p.at(Dim::Y)), p);
}

pub proof fn lemma_parse_vel(s: Seq<u8>, at: int, v: Vel)
    requires
        holds_at(s, at, vel_bytes(v)),
    ensures
        parse_vel(s, at) == Some((v, at + vel_bytes(v).len())),
        2 <= vel_bytes(v).len() <= 4,
{
    let x = motion_bytes(v.at(Dim::X));
    lemma_holds_at_split(s, at, x, motion_bytes(v.at(Dim::Y)));
    lemma_parse_motion(s, at, v.at(Dim::X));
    lemma_parse_motion(s, at + x.len(), v.at(Dim::Y));
    DimMap::lemma_ext(DimMap::xy(v.at(Dim::X), v.at(Dim::Y)), v);
}

pub proof fn lemma_parse_player(s: Seq<u8>, at: int, p: Player)
    requires
        holds_at(s, at, player_bytes(p)),
    ensures
        parse_player(s, at) == Some((p, at + player_bytes(p).len())),
        4 <= player_bytes(p).len() <= 10,
{
    reveal(player_bytes);
    reveal(parse_player);
    let pos = pos_bytes(p.pos);
    lemma_holds_at_split(s, at, pos, vel_bytes(p.vel));
    lemma_parse_pos(s, at, p.pos);
    lemma_parse_vel(s, at + pos.len(), p.vel);
}

pub proof fn lemma_parse_entities(s: Seq<u8>, at: int, e: Entities)
    requires
        holds_at(s, at, entities_bytes(e)),
    ensures
        parse_entities(s, at) == Some((e, at + entities_bytes(e).len())),
        16 <= entities_bytes(e).len() <= 42,
{
    reveal(entities_bytes);
    reveal(parse_entities);
    let b0 = player_bytes(e.players[0]);
    let b1 = player_bytes(e.players[1]);
    let b2 = player_bytes(e.players[2]);
    let b3 = pos_bytes(e.teleporters[0]);
    let b4 = pos_bytes(e.teleporters[1]);
    lemma_holds_at_split(s, at, b0 + b1 + b2 + b3, b4);
    lemma_holds_at_split(s, at, b0 + b1 + b2, b3);
    lemma_holds_at_split(s, at, b0 + b1, b2);
    lemma_holds_at_split(s, at, b0, b1);
    lemma_parse_player(s, at, e.players[0]);
    lemma_parse_player(s, at + b0.len(), e.players[1]);
    lemma_parse_player(s, at + b0.len() + b1.len(), e.players[2]);
    lemma_parse_pos(s, at + b0.len() + b1.len() + b2.len(), e.teleporters[0]);
    lemma_parse_pos(s, at + b0.len() + b1.len() + b2.len() + b3.len(), e.teleporters[1]);
    let players = [e.players[0], e.players[1], e.players[2]];
    let teleporters = [e.teleporters[0], e.teleporters[1]];
    assert(players =~= e.players);
    assert(teleporters =~= e.teleporters);
}

pub proof fn lemma_parse_timely(s: Seq<u8>, at: int, t: TimelyGameData)
    requires
        holds_at(s, at, timely_bytes(t)),
    ensures
        parse_timely(s, at) == Some((t, at + timely_bytes(t).len())),
        17 <= timely_bytes(t).len() <= 45,
{
    reveal(timely_bytes);
    reveal(parse_timely);
    let e = entities_bytes(t.entities);
    lemma_holds_at_split(s, at, e, timestamp_bytes(t.timestamp));
    lemma_parse_entities(s, at, t.entities);
    lemma_parse_timestamp(s, at + e.len(), t.timestamp);
}

proof fn lemma_parse_cts_hello(s: Seq<u8>, at: int, preferred_color: PlayerColor)
    requires
        holds_at(s, at, varint(0) + color_bytes(preferred_color)),
    ensures
        parse_varint(s, at) == Some((0u64, at + 1)),
        parse_color(s, at + 1) == Some((preferred_color, at + 2)),
        (varint(0) + color_bytes(preferred_color)).len() == 2,
        parse_msg(s, at) == Some((Msg::CtsHello { preferred_color }, at + 2)),
{
    lemma_holds_at_split(s, at, varint(0), color_bytes(preferred_color));
    lemma_parse_varint(s, at, 0);
    lemma_parse_color(s, at + 1, preferred_color);
}

proof fn lemma_parse_stc_hello(
    s: Seq<u8>,
    at: int,
    timely: TimelyGameData,
    your_color: PlayerColor,
    room_seed: u64,
)
    requires
        holds_at(
            s,
            at,
            varint(1) + timely_bytes(timely) + color_bytes(your_color) + varint(room_seed),
        ),
    ensures
        parse_varint(s, at) == Some((1u64, at + 1)),
        parse_timely(s, at + 1) == Some((timely, at + 1 + timely_bytes(timely).len())),
        parse_color(s, at + 1 + timely_bytes(timely).len()) == Some(
            (your_color, at + 2 + timely_bytes(timely).len()),
        ),
        parse_varint(s, at + 2 + timely_bytes(timely).len()) == Some(
            (room_seed, at + 2 + timely_bytes(timely).len() + varint(room_seed).len()),
        ),
        (varint(1) + timely_bytes(timely) + color_bytes(your_color) + varint(room_seed)).len() == 2
            + timely_bytes(timely).len() + varint(room_seed).len(),
        timely_bytes(timely).len() <= 45,
        varint(room_seed).len() <= 9,
        parse_msg(s, at) == Some(
            (
                Msg::StcHello { timely, your_color, room_seed },
                at + 2 + timely_bytes(timely).len() + varint(room_seed).len(),
            ),
        ),
{
    let t = timely_bytes(timely);
    let c = color_bytes(your_color);
    lemma_holds_at_split(s, at, varint(1) + t + c, varint(room_seed));
    lemma_holds_at_split(s, at, varint(1) + t, c);
    lemma_holds_at_split(s, at, varint(1), t);
    lemma_parse_varint(s, at, 1);
    lemma_parse_timely(s, at + 1, timely);
    lemma_parse_color(s, at + 1 + t.len(), your_color);
    lemma_parse_varint(s, at + 1 + t.len() + 1, room_seed);
    lemma_varint_len(room_seed);
}

proof fn lemma_parse_cts_update(s: Seq<u8>, at: int, player: Player, timestamp: Timestamp)
    requires
        holds_at(s, at, varint(2) + player_bytes(player) + timestamp_bytes(timestamp)),
    ensures
        parse_varint(s, at) == Some((2u64, at + 1)),
        parse_player(s, at + 1) == Some((player, at + 1 + player_bytes(player).len())),
        parse_timestamp(s, at + 1 + player_bytes(player).len()) == Some(
            (timestamp, at + 1 + player_bytes(player).len() + timestamp_bytes(timestamp).len()),
        ),
        (varint(2) + player_bytes(player) + timestamp_bytes(timestamp)).len() == 1 + player_bytes(
            player,
        ).len() + timestamp_bytes(timestamp).len(),
        player_bytes(player).len() <= 10,
        timestamp_bytes(timestamp).len() <= 3,
        parse_msg(s, at) == Some(
            (
                Msg::CtsUpdate { player, timestamp },
                at + 1 + player_bytes(player).len() + timestamp_bytes(timestamp).len(),
            ),
        ),
{
    let p = player_bytes(player);
    lemma_holds_at_split(s, at, varint(2) + p, timestamp_bytes(timestamp));
    lemma_holds_at_split(s, at, varint(2), p);
    lemma_parse_varint(s, at, 2);
    lemma_parse_player(s, at + 1, player);
    lemma_parse_timestamp(s, at + 1 + p.len(), timestamp);
}

proof fn lemma_parse_stc_update(s: Seq<u8>, at: int, timely: TimelyGameData)
    requires
        holds_at(s, at, varint(3) + timely_bytes(timely)),
    ensures
        parse_varint(s, at) == Some((3u64, at + 1)),
        parse_timely(s, at + 1) == Some((timely, at + 1 + timely_bytes(timely).len())),
        (varint(3) + timely_bytes(timely)).len() == 1 + timely_bytes(timely).len(),
        timely_bytes(timely).len() <= 45,
        parse_msg(s, at) == Some((Msg::StcUpdate { timely }, at + 1 + timely_bytes(timely).len())),
{
    lemma_holds_at_split(s, at, varint(3), timely_bytes(timely));
    lemma_parse_varint(s, at, 3);
    lemma_parse_timely(s, at + 1, timely);
}

/// Reading a message where one was written gives back the message and ends
/// where the written bytes end.
pub proof fn lemma_parse_msg(s: Seq<u8>, at: int, m: Msg)
    requires
        holds_at(s, at, encoded(m)),
    ensures
        parse_msg(s, at) == Some((m, at + encoded(m).len())),
        encoded(m).len() <= MAX_ENCODED_LEN,
{
    match m {
        Msg::CtsHello { preferred_color } => {
            lemma_parse_cts_hello(s, at, preferred_color);
        },
        Msg::StcHello { timely, your_color, room_seed } => {
            lemma_parse_stc_hello(s, at, timely, your_color, room_seed);
        },
        Msg::CtsUpdate { player, timestamp } => {
            lemma_parse_cts_update(s, at, player, timestamp);
        },
        Msg::StcUpdate { timely } => {
            lemma_parse_stc_update(s, at, timely);
        },
    }
}

/// Every message survives the wire: decoding what encoding wrote gives the
/// message back.
pub proof fn lemma_round_trip(m: Msg)
    ensures
        decoded(encoded(m)) == Some(m),
        encoded(m).len() <= MAX_ENCODED_LEN,
{
    let s = encoded(m);
    assert(s.subrange(0, s.len() as int) =~= s);
    lemma_parse_msg(s, 0, m);
}

fn put_byte_of(buf: &mut Vec<u8>, v: u64, shift: u64)
    requires
        shift < 64,
    ensures
        final(buf)@ == old(buf)@.push(byte_of(v, shift)),
{
    assert((v >> shift) & 0xff <= 0xff) by (bit_vector);
    buf.push(((v >> shift) & 0xff) as u8);
}

fn put_varint(buf: &mut Vec<u8>, v: u64)
    ensures
        final(buf)@ == old(buf)@ + varint(v),
{
    if v <= 250 {
        buf.push(v as u8);
    } else if v <= 0xffff {
        buf.push(251);
        put_byte_of(buf, v, 0);
        put_byte_of(buf, v, 8);
    } else if v <= 0xffff_ffff {
        buf.push(252);
        put_byte_of(buf, v, 0);
        put_byte_of(buf, v, 8);
        put_byte_of(buf, v, 16);
        put_byte_of(buf, v, 24);
    } else {
        buf.push(253);
        put_byte_of(buf, v, 0);
        put_byte_of(buf, v, 8);
        put_byte_of(buf, v, 16);
        put_byte_of(buf, v, 24);
        put_byte_of(buf, v, 32);
        put_byte_of(buf, v, 40);
        put_byte_of(buf, v, 48);
        put_byte_of(buf, v, 56);
    }
    assert(buf@ =~= old(buf)@ + varint(v));
}

fn put_timestamp(buf: &mut Vec<u8>, t: Timestamp)
    ensures
        final(buf)@ == old(buf)@ + timestamp_bytes(t),
{
    let x: i32 = t.0 as i32;
    let folded: u64 = if x < 0 {
        (0 - x - x - 1) as u64
    } else {
        (x + x) as u64
    };
    put_varint(buf, folded);
}

fn put_color(buf: &mut Vec<u8>, c: PlayerColor)
    ensures
        final(buf)@ == old(buf)@ + color_bytes(c),
{
    put_varint(buf, c.to_index() as u64);
}

fn put_motion(buf: &mut Vec<u8>, m: Option<Sign>)
    ensures
        final(buf)@ == old(buf)@ + motion_bytes(m),
{
    match m {
        None => buf.push(0),
        Some(sign) => {
            buf.push(1);
            put_varint(buf, sign.map_index() as u64);
        },
    }
    assert(buf@ =~= old(buf)@ + motion_bytes(m));
}

fn put_pos(buf: &mut Vec<u8>, p: &Pos)
    ensures
        final(buf)@ == old(buf)@ + pos_bytes(*p),
{
    put_timestamp(buf, p.arr[0]);
    put_timestamp(buf, p.arr[1]);
    assert(buf@ =~= old(buf)@ + pos_bytes(*p));
}

fn put_vel(buf: &mut Vec<u8>, v: &Vel)
    ensures
        final(buf)@ == old(buf)@ + vel_bytes(*v),
{
    put_motion(buf, v.arr[0]);
    put_motion(buf, v.arr[1]);
    assert(buf@ =~= old(buf)@ + vel_bytes(*v));
}

fn put_player(buf: &mut Vec<u8>, p: &Player)
    ensures
        final(buf)@ == old(buf)@ + player_bytes(*p),
{
    reveal(player_bytes);
    put_pos(buf, &p.pos);
    put_vel(buf, &p.vel);
    assert(buf@ =~= old(buf)@ + player_bytes(*p));
}

fn put_entities(buf: &mut Vec<u8>, e: &Entities)
    ensures
        final(buf)@ == old(buf)@ + entities_bytes(*e),
{
    reveal(entities_bytes);
    put_player(buf, &e.players[0]);
    put_player(buf, &e.players[1]);
    put_player(buf, &e.players[2]);
    put_pos(buf, &e.teleporters[0]);
    put_pos(buf, &e.teleporters[1]);
    assert(buf@ =~= old(buf)@ + entities_bytes(*e));
}

fn put_timely(buf: &mut Vec<u8>, t: &TimelyGameData)
    ensures
        final(buf)@ == old(buf)@ + timely_bytes(*t),
{
    reveal(timely_bytes);
    put_entities(buf, &t.entities);
    put_timestamp(buf, t.timestamp);
    assert(buf@ =~= old(buf)@ + timely_bytes(*t));
}

fn take_varint(bytes: &[u8], at: usize) -> (r: Option<(u64, usize)>)
    ensures
        match r {
            Some((v, next)) => parse_varint(bytes@, at as int) == Some((v, next as int)),
            None => parse_varint(bytes@, at as int).is_none(),
        },
{
    if at >= bytes.len() {
        return None;
    }
    let room = bytes.len() - at;
    let b = bytes[at];
    if b <= 250 {
        Some((b as u64, at + 1))
    } else if b == 251 {
        if room < 3 {
            return None;
        }
        let v = (bytes[at + 1] as u64) | ((bytes[at + 2] as u64) << 8);
        Some((v, at + 3))
    } else if b == 252 {
        if room < 5 {
            return None;
        }
        let v = (bytes[at + 1] as u64) | ((bytes[at + 2] as u64) << 8) | ((bytes[at + 3] as u64)
            << 16) | ((bytes[at + 4] as u64) << 24);
        Some((v, at + 5))
    } else if b == 253 {
        if room < 9 {
            return None;
        }
        let lo = (bytes[at + 1] as u64) | ((bytes[at + 2] as u64) << 8) | ((bytes[at + 3] as u64)
            << 16) | ((bytes[at + 4] as u64) << 24);
        let hi = (bytes[at + 5] as u64) | ((bytes[at + 6] as u64) << 8) | ((bytes[at + 7] as u64)
            << 16) | ((bytes[at + 8] as u64) << 24);
        Some((lo | (hi << 32), at + 9))
    } else {
        None
    }
}

fn take_timestamp(bytes: &[u8], at: usize) -> (r: Option<(Timestamp, usize)>)
    ensures
        match r {
            Some((t, next)) => parse_timestamp(bytes@, at as int) == Some((t, next as int)),
            None => parse_timestamp(bytes@, at as int).is_none(),
        },
{
    match take_varint(bytes, at) {
        Some((n, next)) => {
            if n > 0xffff {
                return None;
            }
            let half: i32 = (n / 2) as i32;
            let x: i16 = if n % 2 == 0 {
                half as i16
            } else {
                (-half - 1) as i16
            };
            Some((WrapInt(x), next))
        },
        None => None,
    }
}

fn take_color(bytes: &[u8], at: usize) -> (r: Option<(PlayerColor, usize)>)
    ensures
        match r {
            Some((c, next)) => parse_color(bytes@, at as int) == Some((c, next as int)),
            None => parse_color(bytes@, at as int).is_none(),
        },
{
    match take_varint(bytes, at) {
        Some((n, next)) => {
            if n == 0 {
                Some((PlayerColor::Black, next))
            } else if n == 1 {
                Some((PlayerColor::Blue, next))
            } else if n == 2 {
                Some((PlayerColor::Orange, next))
            } else {
                None
            }
        },
        None => None,
    }
}

fn take_motion(bytes: &[u8], at: usize) -> (r: Option<(Option<Sign>, usize)>)
    ensures
        match r {
            Some((m, next)) => parse_motion(bytes@, at as int) == Some((m, next as int)),
            None => parse_motion(bytes@, at as int).is_none(),
        },
{
    if at >= bytes.len() {
        return None;
    }
    let b = bytes[at];
    if b == 0 {
        Some((None, at + 1))
    } else if b == 1 {
        match take_varint(bytes, at + 1) {
            Some((n, next)) => {
                if n == 0 {
                    Some((Some(Sign::Positive), next))
                } else if n == 1 {
                    Some((Some(Sign::Negative), next))
                } else {
                    None
                }
            },
            None => None,
        }
    } else {
        None
    }
}

fn take_pos(bytes: &[u8], at: usize) -> (r: Option<(Pos, usize)>)
    ensures
        match r {
            Some((p, next)) => parse_pos(bytes@, at as int) == Some((p, next as int)),
            None => parse_pos(bytes@, at as int).is_none(),
        },
{
    match take_timestamp(bytes, at) {
        Some((x, mid)) => match take_timestamp(bytes, mid) {
            Some((y, next)) => Some((DimMap::new_xy(x, y), next)),
            None => None,
        },
        None => None,
    }
}

fn take_vel(bytes: &[u8], at: usize) -> (r: Option<(Vel, usize)>)
    ensures
        match r {
            Some((v, next)) => parse_vel(bytes@, at as int) == Some((v, next as int)),
            None => parse_vel(bytes@, at as int).is_none(),
        },
{
    match take_motion(bytes, at) {
        Some((x, mid)) => match take_motion(bytes, mid) {
            Some((y, next)) => Some((DimMap::new_xy(x, y), next)),
            None => None,
        },
        None => None,
    }
}

fn take_player(bytes: &[u8], at: usize) -> (r: Option<(Player, usize)>)
    ensures
        match r {
            Some((p, next)) => parse_player(bytes@, at as int) == Some((p, next as int)),
            None => parse_player(bytes@, at as int).is_none(),
        },
{
    reveal(parse_player);
    match take_pos(bytes, at) {
        Some((pos, mid)) => match take_vel(bytes, mid) {
            Some((vel, next)) => Some((Player { pos, vel }, next)),
            None => None,
        },
        None => None,
    }
}

fn take_entities(bytes: &[u8], at: usize) -> (r: Option<(Entities, usize)>)
    ensures
        match r {
            Some((e, next)) => parse_entities(bytes@, at as int) == Some((e, next as int)),
            None => parse_entities(bytes@, at as int).is_none(),
        },
{
    reveal(parse_entities);
    let (black, at_blue) = match take_player(bytes, at) {
        Some(found) => found,
        None => return None,
    };
    let (blue, at_orange) = match take_player(bytes, at_blue) {
        Some(found) => found,
        None => return None,
    };
    let (orange, at_first) = match take_player(bytes, at_orange) {
        Some(found) => found,
        None => return None,
    };
    let (first, at_second) = match take_pos(bytes, at_first) {
        Some(found) => found,
        None => return None,
    };
    let (second, next) = match take_pos(bytes, at_second) {
        Some(found) => found,
        None => return None,
    };
    Some((Entities { players: [black, blue, orange], teleporters: [first, second] }, next))
}

fn take_timely(bytes: &[u8], at: usize) -> (r: Option<(TimelyGameData, usize)>)
    ensures
        match r {
            Some((t, next)) => parse_timely(bytes@, at as int) == Some((t, next as int)),
            None => parse_timely(bytes@, at as int).is_none(),
        },
{
    reveal(parse_timely);
    match take_entities(bytes, at) {
        Some((entities, mid)) => match take_timestamp(bytes, mid) {
            Some((timestamp, next)) => Some((TimelyGameData { entities, timestamp }, next)),
            None => None,
        },
        None => None,
    }
}

fn take_msg(bytes: &[u8], at: usize) -> (r: Option<(Msg, usize)>)
    ensures
        match r {
            Some((m, next)) => parse_msg(bytes@, at as int) == Some((m, next as int)),
            None => parse_msg(bytes@, at as int).is_none(),
        },
{
    let (kind, after_kind) = match take_varint(bytes, at) {
        Some(found) => found,
        None => return None,
    };
    if kind == 0 {
        match take_color(bytes, after_kind) {
            Some((preferred_color, next)) => Some((Msg::CtsHello { preferred_color }, next)),
            None => None,
        }
    } else if kind == 1 {
        let (timely, after_body) = match take_timely(bytes, after_kind) {
            Some(found) => found,
            None => return None,
        };
        let (your_color, after_color) = match take_color(bytes, after_body) {
            Some(found) => found,
            None => return None,
        };
        match take_varint(bytes, after_color) {
            Some((room_seed, next)) => Some((Msg::StcHello { timely, your_color, room_seed }, next)),
            None => None,
        }
    } else if kind == 2 {
        let (player, after_body) = match take_player(bytes, after_kind) {
            Some(found) => found,
            None => return None,
        };
        match take_timestamp(bytes, after_body) {
            Some((timestamp, next)) => Some((Msg::CtsUpdate { player, timestamp }, next)),
            None => None,
        }
    } else if kind == 3 {
        match take_timely(bytes, after_kind) {
            Some((timely, next)) => Some((Msg::StcUpdate { timely }, next)),
            None => None,
        }
    } else {
        None
    }
}

impl Msg {
    /// The message as the bytes of one datagram. Decoding them gives the
    /// message back, and they are never more than [`MAX_ENCODED_LEN`].
    pub fn encode(&self) -> (r: Vec<u8>)
        ensures
            r@ == encoded(*self),
            r@.len() <= MAX_ENCODED_LEN,
            decoded(r@) == Some(*self),
    {
        let mut buf: Vec<u8> = Vec::new();
        match self {
            Msg::CtsHello { preferred_color } => {
                put_varint(&mut buf, 0);
                put_color(&mut buf, *preferred_color);
            },
            Msg::StcHello { timely, your_color, room_seed } => {
                put_varint(&mut buf, 1);
                put_timely(&mut buf, timely);
                put_color(&mut buf, *your_color);
                put_varint(&mut buf, *room_seed);
            },
            Msg::CtsUpdate { player, timestamp } => {
                put_varint(&mut buf, 2);
                put_player(&mut buf, player);
                put_timestamp(&mut buf, *timestamp);
            },
            Msg::StcUpdate { timely } => {
                put_varint(&mut buf, 3);
                put_timely(&mut buf, timely);
            },
        }
        proof {
            assert(buf@ =~= encoded(*self));
            lemma_round_trip(*self);
        }
        buf
    }

    /// The message that the datagram `bytes` holds, if it holds one and
    /// nothing else.
    pub fn decode(bytes: &[u8]) -> (r: Option<Msg>)
        ensures
            r == decoded(bytes@),
    {
        match take_msg(bytes, 0) {
            Some((m, end)) => if end == bytes.len() {
                Some(m)
            } else {
                None
            },
            None => None,
        }
    }
}

} // verus!
