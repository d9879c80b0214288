//! How a role is set up.
use crate::axes::Direction;
use crate::game::net::Addr;
use crate::game::state::KeyAction;
use crate::game::PlayerColor;
use vstd::prelude::*;

verus! {

/// The keys that steer, each by the code under which the windowing system
/// reports it.
#[derive(Debug, Copy, Clone, PartialEq, Eq, Structural)]
pub struct InputConfig {
    pub exit: u32,
    pub up: u32,
    pub down: u32,
    pub left: u32,
    pub right: u32,
}

impl InputConfig {
    /// What the key with the code `key` does: the first of ending the game
    /// and steering up, down, left or right to which the key is bound.
    pub open spec fn bound_to(self, key: u32) -> KeyAction {
        if key == self.exit {
            KeyAction::Halt
        } else if key == self.up {
            KeyAction::Steer(Direction::Up)
        } else if key == self.down {
            KeyAction::Steer(Direction::Down)
        } else if key == self.left {
            KeyAction::Steer(Direction::Left)
        } else if key == self.right {
            KeyAction::Steer(Direction::Right)
        } else {
            KeyAction::Ignore
        }
    }
}

/// Everything that is set up before a game starts.
#[derive(Debug, Clone, PartialEq, Eq)]
pub struct Config {
    /// Whether to host a game or to join one.
    pub server_mode: bool,
    pub if_client: IfClient,
    pub if_server: IfServer,
    pub input: InputConfig,
}

/// What a client needs to know to join a game.
#[derive(Debug, Clone, PartialEq, Eq)]
pub struct IfClient {
    pub server_addr: Addr,
    pub preferred_color: PlayerColor,
}

/// What a server needs to know to host a game.
#[derive(Debug, Clone, PartialEq, Eq)]
pub struct IfServer {
    pub server_addr: Addr,
    pub player_color: PlayerColor,
    /// The seed of the room; a random one is drawn where none is given.
    pub room_seed: Option<u64>,
    /// The colors that play by themselves until a peer takes them over.
    pub ai_enabled: Vec<PlayerColor>,
}

/// The code of the key `W`.
pub const KEY_W: u32 = 32;

/// The code of the key `A`.
pub const KEY_A: u32 = 10;

/// The code of the key `S`.
pub const KEY_S: u32 = 28;

/// The code of the key `D`.
pub const KEY_D: u32 = 13;

/// The code of the escape key.
pub const KEY_ESCAPE: u32 = 36;

impl Default for Config {
    /// Hosts a game on port 8000 of this machine, plays black, lets every
    /// other color play by itself, and steers with W, A, S and D.
    fn default() -> (r: Config)
        ensures
            r.server_mode,
            r.if_client == (IfClient {
                server_addr: Addr::V4 { ip: 0x7f00_0001, port: 8000 },
                preferred_color: PlayerColor::Black,
            }),
            r.if_server.server_addr == (Addr::V4 { ip: 0x7f00_0001, port: 8000 }),
            r.if_server.player_color == PlayerColor::Black,
            r.if_server.room_seed.is_none(),
            r.if_server.ai_enabled@ == seq![
                PlayerColor::Black,
                PlayerColor::Blue,
                PlayerColor::Orange,
            ],
            r.input == (InputConfig {
                exit: KEY_ESCAPE,
                up: KEY_W,
                down: KEY_S,
                left: KEY_A,
                right: KEY_D,
            }),
    {
        let server_addr = Addr::V4 { ip: 0x7f00_0001, port: 8000 };
        let mut ai_enabled: Vec<PlayerColor> = Vec::new();
        ai_enabled.push(PlayerColor::Black);
        ai_enabled.push(PlayerColor::Blue);
        ai_enabled.push(PlayerColor::Orange);
        assert(ai_enabled@ =~= seq![PlayerColor::Black, PlayerColor::Blue, PlayerColor::Orange]);
        Config {
            server_mode: true,
            if_client: IfClient { preferred_color: PlayerColor::Black, server_addr },
            if_server: IfServer {
                room_seed: None,
                player_color: PlayerColor::Black,
                server_addr,
                ai_enabled,
            },
            input: InputConfig {
                up: KEY_W,
                down: KEY_S,
                left: KEY_A,
                right: KEY_D,
                exit: KEY_ESCAPE,
            },
        }
    }
}

} // verus!
