//! The two roles of the synchronisation protocol as state machines.
//!
//! Neither role touches a socket. Whoever drives a role receives datagrams,
//! decodes them, hands each message to `update` as an event, and carries out
//! the action that comes back. The server is the authority on every player
//! but the ones its peers steer; a client is the authority on its own
//! velocity only.
use crate::axes::{Dim, DimMap};
use crate::game::config::IfServer;
use crate::game::room::Room;
use crate::game::{Entities, Player, PlayerArr, PlayerColor, Pos, Size, World};
use crate::rng::CachedRng;
use crate::wrap_int::WrapInt;
use vstd::prelude::*;

verus! {

/// A logical clock. Of two timestamps less than half the ring apart, the one
/// that `precedes` the other is the older.
pub type Timestamp = WrapInt;

/// Where a datagram came from, or goes to.
#[derive(Debug, Copy, Clone, PartialEq, Eq, Hash, Structural)]
pub enum Addr {
    V4 { ip: u32, port: u16 },
    V6 { ip: u128, port: u16, flowinfo: u32, scope_id: u32 },
}

/// A snapshot of the world together with the time at which the server took it.
#[derive(Debug, Copy, Clone, PartialEq, Eq)]
pub struct TimelyGameData {
    pub entities: Entities,
    pub timestamp: Timestamp,
}

/// The messages of the protocol. `Cts` messages travel from a client to the
/// server, `Stc` messages from the server to a client.
#[derive(Debug, Copy, Clone, PartialEq, Eq)]
pub enum Msg {
    CtsHello { preferred_color: PlayerColor },
    StcHello { timely: TimelyGameData, your_color: PlayerColor, room_seed: u64 },
    CtsUpdate { player: Player, timestamp: Timestamp },
    StcUpdate { timely: TimelyGameData },
}

/// What the server remembers of one admitted peer.
#[derive(Debug, Copy, Clone, PartialEq, Eq)]
pub struct ServerClient {
    pub addr: Addr,
    pub last_client_timestamp: Timestamp,
}

#[derive(Debug, Clone, PartialEq, Eq)]
pub struct Server {
    clients: PlayerArr<Option<ServerClient>>,
    room_seed: u64,
    my_timestamp: Timestamp,
}

#[derive(Debug, Clone, PartialEq, Eq)]
pub struct Client {
    last_server_timestamp: Timestamp,
    my_timestamp: Timestamp,
}

/// What happened on the server's socket.
#[derive(Debug, Copy, Clone, PartialEq, Eq)]
pub enum ServerEvent {
    /// A datagram arrived from `sender` and decoded to `msg`.
    Received { msg: Msg, sender: Addr },
    /// Nothing more is pending in this tick.
    Drained,
}

/// What the server's driver has to do next.
#[derive(Debug, Clone, PartialEq, Eq)]
pub enum ServerAction {
    /// Nothing; go on receiving.
    Idle,
    /// `to` plays `color`. Where `fresh` holds the peer was admitted just
    /// now, and the rest of the system gets to prepare the player of that
    /// color. Then the message that `Server::hello` builds goes to `to`, and
    /// receiving goes on.
    Greet { to: Addr, color: PlayerColor, fresh: bool },
    /// The tick is over: `msg` goes to each address in `to`.
    Broadcast { msg: Msg, to: Vec<Addr> },
}

/// A [`ServerAction`] as a plain value.
pub enum ServerDirective {
    Idle,
    Greet { to: Addr, color: PlayerColor, fresh: bool },
    Broadcast { msg: Msg, to: Seq<Addr> },
}

impl View for ServerAction {
    type V = ServerDirective;

    open spec fn view(&self) -> ServerDirective {
        match *self {
            ServerAction::Idle => ServerDirective::Idle,
            ServerAction::Greet { to, color, fresh } => ServerDirective::Greet { to, color, fresh },
            ServerAction::Broadcast { msg, to } => ServerDirective::Broadcast { msg, to: to@ },
        }
    }
}

/// What happened on a client's socket.
#[derive(Debug, Copy, Clone, PartialEq, Eq)]
pub enum ClientEvent {
    /// A datagram arrived and decoded to `msg`.
    Received { msg: Msg },
    /// Nothing usable is pending in this tick.
    Drained,
}

/// What a client's driver has to do next.
#[derive(Debug, Copy, Clone, PartialEq, Eq)]
pub enum ClientAction {
    /// Go on receiving.
    KeepReceiving,
    /// The tick is over: `msg` goes to the server.
    Report { msg: Msg },
}

/// The farthest along each axis that a player may seem to have moved between
/// two updates without the move counting as a jump: twelve ticks' worth.
pub open spec fn accepted_client_move() -> Size {
    DimMap::xy(3072u16, 6144u16)
}

/// Going from `from` to `to` is a small step: the two lie no farther apart
/// than [`accepted_client_move`] on either axis, and nearer on one.
pub open spec fn small_step(from: Pos, to: Pos) -> bool {
    from.minus(to).magnitudes().within(accepted_client_move())
}

/// Whether going from `from` to `to` is a small step.
pub fn is_small_step(from: Pos, to: Pos) -> (r: bool)
    ensures
        r == small_step(from, to),
{
    let bound: Size = crate::game::move_size().scalar_mul(12);
    let diff = from - to;
    diff.distances_from_zero() < bound
}

/// What the server keeps of a player when a peer claims `claimed` for it: the
/// claimed velocity always, the claimed position only if it is a small step
/// away from the stored one.
pub open spec fn server_merged(stored: Player, claimed: Player) -> Player {
    Player {
        pos: if small_step(stored.pos, claimed.pos) {
            claimed.pos
        } else {
            stored.pos
        },
        vel: claimed.vel,
    }
}

/// What a client keeps of its own player when the server reports `reported`
/// for it: its own velocity always, its own position unless the reported one
/// is more than a small step away.
pub open spec fn client_merged(mine: Player, reported: Player) -> Player {
    Player {
        pos: if small_step(mine.pos, reported.pos) {
            mine.pos
        } else {
            reported.pos
        },
        vel: mine.vel,
    }
}

/// What a server knows, as a plain value: whom it remembers for each color,
/// the seed of its room, and its clock.
pub struct ServerState {
    pub black: Option<ServerClient>,
    pub blue: Option<ServerClient>,
    pub orange: Option<ServerClient>,
    pub seed: u64,
    pub clock: Timestamp,
}

impl ServerState {
    /// What the server remembers of the peer that plays `color`, if any does.
    pub open spec fn slot(self, color: PlayerColor) -> Option<ServerClient> {
        match color {
            PlayerColor::Black => self.black,
            PlayerColor::Blue => self.blue,
            PlayerColor::Orange => self.orange,
        }
    }

    /// The state in which `client` plays `color` and all else is as before.
    pub open spec fn with_slot(self, color: PlayerColor, client: ServerClient) -> ServerState {
        match color {
            PlayerColor::Black => ServerState { black: Some(client), ..self },
            PlayerColor::Blue => ServerState { blue: Some(client), ..self },
            PlayerColor::Orange => ServerState { orange: Some(client), ..self },
        }
    }

    /// A server that knows no peer yet, with its clock at zero.
    pub open spec fn fresh(seed: u64) -> ServerState {
        ServerState { black: None, blue: None, orange: None, seed, clock: WrapInt(0) }
    }

    /// The peer that plays `color` sits at `addr`.
    pub open spec fn seats(self, color: PlayerColor, addr: Addr) -> bool {
        self.slot(color) matches Some(c) && c.addr == addr
    }

    /// No address plays two colors.
    pub open spec fn wf(self) -> bool {
        forall|a: PlayerColor, b: PlayerColor|
            self.slot(a).is_some() && self.slot(b).is_some() && a != b ==> self.slot(
                a,
            ).unwrap().addr != self.slot(b).unwrap().addr
    }

    /// The color that `addr` already plays, if it plays one.
    pub open spec fn color_of(self, addr: Addr) -> Option<PlayerColor> {
        if self.seats(PlayerColor::Black, addr) {
            Some(PlayerColor::Black)
        } else if self.seats(PlayerColor::Blue, addr) {
            Some(PlayerColor::Blue)
        } else if self.seats(PlayerColor::Orange, addr) {
            Some(PlayerColor::Orange)
        } else {
            None
        }
    }

    /// A newcomer may take `color`: it is not the server's own and nobody
    /// plays it.
    pub open spec fn vacant(self, my_color: PlayerColor, color: PlayerColor) -> bool {
        color != my_color && self.slot(color).is_none()
    }

    /// The color that a newcomer who prefers `preferred` is given: the
    /// preferred one if it is vacant, else its prey, else its predator.
    pub open spec fn vacancy_for(self, my_color: PlayerColor, preferred: PlayerColor) -> Option<
        PlayerColor,
    > {
        if self.vacant(my_color, preferred) {
            Some(preferred)
        } else if self.vacant(my_color, preferred.hunts()) {
            Some(preferred.hunts())
        } else if self.vacant(my_color, preferred.hunted_by()) {
            Some(preferred.hunted_by())
        } else {
            None
        }
    }

    /// The outcome of a hello from `sender`: the color it plays from now on
    /// and whether it was admitted just now, or nothing if no color is left
    /// for it.
    pub open spec fn admission(
        self,
        my_color: PlayerColor,
        sender: Addr,
        preferred: PlayerColor,
    ) -> Option<(PlayerColor, bool)> {
        match self.color_of(sender) {
            Some(color) => Some((color, false)),
            None => match self.vacancy_for(my_color, preferred) {
                Some(color) => Some((color, true)),
                None => None,
            },
        }
    }

    /// The state after a hello from `sender`: a newcomer who gets a color is
    /// remembered with the server's present time; nothing else changes.
    pub open spec fn enrolled(
        self,
        my_color: PlayerColor,
        sender: Addr,
        preferred: PlayerColor,
    ) -> ServerState {
        match self.admission(my_color, sender, preferred) {
            Some((color, true)) => self.with_slot(
                color,
                ServerClient { addr: sender, last_client_timestamp: self.clock },
            ),
            _ => self,
        }
    }

    /// The color, among those that the server does not play itself, that
    /// `addr` plays.
    pub open spec fn peer_color(self, my_color: PlayerColor, addr: Addr) -> Option<PlayerColor> {
        if self.seats(my_color.hunted_by(), addr) {
            Some(my_color.hunted_by())
        } else if self.seats(my_color.hunts(), addr) {
            Some(my_color.hunts())
        } else {
            None
        }
    }

    /// The color whose player an update from `sender` with the given
    /// timestamp changes: the one that `sender` plays, provided that the
    /// update is newer than the last one accepted from it.
    pub open spec fn accepts(self, my_color: PlayerColor, sender: Addr, timestamp: Timestamp) -> Option<
        PlayerColor,
    > {
        match self.peer_color(my_color, sender) {
            Some(color) => if self.slot(color).unwrap().last_client_timestamp.precedes(
                timestamp,
            ) {
                Some(color)
            } else {
                None
            },
            None => None,
        }
    }

    /// The state after an update from `sender`: if it counts, its timestamp
    /// is remembered as the last one accepted from `sender`.
    pub open spec fn merged(self, my_color: PlayerColor, sender: Addr, timestamp: Timestamp) -> ServerState {
        match self.accepts(my_color, sender, timestamp) {
            Some(color) => self.with_slot(
                color,
                ServerClient { addr: sender, last_client_timestamp: timestamp },
            ),
            None => self,
        }
    }

    /// The world after an update from `sender` that claims `player`: if it
    /// counts, the sender's player is merged as [`server_merged`] says.
    pub open spec fn merged_entities(
        self,
        entities: Entities,
        my_color: PlayerColor,
        sender: Addr,
        player: Player,
        timestamp: Timestamp,
    ) -> Entities {
        match self.accepts(my_color, sender, timestamp) {
            Some(color) => entities.with_player(
                color,
                server_merged(entities.player(color), player),
            ),
            None => entities,
        }
    }

    /// The addresses that a broadcast goes to: that of the server's
    /// predator, then that of its prey, as far as peers play them.
    pub open spec fn recipients(self, my_color: PlayerColor) -> Seq<Addr> {
        let first = match self.slot(my_color.hunted_by()) {
            Some(c) => seq![c.addr],
            None => seq![],
        };
        let second = match self.slot(my_color.hunts()) {
            Some(c) => seq![c.addr],
            None => seq![],
        };
        first + second
    }

    /// The state after a tick has ended: the clock has advanced by one.
    pub open spec fn ticked(self) -> ServerState {
        ServerState { clock: self.clock.plus(WrapInt(1)), ..self }
    }

    /// The message that tells a peer that it plays `color`.
    pub open spec fn hello(self, color: PlayerColor, entities: Entities) -> Msg {
        Msg::StcHello {
            timely: TimelyGameData { entities, timestamp: self.clock },
            your_color: color,
            room_seed: self.seed,
        }
    }

    /// The snapshot that ends a tick.
    pub open spec fn snapshot(self, entities: Entities) -> Msg {
        Msg::StcUpdate { timely: TimelyGameData { entities, timestamp: self.clock } }
    }

    /// What the server's driver is told to do after `event`.
    pub open spec fn action(self, my_color: PlayerColor, entities: Entities, event: ServerEvent) -> ServerDirective {
        match event {
            ServerEvent::Received { msg: Msg::CtsHello { preferred_color }, sender } => {
                match self.admission(my_color, sender, preferred_color) {
                    Some((color, fresh)) => ServerDirective::Greet { to: sender, color, fresh },
                    None => ServerDirective::Idle,
                }
            },
            ServerEvent::Received { .. } => ServerDirective::Idle,
            ServerEvent::Drained => ServerDirective::Broadcast {
                msg: self.snapshot(entities),
                to: self.recipients(my_color),
            },
        }
    }

    /// The state after `event`.
    pub open spec fn stepped(self, my_color: PlayerColor, event: ServerEvent) -> ServerState {
        match event {
            ServerEvent::Received { msg: Msg::CtsHello { preferred_color }, sender } => {
                self.enrolled(my_color, sender, preferred_color)
            },
            ServerEvent::Received { msg: Msg::CtsUpdate { player, timestamp }, sender } => {
                self.merged(my_color, sender, timestamp)
            },
            ServerEvent::Received { .. } => self,
            ServerEvent::Drained => self.ticked(),
        }
    }

    /// The world after `event`.
    pub open spec fn stepped_entities(
        self,
        entities: Entities,
        my_color: PlayerColor,
        event: ServerEvent,
    ) -> Entities {
        match event {
            ServerEvent::Received { msg: Msg::CtsUpdate { player, timestamp }, sender } => {
                self.merged_entities(entities, my_color, sender, player, timestamp)
            },
            _ => entities,
        }
    }
}

impl View for Server {
    type V = ServerState;

    closed spec fn view(&self) -> ServerState {
        ServerState {
            black: self.clients[0],
            blue: self.clients[1],
            orange: self.clients[2],
            seed: self.room_seed,
            clock: self.my_timestamp,
        }
    }
}

impl Server {
    /// No address plays two colors.
    pub open spec fn wf(&self) -> bool {
        self@.wf()
    }

    /// A server that knows no peer yet, with its clock at zero.
    pub fn with_seed(room_seed: u64) -> (r: Server)
        ensures
            r.wf(),
            r@ == ServerState::fresh(room_seed),
    {
        Server { clients: [None, None, None], room_seed, my_timestamp: WrapInt(0) }
    }

    /// A server for the game that `config` describes, the world that it
    /// hosts, and the color that it plays itself. The room comes from the
    /// seed that `config` gives, or from a random one where it gives none.
    pub fn new(config: &IfServer) -> (r: (Server, World, PlayerColor))
        ensures
            r.0.wf(),
            r.0@.black.is_none() && r.0@.blue.is_none() && r.0@.orange.is_none(),
            r.0@.clock == WrapInt::zero(),
            config.room_seed.is_some() ==> r.0@.seed == config.room_seed.unwrap(),
            r.1.room.connected(),
            97 <= r.1.room.walls(Dim::X).len() + r.1.room.walls(Dim::Y).len() <= 129,
            r.1.entities.spread_out(),
            forall|c: PlayerColor| (#[trigger] r.1.entities.player(c)).vel == Player::resting().vel,
            forall|c: PlayerColor| crate::game::is_cell_center((#[trigger] r.1.entities.player(c)).pos),
            crate::game::is_cell_center(r.1.entities.teleporters[0]),
            crate::game::is_cell_center(r.1.entities.teleporters[1]),
            r.2 == config.player_color,
    {
        let room_seed = match config.room_seed {
            Some(seed) => seed,
            None => CachedRng::random_seed(),
        };
        let (room, mut rng) = Room::new_seeded(room_seed);
        let entities = Entities::random(&mut rng);
        let world = World { room, entities };
        (Server::with_seed(room_seed), world, config.player_color)
    }

    pub fn room_seed(&self) -> (r: u64)
        ensures
            r == self@.seed,
    {
        self.room_seed
    }

    pub fn timestamp(&self) -> (r: Timestamp)
        ensures
            r == self@.clock,
    {
        self.my_timestamp
    }

    /// What the server remembers of the peer that plays `color`.
    pub fn client(&self, color: PlayerColor) -> (r: Option<ServerClient>)
        ensures
            r == self@.slot(color),
    {
        self.clients[color.to_index()]
    }

    fn seated(&self, color: PlayerColor, addr: Addr) -> (r: bool)
        ensures
            r == self@.seats(color, addr),
    {
        match self.clients[color.to_index()] {
            Some(c) => c.addr == addr,
            None => false,
        }
    }

    fn is_vacant(&self, my_color: PlayerColor, color: PlayerColor) -> (r: bool)
        ensures
            r == self@.vacant(my_color, color),
    {
        color != my_color && self.clients[color.to_index()].is_none()
    }

    /// Handles a hello from `sender`. An address that already plays a color
    /// keeps it. A new address gets the first vacant color among the
    /// preferred one, its prey and its predator, and is remembered with the
    /// server's present time. Where none is vacant nothing changes.
    pub fn enroll(&mut self, my_color: PlayerColor, sender: Addr, preferred: PlayerColor) -> (r:
        Option<(PlayerColor, bool)>)
        requires
            old(self).wf(),
        ensures
            final(self).wf(),
            r == old(self)@.admission(my_color, sender, preferred),
            final(self)@ == old(self)@.enrolled(my_color, sender, preferred),
    {
        if self.seated(PlayerColor::Black, sender) {
            return Some((PlayerColor::Black, false));
        }
        if self.seated(PlayerColor::Blue, sender) {
            return Some((PlayerColor::Blue, false));
        }
        if self.seated(PlayerColor::Orange, sender) {
            return Some((PlayerColor::Orange, false));
        }
        let color = if self.is_vacant(my_color, preferred) {
            preferred
        } else if self.is_vacant(my_color, preferred.prey()) {
            preferred.prey()
        } else if self.is_vacant(my_color, preferred.predator()) {
            preferred.predator()
        } else {
            return None;
        };
        self.clients[color.to_index()] = Some(
            ServerClient { addr: sender, last_client_timestamp: self.my_timestamp },
        );
        proof {
            lemma_enrolled_wf(old(self)@, my_color, sender, preferred);
        }
        Some((color, true))
    }

    /// Handles an update from `sender`. It counts only if `sender` plays a
    /// color and `timestamp` is newer than the last one accepted from it.
    /// Then the player of that color takes the claimed velocity, and the
    /// claimed position too unless that is a jump; and `timestamp` is
    /// remembered. Returns whether the update counted.
    pub fn merge(
        &mut self,
        my_color: PlayerColor,
        entities: &mut Entities,
        sender: Addr,
        player: Player,
        timestamp: Timestamp,
    ) -> (r: bool)
        requires
            old(self).wf(),
        ensures
            final(self).wf(),
            r == old(self)@.accepts(my_color, sender, timestamp).is_some(),
            final(self)@ == old(self)@.merged(my_color, sender, timestamp),
            *final(entities) == old(self)@.merged_entities(
                *old(entities),
                my_color,
                sender,
                player,
                timestamp,
            ),
    {
        let color = if self.seated(my_color.predator(), sender) {
            my_color.predator()
        } else if self.seated(my_color.prey(), sender) {
            my_color.prey()
        } else {
            return false;
        };
        let i = color.to_index();
        let last = match self.clients[i] {
            Some(c) => c.last_client_timestamp,
            None => return false,
        };
        if !(last < timestamp) {
            return false;
        }
        let stored = entities.players[i];
        let pos = if is_small_step(stored.pos, player.pos) {
            player.pos
        } else {
            stored.pos
        };
        entities.players[i] = Player { pos, vel: player.vel };
        self.clients[i] = Some(ServerClient { addr: sender, last_client_timestamp: timestamp });
        proof {
            let goal = old(self)@.merged_entities(
                *old(entities),
                my_color,
                sender,
                player,
                timestamp,
            );
            assert(entities.players =~= goal.players);
            lemma_merged_wf(old(self)@, my_color, sender, timestamp);
        }
        true
    }

    /// The message that tells the peer who plays `color` so, together with
    /// the seed of the room and the present state of the world.
    pub fn hello(&self, color: PlayerColor, entities: &Entities) -> (r: Msg)
        ensures
            r == self@.hello(color, *entities),
    {
        Msg::StcHello {
            timely: TimelyGameData { entities: *entities, timestamp: self.my_timestamp },
            your_color: color,
            room_seed: self.room_seed,
        }
    }

    /// Ends a tick: builds the snapshot of the whole world, stamped with the
    /// present time, and the list of peers that it goes to; then the clock
    /// advances by one.
    pub fn broadcast(&mut self, my_color: PlayerColor, entities: &Entities) -> (r: (Msg, Vec<Addr>))
        ensures
            r.0 == old(self)@.snapshot(*entities),
            r.1@ == old(self)@.recipients(my_color),
            final(self)@ == old(self)@.ticked(),
            old(self).wf() ==> final(self).wf(),
    {
        let msg = Msg::StcUpdate {
            timely: TimelyGameData { entities: *entities, timestamp: self.my_timestamp },
        };
        let mut to: Vec<Addr> = Vec::new();
        match self.clients[my_color.predator().to_index()] {
            Some(c) => to.push(c.addr),
            None => {},
        }
        match self.clients[my_color.prey().to_index()] {
            Some(c) => to.push(c.addr),
            None => {},
        }
        assert(to@ =~= self@.recipients(my_color));
        self.my_timestamp = self.my_timestamp + WrapInt(1);
        proof {
            if old(self).wf() {
                lemma_ticked_wf(old(self)@);
            }
        }
        (msg, to)
    }

    /// One step of the server. A hello is answered by `Greet` if the sender
    /// plays a color afterwards; an update is merged; the server's own kinds
    /// of message are ignored; and once the socket is drained the tick ends
    /// with a `Broadcast`.
    pub fn update(&mut self, my_color: PlayerColor, entities: &mut Entities, event: ServerEvent) -> (r:
        ServerAction)
        requires
            old(self).wf(),
        ensures
            final(self).wf(),
            r@ == old(self)@.action(my_color, *old(entities), event),
            final(self)@ == old(self)@.stepped(my_color, event),
            *final(entities) == old(self)@.stepped_entities(*old(entities), my_color, event),
    {
        match event {
            ServerEvent::Received { msg, sender } => match msg {
                Msg::CtsHello { preferred_color } => {
                    match self.enroll(my_color, sender, preferred_color) {
                        Some((color, fresh)) => ServerAction::Greet { to: sender, color, fresh },
                        None => ServerAction::Idle,
                    }
                },
                Msg::CtsUpdate { player, timestamp } => {
                    self.merge(my_color, entities, sender, player, timestamp);
                    ServerAction::Idle
                },
                Msg::StcHello { .. } => ServerAction::Idle,
                Msg::StcUpdate { .. } => ServerAction::Idle,
            },
            ServerEvent::Drained => {
                let (msg, to) = self.broadcast(my_color, entities);
                ServerAction::Broadcast { msg, to }
            },
        }
    }
}

/// Enrolling keeps addresses apart.
pub proof fn lemma_enrolled_wf(s: ServerState, my_color: PlayerColor, sender: Addr, preferred: PlayerColor)
    requires
        s.wf(),
    ensures
        s.enrolled(my_color, sender, preferred).wf(),
{
    let t = s.enrolled(my_color, sender, preferred);
    assert forall|a: PlayerColor, b: PlayerColor|
        t.slot(a).is_some() && t.slot(b).is_some() && a != b implies t.slot(a).unwrap().addr
        != t.slot(b).unwrap().addr by {
        if s.slot(a).is_some() && s.slot(b).is_some() {
            assert(s.slot(a).unwrap().addr != s.slot(b).unwrap().addr);
        }
    }
}

/// Merging keeps addresses apart.
pub proof fn lemma_merged_wf(s: ServerState, my_color: PlayerColor, sender: Addr, timestamp: Timestamp)
    requires
        s.wf(),
    ensures
        s.merged(my_color, sender, timestamp).wf(),
{
    let t = s.merged(my_color, sender, timestamp);
    assert forall|a: PlayerColor, b: PlayerColor|
        t.slot(a).is_some() && t.slot(b).is_some() && a != b implies t.slot(a).unwrap().addr
        != t.slot(b).unwrap().addr by {
        assert(s.slot(a).is_some() && s.slot(b).is_some());
        assert(s.slot(a).unwrap().addr != s.slot(b).unwrap().addr);
    }
}

/// The end of a tick keeps addresses apart.
pub proof fn lemma_ticked_wf(s: ServerState)
    requires
        s.wf(),
    ensures
        s.ticked().wf(),
{
    let t = s.ticked();
    assert forall|a: PlayerColor, b: PlayerColor|
        t.slot(a).is_some() && t.slot(b).is_some() && a != b implies t.slot(a).unwrap().addr
        != t.slot(b).unwrap().addr by {
        assert(s.slot(a) == t.slot(a) && s.slot(b) == t.slot(b));
        assert(s.slot(a).unwrap().addr != s.slot(b).unwrap().addr);
    }
}

/// What a client sees after a snapshot from the server has replaced what it
/// saw before: the server's world, except that the client's own player is
/// merged as [`client_merged`] says.
pub open spec fn client_view(mine: Entities, reported: Entities, my_color: PlayerColor) -> Entities {
    reported.with_player(
        my_color,
        client_merged(mine.player(my_color), reported.player(my_color)),
    )
}

/// What a client knows, as a plain value: the time of the newest snapshot
/// that it has taken over, and its own clock.
pub struct ClientState {
    pub last_seen: Timestamp,
    pub clock: Timestamp,
}

impl ClientState {
    /// A client that has just taken over the server's snapshot of the time
    /// `timestamp`, with its own clock at zero.
    pub open spec fn fresh(timestamp: Timestamp) -> ClientState {
        ClientState { last_seen: timestamp, clock: WrapInt(0) }
    }

    /// A snapshot of the time `timestamp` counts: it is newer than the last
    /// one that counted.
    pub open spec fn takes(self, timestamp: Timestamp) -> bool {
        self.last_seen.precedes(timestamp)
    }

    /// The state after a snapshot has arrived.
    pub open spec fn merged(self, timely: TimelyGameData) -> ClientState {
        if self.takes(timely.timestamp) {
            ClientState { last_seen: timely.timestamp, ..self }
        } else {
            self
        }
    }

    /// What the client sees after a snapshot has arrived.
    pub open spec fn merged_entities(
        self,
        entities: Entities,
        my_color: PlayerColor,
        timely: TimelyGameData,
    ) -> Entities {
        if self.takes(timely.timestamp) {
            client_view(entities, timely.entities, my_color)
        } else {
            entities
        }
    }

    /// The state after a tick has ended: the clock has advanced by one.
    pub open spec fn ticked(self) -> ClientState {
        ClientState { clock: self.clock.plus(WrapInt(1)), ..self }
    }

    /// The message that ends a tick.
    pub open spec fn report(self, my_color: PlayerColor, entities: Entities) -> Msg {
        Msg::CtsUpdate { player: entities.player(my_color), timestamp: self.clock }
    }

    /// What the client's driver is told to do after `event`.
    pub open spec fn action(self, my_color: PlayerColor, entities: Entities, event: ClientEvent) -> ClientAction {
        match event {
            ClientEvent::Received { msg: Msg::StcUpdate { timely } } => ClientAction::KeepReceiving,
            _ => ClientAction::Report { msg: self.report(my_color, entities) },
        }
    }

    /// The state after `event`.
    pub open spec fn stepped(self, event: ClientEvent) -> ClientState {
        match event {
            ClientEvent::Received { msg: Msg::StcUpdate { timely } } => self.merged(timely),
            _ => self.ticked(),
        }
    }

    /// What the client sees after `event`.
    pub open spec fn stepped_entities(
        self,
        entities: Entities,
        my_color: PlayerColor,
        event: ClientEvent,
    ) -> Entities {
        match event {
            ClientEvent::Received { msg: Msg::StcUpdate { timely } } => self.merged_entities(
                entities,
                my_color,
                timely,
            ),
            _ => entities,
        }
    }
}

impl View for Client {
    type V = ClientState;

    closed spec fn view(&self) -> ClientState {
        ClientState { last_seen: self.last_server_timestamp, clock: self.my_timestamp }
    }
}

impl Client {
    /// The message with which a client asks to play `preferred_color`.
    pub fn hello(preferred_color: PlayerColor) -> (r: Msg)
        ensures
            r == (Msg::CtsHello { preferred_color }),
    {
        Msg::CtsHello { preferred_color }
    }

    /// What becomes of a client once the server has answered its hello with
    /// `reply`: the client, the world as the server sees it, in the room
    /// that is generated from the seed in the answer, and the color that the
    /// client plays. A message of any other kind is no answer.
    pub fn new(reply: &Msg) -> (r: Option<(Client, World, PlayerColor)>)
        ensures
            match *reply {
                Msg::StcHello { timely, your_color, room_seed } => {
                    &&& r matches Some((client, world, color))
                    &&& client@ == ClientState::fresh(timely.timestamp)
                    &&& world.entities == timely.entities
                    &&& world.room.connected()
                    &&& 97 <= world.room.walls(Dim::X).len() + world.room.walls(Dim::Y).len() <= 129
                    &&& color == your_color
                },
                _ => r.is_none(),
            },
    {
        match reply {
            Msg::StcHello { timely, your_color, room_seed } => {
                let (room, _rng) = Room::new_seeded(*room_seed);
                let world = World { room, entities: timely.entities };
                Some((Client::synchronized(timely.timestamp), world, *your_color))
            },
            _ => None,
        }
    }

    /// A client that has just taken over the server's snapshot of the time
    /// `timestamp`, with its own clock at zero.
    pub fn synchronized(timestamp: Timestamp) -> (r: Client)
        ensures
            r@ == ClientState::fresh(timestamp),
    {
        Client { last_server_timestamp: timestamp, my_timestamp: WrapInt(0) }
    }

    pub fn last_server_timestamp(&self) -> (r: Timestamp)
        ensures
            r == self@.last_seen,
    {
        self.last_server_timestamp
    }

    pub fn timestamp(&self) -> (r: Timestamp)
        ensures
            r == self@.clock,
    {
        self.my_timestamp
    }

    /// Takes a snapshot from the server. It counts only if it is newer than
    /// the last one that counted. Then it replaces the whole world, except
    /// for the client's own player, who keeps its velocity, and its position
    /// too unless the server's is more than a small step away. Returns
    /// whether the snapshot counted.
    pub fn merge(&mut self, my_color: PlayerColor, entities: &mut Entities, timely: &TimelyGameData) -> (r:
        bool)
        ensures
            r == old(self)@.takes(timely.timestamp),
            final(self)@ == old(self)@.merged(*timely),
            *final(entities) == old(self)@.merged_entities(*old(entities), my_color, *timely),
    {
        if !(self.last_server_timestamp < timely.timestamp) {
            return false;
        }
        self.last_server_timestamp = timely.timestamp;
        let i = my_color.to_index();
        let my_old = entities.players[i];
        *entities = timely.entities;
        let reported = entities.players[i];
        let pos = if is_small_step(my_old.pos, reported.pos) {
            my_old.pos
        } else {
            reported.pos
        };
        entities.players[i] = Player { pos, vel: my_old.vel };
        proof {
            let goal = client_view(*old(entities), timely.entities, my_color);
            assert(entities.players =~= goal.players);
        }
        true
    }

    /// Ends a tick: builds the message that tells the server where the
    /// client's own player is and how it moves, stamped with the client's
    /// present time; then the clock advances by one.
    pub fn report(&mut self, my_color: PlayerColor, entities: &Entities) -> (r: Msg)
        ensures
            r == old(self)@.report(my_color, *entities),
            final(self)@ == old(self)@.ticked(),
    {
        let msg = Msg::CtsUpdate {
            player: entities.players[my_color.to_index()],
            timestamp: self.my_timestamp,
        };
        self.my_timestamp = self.my_timestamp + WrapInt(1);
        msg
    }

    /// One step of a client. A snapshot is merged and receiving goes on.
    /// Anything else ends the tick, be it a message of another kind or the
    /// news that nothing usable is pending: the client reports its own
    /// player.
    pub fn update(&mut self, my_color: PlayerColor, entities: &mut Entities, event: ClientEvent) -> (r:
        ClientAction)
        ensures
            r == old(self)@.action(my_color, *old(entities), event),
            final(self)@ == old(self)@.stepped(event),
            *final(entities) == old(self)@.stepped_entities(*old(entities), my_color, event),
    {
        match event {
            ClientEvent::Received { msg: Msg::StcUpdate { timely } } => {
                self.merge(my_color, entities, &timely);
                ClientAction::KeepReceiving
            },
            _ => {
                let msg = self.report(my_color, entities);
                ClientAction::Report { msg }
            },
        }
    }
}

/// A small step is taken over whole: position and velocity are the claimed
/// ones.
pub proof fn lemma_small_step_is_accepted(stored: Player, claimed: Player)
    requires
        small_step(stored.pos, claimed.pos),
    ensures
        server_merged(stored, claimed) == claimed,
{
}

/// A jump is not believed, but the claimed velocity is: the position stays
/// as stored.
pub proof fn lemma_jump_is_rejected(stored: Player, claimed: Player)
    requires
        !small_step(stored.pos, claimed.pos),
    ensures
        server_merged(stored, claimed) == (Player { pos: stored.pos, vel: claimed.vel }),
{
}

/// Two positions that lie nearer to each other than the bound on both axes
/// are a small step apart; two that lie farther apart than the bound on one
/// axis are not.
pub proof fn lemma_small_step_by_distance(from: Pos, to: Pos)
    ensures
        from.minus(to).at(Dim::X).magnitude() < 3072 && from.minus(to).at(Dim::Y).magnitude()
            < 6144 ==> small_step(from, to),
        from.minus(to).at(Dim::X).magnitude() > 3072 || from.minus(to).at(Dim::Y).magnitude()
            > 6144 ==> !small_step(from, to),
{
}

/// An update that counts and claims a small step replaces the sender's
/// player by the claimed one; one that counts and claims a jump replaces the
/// velocity only. Nobody else's player changes.
pub proof fn lemma_merge_clamps(
    s: ServerState,
    entities: Entities,
    my_color: PlayerColor,
    sender: Addr,
    player: Player,
    timestamp: Timestamp,
    color: PlayerColor,
)
    requires
        s.accepts(my_color, sender, timestamp) == Some(color),
    ensures
        ({
            let after = s.merged_entities(entities, my_color, sender, player, timestamp);
            let stored = entities.player(color);
            &&& after.player(color).vel == player.vel
            &&& small_step(stored.pos, player.pos) ==> after.player(color) == player
            &&& !small_step(stored.pos, player.pos) ==> after.player(color).pos == stored.pos
            &&& forall|c: PlayerColor| c != color ==> after.player(c) == entities.player(c)
            &&& after.teleporters == entities.teleporters
        }),
{
}

/// The same update, handled twice, changes the server and the world the
/// first time only.
pub proof fn lemma_merge_twice(
    s: ServerState,
    entities: Entities,
    my_color: PlayerColor,
    sender: Addr,
    player: Player,
    timestamp: Timestamp,
)
    ensures
        ({
            let s1 = s.merged(my_color, sender, timestamp);
            let e1 = s.merged_entities(entities, my_color, sender, player, timestamp);
            &&& s1.accepts(my_color, sender, timestamp).is_none()
            &&& s1.merged(my_color, sender, timestamp) == s1
            &&& s1.merged_entities(e1, my_color, sender, player, timestamp) == e1
        }),
{
}

/// Whatever the server receives, its own player and the teleporters stay
/// as they are, and so does every player but the sender's.
pub proof fn lemma_server_changes_the_sender_only(
    s: ServerState,
    entities: Entities,
    my_color: PlayerColor,
    event: ServerEvent,
)
    ensures
        ({
            let after = s.stepped_entities(entities, my_color, event);
            &&& after.player(my_color) == entities.player(my_color)
            &&& after.teleporters == entities.teleporters
            &&& forall|c: PlayerColor|
                after.player(c) != entities.player(c) ==> (event matches ServerEvent::Received {
                    msg: Msg::CtsUpdate { player, timestamp },
                    sender,
                } && s.seats(c, sender) && s.slot(c).unwrap().last_client_timestamp.precedes(
                    timestamp,
                ))
        }),
{
}

/// A broadcast goes to the peers that play the colors that the server does
/// not play itself, and to nobody else.
pub proof fn lemma_broadcast_reaches_every_peer(s: ServerState, my_color: PlayerColor, addr: Addr)
    ensures
        s.recipients(my_color).contains(addr) <==> exists|c: PlayerColor|
            c != my_color && #[trigger] s.seats(c, addr),
{
    let to = s.recipients(my_color);
    let first = my_color.hunted_by();
    let second = my_color.hunts();
    if s.seats(first, addr) {
        assert(to[0] == addr);
    } else if s.seats(second, addr) {
        assert(to[to.len() - 1] == addr);
    }
    if to.contains(addr) {
        let k = choose|k: int| 0 <= k < to.len() && to[k] == addr;
        assert(s.seats(first, addr) || s.seats(second, addr));
    }
    if exists|c: PlayerColor| c != my_color && #[trigger] s.seats(c, addr) {
        let c = choose|c: PlayerColor| c != my_color && #[trigger] s.seats(c, addr);
        assert(c == first || c == second);
    }
}

/// The same message from the same sender, received twice, changes the
/// server and the world the first time only.
pub proof fn lemma_received_twice(
    s: ServerState,
    entities: Entities,
    my_color: PlayerColor,
    msg: Msg,
    sender: Addr,
)
    ensures
        ({
            let event = ServerEvent::Received { msg, sender };
            let s1 = s.stepped(my_color, event);
            let e1 = s.stepped_entities(entities, my_color, event);
            &&& s1.stepped(my_color, event) == s1
            &&& s1.stepped_entities(e1, my_color, event) == e1
        }),
{
    match msg {
        Msg::CtsHello { preferred_color } => {
            lemma_enroll_twice(s, my_color, sender, preferred_color);
        },
        Msg::CtsUpdate { player, timestamp } => {
            lemma_merge_twice(s, entities, my_color, sender, player, timestamp);
        },
        _ => {},
    }
}

/// The same hello, handled twice, enrolls the sender the first time only:
/// the second time it is told the same color, and nothing changes.
pub proof fn lemma_enroll_twice(
    s: ServerState,
    my_color: PlayerColor,
    sender: Addr,
    preferred: PlayerColor,
)
    ensures
        ({
            let s1 = s.enrolled(my_color, sender, preferred);
            &&& s1.enrolled(my_color, sender, preferred) == s1
            &&& match s.admission(my_color, sender, preferred) {
                Some((color, _)) => s1.admission(my_color, sender, preferred) == Some(
                    (color, false),
                ),
                None => s1.admission(my_color, sender, preferred).is_none(),
            }
        }),
{
}

/// The same snapshot, taken twice, changes the client and what it sees the
/// first time only.
pub proof fn lemma_snapshot_twice(
    c: ClientState,
    entities: Entities,
    my_color: PlayerColor,
    timely: TimelyGameData,
)
    ensures
        ({
            let c1 = c.merged(timely);
            let e1 = c.merged_entities(entities, my_color, timely);
            &&& !c1.takes(timely.timestamp)
            &&& c1.merged(timely) == c1
            &&& c1.merged_entities(e1, my_color, timely) == e1
        }),
{
}

/// The same message, received twice, changes the client and what it sees
/// the first time only, as long as it is a snapshot; any other message ends
/// a tick each time it is received.
pub proof fn lemma_snapshot_received_twice(
    c: ClientState,
    entities: Entities,
    my_color: PlayerColor,
    timely: TimelyGameData,
)
    ensures
        ({
            let event = ClientEvent::Received { msg: Msg::StcUpdate { timely } };
            let c1 = c.stepped(event);
            let e1 = c.stepped_entities(entities, my_color, event);
            &&& c1.stepped(event) == c1
            &&& c1.stepped_entities(e1, my_color, event) == e1
        }),
{
    lemma_snapshot_twice(c, entities, my_color, timely);
}

/// On a server that knows nobody, whoever asks for a color that is not the
/// server's own gets it.
pub proof fn lemma_first_peer_gets_its_preference(
    seed: u64,
    my_color: PlayerColor,
    sender: Addr,
    preferred: PlayerColor,
)
    requires
        preferred != my_color,
    ensures
        ServerState::fresh(seed).admission(my_color, sender, preferred) == Some((preferred, true)),
{
}

/// A second address that asks for the color that the first one got is given
/// the prey of that color, or its predator if the prey is the server's own.
pub proof fn lemma_second_peer_gets_the_next(
    seed: u64,
    my_color: PlayerColor,
    first: Addr,
    second: Addr,
    preferred: PlayerColor,
)
    requires
        preferred != my_color,
        first != second,
    ensures
        ({
            let s1 = ServerState::fresh(seed).enrolled(my_color, first, preferred);
            let next = if preferred.hunts() != my_color {
                preferred.hunts()
            } else {
                preferred.hunted_by()
            };
            s1.admission(my_color, second, preferred) == Some((next, true))
        }),
{
}

/// Once peers play both colors that the server does not play itself, a
/// hello from any other address changes nothing and gets no answer.
pub proof fn lemma_full_server_is_deaf(
    s: ServerState,
    my_color: PlayerColor,
    sender: Addr,
    preferred: PlayerColor,
)
    requires
        s.slot(my_color.hunts()).is_some(),
        s.slot(my_color.hunted_by()).is_some(),
        s.color_of(sender).is_none(),
    ensures
        s.admission(my_color, sender, preferred).is_none(),
        s.enrolled(my_color, sender, preferred) == s,
{
}

} // verus!
