//! One participant's game: the world, the doors that open for it, the keys
//! it holds down, and the step that moves everybody and lets them collide.
use crate::axes::{Dim, DimMap, Direction, Sign, SignMap};
use crate::bit_set::{BitIndex, INDICES};
use crate::game::room::{corner_of, Coord, Room};
use crate::game::ai::SinkAi;
use crate::game::config::InputConfig;
use crate::game::net::{Client, Server};
use crate::game::{
    is_cell_center, Entities, Player, PlayerArr, PlayerColor, Pos, Size, Vel, World,
};
use crate::rng::CachedRng;
use crate::wrap_int::WrapInt;
use vstd::prelude::*;

verus! {

/// How many doors a participant has.
pub const NUM_MY_DOORS: u32 = 4;

/// How many walls a room can have: two for each cell.
pub const MAX_WALLS: u32 = 256;

/// The extent of a player.
pub open spec fn spec_player_size() -> Size {
    DimMap::xy(1820u16, 3640u16)
}

/// The extent of a teleporter.
pub open spec fn spec_teleporter_size() -> Size {
    DimMap::xy(2048u16, 4096u16)
}

/// The extent of a wall that runs along `dim`.
pub open spec fn spec_wall_size(dim: Dim) -> Size {
    match dim {
        Dim::X => DimMap::xy(4096u16, 1170u16),
        Dim::Y => DimMap::xy(585u16, 8192u16),
    }
}

/// The distance a player covers in one tick along each axis when it moves
/// along both.
pub open spec fn spec_move_size_diag() -> Size {
    DimMap::xy(182u16, 365u16)
}

/// How near, along each axis, a player has to come to the middle of a
/// teleporter to be taken away.
pub open spec fn teleporter_reach() -> Size {
    DimMap::xy(1934u16, 3868u16)
}

/// How near, along each axis, a player has to come to the middle of a wall
/// that runs along `dim` to touch it.
pub open spec fn wall_reach(dim: Dim) -> Size {
    match dim {
        Dim::X => DimMap::xy(2958u16, 2405u16),
        Dim::Y => DimMap::xy(1202u16, 5916u16),
    }
}

/// The extent of a player.
#[verifier::when_used_as_spec(spec_player_size)]
pub fn player_size() -> (r: Size)
    ensures
        r == player_size(),
{
    crate::game::room::cell_size().scalar_div(9).scalar_mul(4)
}

/// The extent of a teleporter.
#[verifier::when_used_as_spec(spec_teleporter_size)]
pub fn teleporter_size() -> (r: Size)
    ensures
        r == teleporter_size(),
{
    crate::game::room::cell_size().scalar_div(2)
}

/// The extent of a wall that runs along `dim`.
#[verifier::when_used_as_spec(spec_wall_size)]
pub fn wall_size(dim: Dim) -> (r: Size)
    ensures
        r == wall_size(dim),
{
    match dim {
        Dim::X => DimMap::new_xy(
            crate::game::room::CELL_SIZE_X,
            crate::game::room::CELL_SIZE_Y / 7,
        ),
        Dim::Y => DimMap::new_xy(
            crate::game::room::CELL_SIZE_X / 7,
            crate::game::room::CELL_SIZE_Y,
        ),
    }
}

/// The distance a player covers in one tick along each axis when it moves
/// along both.
#[verifier::when_used_as_spec(spec_move_size_diag)]
pub fn move_size_diag() -> (r: Size)
    ensures
        r == move_size_diag(),
{
    crate::game::move_size().scalar_mul(5).scalar_div(7)
}

/// [`teleporter_reach`] as a value.
fn teleporter_reach_value() -> (r: Size)
    ensures
        r == teleporter_reach(),
{
    mean_size(player_size(), teleporter_size())
}

/// The mean of two sizes, axis by axis, rounded down.
fn mean_size(a: Size, b: Size) -> (r: Size)
    requires
        a.at(Dim::X) + b.at(Dim::X) <= u16::MAX,
        a.at(Dim::Y) + b.at(Dim::Y) <= u16::MAX,
    ensures
        r == DimMap::xy(
            ((a.at(Dim::X) + b.at(Dim::X)) / 2) as u16,
            ((a.at(Dim::Y) + b.at(Dim::Y)) / 2) as u16,
        ),
{
    DimMap::new_xy((a.arr[0] + b.arr[0]) / 2, (a.arr[1] + b.arr[1]) / 2)
}

/// A set of indices of doors, one bit for each.
#[derive(Debug, Copy, Clone, PartialEq, Eq, Structural)]
pub struct MyDoorIndexSet {
    bits: u16,
}

/// A door in a wall: it lets the participant through and then moves
/// elsewhere.
#[derive(Debug, Copy, Clone, PartialEq, Eq)]
pub struct MyDoor {
    /// The sense in which the participant is passing through, while it is.
    pub moving_through: Option<Sign>,
    /// The cell that owns the wall in which the door sits.
    pub coord: Coord,
    /// The kind of that wall.
    pub dim: Dim,
}

/// A box round a point.
pub struct Rect {
    pub center: Pos,
    pub size: Size,
}

/// Whether a key is held down.
#[derive(Debug, Copy, Clone, PartialEq, Eq, Structural)]
pub enum KeyState {
    Pressed,
    Released,
}

/// The states of the two keys that steer along one axis.
#[derive(Debug, Copy, Clone)]
pub struct AxisPressingState {
    map: SignMap<KeyState>,
}

/// The states of the four keys that steer.
#[derive(Debug, Copy, Clone)]
pub struct PressingState {
    map: DimMap<AxisPressingState>,
}

proof fn lemma_u16_bit(bits: u16, k: u16, m: u16)
    requires
        k < 16,
        m < 16,
    ensures
        ((bits | (1u16 << k)) >> m) & 1 == 1 <==> (m == k || (bits >> m) & 1 == 1),
        (bits | (1u16 << k)) == bits <==> (bits >> k) & 1 == 1,
        (0u16 >> m) & 1 == 0,
{
    assert(((bits | (1u16 << k)) >> m) & 1 == 1 <==> (m == k || (bits >> m) & 1 == 1))
        by (bit_vector)
        requires
            k < 16,
            m < 16,
    ;
    assert((bits | (1u16 << k)) == bits <==> (bits >> k) & 1 == 1) by (bit_vector)
        requires
            k < 16,
    ;
    assert((0u16 >> m) & 1 == 0) by (bit_vector);
}

impl View for MyDoorIndexSet {
    type V = Set<int>;

    closed spec fn view(&self) -> Set<int> {
        Set::new(|i: int| 0 <= i < 16 && (self.bits >> (i as u16)) & 1 == 1)
    }
}

impl MyDoorIndexSet {
    /// The set with `idx` put in.
    pub fn inserted(self, idx: usize) -> (r: MyDoorIndexSet)
        requires
            idx < 16,
        ensures
            r@ == self@.insert(idx as int),
    {
        let r = MyDoorIndexSet { bits: self.bits | (1u16 << idx) };
        proof {
            assert forall|i: int| r@.contains(i) == self@.insert(idx as int).contains(i) by {
                if 0 <= i < 16 {
                    lemma_u16_bit(self.bits, idx as u16, i as u16);
                }
            }
            assert(r@ =~= self@.insert(idx as int));
        }
        r
    }

    pub fn insert(&mut self, idx: usize)
        requires
            idx < 16,
        ensures
            final(self)@ == old(self)@.insert(idx as int),
    {
        *self = self.inserted(idx)
    }

    pub fn contains(self, idx: usize) -> (r: bool)
        requires
            idx < 16,
        ensures
            r == self@.contains(idx as int),
    {
        proof {
            lemma_u16_bit(self.bits, idx as u16, idx as u16);
        }
        (self.bits | (1u16 << idx)) == self.bits
    }
}

impl Default for MyDoorIndexSet {
    fn default() -> (r: MyDoorIndexSet)
        ensures
            r@ == Set::<int>::empty(),
    {
        let r = MyDoorIndexSet { bits: 0 };
        proof {
            assert forall|i: int| !r@.contains(i) by {
                if 0 <= i < 16 {
                    lemma_u16_bit(0, 0, i as u16);
                }
            }
            assert(r@ =~= Set::<int>::empty());
        }
        r
    }
}

impl Rect {
    /// The coordinate, along the axis of `dir`, of the edge of the box that
    /// faces in direction `dir`.
    pub open spec fn edge(&self, dir: Direction) -> WrapInt {
        self.center.at(dir.axis()).plus(
            dir.sense().applied(WrapInt::of_u16(self.size.at(dir.axis()))),
        )
    }

    /// The point lies nearer to the middle of the box than the extent of the
    /// box, along both axes.
    pub open spec fn holds(&self, pt: Pos) -> bool {
        &&& pt.at(Dim::X).minus(self.center.at(Dim::X)).magnitude() < self.size.at(Dim::X)
        &&& pt.at(Dim::Y).minus(self.center.at(Dim::Y)).magnitude() < self.size.at(Dim::Y)
    }

    pub fn aligned_to_edge(&self, dir: Direction) -> (r: WrapInt)
        ensures
            r == self.edge(dir),
    {
        let dim = dir.dim();
        *self.center.get(dim) + dir.sign() * WrapInt::from(*self.size.get(dim))
    }

    pub fn contains(&self, pt: Pos) -> (r: bool)
        ensures
            r == self.holds(pt),
    {
        (pt.arr[0] - self.center.arr[0]).distance_from_zero() < self.size.arr[0] && (pt.arr[1]
            - self.center.arr[1]).distance_from_zero() < self.size.arr[1]
    }
}

impl Player {
    /// Where a player that has run into the box `rect` is put back to: on
    /// the edge that it came across. A player that moves along one axis is
    /// set back along that axis; one that moves along both is set back along
    /// the axis on which the way back is shorter, and along `Y` if the ways
    /// are equal; one that stands still stays.
    pub open spec fn snapped(self, rect: &Rect) -> Player {
        match (self.vel.at(Dim::X), self.vel.at(Dim::Y)) {
            (None, None) => self,
            (Some(sign), None) => self.with_coordinate(
                Dim::X,
                rect.edge(Direction::of(Dim::X, sign.flipped())),
            ),
            (None, Some(sign)) => self.with_coordinate(
                Dim::Y,
                rect.edge(Direction::of(Dim::Y, sign.flipped())),
            ),
            (Some(x_sign), Some(y_sign)) => {
                let new_x = rect.edge(Direction::of(Dim::X, x_sign.flipped()));
                let new_y = rect.edge(Direction::of(Dim::Y, y_sign.flipped()));
                if new_x.minus(self.pos.at(Dim::X)).magnitude() < new_y.minus(
                    self.pos.at(Dim::Y),
                ).magnitude() {
                    self.with_coordinate(Dim::X, new_x)
                } else {
                    self.with_coordinate(Dim::Y, new_y)
                }
            },
        }
    }

    /// The player with one coordinate of its position replaced.
    pub open spec fn with_coordinate(self, dim: Dim, value: WrapInt) -> Player {
        match dim {
            Dim::X => Player { pos: DimMap::xy(value, self.pos.at(Dim::Y)), vel: self.vel },
            Dim::Y => Player { pos: DimMap::xy(self.pos.at(Dim::X), value), vel: self.vel },
        }
    }

    /// Where the player stands after a tick in which it moves as `vel`
    /// says: a full step along the one axis on which it moves, a shorter
    /// one along each if it moves along both.
    pub open spec fn moved_by(self, vel: Vel) -> Player {
        let size = if vel.at(Dim::X).is_some() && vel.at(Dim::Y).is_some() {
            move_size_diag()
        } else {
            crate::game::move_size()
        };
        let x = match vel.at(Dim::X) {
            Some(sign) => self.pos.at(Dim::X).plus(sign.applied(WrapInt::of_u16(size.at(Dim::X)))),
            None => self.pos.at(Dim::X),
        };
        let y = match vel.at(Dim::Y) {
            Some(sign) => self.pos.at(Dim::Y).plus(sign.applied(WrapInt::of_u16(size.at(Dim::Y)))),
            None => self.pos.at(Dim::Y),
        };
        Player { pos: DimMap::xy(x, y), vel: self.vel }
    }

    /// Puts a player that has run into `rect` back on the edge that it came
    /// across.
    pub fn snap_pos_wrt_vel(&mut self, rect: &Rect)
        ensures
            *final(self) == old(self).snapped(rect),
    {
        match (*self.vel.get(Dim::X), *self.vel.get(Dim::Y)) {
            (None, None) => {
                proof {
                    DimMap::lemma_ext(self.pos, old(self).snapped(rect).pos);
                }
            },
            (Some(sign), None) => {
                let edge = rect.aligned_to_edge(Dim::X.sign(core::ops::Not::not(sign)));
                self.pos.set(Dim::X, edge);
                proof {
                    DimMap::lemma_ext(self.pos, old(self).snapped(rect).pos);
                }
            },
            (None, Some(sign)) => {
                let edge = rect.aligned_to_edge(Dim::Y.sign(core::ops::Not::not(sign)));
                self.pos.set(Dim::Y, edge);
                proof {
                    DimMap::lemma_ext(self.pos, old(self).snapped(rect).pos);
                }
            },
            (Some(x_sign), Some(y_sign)) => {
                let new_x = rect.aligned_to_edge(Dim::X.sign(core::ops::Not::not(x_sign)));
                let new_y = rect.aligned_to_edge(Dim::Y.sign(core::ops::Not::not(y_sign)));
                if (new_x - *self.pos.get(Dim::X)).distance_from_zero() < (new_y - *self.pos.get(
                    Dim::Y,
                )).distance_from_zero() {
                    self.pos.set(Dim::X, new_x);
                } else {
                    self.pos.set(Dim::Y, new_y);
                }
                proof {
                    DimMap::lemma_ext(self.pos, old(self).snapped(rect).pos);
                }
            },
        }
    }

    /// Moves the player by one tick as `vel` says.
    pub fn step(&mut self, vel: Vel)
        ensures
            *final(self) == old(self).moved_by(vel),
    {
        let size = if vel.get(Dim::X).is_some() && vel.get(Dim::Y).is_some() {
            move_size_diag()
        } else {
            crate::game::move_size()
        };
        match *vel.get(Dim::X) {
            Some(sign) => {
                let x = *self.pos.get(Dim::X) + sign * WrapInt::from(*size.get(Dim::X));
                self.pos.set(Dim::X, x);
            },
            None => {},
        }
        match *vel.get(Dim::Y) {
            Some(sign) => {
                let y = *self.pos.get(Dim::Y) + sign * WrapInt::from(*size.get(Dim::Y));
                self.pos.set(Dim::Y, y);
            },
            None => {},
        }
        proof {
            DimMap::lemma_ext(self.pos, old(self).moved_by(vel).pos);
        }
    }
}

impl AxisPressingState {
    /// The sense of the one key that is held down, if exactly one is.
    pub open spec fn solo(self) -> Option<Sign> {
        match (self.state(Sign::Negative), self.state(Sign::Positive)) {
            (KeyState::Pressed, KeyState::Released) => Some(Sign::Negative),
            (KeyState::Released, KeyState::Pressed) => Some(Sign::Positive),
            _ => None,
        }
    }

    /// The state of the key that steers in the sense `sign`.
    pub closed spec fn state(self, sign: Sign) -> KeyState {
        self.map.at(sign)
    }

    pub fn solo_pressed(self) -> (r: Option<Sign>)
        ensures
            r == self.solo(),
    {
        match (*self.map.get(Sign::Negative), *self.map.get(Sign::Positive)) {
            (KeyState::Pressed, KeyState::Pressed) => None,
            (KeyState::Released, KeyState::Released) => None,
            (KeyState::Pressed, KeyState::Released) => Some(Sign::Negative),
            (KeyState::Released, KeyState::Pressed) => Some(Sign::Positive),
        }
    }

    /// Records the state of the key that steers in the sense `sign`.
    pub fn press(&mut self, sign: Sign, state: KeyState)
        ensures
            final(self).state(sign) == state,
            final(self).state(sign.flipped()) == old(self).state(sign.flipped()),
    {
        self.map.set(sign, state);
    }
}

impl Default for AxisPressingState {
    fn default() -> (r: AxisPressingState)
        ensures
            forall|sign: Sign| r.state(sign) == KeyState::Released,
    {
        AxisPressingState { map: SignMap::new([KeyState::Released, KeyState::Released]) }
    }
}

impl PressingState {
    /// The states of the two keys that steer along `dim`.
    pub closed spec fn axis(self, dim: Dim) -> AxisPressingState {
        self.map.at(dim)
    }

    /// Records the state of the key that steers in direction `dir`, and
    /// says how the participant steers along the axis of `dir` from now on.
    pub fn press(&mut self, dir: Direction, state: KeyState) -> (r: Option<Sign>)
        ensures
            final(self).axis(dir.axis()).state(dir.sense()) == state,
            final(self).axis(dir.axis()).state(dir.sense().flipped()) == old(self).axis(
                dir.axis(),
            ).state(dir.sense().flipped()),
            final(self).axis(dir.axis().other()) == old(self).axis(dir.axis().other()),
            r == final(self).axis(dir.axis()).solo(),
    {
        let dim = dir.dim();
        let mut axis = *self.map.get(dim);
        axis.press(dir.sign(), state);
        self.map.set(dim, axis);
        axis.solo_pressed()
    }
}

impl Default for PressingState {
    fn default() -> (r: PressingState)
        ensures
            forall|dim: Dim, sign: Sign| r.axis(dim).state(sign) == KeyState::Released,
    {
        let r = PressingState {
            map: DimMap::new([AxisPressingState::default(), AxisPressingState::default()]),
        };
        assert forall|dim: Dim, sign: Sign| r.axis(dim).state(sign) == KeyState::Released by {
            match dim {
                Dim::X => {},
                Dim::Y => {},
            }
        }
        r
    }
}

/// The role of a participant in the game.
pub enum Net {
    /// The host, and for each color the player that plays it by itself, if
    /// one does.
    Server { server: Server, ais: PlayerArr<Option<SinkAi>> },
    /// A guest.
    Client(Client),
}

pub struct GameState {
    pub world: World,
    pub my_doors: [MyDoor; 4],
    pub controlling: PlayerColor,
    pub pressing_state: PressingState,
    pub input_config: InputConfig,
    pub net: Net,
    pub local_rng: CachedRng,
}

/// What a key does.
#[derive(Debug, Copy, Clone, PartialEq, Eq, Structural)]
pub enum KeyAction {
    /// It ends the game.
    Halt,
    /// It steers in a direction.
    Steer(Direction),
    /// Nothing.
    Ignore,
}

/// Two corners lie too near to each other for doors to sit on both cells:
/// at most two cells apart along both axes, and nearer along one.
pub open spec fn too_close(a: Pos, b: Pos) -> bool {
    a.minus(b).magnitudes().within(DimMap::xy(8192u16, 16384u16))
}

fn is_too_close(a: Pos, b: Pos) -> (r: bool)
    ensures
        r == too_close(a, b),
{
    let bound: Size = crate::game::room::cell_size().scalar_mul(2);
    (a - b).distances_from_zero() < bound
}

/// The velocity with which a player moves while it passes through `door`:
/// across the wall in the sense of the passage, and as before along the
/// wall.
pub open spec fn carried(vel: Vel, door: MyDoor) -> Vel {
    match door.moving_through {
        Some(sign) => match door.dim {
            Dim::X => DimMap::xy(vel.at(Dim::X), Some(sign)),
            Dim::Y => DimMap::xy(Some(sign), vel.at(Dim::Y)),
        },
        None => vel,
    }
}

/// The velocity with which the participant's own player moves: its own,
/// but carried on through every door that it is passing.
pub open spec fn carried_by_all(vel: Vel, doors: [MyDoor; 4]) -> Vel {
    carried(carried(carried(carried(vel, doors[0]), doors[1]), doors[2]), doors[3])
}

fn carry(vel: Vel, door: &MyDoor) -> (r: Vel)
    ensures
        r == carried(vel, *door),
{
    match door.moving_through {
        Some(sign) => {
            let mut r = vel;
            r.set(core::ops::Not::not(door.dim), Some(sign));
            proof {
                DimMap::lemma_ext(r, carried(vel, *door));
            }
            r
        },
        None => vel,
    }
}

/// The middle of the wall of the kind `dim` that the cell with index `i`
/// owns.
pub open spec fn wall_middle(i: int, dim: Dim) -> Pos {
    match dim {
        Dim::X => corner_of(i).plus(DimMap::xy(WrapInt(2048), WrapInt(0))),
        Dim::Y => corner_of(i).plus(DimMap::xy(WrapInt(0), WrapInt(4096))),
    }
}

impl MyDoor {
    /// A closed door in the wall of the kind `X` of the first cell.
    pub fn unplaced() -> (r: MyDoor)
        ensures
            r.coord.wf(),
            r.coord@ == 0,
            r.dim == Dim::X,
            r.moving_through.is_none(),
    {
        MyDoor { coord: Coord::default(), dim: Dim::X, moving_through: None }
    }
}

/// Every door sits on a cell.
pub open spec fn doors_wf(doors: [MyDoor; 4]) -> bool {
    forall|k: int| 0 <= k < 4 ==> (#[trigger] doors[k]).coord.wf()
}

impl Room {
    /// A door may be put into the wall of the kind `dim` of cell `i`: the
    /// wall stands, and no door in `doors` sits on a cell too near.
    pub open spec fn suits_door(&self, doors: [MyDoor; 4], i: int, dim: Dim) -> bool {
        &&& self.walls(dim).contains(i)
        &&& forall|k: int| 0 <= k < 4 ==> !too_close(corner_of(i), (#[trigger] doors[k]).coord.corner())
    }

    /// There is a wall into which a door may be put.
    pub open spec fn has_place_for_door(&self, doors: [MyDoor; 4]) -> bool {
        exists|i: int, dim: Dim| 0 <= i < INDICES && #[trigger] self.suits_door(doors, i, dim)
    }

    fn clear_of_doors(coord: Coord, my_doors: &[MyDoor; 4]) -> (r: bool)
        requires
            coord.wf(),
            doors_wf(*my_doors),
        ensures
            r == forall|k: int|
                0 <= k < 4 ==> !too_close(coord.corner(), (#[trigger] my_doors[k]).coord.corner()),
    {
        let mut k: usize = 0;
        while k < 4
            invariant
                k <= 4,
                forall|j: int|
                    0 <= j < k ==> !too_close(coord.corner(), (#[trigger] my_doors[j]).coord.corner()),
            decreases 4 - k,
        {
            if is_too_close(coord.corner_pos(), my_doors[k].coord.corner_pos()) {
                return false;
            }
            k = k + 1;
        }
        true
    }

    /// Four doors, put one after the other where [`Room::random_new_my_door`]
    /// finds a place.
    pub fn random_new_my_doors(&self, rng: &mut CachedRng) -> (r: [MyDoor; 4])
        requires
            old(rng).wf(),
        ensures
            final(rng).wf(),
            doors_wf(r),
            forall|k: int| 0 <= k < 4 ==> (#[trigger] r[k]).moving_through.is_none(),
    {
        let mut my_doors = [
            MyDoor::unplaced(),
            MyDoor::unplaced(),
            MyDoor::unplaced(),
            MyDoor::unplaced(),
        ];
        let mut i: usize = 0;
        while i < 4
            invariant
                i <= 4,
                rng.wf(),
                doors_wf(my_doors),
                forall|k: int| 0 <= k < 4 ==> (#[trigger] my_doors[k]).moving_through.is_none(),
            decreases 4 - i,
        {
            let door = self.random_new_my_door(rng, &my_doors);
            my_doors[i] = door;
            i = i + 1;
        }
        my_doors
    }

    /// A closed door in a random wall that stands, on a cell that is not
    /// too near to any of `my_doors`. A cell is drawn over and over until
    /// one fits; after very many draws in vain the cells are tried one by
    /// one. Where no wall fits at all the door is put on the first cell.
    pub fn random_new_my_door(&self, rng: &mut CachedRng, my_doors: &[MyDoor; 4]) -> (r: MyDoor)
        requires
            old(rng).wf(),
            doors_wf(*my_doors),
        ensures
            final(rng).wf(),
            r.coord.wf(),
            r.moving_through.is_none(),
            self.has_place_for_door(*my_doors) ==> self.suits_door(*my_doors, r.coord@, r.dim),
    {
        let mut tries: u32 = 0;
        while tries < 4096
            invariant
                rng.wf(),
                doors_wf(*my_doors),
            decreases 4096 - tries,
        {
            let coord = Coord::random(rng);
            proof {
                coord.lemma_view();
            }
            if Room::clear_of_doors(coord, my_doors) {
                let first = rng.gen_bool();
                let (a, b) = if first {
                    (Dim::X, Dim::Y)
                } else {
                    (Dim::Y, Dim::X)
                };
                if self.has_wall(coord, a) {
                    return MyDoor { coord, dim: a, moving_through: None };
                }
                if self.has_wall(coord, b) {
                    return MyDoor { coord, dim: b, moving_through: None };
                }
            }
            tries = tries + 1;
        }
        let mut i: u16 = 0;
        while i < INDICES
            invariant
                i <= INDICES,
                rng.wf(),
                doors_wf(*my_doors),
                forall|k: int, dim: Dim| 0 <= k < i ==> !#[trigger] self.suits_door(*my_doors, k, dim),
            decreases INDICES - i,
        {
            let coord = Coord::from_bit_index(BitIndex(i));
            proof {
                coord.lemma_view();
            }
            if Room::clear_of_doors(coord, my_doors) {
                if self.has_wall(coord, Dim::X) {
                    return MyDoor { coord, dim: Dim::X, moving_through: None };
                }
                if self.has_wall(coord, Dim::Y) {
                    return MyDoor { coord, dim: Dim::Y, moving_through: None };
                }
            }
            proof {
                assert forall|dim: Dim| !#[trigger] self.suits_door(*my_doors, i as int, dim) by {
                    match dim {
                        Dim::X => {},
                        Dim::Y => {},
                    }
                }
            }
            i = i + 1;
        }
        MyDoor::unplaced()
    }
}

/// Whether `color` plays by itself on a host that plays `controlling`
/// itself and lets the colors in `enabled` play by themselves.
pub open spec fn plays_alone(
    enabled: Seq<PlayerColor>,
    controlling: PlayerColor,
    color: PlayerColor,
) -> bool {
    color != controlling && enabled.contains(color)
}

impl Net {
    /// The player that plays the color in place `i` by itself, if one does.
    pub open spec fn ai_at(&self, i: int) -> Option<SinkAi> {
        match *self {
            Net::Server { server, ais } => ais[i],
            Net::Client(_) => None,
        }
    }

    /// The server, if the participant hosts the game.
    pub open spec fn server(&self) -> Option<Server> {
        match *self {
            Net::Server { server, ais } => Some(server),
            Net::Client(_) => None,
        }
    }

    /// The client, if the participant is a guest.
    pub open spec fn client(&self) -> Option<Client> {
        match *self {
            Net::Server { .. } => None,
            Net::Client(client) => Some(client),
        }
    }

    /// Every player that plays by itself is in order and plays the color
    /// in whose place it stands.
    pub open spec fn ais_in_order(&self) -> bool {
        forall|c: PlayerColor| #[trigger] self.ai_in_order(c)
    }

    /// The player that plays `c` by itself, if one does, is in order and
    /// plays that color.
    pub open spec fn ai_in_order(&self, c: PlayerColor) -> bool {
        self.ai_at(c.index()) matches Some(ai) ==> ai.ready() && ai.color() == c
    }

    /// The role is the same as in `before`, with the same server or client,
    /// and the same colors play by themselves.
    pub open spec fn role_kept(&self, before: &Net) -> bool {
        &&& self.server() == before.server()
        &&& self.client() == before.client()
        &&& forall|c: PlayerColor|
            (#[trigger] self.ai_at(c.index())).is_some() == before.ai_at(c.index()).is_some()
    }

    /// The role of a host that plays `controlling` itself. Of the colors in
    /// `ai_enabled`, those that the host does not play play by themselves,
    /// each with a player that sees `view_size` far.
    pub fn hosting(
        server: Server,
        ai_enabled: &Vec<PlayerColor>,
        controlling: PlayerColor,
        world: &World,
        view_size: Size,
    ) -> (r: Net)
        requires
            view_size.at(Dim::X) + 910 <= u16::MAX,
            view_size.at(Dim::Y) + 1820 <= u16::MAX,
        ensures
            r.server() == Some(server),
            r.ais_in_order(),
            forall|c: PlayerColor|
                (#[trigger] r.ai_at(c.index())).is_some() == plays_alone(
                    ai_enabled@,
                    controlling,
                    c,
                ),
            forall|c: PlayerColor|
                (#[trigger] r.ai_at(c.index())) matches Some(ai) ==> ai.sight() == view_size,
    {
        let mut alone: PlayerArr<bool> = [false, false, false];
        let mut k: usize = 0;
        while k < ai_enabled.len()
            invariant
                k <= ai_enabled.len(),
                alone[0] == plays_alone(ai_enabled@.take(k as int), controlling, PlayerColor::Black),
                alone[1] == plays_alone(ai_enabled@.take(k as int), controlling, PlayerColor::Blue),
                alone[2] == plays_alone(ai_enabled@.take(k as int), controlling, PlayerColor::Orange),
            decreases ai_enabled.len() - k,
        {
            let col = ai_enabled[k];
            if col != controlling {
                alone[col.to_index()] = true;
            }
            proof {
                let seen = ai_enabled@.take(k as int);
                let more = ai_enabled@.take(k + 1);
                assert(more =~= seen.push(col));
                assert forall|c: PlayerColor| more.contains(c) == (c == col || seen.contains(c)) by {
                    if c == col {
                        assert(more[k as int] == col);
                    }
                    if seen.contains(c) {
                        let j = choose|j: int| 0 <= j < seen.len() && seen[j] == c;
                        assert(more[j] == c);
                    }
                    if more.contains(c) && c != col {
                        let j = choose|j: int| 0 <= j < more.len() && more[j] == c;
                        assert(seen[j] == c);
                    }
                }
            }
            k = k + 1;
        }
        proof {
            assert(ai_enabled@.take(ai_enabled.len() as int) =~= ai_enabled@);
        }
        let black = if alone[0] {
            Some(SinkAi::new(PlayerColor::Black, world, view_size))
        } else {
            None
        };
        let blue = if alone[1] {
            Some(SinkAi::new(PlayerColor::Blue, world, view_size))
        } else {
            None
        };
        let orange = if alone[2] {
            Some(SinkAi::new(PlayerColor::Orange, world, view_size))
        } else {
            None
        };
        let r = Net::Server { server, ais: [black, blue, orange] };
        proof {
            assert forall|c: PlayerColor|
                (#[trigger] r.ai_at(c.index())).is_some() == plays_alone(
                    ai_enabled@,
                    controlling,
                    c,
                ) && r.ai_in_order(c) && (r.ai_at(c.index()) matches Some(ai) ==> ai.sight()
                    == view_size) by {
                match c {
                    PlayerColor::Black => {},
                    PlayerColor::Blue => {},
                    PlayerColor::Orange => {},
                }
            }
        }
        r
    }

    /// Whether the participant hosts the game.
    pub fn is_server(&self) -> (r: bool)
        ensures
            r == (*self is Server),
    {
        match self {
            Net::Server { .. } => true,
            Net::Client(_) => false,
        }
    }

    /// Takes the player that plays the color in place `i` by itself out of
    /// its place, if one does.
    fn take_ai(&mut self, i: usize) -> (r: Option<SinkAi>)
        requires
            i < 3,
        ensures
            r == old(self).ai_at(i as int),
            final(self).ai_at(i as int).is_none(),
            forall|k: int| 0 <= k < 3 && k != i ==> final(self).ai_at(k) == old(self).ai_at(k),
            final(self).server() == old(self).server(),
            final(self).client() == old(self).client(),
    {
        match self {
            Net::Server { server, ais } => ais[i].take(),
            Net::Client(_) => None,
        }
    }

    /// Puts a player that plays by itself into place `i`.
    fn put_ai(&mut self, i: usize, ai: SinkAi)
        requires
            i < 3,
            *old(self) is Server,
        ensures
            final(self).ai_at(i as int) == Some(ai),
            forall|k: int| 0 <= k < 3 && k != i ==> final(self).ai_at(k) == old(self).ai_at(k),
            final(self).server() == old(self).server(),
            final(self).client() == old(self).client(),
    {
        match self {
            Net::Server { server, ais } => {
                ais[i] = Some(ai);
            },
            Net::Client(_) => {},
        }
    }
}

impl GameState {
    /// The doors sit on cells, the generator is in order, and so are the
    /// players that play by themselves.
    pub open spec fn wf(&self) -> bool {
        &&& doors_wf(self.my_doors)
        &&& self.local_rng.wf()
        &&& self.net.ais_in_order()
    }

    /// A game in the given role and world, with four doors put at random
    /// and no key held down.
    pub fn new(
        net: Net,
        world: World,
        controlling: PlayerColor,
        input_config: InputConfig,
        local_rng: CachedRng,
    ) -> (r: GameState)
        requires
            local_rng.wf(),
            net.ais_in_order(),
        ensures
            r.wf(),
            r.world == world,
            r.controlling == controlling,
            r.net == net,
            r.input_config == input_config,
    {
        let mut local_rng = local_rng;
        let my_doors = world.room.random_new_my_doors(&mut local_rng);
        GameState {
            my_doors,
            net,
            world,
            pressing_state: PressingState::default(),
            controlling,
            local_rng,
            input_config,
        }
    }

    /// The middle of the wall of the kind `dim` that `coord` owns.
    pub fn wall_pos(coord: Coord, dim: Dim) -> (r: Pos)
        requires
            coord.wf(),
        ensures
            r == wall_middle(coord@, dim),
    {
        proof {
            coord.lemma_view();
        }
        match dim {
            Dim::X => coord.corner_pos() + DimMap::new_xy(WrapInt(2048), WrapInt(0)),
            Dim::Y => coord.corner_pos() + DimMap::new_xy(WrapInt(0), WrapInt(4096)),
        }
    }

    /// Takes note that a peer has taken over `color`: the color no longer
    /// plays by itself, and its player stands still until the peer steers
    /// it.
    pub fn peer_joined(&mut self, color: PlayerColor)
        ensures
            final(self).world.entities == old(self).world.entities.with_player(
                color,
                Player { pos: old(self).world.entities.player(color).pos, vel: DimMap::xy(None, None) },
            ),
            final(self).world.room == old(self).world.room,
            final(self).my_doors == old(self).my_doors,
            final(self).controlling == old(self).controlling,
            final(self).local_rng == old(self).local_rng,
            final(self).net.server() == old(self).net.server(),
            final(self).net.client() == old(self).net.client(),
            final(self).net.ai_at(color.index()).is_none(),
            forall|c: PlayerColor|
                c != color ==> #[trigger] final(self).net.ai_at(c.index()) == old(self).net.ai_at(
                    c.index(),
                ),
            old(self).wf() ==> final(self).wf(),
    {
        let i = color.to_index();
        self.net.take_ai(i);
        proof {
            assert forall|c: PlayerColor| c != color implies #[trigger] self.net.ai_at(c.index())
                == old(self).net.ai_at(c.index()) by {
                assert(0 <= c.index() < 3 && c.index() != i);
            }
            if old(self).wf() {
                assert forall|c: PlayerColor| #[trigger] self.net.ai_in_order(c) by {
                    assert(old(self).net.ai_in_order(c));
                    assert(0 <= c.index() < 3);
                }
            }
        }
        let pos = self.world.entities.players[i].pos;
        self.world.entities.players[i] = Player { pos, vel: DimMap::new_xy(None, None) };
        proof {
            let goal = old(self).world.entities.with_player(
                color,
                Player { pos: old(self).world.entities.player(color).pos, vel: DimMap::xy(None, None) },
            );
            assert(self.world.entities.players =~= goal.players);
        }
    }

    /// Takes note that the key that steers in direction `dir` has changed
    /// its state, and steers the participant's own player accordingly.
    pub fn update_move_key(&mut self, dir: Direction, state: KeyState)
        ensures
            final(self).pressing_state.axis(dir.axis()).state(dir.sense()) == state,
            final(self).world.entities.player(old(self).controlling).vel.at(dir.axis()) == final(self).pressing_state.axis(dir.axis()).solo(),
            final(self).world.entities.player(old(self).controlling).vel.at(dir.axis().other())
                == old(self).world.entities.player(old(self).controlling).vel.at(
                dir.axis().other(),
            ),
            final(self).world.entities.player(old(self).controlling).pos == old(self).world.entities.player(old(self).controlling).pos,
            forall|c: PlayerColor|
                c != old(self).controlling ==> final(self).world.entities.player(c) == old(self).world.entities.player(c),
            final(self).world.entities.teleporters == old(self).world.entities.teleporters,
            final(self).world.room == old(self).world.room,
            final(self).my_doors == old(self).my_doors,
            final(self).controlling == old(self).controlling,
            final(self).local_rng == old(self).local_rng,
    {
        let steer = self.pressing_state.press(dir, state);
        let i = self.controlling.to_index();
        let mut player = self.world.entities.players[i];
        player.vel.set(dir.dim(), steer);
        self.world.entities.players[i] = player;
    }

    /// What the key with the code `key` does: the first of ending the game
    /// and steering up, down, left or right to which the key is bound.
    pub fn key_action(&self, key: u32) -> (r: KeyAction)
        ensures
            r == self.input_config.bound_to(key),
    {
        if key == self.input_config.exit {
            KeyAction::Halt
        } else if key == self.input_config.up {
            KeyAction::Steer(Direction::Up)
        } else if key == self.input_config.down {
            KeyAction::Steer(Direction::Down)
        } else if key == self.input_config.left {
            KeyAction::Steer(Direction::Left)
        } else if key == self.input_config.right {
            KeyAction::Steer(Direction::Right)
        } else {
            KeyAction::Ignore
        }
    }

    /// Handles a key that has changed its state. Returns whether the game
    /// goes on.
    pub fn handle_key(&mut self, key: u32, state: KeyState) -> (r: bool)
        ensures
            r == (old(self).input_config.bound_to(key) != KeyAction::Halt),
            old(self).input_config.bound_to(key) is Steer || final(self).world.entities == old(self).world.entities,
            final(self).controlling == old(self).controlling,
            final(self).my_doors == old(self).my_doors,
            final(self).local_rng == old(self).local_rng,
    {
        match self.key_action(key) {
            KeyAction::Halt => false,
            KeyAction::Steer(dir) => {
                self.update_move_key(dir, state);
                true
            },
            KeyAction::Ignore => true,
        }
    }
}

/// The participant's own player and its doors while the player runs into
/// the walls round it: the player, the doors, and the places of the doors
/// that the player is passing through.
pub struct Contact {
    pub player: Player,
    pub doors: [MyDoor; 4],
    pub through: Set<int>,
}

/// The place in `doors` of the first door that sits in the wall of the kind
/// `dim` that the cell with index `cell` owns, if one does.
pub open spec fn door_in(doors: [MyDoor; 4], cell: int, dim: Dim) -> Option<int> {
    if doors[0].dim == dim && doors[0].coord@ == cell {
        Some(0int)
    } else if doors[1].dim == dim && doors[1].coord@ == cell {
        Some(1int)
    } else if doors[2].dim == dim && doors[2].coord@ == cell {
        Some(2int)
    } else if doors[3].dim == dim && doors[3].coord@ == cell {
        Some(3int)
    } else {
        None
    }
}

/// The door after a player at `pos` has touched the wall in which it sits,
/// a wall of the kind `dim` with its middle at `middle`. A door that was
/// closed lets the player through, across the wall and towards the side of
/// the middle on which the player is not. A door that the player was
/// passing already stays as it is.
pub open spec fn opened(door: MyDoor, dim: Dim, pos: Pos, middle: Pos) -> MyDoor {
    if door.moving_through.is_none() {
        MyDoor {
            moving_through: Some(
                if pos.at(dim.other()).precedes(middle.at(dim.other())) {
                    Sign::Positive
                } else {
                    Sign::Negative
                },
            ),
            coord: door.coord,
            dim: door.dim,
        }
    } else {
        door
    }
}

/// What becomes of player and doors when the wall of the kind `dim` that
/// the cell with index `cell` owns is looked at. Nothing, if the wall
/// does not stand or the player is not within its reach. Else, if a door
/// sits in the wall, the door opens and counts as passed through; if none
/// does, the player is set back to the edge of the wall's reach.
pub open spec fn touched(room: &Room, c: Contact, cell: int, dim: Dim) -> Contact {
    let rect = Rect { center: wall_middle(cell, dim), size: wall_reach(dim) };
    if !room.walls(dim).contains(cell) || !rect.holds(c.player.pos) {
        c
    } else {
        match door_in(c.doors, cell, dim) {
            Some(i) => Contact {
                player: c.player,
                doors: vstd::array::spec_array_update(
                    c.doors,
                    i,
                    opened(c.doors[i], dim, c.player.pos, rect.center),
                ),
                through: c.through.insert(i),
            },
            None => Contact { player: c.player.snapped(&rect), doors: c.doors, through: c.through },
        }
    }
}

/// What becomes of player and doors when the walls of the kind `dim` of the
/// first `n` of `cells` are looked at one after the other.
pub open spec fn touched_all(room: &Room, c: Contact, cells: Seq<int>, dim: Dim, n: nat) -> Contact
    decreases n,
{
    if n == 0 {
        c
    } else {
        touched(room, touched_all(room, c, cells, dim, (n - 1) as nat), cells[n - 1], dim)
    }
}

/// The cells whose walls of the kind `dim` something at `pos` may touch,
/// the nearest two first.
pub open spec fn cells_to_check(pos: Pos, dim: Dim) -> Seq<int> {
    let a = crate::game::room::cell_index(pos.minus(crate::game::room::half_cell_along(dim.other())));
    let b = crate::game::room::neighbour(a, Direction::of(dim.other(), Sign::Positive));
    match dim {
        Dim::X => seq![
            a,
            b,
            crate::game::room::neighbour(a, Direction::Left),
            crate::game::room::neighbour(a, Direction::Right),
            crate::game::room::neighbour(b, Direction::Left),
            crate::game::room::neighbour(b, Direction::Right),
        ],
        Dim::Y => seq![
            a,
            b,
            crate::game::room::neighbour(a, Direction::Up),
            crate::game::room::neighbour(b, Direction::Up),
            crate::game::room::neighbour(a, Direction::Down),
            crate::game::room::neighbour(b, Direction::Down),
        ],
    }
}

/// What becomes of player and doors when the walls of the kind `dim` round
/// the player are looked at.
#[verifier::opaque]
pub open spec fn touched_round(room: &Room, c: Contact, dim: Dim) -> Contact {
    touched_all(room, c, cells_to_check(c.player.pos, dim), dim, 6)
}

/// What becomes of a player and its doors when the player runs into the
/// walls round it: first the walls that run along `X` are looked at, then,
/// from where the player is by then, those that run along `Y`.
pub open spec fn after_walls(room: &Room, player: Player, doors: [MyDoor; 4]) -> Contact {
    touched_round(
        room,
        touched_round(room, Contact { player, doors, through: Set::empty() }, Dim::X),
        Dim::Y,
    )
}

/// Looking at walls changes where the player stands, never how it moves.
pub proof fn lemma_touched_all_keeps_velocity(
    room: &Room,
    c: Contact,
    cells: Seq<int>,
    dim: Dim,
    n: nat,
)
    ensures
        touched_all(room, c, cells, dim, n).player.vel == c.player.vel,
    decreases n,
{
    if n > 0 {
        lemma_touched_all_keeps_velocity(room, c, cells, dim, (n - 1) as nat);
    }
}

/// Running into walls changes where the player stands, never how it moves.
pub proof fn lemma_touched_keeps_velocity(room: &Room, player: Player, doors: [MyDoor; 4])
    ensures
        after_walls(room, player, doors).player.vel == player.vel,
{
    reveal(touched_round);
    let c0 = Contact { player, doors, through: Set::empty() };
    lemma_touched_all_keeps_velocity(room, c0, cells_to_check(c0.player.pos, Dim::X), Dim::X, 6);
    let c1 = touched_round(room, c0, Dim::X);
    lemma_touched_all_keeps_velocity(room, c1, cells_to_check(c1.player.pos, Dim::Y), Dim::Y, 6);
}

/// The doors among which a new place is sought for the door in place `i`:
/// those before it as they end up, the door itself closed where it was,
/// and those after it as the walls left them.
pub open spec fn doors_while_placing(mid: [MyDoor; 4], fin: [MyDoor; 4], i: int) -> [MyDoor; 4] {
    [
        door_while_placing(mid, fin, i, 0),
        door_while_placing(mid, fin, i, 1),
        door_while_placing(mid, fin, i, 2),
        door_while_placing(mid, fin, i, 3),
    ]
}

/// The door in place `k` while a new place is sought for the door in place
/// `i`.
pub open spec fn door_while_placing(mid: [MyDoor; 4], fin: [MyDoor; 4], i: int, k: int) -> MyDoor {
    if k < i {
        fin[k]
    } else if k == i {
        MyDoor { moving_through: None, coord: mid[k].coord, dim: mid[k].dim }
    } else {
        mid[k]
    }
}

/// What has become of the door in place `i` once the player has run into
/// the walls, which left player and doors as `mid` says, and the doors
/// stand as `fin` says. A door that the player is passing, or that was
/// closed, is as the walls left it. A door that the player has left sits
/// closed in another wall: one that stands, on a cell not too near to any
/// other door, if there is such a wall.
pub open spec fn door_settled(room: &Room, mid: Contact, fin: [MyDoor; 4], i: int) -> bool {
    if mid.through.contains(i) || mid.doors[i].moving_through.is_none() {
        fin[i] == mid.doors[i]
    } else {
        let around = doors_while_placing(mid.doors, fin, i);
        &&& fin[i].coord.wf()
        &&& fin[i].moving_through.is_none()
        &&& room.has_place_for_door(around) ==> room.suits_door(around, fin[i].coord@, fin[i].dim)
    }
}

/// Whether a door is settled does not depend on the doors after it.
pub proof fn lemma_settled_frame(room: &Room, mid: Contact, f1: [MyDoor; 4], f2: [MyDoor; 4], i: int)
    requires
        0 <= i < 4,
        forall|k: int| 0 <= k <= i ==> f1[k] == f2[k],
        door_settled(room, mid, f1, i),
    ensures
        door_settled(room, mid, f2, i),
{
    assert(doors_while_placing(mid.doors, f1, i) =~= doors_while_placing(mid.doors, f2, i));
}

/// The player who stood at `pos` when the teleporters began to look at it
/// has stepped on the teleporter in place `j`, where that one is now.
pub open spec fn steps_on(entities: Entities, j: int, pos: Pos) -> bool {
    (Rect { center: entities.teleporters[j], size: teleporter_reach() }).holds(pos)
}

/// What the teleporter in place `j` makes of the world `before` and of
/// the marks `marked` when it looks at the player in place `i`, who stood
/// at `pos` when the teleporters began to look at it. If the player
/// stepped on the teleporter, the player is put in the middle of a cell
/// with nothing near, and then the teleporter too, and the player is
/// marked. Else nothing happens.
pub open spec fn teleported(
    before: Entities,
    after: Entities,
    marked: PlayerArr<bool>,
    marks: PlayerArr<bool>,
    i: int,
    j: int,
    pos: Pos,
) -> bool {
    if steps_on(before, j, pos) {
        &&& is_cell_center(after.players[i].pos)
        &&& before.clear_of(after.players[i].pos)
        &&& after.players[i].vel == before.players[i].vel
        &&& forall|k: int| 0 <= k < 3 && k != i ==> after.players[k] == before.players[k]
        &&& is_cell_center(after.teleporters[j])
        &&& (Entities { players: after.players, teleporters: before.teleporters }).clear_of(
            after.teleporters[j],
        )
        &&& after.teleporters[1 - j] == before.teleporters[1 - j]
        &&& marks[i]
        &&& forall|k: int| 0 <= k < 3 && k != i ==> marks[k] == marked[k]
    } else {
        after == before && marks == marked
    }
}

/// The worlds and marks through which the teleporters go when they look at
/// the three players one after the other.
pub open spec fn teleport_chain(
    e0: Entities,
    e1: Entities,
    e2: Entities,
    e3: Entities,
    e4: Entities,
    e5: Entities,
    e6: Entities,
    m0: PlayerArr<bool>,
    m1: PlayerArr<bool>,
    m2: PlayerArr<bool>,
    m3: PlayerArr<bool>,
    m4: PlayerArr<bool>,
    m5: PlayerArr<bool>,
    m6: PlayerArr<bool>,
) -> bool {
    &&& teleported(e0, e1, m0, m1, 0, 0, e0.players[0].pos)
    &&& teleported(e1, e2, m1, m2, 0, 1, e0.players[0].pos)
    &&& teleported(e2, e3, m2, m3, 1, 0, e2.players[1].pos)
    &&& teleported(e3, e4, m3, m4, 1, 1, e2.players[1].pos)
    &&& teleported(e4, e5, m4, m5, 2, 0, e4.players[2].pos)
    &&& teleported(e5, e6, m5, m6, 2, 1, e4.players[2].pos)
}

/// The teleporters have made the world `after` and the marks `marks` of
/// the world `before` and the marks `marked`. They look at the players one
/// after the other, and both teleporters at each player, who counts as
/// standing where it stood when they began to look at it.
pub open spec fn teleport_pass(
    before: Entities,
    after: Entities,
    marked: PlayerArr<bool>,
    marks: PlayerArr<bool>,
) -> bool {
    exists|
        e1: Entities,
        e2: Entities,
        e3: Entities,
        e4: Entities,
        e5: Entities,
        m1: PlayerArr<bool>,
        m2: PlayerArr<bool>,
        m3: PlayerArr<bool>,
        m4: PlayerArr<bool>,
        m5: PlayerArr<bool>,
    | #[trigger]
        teleport_chain(before, e1, e2, e3, e4, e5, after, marked, m1, m2, m3, m4, m5, marks)
}

impl GameState {
    /// The velocity with which the player of `color` moves in this tick: its
    /// own, but for the participant's own player, which is carried on
    /// through the doors that it is passing.
    pub open spec fn effective_vel(&self, color: PlayerColor) -> Vel {
        let vel = self.world.entities.player(color).vel;
        if color == self.controlling {
            carried_by_all(vel, self.my_doors)
        } else {
            vel
        }
    }

    /// All but the world and the doors is as in `before`.
    pub open spec fn same_setting(&self, before: &GameState) -> bool {
        &&& self.world.room == before.world.room
        &&& self.controlling == before.controlling
        &&& self.net == before.net
        &&& self.input_config == before.input_config
        &&& self.pressing_state == before.pressing_state
    }

    /// The room, the role and the keys are as in `before`, and the same
    /// colors play by themselves.
    pub open spec fn kept_setting(&self, before: &GameState) -> bool {
        &&& self.world.room == before.world.room
        &&& self.controlling == before.controlling
        &&& self.net.role_kept(&before.net)
        &&& self.input_config == before.input_config
        &&& self.pressing_state == before.pressing_state
    }

    /// Every player moves as it did in `before`.
    pub open spec fn same_velocities(&self, before: &GameState) -> bool {
        forall|c: PlayerColor|
            (#[trigger] self.world.entities.player(c)).vel == before.world.entities.player(c).vel
    }

    /// Moves every player by one tick.
    fn advance(&mut self)
        ensures
            forall|c: PlayerColor| #[trigger]
                final(self).world.entities.player(c) == old(self).world.entities.player(
                    c,
                ).moved_by(old(self).effective_vel(c)),
            final(self).world.entities.teleporters == old(self).world.entities.teleporters,
            final(self).my_doors == old(self).my_doors,
            final(self).local_rng == old(self).local_rng,
            final(self).same_setting(old(self)),
    {
        let colors = PlayerColor::iter_domain();
        let mut i: usize = 0;
        while i < 3
            invariant
                i <= 3,
                colors@ == seq![PlayerColor::Black, PlayerColor::Blue, PlayerColor::Orange],
                forall|k: int|
                    0 <= k < i ==> #[trigger] self.world.entities.players[k] == old(self).world.entities.players[k].moved_by(old(self).effective_vel(colors@[k])),
                forall|k: int|
                    i <= k < 3 ==> #[trigger] self.world.entities.players[k] == old(self).world.entities.players[k],
                self.world.entities.teleporters == old(self).world.entities.teleporters,
                self.my_doors == old(self).my_doors,
                self.local_rng == old(self).local_rng,
                self.same_setting(old(self)),
            decreases 3 - i,
        {
            let col = colors[i];
            let mut player = self.world.entities.players[i];
            let mut effective_vel = player.vel;
            if col == self.controlling {
                effective_vel = carry(effective_vel, &self.my_doors[0]);
                effective_vel = carry(effective_vel, &self.my_doors[1]);
                effective_vel = carry(effective_vel, &self.my_doors[2]);
                effective_vel = carry(effective_vel, &self.my_doors[3]);
            }
            player.step(effective_vel);
            self.world.entities.players[i] = player;
            i = i + 1;
        }
        proof {
            assert forall|c: PlayerColor| #[trigger]
                self.world.entities.player(c) == old(self).world.entities.player(c).moved_by(
                    old(self).effective_vel(c),
                ) by {
                assert(colors@[c.index()] == c);
                assert(self.world.entities.players[c.index()] == old(self).world.entities.players[c.index()].moved_by(old(self).effective_vel(c)));
            }
        }
    }

    /// Lets every predator that has caught its prey send the prey off to a
    /// random free place. Says whose player was sent off.
    fn capture(&mut self) -> (r: PlayerArr<bool>)
        requires
            old(self).wf(),
        ensures
            final(self).wf(),
            final(self).same_velocities(old(self)),
            forall|c: PlayerColor|
                if r[c.index()] {
                    is_cell_center((#[trigger] final(self).world.entities.player(c)).pos)
                } else {
                    final(self).world.entities.player(c).pos == old(self).world.entities.player(
                        c,
                    ).pos
                },
            final(self).world.entities.teleporters == old(self).world.entities.teleporters,
            final(self).my_doors == old(self).my_doors,
            final(self).same_setting(old(self)),
    {
        let colors = PlayerColor::iter_domain();
        let mut moved: PlayerArr<bool> = [false, false, false];
        let mut i: usize = 0;
        while i < 3
            invariant
                i <= 3,
                colors@ == seq![PlayerColor::Black, PlayerColor::Blue, PlayerColor::Orange],
                self.wf(),
                forall|k: int|
                    0 <= k < 3 ==> (#[trigger] self.world.entities.players[k]).vel == old(self).world.entities.players[k].vel,
                forall|k: int|
                    0 <= k < 3 ==> if moved[k] {
                        is_cell_center((#[trigger] self.world.entities.players[k]).pos)
                    } else {
                        self.world.entities.players[k].pos == old(self).world.entities.players[k].pos
                    },
                self.world.entities.teleporters == old(self).world.entities.teleporters,
                self.my_doors == old(self).my_doors,
                self.same_setting(old(self)),
            decreases 3 - i,
        {
            let predator = colors[i];
            let prey = predator.prey().to_index();
            let rect = Rect { center: self.world.entities.players[prey].pos, size: player_size() };
            if rect.contains(self.world.entities.players[i].pos) {
                let pos = self.world.entities.random_free_space(&mut self.local_rng);
                let vel = self.world.entities.players[prey].vel;
                self.world.entities.players[prey] = Player { pos, vel };
                moved[prey] = true;
            }
            i = i + 1;
        }
        proof {
            assert forall|c: PlayerColor|
                (#[trigger] self.world.entities.player(c)).vel == old(self).world.entities.player(
                    c,
                ).vel by {
                assert(self.world.entities.players[c.index()].vel == old(self).world.entities.players[c.index()].vel);
            }
            assert forall|c: PlayerColor|
                if moved[c.index()] {
                    is_cell_center((#[trigger] self.world.entities.player(c)).pos)
                } else {
                    self.world.entities.player(c).pos == old(self).world.entities.player(c).pos
                } by {
                assert(0 <= c.index() < 3);
            }
        }
        moved
    }

    /// Lets the teleporter in place `j` send off the player in place `i`,
    /// who stood at `player_pos` when the teleporters began to look at it,
    /// if the player stepped on the teleporter.
    fn teleport_one(&mut self, moved: &mut PlayerArr<bool>, i: usize, j: usize, player_pos: Pos)
        requires
            old(self).wf(),
            i < 3,
            j < 2,
        ensures
            final(self).wf(),
            teleported(
                old(self).world.entities,
                final(self).world.entities,
                *old(moved),
                *final(moved),
                i as int,
                j as int,
                player_pos,
            ),
            final(self).my_doors == old(self).my_doors,
            final(self).local_rng.cached() == old(self).local_rng.cached(),
            final(self).local_rng.cached_bits() == old(self).local_rng.cached_bits(),
            final(self).same_setting(old(self)),
    {
        let rect = Rect { center: self.world.entities.teleporters[j], size: teleporter_reach_value() };
        if rect.contains(player_pos) {
            let pos = self.world.entities.random_free_space(&mut self.local_rng);
            let vel = self.world.entities.players[i].vel;
            self.world.entities.players[i] = Player { pos, vel };
            let gone = self.world.entities.random_free_space(&mut self.local_rng);
            self.world.entities.teleporters[j] = gone;
            moved[i] = true;
            proof {
                let between = Entities {
                    players: self.world.entities.players,
                    teleporters: old(self).world.entities.teleporters,
                };
                assert(between.players =~= self.world.entities.players);
                assert(between.clear_of(gone));
            }
        } else {
            proof {
                assert(moved@ =~= old(moved)@);
            }
        }
    }

    /// Lets every teleporter that a player has stepped on send the player
    /// off to a random free place, and go to another one itself. The
    /// players are looked at one after the other, and for each player the
    /// teleporters one after the other, each where it is by then. Marks in
    /// `moved` whose player was sent off.
    fn teleport(&mut self, moved: &mut PlayerArr<bool>)
        requires
            old(self).wf(),
        ensures
            final(self).wf(),
            teleport_pass(
                old(self).world.entities,
                final(self).world.entities,
                *old(moved),
                *final(moved),
            ),
            final(self).same_velocities(old(self)),
            forall|c: PlayerColor| old(moved)[c.index()] ==> #[trigger] final(moved)[c.index()],
            forall|c: PlayerColor|
                (#[trigger] final(self).world.entities.player(c)).pos == old(self).world.entities.player(c).pos || (final(moved)[c.index()] && is_cell_center(
                    final(self).world.entities.player(c).pos,
                )),
            forall|k: int|
                0 <= k < 2 ==> (#[trigger] final(self).world.entities.teleporters[k]) == old(self).world.entities.teleporters[k] || is_cell_center(
                    final(self).world.entities.teleporters[k],
                ),
            final(self).my_doors == old(self).my_doors,
            final(self).local_rng.cached() == old(self).local_rng.cached(),
            final(self).local_rng.cached_bits() == old(self).local_rng.cached_bits(),
            final(self).same_setting(old(self)),
    {
        let first = self.world.entities.players[0].pos;
        self.teleport_one(moved, 0, 0, first);
        let ghost e1 = self.world.entities;
        let ghost m1 = *moved;
        self.teleport_one(moved, 0, 1, first);
        let ghost e2 = self.world.entities;
        let ghost m2 = *moved;
        let second = self.world.entities.players[1].pos;
        self.teleport_one(moved, 1, 0, second);
        let ghost e3 = self.world.entities;
        let ghost m3 = *moved;
        self.teleport_one(moved, 1, 1, second);
        let ghost e4 = self.world.entities;
        let ghost m4 = *moved;
        let third = self.world.entities.players[2].pos;
        self.teleport_one(moved, 2, 0, third);
        let ghost e5 = self.world.entities;
        let ghost m5 = *moved;
        self.teleport_one(moved, 2, 1, third);
        proof {
            let e0 = old(self).world.entities;
            let e6 = self.world.entities;
            assert(teleport_chain(
                e0,
                e1,
                e2,
                e3,
                e4,
                e5,
                e6,
                *old(moved),
                m1,
                m2,
                m3,
                m4,
                m5,
                *moved,
            ));
            assert forall|c: PlayerColor|
                (#[trigger] self.world.entities.player(c)).vel == old(self).world.entities.player(
                    c,
                ).vel by {
                let k = c.index();
                assert(e1.players[k].vel == e0.players[k].vel);
                assert(e2.players[k].vel == e1.players[k].vel);
                assert(e3.players[k].vel == e2.players[k].vel);
                assert(e4.players[k].vel == e3.players[k].vel);
                assert(e5.players[k].vel == e4.players[k].vel);
                assert(e6.players[k].vel == e5.players[k].vel);
            }
            assert forall|c: PlayerColor| old(moved)[c.index()] implies #[trigger] moved[c.index()] by {
                let k = c.index();
                assert(m1[k] || !old(moved)[k]);
                assert(m2[k] || !m1[k]);
                assert(m3[k] || !m2[k]);
                assert(m4[k] || !m3[k]);
                assert(m5[k] || !m4[k]);
                assert(moved[k] || !m5[k]);
            }
            assert forall|c: PlayerColor|
                (#[trigger] self.world.entities.player(c)).pos == old(self).world.entities.player(
                    c,
                ).pos || (moved[c.index()] && is_cell_center(self.world.entities.player(c).pos)) by {
                let k = c.index();
                assert(e1.players[k].pos == e0.players[k].pos || (m1[k] && is_cell_center(
                    e1.players[k].pos,
                )));
                assert(e2.players[k].pos == e1.players[k].pos || (m2[k] && is_cell_center(
                    e2.players[k].pos,
                )));
                assert(e3.players[k].pos == e2.players[k].pos || (m3[k] && is_cell_center(
                    e3.players[k].pos,
                )));
                assert(e4.players[k].pos == e3.players[k].pos || (m4[k] && is_cell_center(
                    e4.players[k].pos,
                )));
                assert(e5.players[k].pos == e4.players[k].pos || (m5[k] && is_cell_center(
                    e5.players[k].pos,
                )));
                assert(e6.players[k].pos == e5.players[k].pos || (moved[k] && is_cell_center(
                    e6.players[k].pos,
                )));
                assert(m2[k] || !m1[k]);
                assert(m3[k] || !m2[k]);
                assert(m4[k] || !m3[k]);
                assert(m5[k] || !m4[k]);
                assert(moved[k] || !m5[k]);
            }
            assert forall|k: int|
                0 <= k < 2 implies (#[trigger] self.world.entities.teleporters[k]) == old(self).world.entities.teleporters[k] || is_cell_center(
                self.world.entities.teleporters[k],
            ) by {
                assert(e1.teleporters[k] == e0.teleporters[k] || is_cell_center(e1.teleporters[k]));
                assert(e2.teleporters[k] == e1.teleporters[k] || is_cell_center(e2.teleporters[k]));
                assert(e3.teleporters[k] == e2.teleporters[k] || is_cell_center(e3.teleporters[k]));
                assert(e4.teleporters[k] == e3.teleporters[k] || is_cell_center(e4.teleporters[k]));
                assert(e5.teleporters[k] == e4.teleporters[k] || is_cell_center(e5.teleporters[k]));
                assert(e6.teleporters[k] == e5.teleporters[k] || is_cell_center(e6.teleporters[k]));
            }
        }
    }

    /// The place in `my_doors` of the door that sits in the wall of the kind
    /// `dim` that `coord` owns, if one does: the first such place.
    fn door_at(&self, coord: Coord, dim: Dim) -> (r: Option<usize>)
        requires
            coord.wf(),
            doors_wf(self.my_doors),
        ensures
            match r {
                Some(i) => i < 4 && door_in(self.my_doors, coord@, dim) == Some(i as int),
                None => door_in(self.my_doors, coord@, dim).is_none(),
            },
    {
        let mut i: usize = 0;
        while i < 4
            invariant
                i <= 4,
                coord.wf(),
                doors_wf(self.my_doors),
                forall|k: int|
                    0 <= k < i ==> !((#[trigger] self.my_doors[k]).dim == dim
                        && self.my_doors[k].coord@ == coord@),
            decreases 4 - i,
        {
            if self.my_doors[i].dim == dim && self.my_doors[i].coord.same_cell(coord) {
                return Some(i);
            }
            i = i + 1;
        }
        None
    }

    /// The participant's own player and its doors, and the places of the
    /// doors in `through`.
    pub open spec fn contact(&self, through: Set<int>) -> Contact {
        Contact {
            player: self.world.entities.player(self.controlling),
            doors: self.my_doors,
            through,
        }
    }

    /// Lets the participant's own player run into the walls of the kind
    /// `dim` round it, and notes in `through` the doors that it passes.
    fn touch_walls(&mut self, through: &mut MyDoorIndexSet, dim: Dim)
        requires
            old(self).wf(),
        ensures
            final(self).wf(),
            final(self).contact(final(through)@) == touched_round(
                &old(self).world.room,
                old(self).contact(old(through)@),
                dim,
            ),
            forall|k: int|
                0 <= k < 3 && k != old(self).controlling.index() ==> #[trigger] final(self).world.entities.players[k] == old(self).world.entities.players[k],
            final(self).world.entities.teleporters == old(self).world.entities.teleporters,
            final(self).local_rng == old(self).local_rng,
            final(self).same_setting(old(self)),
    {
        reveal(touched_round);
        let me = self.controlling.to_index();
        let cells = Room::wall_cells_to_check_at(self.world.entities.players[me].pos, dim);
        let reach = mean_size(wall_size(dim), player_size());
        let ghost start = old(self).contact(old(through)@);
        let ghost round = cells_to_check(start.player.pos, dim);
        proof {
            assert(reach == wall_reach(dim));
            assert forall|k: int| 0 <= k < 6 implies (#[trigger] cells@[k])@ == round[k] by {
                match dim {
                    Dim::X => {},
                    Dim::Y => {},
                }
            }
            assert(self.contact(through@) == start);
        }
        let mut n: usize = 0;
        while n < 6
            invariant
                n <= 6,
                me == self.controlling.index(),
                reach == wall_reach(dim),
                forall|k: int| 0 <= k < 6 ==> (#[trigger] cells@[k]).wf(),
                forall|k: int| 0 <= k < 6 ==> (#[trigger] cells@[k])@ == round[k],
                self.wf(),
                self.contact(through@) == touched_all(
                    &old(self).world.room,
                    start,
                    round,
                    dim,
                    n as nat,
                ),
                forall|k: int|
                    0 <= k < 3 && k != me ==> #[trigger] self.world.entities.players[k] == old(self).world.entities.players[k],
                self.world.entities.teleporters == old(self).world.entities.teleporters,
                self.local_rng == old(self).local_rng,
                self.same_setting(old(self)),
            decreases 6 - n,
        {
            let coord = cells[n];
            let ghost before = self.contact(through@);
            let ghost after = touched(&old(self).world.room, before, coord@, dim);
            proof {
                assert(touched_all(&old(self).world.room, start, round, dim, (n + 1) as nat)
                    == touched(
                    &old(self).world.room,
                    touched_all(&old(self).world.room, start, round, dim, n as nat),
                    round[n as int],
                    dim,
                ));
            }
            if self.world.room.has_wall(coord, dim) {
                let rect = Rect { center: GameState::wall_pos(coord, dim), size: reach };
                let mut player = self.world.entities.players[me];
                if rect.contains(player.pos) {
                    match self.door_at(coord, dim) {
                        Some(i) => {
                            let mut my_door = self.my_doors[i];
                            if my_door.moving_through.is_none() {
                                let across = core::ops::Not::not(dim);
                                my_door.moving_through = Some(
                                    if *player.pos.get(across) < *rect.center.get(across) {
                                        Sign::Positive
                                    } else {
                                        Sign::Negative
                                    },
                                );
                                self.my_doors[i] = my_door;
                            }
                            through.insert(i);
                            proof {
                                assert(self.my_doors[i as int] == opened(
                                    before.doors[i as int],
                                    dim,
                                    before.player.pos,
                                    rect.center,
                                ));
                                assert(self.my_doors =~= after.doors);
                            }
                        },
                        None => {
                            player.snap_pos_wrt_vel(&rect);
                            self.world.entities.players[me] = player;
                        },
                    }
                }
            }
            proof {
                assert(self.contact(through@).player == after.player);
                assert(self.contact(through@).doors == after.doors);
                assert(self.contact(through@).through == after.through);
            }
            n = n + 1;
        }
    }

    /// Gives every door that the participant's own player has left, which
    /// are the open doors whose places are not in `through`, a new place.
    fn settle_doors(&mut self, through: &MyDoorIndexSet)
        requires
            old(self).wf(),
        ensures
            final(self).wf(),
            forall|i: int|
                0 <= i < 4 ==> #[trigger] door_settled(
                    &old(self).world.room,
                    old(self).contact(through@),
                    final(self).my_doors,
                    i,
                ),
            final(self).world == old(self).world,
            final(self).same_setting(old(self)),
    {
        let ghost mid = old(self).contact(through@);
        let mut i: usize = 0;
        while i < 4
            invariant
                i <= 4,
                self.wf(),
                self.world == old(self).world,
                self.same_setting(old(self)),
                mid == old(self).contact(through@),
                forall|k: int|
                    0 <= k < i ==> #[trigger] door_settled(
                        &old(self).world.room,
                        mid,
                        self.my_doors,
                        k,
                    ),
                forall|k: int| i <= k < 4 ==> #[trigger] self.my_doors[k] == mid.doors[k],
            decreases 4 - i,
        {
            let ghost before = self.my_doors;
            if !through.contains(i) {
                if self.my_doors[i].moving_through.is_some() {
                    let mut closed = self.my_doors[i];
                    closed.moving_through = None;
                    self.my_doors[i] = closed;
                    proof {
                        assert(self.my_doors =~= doors_while_placing(
                            mid.doors,
                            self.my_doors,
                            i as int,
                        ));
                    }
                    let ghost around = self.my_doors;
                    let door = self.world.room.random_new_my_door(
                        &mut self.local_rng,
                        &self.my_doors,
                    );
                    self.my_doors[i] = door;
                    proof {
                        assert(doors_while_placing(mid.doors, self.my_doors, i as int) =~= around);
                    }
                }
            }
            proof {
                assert(door_settled(&old(self).world.room, mid, self.my_doors, i as int));
                assert forall|k: int| 0 <= k < i implies #[trigger] door_settled(
                    &old(self).world.room,
                    mid,
                    self.my_doors,
                    k,
                ) by {
                    lemma_settled_frame(&old(self).world.room, mid, before, self.my_doors, k);
                }
            }
            i = i + 1;
        }
    }

    /// Lets the participant's own player run into the walls round it: a
    /// door opens and carries the player through, any other wall sets the
    /// player back. A door that the player has left moves to another wall.
    fn collide_with_walls(&mut self)
        requires
            old(self).wf(),
        ensures
            final(self).wf(),
            final(self).world.entities.player(old(self).controlling) == after_walls(
                &old(self).world.room,
                old(self).world.entities.player(old(self).controlling),
                old(self).my_doors,
            ).player,
            forall|i: int|
                0 <= i < 4 ==> #[trigger] door_settled(
                    &old(self).world.room,
                    after_walls(
                        &old(self).world.room,
                        old(self).world.entities.player(old(self).controlling),
                        old(self).my_doors,
                    ),
                    final(self).my_doors,
                    i,
                ),
            final(self).same_velocities(old(self)),
            forall|c: PlayerColor|
                c != old(self).controlling ==> #[trigger] final(self).world.entities.player(c)
                    == old(self).world.entities.player(c),
            final(self).world.entities.teleporters == old(self).world.entities.teleporters,
            final(self).same_setting(old(self)),
    {
        let mut moving_through_doors = MyDoorIndexSet::default();
        self.touch_walls(&mut moving_through_doors, Dim::X);
        self.touch_walls(&mut moving_through_doors, Dim::Y);
        let ghost mid = self.contact(moving_through_doors@);
        proof {
            assert(mid == after_walls(
                &old(self).world.room,
                old(self).world.entities.player(old(self).controlling),
                old(self).my_doors,
            ));
            lemma_touched_keeps_velocity(
                &old(self).world.room,
                old(self).world.entities.player(old(self).controlling),
                old(self).my_doors,
            );
        }
        self.settle_doors(&moving_through_doors);
        proof {
            assert forall|c: PlayerColor|
                (#[trigger] self.world.entities.player(c)).vel == old(self).world.entities.player(
                    c,
                ).vel by {
                if c != old(self).controlling {
                    assert(self.world.entities.players[c.index()] == old(self).world.entities.players[c.index()]);
                }
            }
            assert forall|c: PlayerColor| c != old(self).controlling implies #[trigger]
                self.world.entities.player(c) == old(self).world.entities.player(c) by {
                assert(self.world.entities.players[c.index()] == old(self).world.entities.players[c.index()]);
            }
        }
    }

    /// What has become, since `before`, of the player that plays the color
    /// in place `k` by itself, if one does, after it was told that it was
    /// sent off, if `moved` holds: then it makes for the cell it is in and
    /// has forgotten the ways through the room; else it is as it was.
    pub open spec fn ai_notified_at(&self, before: &GameState, k: int, moved: bool) -> bool {
        match before.net.ai_at(k) {
            Some(a0) => if moved {
                self.net.ai_at(k) matches Some(a1) && a1.ready() && a1.was_moved(&a0, &before.world)
            } else {
                self.net.ai_at(k) == Some(a0)
            },
            None => self.net.ai_at(k).is_none(),
        }
    }

    /// What has become, since `before`, of the player that plays the color
    /// in place `k` by itself, if one does, and of the way that color
    /// moves, after the player was asked how it wants to move: the color
    /// moves as it answered. A color that nobody plays by itself moves as
    /// it did.
    pub open spec fn ai_steered_at(&self, before: &GameState, k: int) -> bool {
        match before.net.ai_at(k) {
            Some(a0) => self.net.ai_at(k) matches Some(a1) && a1.ready() && a1.steered(
                &a0,
                &before.world,
                self.world.entities.players[k].vel,
            ),
            None => self.net.ai_at(k).is_none() && self.world.entities.players[k]
                == before.world.entities.players[k],
        }
    }

    /// Tells the players that play by themselves which of them were sent
    /// off.
    fn notify_moved(&mut self, moved: &PlayerArr<bool>)
        requires
            old(self).wf(),
        ensures
            final(self).wf(),
            final(self).world == old(self).world,
            final(self).my_doors == old(self).my_doors,
            final(self).local_rng == old(self).local_rng,
            final(self).kept_setting(old(self)),
            forall|k: int|
                0 <= k < 3 ==> #[trigger] final(self).ai_notified_at(old(self), k, moved[k]),
    {
        let mut i: usize = 0;
        while i < 3
            invariant
                i <= 3,
                self.wf(),
                self.world == old(self).world,
                self.my_doors == old(self).my_doors,
                self.local_rng == old(self).local_rng,
                self.controlling == old(self).controlling,
                self.input_config == old(self).input_config,
                self.pressing_state == old(self).pressing_state,
                self.net.server() == old(self).net.server(),
                self.net.client() == old(self).net.client(),
                forall|k: int| 0 <= k < i ==> #[trigger] self.ai_notified_at(old(self), k, moved[k]),
                forall|k: int| i <= k < 3 ==> #[trigger] self.net.ai_at(k) == old(self).net.ai_at(k),
            decreases 3 - i,
        {
            let ghost before = *self;
            proof {
                assert(self.net.ai_in_order(PlayerColor::Black) && self.net.ai_in_order(
                    PlayerColor::Blue,
                ) && self.net.ai_in_order(PlayerColor::Orange));
                assert(PlayerColor::Black.index() == 0 && PlayerColor::Blue.index() == 1
                    && PlayerColor::Orange.index() == 2);
            }
            if moved[i] {
                match self.net.take_ai(i) {
                    Some(ai) => {
                        let mut ai = ai;
                        ai.i_was_moved(&self.world);
                        self.net.put_ai(i, ai);
                    },
                    None => {},
                }
            }
            proof {
                assert forall|c: PlayerColor| #[trigger] self.net.ai_in_order(c) by {
                    assert(before.net.ai_in_order(c));
                    if c.index() != i {
                        assert(self.net.ai_at(c.index()) == before.net.ai_at(c.index()));
                    }
                }
                assert forall|k: int| 0 <= k < i + 1 implies #[trigger] self.ai_notified_at(
                    old(self),
                    k,
                    moved[k],
                ) by {
                    if k < i {
                        assert(before.ai_notified_at(old(self), k, moved[k]));
                        assert(self.net.ai_at(k) == before.net.ai_at(k));
                    } else {
                        assert(before.net.ai_at(k) == old(self).net.ai_at(k));
                    }
                }
                assert forall|k: int| i + 1 <= k < 3 implies #[trigger] self.net.ai_at(k) == old(self).net.ai_at(k) by {
                    assert(before.net.ai_at(k) == old(self).net.ai_at(k));
                }
            }
            i = i + 1;
        }
        proof {
            assert forall|c: PlayerColor|
                (#[trigger] self.net.ai_at(c.index())).is_some() == old(self).net.ai_at(
                    c.index(),
                ).is_some() by {
                assert(self.ai_notified_at(old(self), c.index(), moved[c.index()]));
            }
        }
    }

    /// Lets every player that plays by itself choose how to move: each of
    /// them is asked in turn, and its color moves as it answers.
    pub fn update_ais(&mut self)
        requires
            old(self).wf(),
        ensures
            final(self).wf(),
            final(self).kept_setting(old(self)),
            final(self).my_doors == old(self).my_doors,
            final(self).world.entities.teleporters == old(self).world.entities.teleporters,
            forall|c: PlayerColor|
                (#[trigger] final(self).world.entities.player(c)).pos == old(self).world.entities.player(c).pos,
            forall|c: PlayerColor|
                old(self).net.ai_at(c.index()).is_none() ==> #[trigger] final(self).world.entities.player(c) == old(self).world.entities.player(c),
            forall|k: int| 0 <= k < 3 ==> #[trigger] final(self).ai_steered_at(old(self), k),
    {
        let mut i: usize = 0;
        while i < 3
            invariant
                i <= 3,
                self.wf(),
                self.world.room == old(self).world.room,
                self.world.entities.teleporters == old(self).world.entities.teleporters,
                self.my_doors == old(self).my_doors,
                self.controlling == old(self).controlling,
                self.input_config == old(self).input_config,
                self.pressing_state == old(self).pressing_state,
                self.net.server() == old(self).net.server(),
                self.net.client() == old(self).net.client(),
                forall|k: int|
                    0 <= k < 3 ==> (#[trigger] self.world.entities.players[k]).pos == old(self).world.entities.players[k].pos,
                forall|k: int| 0 <= k < i ==> #[trigger] self.ai_steered_at(old(self), k),
                forall|k: int| i <= k < 3 ==> #[trigger] self.net.ai_at(k) == old(self).net.ai_at(k),
                forall|k: int|
                    i <= k < 3 ==> #[trigger] self.world.entities.players[k] == old(self).world.entities.players[k],
            decreases 3 - i,
        {
            let ghost before = *self;
            proof {
                assert(self.net.ai_in_order(PlayerColor::Black) && self.net.ai_in_order(
                    PlayerColor::Blue,
                ) && self.net.ai_in_order(PlayerColor::Orange));
                assert(PlayerColor::Black.index() == 0 && PlayerColor::Blue.index() == 1
                    && PlayerColor::Orange.index() == 2);
            }
            match self.net.take_ai(i) {
                Some(ai) => {
                    let mut ai = ai;
                    let ghost asked = ai;
                    let vel = ai.update(&self.world, &mut self.local_rng);
                    let pos = self.world.entities.players[i].pos;
                    proof {
                        assert forall|c: PlayerColor|
                            before.world.entities.player(c).pos == old(self).world.entities.player(
                                c,
                            ).pos by {
                            assert(before.world.entities.players[c.index()].pos == old(self).world.entities.players[c.index()].pos);
                        }
                        crate::game::ai::lemma_steered_by_places(
                            ai,
                            asked,
                            &before.world,
                            &old(self).world,
                            vel,
                        );
                    }
                    self.world.entities.players[i] = Player { pos, vel };
                    self.net.put_ai(i, ai);
                },
                None => {},
            }
            proof {
                assert forall|c: PlayerColor| #[trigger] self.net.ai_in_order(c) by {
                    assert(before.net.ai_in_order(c));
                    if c.index() != i {
                        assert(self.net.ai_at(c.index()) == before.net.ai_at(c.index()));
                    }
                }
                assert forall|k: int| 0 <= k < i + 1 implies #[trigger] self.ai_steered_at(
                    old(self),
                    k,
                ) by {
                    if k < i {
                        assert(before.ai_steered_at(old(self), k));
                        assert(self.net.ai_at(k) == before.net.ai_at(k));
                        assert(self.world.entities.players[k] == before.world.entities.players[k]);
                    } else {
                        assert(before.net.ai_at(k) == old(self).net.ai_at(k));
                        assert(before.world.entities.players[k] == old(self).world.entities.players[k]);
                    }
                }
                assert forall|k: int| i + 1 <= k < 3 implies #[trigger] self.net.ai_at(k) == old(self).net.ai_at(k) by {
                    assert(before.net.ai_at(k) == old(self).net.ai_at(k));
                }
                assert forall|k: int| i + 1 <= k < 3 implies #[trigger]
                    self.world.entities.players[k] == old(self).world.entities.players[k] by {
                    assert(before.world.entities.players[k] == old(self).world.entities.players[k]);
                }
                assert forall|k: int|
                    0 <= k < 3 implies (#[trigger] self.world.entities.players[k]).pos == old(self).world.entities.players[k].pos by {
                    assert(before.world.entities.players[k].pos == old(self).world.entities.players[k].pos);
                }
            }
            i = i + 1;
        }
        proof {
            assert forall|c: PlayerColor|
                (#[trigger] self.net.ai_at(c.index())).is_some() == old(self).net.ai_at(
                    c.index(),
                ).is_some() by {
                assert(self.ai_steered_at(old(self), c.index()));
            }
            assert forall|c: PlayerColor|
                (#[trigger] self.world.entities.player(c)).pos == old(self).world.entities.player(
                    c,
                ).pos by {
                assert(self.world.entities.players[c.index()].pos == old(self).world.entities.players[c.index()].pos);
            }
            assert forall|c: PlayerColor| old(self).net.ai_at(c.index()).is_none() implies #[trigger]
                self.world.entities.player(c) == old(self).world.entities.player(c) by {
                assert(self.ai_steered_at(old(self), c.index()));
            }
        }
    }

    /// One tick of the world. Every player moves by a step; on the host,
    /// prey that was caught and whoever stepped on a teleporter are sent
    /// off to random free places; and the participant's own player is set
    /// back from the walls round it, or carried through a door. Says whose
    /// player was sent off.
    pub fn move_and_collide(&mut self) -> (r: PlayerArr<bool>)
        requires
            old(self).wf(),
        ensures
            final(self).wf(),
            final(self).kept_setting(old(self)),
            final(self).same_velocities(old(self)),
            !(old(self).net is Server) ==> {
                &&& final(self).world.entities.teleporters == old(self).world.entities.teleporters
                &&& forall|c: PlayerColor| !#[trigger] r[c.index()]
                &&& forall|c: PlayerColor|
                    c != old(self).controlling ==> #[trigger] final(self).world.entities.player(c)
                        == old(self).world.entities.player(c).moved_by(
                        old(self).world.entities.player(c).vel,
                    )
            },
            forall|c: PlayerColor|
                c != old(self).controlling && !r[c.index()] ==> (#[trigger] final(self).world.entities.player(c)) == old(self).world.entities.player(c).moved_by(
                    old(self).world.entities.player(c).vel,
                ),
    {
        self.advance();
        let ghost advanced = self.world.entities;
        let mut moved: PlayerArr<bool> = [false, false, false];
        if self.net.is_server() {
            moved = self.capture();
            self.teleport(&mut moved);
        }
        let ghost collided = self.world.entities;
        self.collide_with_walls();
        self.notify_moved(&moved);
        proof {
            assert forall|c: PlayerColor|
                c != old(self).controlling && !moved[c.index()] implies (
                #[trigger] self.world.entities.player(c)) == old(self).world.entities.player(
                c,
            ).moved_by(old(self).world.entities.player(c).vel) by {
                assert(advanced.player(c) == old(self).world.entities.player(c).moved_by(
                    old(self).effective_vel(c),
                ));
                assert(collided.player(c).pos == advanced.player(c).pos);
                assert(collided.player(c).vel == advanced.player(c).vel);
                assert(self.world.entities.player(c) == collided.player(c));
            }
        }
        moved
    }
}

} // verus!
