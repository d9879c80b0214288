//! The shared world: who plays, where everybody stands, and the measures of
//! the maze they stand in.
pub mod ai;
pub mod config;
pub mod free_space;
pub mod net;
pub mod room;
pub mod state;
pub mod wire;

use crate::axes::{Dim, DimMap, Sign};
use crate::bit_set::{BitIndex, INDICES};
use crate::game::room::{corner_of, Coord, Room};
use crate::rng::CachedRng;
use crate::wrap_int::WrapInt;
use core::cmp::Ordering;
use vstd::prelude::*;
use vstd::std_specs::cmp::PartialOrdSpecImpl;
use vstd::std_specs::ops::{AddSpecImpl, NegSpecImpl, SubSpecImpl};

verus! {

/// How many players share a world.
pub const NUM_PLAYERS: u32 = 3;

/// How many teleporters a world holds.
pub const NUM_TELEPORTERS: u32 = 2;

/// How many ticks it takes to cross one cell along an axis.
pub const MOVE_SPEED: u16 = 16;

/// A point on the torus.
pub type Pos = DimMap<WrapInt>;

/// An extent along each axis.
pub type Size = DimMap<u16>;

/// For each axis, whether and in which sense something moves along it.
pub type Vel = DimMap<Option<Sign>>;

/// One value for each player, in the order black, blue, orange.
pub type PlayerArr<T> = [T; 3];

#[derive(Debug, Copy, Clone, PartialEq, Eq, Structural)]
pub enum PlayerColor {
    Black,
    Blue,
    Orange,
}

#[derive(Debug, Copy, Clone, PartialEq, Eq)]
pub struct Player {
    pub pos: Pos,
    pub vel: Vel,
}

/// Everything in the world that moves: the three players and the
/// teleporters.
#[derive(Debug, Copy, Clone, PartialEq, Eq)]
pub struct Entities {
    pub players: PlayerArr<Player>,
    pub teleporters: [Pos; 2],
}

/// A room and what moves in it.
#[derive(Debug, Clone, PartialEq, Eq)]
pub struct World {
    pub room: Room,
    pub entities: Entities,
}

/// The distance a player covers in one tick along each axis.
pub open spec fn spec_move_size() -> Size {
    DimMap::xy(256u16, 512u16)
}

/// The distance a player covers in one tick along each axis.
#[verifier::when_used_as_spec(spec_move_size)]
pub fn move_size() -> (r: Size)
    ensures
        r == move_size(),
{
    DimMap::new_xy(256, 512)
}

impl DimMap<u16> {
    /// Both extents multiplied by `rhs`.
    pub open spec fn scaled(self, rhs: u16) -> Size {
        DimMap::xy((self.at(Dim::X) * rhs) as u16, (self.at(Dim::Y) * rhs) as u16)
    }

    /// Both extents divided by `rhs`, rounding down.
    pub open spec fn shrunk(self, rhs: u16) -> Size {
        DimMap::xy(self.at(Dim::X) / rhs, self.at(Dim::Y) / rhs)
    }

    /// `self` is at most `other` on both axes and smaller on at least one.
    pub open spec fn within(self, other: Size) -> bool {
        &&& self.at(Dim::X) <= other.at(Dim::X)
        &&& self.at(Dim::Y) <= other.at(Dim::Y)
        &&& (self.at(Dim::X) < other.at(Dim::X) || self.at(Dim::Y) < other.at(Dim::Y))
    }

    pub fn scalar_mul(self, rhs: u16) -> (r: Size)
        requires
            self.at(Dim::X) * rhs <= u16::MAX,
            self.at(Dim::Y) * rhs <= u16::MAX,
        ensures
            r == self.scaled(rhs),
    {
        DimMap::new_xy(self.arr[0] * rhs, self.arr[1] * rhs)
    }

    pub fn scalar_div(self, rhs: u16) -> (r: Size)
        requires
            rhs != 0,
        ensures
            r == self.shrunk(rhs),
    {
        DimMap::new_xy(self.arr[0] / rhs, self.arr[1] / rhs)
    }
}

impl core::ops::Add<DimMap<u16>> for DimMap<u16> {
    type Output = DimMap<u16>;

    fn add(self, rhs: Size) -> (r: Size) {
        DimMap::new_xy(self.arr[0] + rhs.arr[0], self.arr[1] + rhs.arr[1])
    }
}

impl AddSpecImpl<DimMap<u16>> for DimMap<u16> {
    open spec fn obeys_add_spec() -> bool {
        true
    }

    /// The sums fit on both axes.
    open spec fn add_req(self, rhs: Size) -> bool {
        self.at(Dim::X) + rhs.at(Dim::X) <= u16::MAX && self.at(Dim::Y) + rhs.at(Dim::Y) <= u16::MAX
    }

    open spec fn add_spec(self, rhs: Size) -> Size {
        DimMap::xy((self.at(Dim::X) + rhs.at(Dim::X)) as u16, (self.at(Dim::Y) + rhs.at(Dim::Y)) as u16)
    }
}

impl PartialOrd for DimMap<u16> {
    /// The product order: one size is less than another when it is no larger
    /// on either axis and smaller on one; sizes that are larger on one axis
    /// and smaller on the other do not compare.
    fn partial_cmp(&self, other: &Size) -> (r: Option<Ordering>) {
        let x_less = self.arr[0] < other.arr[0];
        let x_more = self.arr[0] > other.arr[0];
        let y_less = self.arr[1] < other.arr[1];
        let y_more = self.arr[1] > other.arr[1];
        if (x_less && y_more) || (x_more && y_less) {
            None
        } else if x_less || y_less {
            Some(Ordering::Less)
        } else if x_more || y_more {
            Some(Ordering::Greater)
        } else {
            Some(Ordering::Equal)
        }
    }
}

impl PartialOrdSpecImpl for DimMap<u16> {
    open spec fn obeys_partial_cmp_spec() -> bool {
        true
    }

    open spec fn partial_cmp_spec(&self, other: &Size) -> Option<Ordering> {
        if self.within(*other) {
            Some(Ordering::Less)
        } else if other.within(*self) {
            Some(Ordering::Greater)
        } else if self.at(Dim::X) == other.at(Dim::X) && self.at(Dim::Y) == other.at(Dim::Y) {
            Some(Ordering::Equal)
        } else {
            None
        }
    }
}

impl DimMap<WrapInt> {
    /// The origin of the torus.
    pub open spec fn origin() -> Pos {
        DimMap::xy(WrapInt(0), WrapInt(0))
    }

    /// The sum of two points, axis by axis on the ring.
    pub open spec fn plus(self, rhs: Pos) -> Pos {
        DimMap::xy(self.at(Dim::X).plus(rhs.at(Dim::X)), self.at(Dim::Y).plus(rhs.at(Dim::Y)))
    }

    /// The difference of two points, axis by axis on the ring.
    pub open spec fn minus(self, rhs: Pos) -> Pos {
        DimMap::xy(self.at(Dim::X).minus(rhs.at(Dim::X)), self.at(Dim::Y).minus(rhs.at(Dim::Y)))
    }

    /// How far the point lies from the origin along each axis.
    pub open spec fn magnitudes(self) -> Size {
        DimMap::xy(self.at(Dim::X).magnitude() as u16, self.at(Dim::Y).magnitude() as u16)
    }

    pub fn distances_from_zero(self) -> (r: Size)
        ensures
            r == self.magnitudes(),
    {
        DimMap::new_xy(self.arr[0].distance_from_zero(), self.arr[1].distance_from_zero())
    }

    /// How far the point lies from the origin when one may go along the
    /// axes only.
    pub fn manhattan_to_zero(self) -> (r: u32)
        ensures
            r == self.at(Dim::X).magnitude() + self.at(Dim::Y).magnitude(),
    {
        self.arr[0].distance_from_zero() as u32 + self.arr[1].distance_from_zero() as u32
    }

    /// The point with both coordinates equal to `x`.
    pub fn diagonal(x: WrapInt) -> (r: Pos)
        ensures
            r == DimMap::xy(x, x),
    {
        DimMap::new_xy(x, x)
    }
}

impl core::ops::Add<DimMap<WrapInt>> for DimMap<WrapInt> {
    type Output = DimMap<WrapInt>;

    fn add(self, rhs: Pos) -> (r: Pos) {
        DimMap::new_xy(self.arr[0] + rhs.arr[0], self.arr[1] + rhs.arr[1])
    }
}

impl AddSpecImpl<DimMap<WrapInt>> for DimMap<WrapInt> {
    open spec fn obeys_add_spec() -> bool {
        true
    }

    open spec fn add_req(self, rhs: Pos) -> bool {
        true
    }

    open spec fn add_spec(self, rhs: Pos) -> Pos {
        self.plus(rhs)
    }
}

impl core::ops::Sub<DimMap<WrapInt>> for DimMap<WrapInt> {
    type Output = DimMap<WrapInt>;

    fn sub(self, rhs: Pos) -> (r: Pos) {
        DimMap::new_xy(self.arr[0] - rhs.arr[0], self.arr[1] - rhs.arr[1])
    }
}

impl SubSpecImpl<DimMap<WrapInt>> for DimMap<WrapInt> {
    open spec fn obeys_sub_spec() -> bool {
        true
    }

    open spec fn sub_req(self, rhs: Pos) -> bool {
        true
    }

    open spec fn sub_spec(self, rhs: Pos) -> Pos {
        self.minus(rhs)
    }
}

impl core::ops::Neg for DimMap<WrapInt> {
    type Output = DimMap<WrapInt>;

    fn neg(self) -> (r: Pos) {
        DimMap::new_xy(core::ops::Neg::neg(self.arr[0]), core::ops::Neg::neg(self.arr[1]))
    }
}

impl NegSpecImpl for DimMap<WrapInt> {
    open spec fn obeys_neg_spec() -> bool {
        true
    }

    open spec fn neg_req(self) -> bool {
        true
    }

    open spec fn neg_spec(self) -> Pos {
        DimMap::xy(self.at(Dim::X).negated(), self.at(Dim::Y).negated())
    }
}

impl PlayerColor {
    /// The place of the color in a `PlayerArr`.
    pub open spec fn index(self) -> int {
        match self {
            PlayerColor::Black => 0,
            PlayerColor::Blue => 1,
            PlayerColor::Orange => 2,
        }
    }

    /// The color that this one hunts: the next one in the cycle black, blue,
    /// orange.
    pub open spec fn hunts(self) -> PlayerColor {
        match self {
            PlayerColor::Black => PlayerColor::Blue,
            PlayerColor::Blue => PlayerColor::Orange,
            PlayerColor::Orange => PlayerColor::Black,
        }
    }

    /// The color that hunts this one.
    pub open spec fn hunted_by(self) -> PlayerColor {
        self.hunts().hunts()
    }

    pub fn to_index(self) -> (r: usize)
        ensures
            r == self.index(),
    {
        match self {
            PlayerColor::Black => 0,
            PlayerColor::Blue => 1,
            PlayerColor::Orange => 2,
        }
    }

    pub fn predator_prey(self) -> (r: [PlayerColor; 2])
        ensures
            r@ == seq![self.hunted_by(), self.hunts()],
    {
        let r = [self.predator(), self.prey()];
        assert(r@ =~= seq![self.hunted_by(), self.hunts()]);
        r
    }

    /// All colors, in the order of their places in a `PlayerArr`.
    pub fn iter_domain() -> (r: [PlayerColor; 3])
        ensures
            r@ == seq![PlayerColor::Black, PlayerColor::Blue, PlayerColor::Orange],
            forall|c: PlayerColor| r@[c.index()] == c,
    {
        let r = [PlayerColor::Black, PlayerColor::Blue, PlayerColor::Orange];
        assert(r@ =~= seq![PlayerColor::Black, PlayerColor::Blue, PlayerColor::Orange]);
        r
    }

    pub fn predator(self) -> (r: PlayerColor)
        ensures
            r == self.hunted_by(),
            r.hunts() == self,
            r != self,
            r != self.hunts(),
    {
        self.prey().prey()
    }

    pub fn prey(self) -> (r: PlayerColor)
        ensures
            r == self.hunts(),
            r != self,
    {
        match self {
            PlayerColor::Black => PlayerColor::Blue,
            PlayerColor::Blue => PlayerColor::Orange,
            PlayerColor::Orange => PlayerColor::Black,
        }
    }
}

impl Player {
    /// A player at the origin who stands still.
    pub open spec fn resting() -> Player {
        Player { pos: Pos::origin(), vel: DimMap::xy(None, None) }
    }
}

impl Default for Player {
    fn default() -> (r: Player)
        ensures
            r == Player::resting(),
    {
        Player {
            pos: DimMap::new_xy(WrapInt(0), WrapInt(0)),
            vel: DimMap::new_xy(None, None),
        }
    }
}

impl Entities {
    /// The player of the given color.
    pub open spec fn player(self, color: PlayerColor) -> Player {
        self.players[color.index()]
    }

    /// The entities with the player of one color replaced.
    pub open spec fn with_player(self, color: PlayerColor, player: Player) -> Entities {
        Entities {
            players: vstd::array::spec_array_update(self.players, color.index(), player),
            teleporters: self.teleporters,
        }
    }
}

/// Two points lie far enough apart for two things to be put there: at
/// least two cells apart along one axis.
pub open spec fn far_apart(a: Pos, b: Pos) -> bool {
    a.minus(b).at(Dim::X).magnitude() >= 8192 || a.minus(b).at(Dim::Y).magnitude() >= 16384
}

/// The point in the middle of the cell with index `i`.
pub open spec fn center_of(i: int) -> Pos {
    corner_of(i).plus(DimMap::xy(WrapInt(2048), WrapInt(4096)))
}

/// `p` is the point in the middle of some cell.
pub open spec fn is_cell_center(p: Pos) -> bool {
    exists|i: int| 0 <= i < INDICES && p == #[trigger] center_of(i)
}

fn is_far_apart(a: Pos, b: Pos) -> (r: bool)
    ensures
        r == far_apart(a, b),
{
    let diff = a - b;
    diff.arr[0].distance_from_zero() >= 8192 || diff.arr[1].distance_from_zero() >= 16384
}

impl Entities {
    /// Three players at rest and two teleporters, all at the origin.
    pub open spec fn at_origin() -> Entities {
        Entities {
            players: [Player::resting(), Player::resting(), Player::resting()],
            teleporters: [Pos::origin(), Pos::origin()],
        }
    }

    /// A teleporter lies in the cell with index `cell`.
    pub open spec fn has_teleporter_in(self, cell: int) -> bool {
        crate::game::room::cell_index(self.teleporters[0]) == cell || crate::game::room::cell_index(
            self.teleporters[1],
        ) == cell
    }

    /// Nothing stands at `new` or near it: every player and every
    /// teleporter is far away.
    pub open spec fn clear_of(self, new: Pos) -> bool {
        &&& far_apart(self.teleporters[0], new)
        &&& far_apart(self.teleporters[1], new)
        &&& far_apart(self.players[0].pos, new)
        &&& far_apart(self.players[1].pos, new)
        &&& far_apart(self.players[2].pos, new)
    }

    /// No two things stand near each other.
    pub open spec fn spread_out(self) -> bool {
        &&& far_apart(self.players[0].pos, self.players[1].pos)
        &&& far_apart(self.players[0].pos, self.players[2].pos)
        &&& far_apart(self.players[1].pos, self.players[2].pos)
        &&& far_apart(self.players[0].pos, self.teleporters[0])
        &&& far_apart(self.players[1].pos, self.teleporters[0])
        &&& far_apart(self.players[2].pos, self.teleporters[0])
        &&& far_apart(self.players[0].pos, self.teleporters[1])
        &&& far_apart(self.players[1].pos, self.teleporters[1])
        &&& far_apart(self.players[2].pos, self.teleporters[1])
        &&& far_apart(self.teleporters[0], self.teleporters[1])
    }

    /// There is a cell with nothing in its middle or near it.
    pub open spec fn has_free_space(self) -> bool {
        exists|i: int| 0 <= i < INDICES && self.clear_of(#[trigger] center_of(i))
    }

    /// Whether nothing stands at `new` or near it.
    pub fn is_clear_of(&self, new: Pos) -> (r: bool)
        ensures
            r == self.clear_of(new),
    {
        is_far_apart(self.teleporters[0], new) && is_far_apart(self.teleporters[1], new)
            && is_far_apart(self.players[0].pos, new) && is_far_apart(self.players[1].pos, new)
            && is_far_apart(self.players[2].pos, new)
    }

    /// A world with everything put in the middle of a random cell, no two
    /// things near each other, and every player at rest.
    pub fn random(rng: &mut CachedRng) -> (r: Entities)
        ensures
            r.spread_out(),
            forall|c: PlayerColor| (#[trigger] r.player(c)).vel == Player::resting().vel,
            forall|c: PlayerColor| is_cell_center((#[trigger] r.player(c)).pos),
            is_cell_center(r.teleporters[0]),
            is_cell_center(r.teleporters[1]),
    {
        let mut me = Entities {
            players: [Player::default(), Player::default(), Player::default()],
            teleporters: [
                DimMap::new_xy(WrapInt(0), WrapInt(0)),
                DimMap::new_xy(WrapInt(0), WrapInt(0)),
            ],
        };
        let black = me.random_free_space(rng);
        me.players[0].pos = black;
        let blue = me.random_free_space(rng);
        me.players[1].pos = blue;
        let orange = me.random_free_space(rng);
        me.players[2].pos = orange;
        let first = me.random_free_space(rng);
        me.teleporters[0] = first;
        let second = me.random_free_space(rng);
        me.teleporters[1] = second;
        proof {
            assert forall|c: PlayerColor| is_cell_center((#[trigger] me.player(c)).pos) by {
                match c {
                    PlayerColor::Black => assert(me.player(c).pos == black),
                    PlayerColor::Blue => assert(me.player(c).pos == blue),
                    PlayerColor::Orange => assert(me.player(c).pos == orange),
                }
            }
            assert(me.teleporters[0] == first && me.teleporters[1] == second);
        }
        me
    }

    /// The middle of a random cell with nothing in it or near it. A cell is
    /// drawn over and over until one fits; after very many draws in vain the
    /// cells are tried one by one, and one of them fits.
    pub fn random_free_space(&self, rng: &mut CachedRng) -> (r: Pos)
        ensures
            is_cell_center(r),
            self.clear_of(r),
            final(rng).cached() == old(rng).cached(),
            final(rng).cached_bits() == old(rng).cached_bits(),
    {
        let mut tries: u32 = 0;
        while tries < 4096
            invariant
                rng.cached() == old(rng).cached(),
                rng.cached_bits() == old(rng).cached_bits(),
            decreases 4096 - tries,
        {
            let coord = Coord::random(rng);
            let new = coord.center_pos();
            proof {
                coord.lemma_view();
                assert(new == center_of(coord@));
            }
            if self.is_clear_of(new) {
                return new;
            }
            tries = tries + 1;
        }
        let mut i: u16 = 0;
        while i < INDICES
            invariant
                i <= INDICES,
                rng.cached() == old(rng).cached(),
                rng.cached_bits() == old(rng).cached_bits(),
                forall|k: int| 0 <= k < i ==> !self.clear_of(#[trigger] center_of(k)),
            decreases INDICES - i,
        {
            let coord = Coord::from_bit_index(BitIndex(i));
            let new = coord.center_pos();
            proof {
                coord.lemma_view();
                assert(new == center_of(i as int));
            }
            if self.is_clear_of(new) {
                return new;
            }
            i = i + 1;
        }
        proof {
            crate::game::free_space::lemma_has_free_space(*self);
        }
        Coord::default().center_pos()
    }
}

} // verus!
