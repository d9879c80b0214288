//! A player that plays by itself: it goes after its prey, keeps away from
//! its predator, and makes for a teleporter when the predator is nearer than
//! a teleporter is.
//!
//! The player keeps three maps of the room. Each gives for every cell the
//! number of steps from there to one of the places that the map is about: to
//! a teleporter, to where the prey seems to be, or to where the predator
//! seems to be. To go to such a place is to go downhill on its map.
use crate::axes::{Dim, DimMap, Direction, Sign};
use crate::bit_set::{all_indices, lemma_bounded, BitIndex, FullBitIndexMap, INDICES};
use crate::game::room::{cell_index, neighbour, Coord, Room};
use crate::game::state::player_size;
use crate::game::{PlayerColor, Pos, Size, Vel, World};
use crate::rng::CachedRng;
use crate::wrap_int::WrapInt;
use std::collections::VecDeque;
use vstd::prelude::*;

verus! {

/// The number that stands in a map for a cell from which no way is known.
pub const UNKNOWN: u8 = 255;

pub trait Ai {
    /// The player is in order.
    spec fn in_order(&self) -> bool;

    /// Tells the player that it was put somewhere else.
    fn i_was_moved(&mut self, world: &World)
        requires
            old(self).in_order(),
        ensures
            final(self).in_order(),
    ;

    /// Asks the player how it wants to move in this tick.
    fn update(&mut self, world: &World, rng: &mut CachedRng) -> (r: Vel)
        requires
            old(self).in_order(),
            old(rng).wf(),
        ensures
            final(self).in_order(),
            final(rng).wf(),
    ;
}

pub struct SinkAi {
    my_color: PlayerColor,
    sink_to_teleporters: FullBitIndexMap<u8>,
    sink_to_prey: FullBitIndexMap<u8>,
    sink_to_predator: FullBitIndexMap<u8>,
    goal: Coord,
    prey_maybe_at: Coord,
    predator_maybe_at: Coord,
    view_size: Size,
}

/// The way to go to get nearer to a place that lies `diff` away: along the
/// axis on which it lies farther away, and along `Y` where it lies equally
/// far on both; no way where it is reached.
pub open spec fn heading(diff: Pos) -> Vel {
    if diff.at(Dim::X)@ == 0 && diff.at(Dim::Y)@ == 0 {
        DimMap::xy(None, None)
    } else if diff.at(Dim::X).magnitude() > diff.at(Dim::Y).magnitude() {
        DimMap::xy(diff.at(Dim::X).side(), None)
    } else {
        DimMap::xy(None, diff.at(Dim::Y).side())
    }
}

pub fn diff_to_vel(diff: Pos) -> (r: Vel)
    ensures
        r == heading(diff),
{
    let dx = *diff.get(Dim::X);
    let dy = *diff.get(Dim::Y);
    if dx.to_i16() == 0 && dy.to_i16() == 0 {
        DimMap::new_xy(None, None)
    } else if dx.distance_from_zero() > dy.distance_from_zero() {
        DimMap::new_xy(dx.sign(), None)
    } else {
        DimMap::new_xy(None, dy.sign())
    }
}

/// How far apart the corners of two cells lie along each axis.
pub fn coord_dist(a: Coord, b: Coord) -> (r: Size)
    ensures
        r == a.corner().minus(b.corner()).magnitudes(),
{
    (a.corner_pos() - b.corner_pos()).distances_from_zero()
}

pub fn pos_of_player(world: &World, color: PlayerColor) -> (r: Pos)
    ensures
        r == world.entities.player(color).pos,
{
    world.entities.players[color.to_index()].pos
}

pub fn coord_of_player(world: &World, color: PlayerColor) -> (r: Coord)
    ensures
        r.wf(),
        r@ == cell_index(world.entities.player(color).pos),
{
    Coord::from_pos_flooring(pos_of_player(world, color))
}

fn at_teleporter(world: &World, dest: Coord) -> (r: bool)
    requires
        dest.wf(),
    ensures
        r == world.entities.has_teleporter_in(dest@),
{
    Coord::from_pos_flooring(world.entities.teleporters[0]).same_cell(dest)
        || Coord::from_pos_flooring(world.entities.teleporters[1]).same_cell(dest)
}

/// The cell with index `c` is one step uphill, on `map`, from a neighbour
/// from which no wall parts it.
pub open spec fn one_up(map: Seq<u8>, room: &Room, c: int) -> bool {
    exists|n: int, dir: Direction|
        0 <= n < 128 && #[trigger] neighbour(n, dir) == c && !room.blocks(n, dir) && map[n] + 1
            == map[c]
}

/// `map` counts steps to the cell `sink`: the sink is at zero, and every
/// other cell whose number is known is one step uphill from a neighbour
/// that can be reached from it, and, if teleporters are to be kept away
/// from, holds no teleporter. No number reaches the number of cells.
pub open spec fn counts_steps_to(
    map: Seq<u8>,
    world: &World,
    sink: int,
    avoid_teleporters: bool,
) -> bool {
    &&& map.len() == 128
    &&& map[sink] == 0
    &&& forall|c: int| 0 <= c < 128 && #[trigger] map[c] != UNKNOWN ==> map[c] < 128
    &&& forall|c: int|
        0 <= c < 128 && #[trigger] map[c] != UNKNOWN && c != sink ==> one_up(map, &world.room, c)
            && (avoid_teleporters ==> !world.entities.has_teleporter_in(c))
}

/// The cell `at` and those of its neighbours from which no wall parts it,
/// going up, down, left and right.
pub open spec fn kernel_of(room: &Room, at: int) -> Seq<int> {
    seq![at] + open_side(room, at, Direction::Up) + open_side(room, at, Direction::Down)
        + open_side(room, at, Direction::Left) + open_side(room, at, Direction::Right)
}

/// The neighbour of `at` in direction `dir`, unless a wall parts the two.
pub open spec fn open_side(room: &Room, at: int, dir: Direction) -> Seq<int> {
    if room.blocks(at, dir) {
        seq![]
    } else {
        seq![neighbour(at, dir)]
    }
}

/// The indices of the cells in `coords`.
pub open spec fn indices_of(coords: Seq<Coord>) -> Seq<int> {
    Seq::new(coords.len(), |k: int| coords[k]@)
}

/// No cell in `cells` has a smaller number on `map` than the one in place
/// `k`, and those before it have a greater one.
pub open spec fn first_least(cells: Seq<int>, map: Seq<u8>, k: int) -> bool {
    &&& 0 <= k < cells.len()
    &&& forall|j: int| 0 <= j < cells.len() ==> map[#[trigger] cells[j]] >= map[cells[k]]
    &&& forall|j: int| 0 <= j < k ==> map[#[trigger] cells[j]] > map[cells[k]]
}

/// No cell in `cells` has a greater number on `map` than the one in place
/// `k`, and those after it have a smaller one.
pub open spec fn last_greatest(cells: Seq<int>, map: Seq<u8>, k: int) -> bool {
    &&& 0 <= k < cells.len()
    &&& forall|j: int| 0 <= j < cells.len() ==> map[#[trigger] cells[j]] <= map[cells[k]]
    &&& forall|j: int| k < j < cells.len() ==> map[#[trigger] cells[j]] < map[cells[k]]
}

impl SinkAi {
    /// How far the player sees along each axis.
    pub closed spec fn sight(&self) -> Size {
        self.view_size
    }

    /// The color that the player plays.
    pub closed spec fn color(&self) -> PlayerColor {
        self.my_color
    }

    /// The cell that the player is making for.
    pub closed spec fn heads_for(&self) -> Coord {
        self.goal
    }

    /// The cell in which the player thinks its prey is.
    pub closed spec fn prey_guess(&self) -> Coord {
        self.prey_maybe_at
    }

    /// The cell in which the player thinks its predator is.
    pub closed spec fn predator_guess(&self) -> Coord {
        self.predator_maybe_at
    }

    /// The cells that the player remembers are cells, and its sight with
    /// half a player added fits in sixteen bits.
    pub closed spec fn wf(&self) -> bool {
        &&& self.goal.wf()
        &&& self.prey_maybe_at.wf()
        &&& self.predator_maybe_at.wf()
        &&& self.view_size.at(Dim::X) + 910 <= u16::MAX
        &&& self.view_size.at(Dim::Y) + 1820 <= u16::MAX
    }

    /// A player of the color `my_color` that sees `view_size` far, has no
    /// idea of the room yet, and makes for the cell it is in.
    pub fn new(my_color: PlayerColor, world: &World, view_size: Size) -> (r: SinkAi)
        requires
            view_size.at(Dim::X) + 910 <= u16::MAX,
            view_size.at(Dim::Y) + 1820 <= u16::MAX,
        ensures
            r.ready(),
            r.color() == my_color,
            r.sight() == view_size,
            r.heads_for()@ == cell_index(world.entities.player(my_color).pos),
    {
        let me_at = coord_of_player(world, my_color);
        SinkAi {
            my_color,
            sink_to_teleporters: FullBitIndexMap::new_copied(UNKNOWN),
            sink_to_prey: FullBitIndexMap::new_copied(UNKNOWN),
            sink_to_predator: FullBitIndexMap::new_copied(UNKNOWN),
            goal: me_at,
            prey_maybe_at: me_at,
            predator_maybe_at: me_at,
            view_size,
        }
    }

    /// The cell `at` and those of its neighbours from which no wall parts
    /// it.
    fn coord_kernel(at: Coord, room: &Room) -> (r: Vec<Coord>)
        requires
            at.wf(),
        ensures
            indices_of(r@) == kernel_of(room, at@),
            forall|k: int| 0 <= k < r@.len() ==> (#[trigger] r@[k]).wf(),
            1 <= r@.len() <= 5,
    {
        let mut kernel: Vec<Coord> = Vec::new();
        kernel.push(at);
        let dirs = Direction::iter_domain();
        let ghost mut listed: Seq<int> = seq![at@];
        proof {
            assert(indices_of(kernel@) =~= listed);
        }
        let mut d: usize = 0;
        while d < 4
            invariant
                d <= 4,
                at.wf(),
                dirs@ == seq![Direction::Up, Direction::Down, Direction::Left, Direction::Right],
                indices_of(kernel@) == listed,
                forall|k: int| 0 <= k < kernel@.len() ==> (#[trigger] kernel@[k]).wf(),
                1 <= kernel@.len() <= 1 + d,
                d == 0 ==> listed == seq![at@],
                d == 1 ==> listed == seq![at@] + open_side(room, at@, Direction::Up),
                d == 2 ==> listed == seq![at@] + open_side(room, at@, Direction::Up) + open_side(
                    room,
                    at@,
                    Direction::Down,
                ),
                d == 3 ==> listed == seq![at@] + open_side(room, at@, Direction::Up) + open_side(
                    room,
                    at@,
                    Direction::Down,
                ) + open_side(room, at@, Direction::Left),
                d == 4 ==> listed == kernel_of(room, at@),
            decreases 4 - d,
        {
            let dir = dirs[d];
            let ghost before = kernel@;
            match at.stepped_in_room(room, dir) {
                Some(dest) => {
                    kernel.push(dest);
                    proof {
                        assert(indices_of(kernel@) =~= indices_of(before).push(dest@));
                        listed = listed + open_side(room, at@, dir);
                        assert(indices_of(kernel@) =~= listed);
                    }
                },
                None => {
                    proof {
                        assert(listed + open_side(room, at@, dir) =~= listed);
                        listed = listed + open_side(room, at@, dir);
                    }
                },
            }
            d = d + 1;
        }
        kernel
    }

    /// The cell, among `at` and the neighbours that it can get to, with the
    /// smallest number on `map`; the first of them if there are several.
    fn sink_toward(at: Coord, room: &Room, map: &FullBitIndexMap<u8>) -> (r: Coord)
        requires
            at.wf(),
            map@.len() == 128,
        ensures
            r.wf(),
            exists|k: int| #[trigger]
                first_least(kernel_of(room, at@), map@, k) && kernel_of(room, at@)[k] == r@,
    {
        let kernel = SinkAi::coord_kernel(at, room);
        let mut best: usize = 0;
        let mut k: usize = 1;
        proof {
            kernel@[0].lemma_view();
        }
        while k < kernel.len()
            invariant
                1 <= k <= kernel@.len(),
                best < k,
                map@.len() == 128,
                forall|j: int| 0 <= j < kernel@.len() ==> (#[trigger] kernel@[j]).wf(),
                forall|j: int| 0 <= j < k ==> map@[(#[trigger] kernel@[j])@] >= map@[kernel@[best as int]@],
                forall|j: int| 0 <= j < best ==> map@[(#[trigger] kernel@[j])@] > map@[kernel@[best as int]@],
            decreases kernel@.len() - k,
        {
            proof {
                kernel@[k as int].lemma_view();
                kernel@[best as int].lemma_view();
            }
            if *map.get(kernel[k].bit_index()) < *map.get(kernel[best].bit_index()) {
                best = k;
            }
            k = k + 1;
        }
        proof {
            let cells = kernel_of(room, at@);
            assert(cells == indices_of(kernel@));
            assert forall|j: int| 0 <= j < cells.len() implies map@[#[trigger] cells[j]] >= map@[cells[best as int]] by {
                assert(cells[j] == kernel@[j]@);
            }
            assert forall|j: int| 0 <= j < best implies map@[#[trigger] cells[j]] > map@[cells[best as int]] by {
                assert(cells[j] == kernel@[j]@);
            }
            assert(first_least(cells, map@, best as int) && cells[best as int] == kernel@[best as int]@);
        }
        kernel[best]
    }

    /// The cell, among `at` and the neighbours that it can get to, with the
    /// greatest number on `map`; the last of them if there are several.
    fn sink_away(at: Coord, room: &Room, map: &FullBitIndexMap<u8>) -> (r: Coord)
        requires
            at.wf(),
            map@.len() == 128,
        ensures
            r.wf(),
            exists|k: int| #[trigger]
                last_greatest(kernel_of(room, at@), map@, k) && kernel_of(room, at@)[k] == r@,
    {
        let kernel = SinkAi::coord_kernel(at, room);
        let mut best: usize = 0;
        let mut k: usize = 1;
        proof {
            kernel@[0].lemma_view();
        }
        while k < kernel.len()
            invariant
                1 <= k <= kernel@.len(),
                best < k,
                map@.len() == 128,
                forall|j: int| 0 <= j < kernel@.len() ==> (#[trigger] kernel@[j]).wf(),
                forall|j: int| 0 <= j < k ==> map@[(#[trigger] kernel@[j])@] <= map@[kernel@[best as int]@],
                forall|j: int| best < j < k ==> map@[(#[trigger] kernel@[j])@] < map@[kernel@[best as int]@],
            decreases kernel@.len() - k,
        {
            proof {
                kernel@[k as int].lemma_view();
                kernel@[best as int].lemma_view();
            }
            if *map.get(kernel[k].bit_index()) >= *map.get(kernel[best].bit_index()) {
                best = k;
            }
            k = k + 1;
        }
        proof {
            let cells = kernel_of(room, at@);
            assert(cells == indices_of(kernel@));
            assert forall|j: int| 0 <= j < cells.len() implies map@[#[trigger] cells[j]] <= map@[cells[best as int]] by {
                assert(cells[j] == kernel@[j]@);
            }
            assert forall|j: int| best < j < cells.len() implies map@[#[trigger] cells[j]] < map@[cells[best as int]] by {
                assert(cells[j] == kernel@[j]@);
            }
            assert(last_greatest(cells, map@, best as int) && cells[best as int] == kernel@[best as int]@);
        }
        kernel[best]
    }

    /// The map that gives for each cell the smaller of the numbers that `a`
    /// and `b` give for it.
    fn reduce_sink_maps(a: FullBitIndexMap<u8>, b: FullBitIndexMap<u8>) -> (r: FullBitIndexMap<u8>)
        requires
            a@.len() == 128,
            b@.len() == 128,
        ensures
            r@.len() == 128,
            forall|i: int|
                0 <= i < 128 ==> #[trigger] r@[i] == if a@[i] <= b@[i] {
                    a@[i]
                } else {
                    b@[i]
                },
    {
        let ghost given = a@;
        let mut a = a;
        let mut i: u16 = 0;
        while i < INDICES
            invariant
                i <= INDICES,
                a@.len() == 128,
                b@.len() == 128,
                given.len() == 128,
                forall|j: int|
                    0 <= j < i ==> #[trigger] a@[j] == if given[j] <= b@[j] {
                        given[j]
                    } else {
                        b@[j]
                    },
                forall|j: int| i <= j < 128 ==> #[trigger] a@[j] == given[j],
            decreases INDICES - i,
        {
            let bi = BitIndex(i);
            let least = if *a.get(bi) <= *b.get(bi) {
                *a.get(bi)
            } else {
                *b.get(bi)
            };
            a.set(bi, least);
            i = i + 1;
        }
        a
    }
}

impl SinkAi {
    /// A map that counts steps to the cell `sink`, going out from the sink
    /// ring by ring through the room; cells with a teleporter are left out
    /// if `avoid_teleporters` is set.
    fn sink_map_to(world: &World, sink: Coord, avoid_teleporters: bool) -> (r: FullBitIndexMap<u8>)
        requires
            sink.wf(),
        ensures
            counts_steps_to(r@, world, sink@, avoid_teleporters),
    {
        let mut map = FullBitIndexMap::new_copied(UNKNOWN);
        let mut bfs_queue: VecDeque<Coord> = VecDeque::new();
        bfs_queue.push_back(sink);
        map.set(sink.bit_index(), 0);
        let ghost mut known: Set<int> = Set::<int>::empty().insert(sink@);
        let dirs = Direction::iter_domain();
        proof {
            sink.lemma_view();
            lemma_bounded(known);
        }
        loop
            invariant
                sink.wf(),
                0 <= sink@ < 128,
                dirs@ == seq![Direction::Up, Direction::Down, Direction::Left, Direction::Right],
                map@.len() == 128,
                known.subset_of(all_indices()),
                known.finite(),
                known.len() <= 128,
                forall|c: int| 0 <= c < 128 ==> (known.contains(c) <==> #[trigger] map@[c] != UNKNOWN),
                forall|c: int| known.contains(c) ==> #[trigger] map@[c] < known.len(),
                forall|k: int|
                    0 <= k < bfs_queue@.len() ==> (#[trigger] bfs_queue@[k]).wf() && known.contains(
                        bfs_queue@[k]@,
                    ),
                map@[sink@] == 0,
                forall|c: int|
                    0 <= c < 128 && #[trigger] map@[c] != UNKNOWN && c != sink@ ==> one_up(
                        map@,
                        &world.room,
                        c,
                    ) && (avoid_teleporters ==> !world.entities.has_teleporter_in(c)),
            decreases 2 * (128 - known.len()) + bfs_queue@.len(),
        {
            let ghost budget = 2 * (128 - known.len()) + bfs_queue@.len();
            let coord = match bfs_queue.pop_front() {
                Some(coord) => coord,
                None => {
                    break ;
                },
            };
            proof {
                coord.lemma_view();
            }
            let here = *map.get(coord.bit_index());
            let mut d: usize = 0;
            while d < 4
                invariant
                    d <= 4,
                    sink.wf(),
                    0 <= sink@ < 128,
                    coord.wf(),
                    0 <= coord@ < 128,
                    known.contains(coord@),
                    here == map@[coord@],
                    dirs@ == seq![Direction::Up, Direction::Down, Direction::Left, Direction::Right],
                    map@.len() == 128,
                    known.subset_of(all_indices()),
                    known.finite(),
                    known.len() <= 128,
                    forall|c: int|
                        0 <= c < 128 ==> (known.contains(c) <==> #[trigger] map@[c] != UNKNOWN),
                    forall|c: int| known.contains(c) ==> #[trigger] map@[c] < known.len(),
                    forall|k: int|
                        0 <= k < bfs_queue@.len() ==> (#[trigger] bfs_queue@[k]).wf()
                            && known.contains(bfs_queue@[k]@),
                    map@[sink@] == 0,
                    forall|c: int|
                        0 <= c < 128 && #[trigger] map@[c] != UNKNOWN && c != sink@ ==> one_up(
                            map@,
                            &world.room,
                            c,
                        ) && (avoid_teleporters ==> !world.entities.has_teleporter_in(c)),
                    2 * (128 - known.len()) + bfs_queue@.len() < budget,
                decreases 4 - d,
            {
                let step_dir = dirs[d];
                d = d + 1;
                let dest = match coord.stepped_in_room(&world.room, step_dir) {
                    Some(dest) => dest,
                    None => {
                        continue ;
                    },
                };
                proof {
                    dest.lemma_view();
                }
                if avoid_teleporters && at_teleporter(world, dest) {
                    continue ;
                }
                if *map.get(dest.bit_index()) == UNKNOWN {
                    let ghost before = map@;
                    let ghost queued = bfs_queue@;
                    map.set(dest.bit_index(), here + 1);
                    bfs_queue.push_back(dest);
                    proof {
                        let more = known.insert(dest@);
                        lemma_bounded(more);
                        assert(dest@ != sink@);
                        assert(dest@ != coord@);
                        assert forall|c: int|
                            0 <= c < 128 && #[trigger] map@[c] != UNKNOWN && c != sink@ implies one_up(
                            map@,
                            &world.room,
                            c,
                        ) && (avoid_teleporters ==> !world.entities.has_teleporter_in(c)) by {
                            if c == dest@ {
                                assert(neighbour(coord@, step_dir) == c && !world.room.blocks(
                                    coord@,
                                    step_dir,
                                ) && map@[coord@] + 1 == map@[c]);
                            } else {
                                assert(before[c] != UNKNOWN);
                                assert(one_up(before, &world.room, c));
                                let (n, dir) = choose|n: int, dir: Direction|
                                    0 <= n < 128 && #[trigger] neighbour(n, dir) == c
                                        && !world.room.blocks(n, dir) && before[n] + 1 == before[c];
                                assert(n != dest@);
                                assert(neighbour(n, dir) == c && !world.room.blocks(n, dir)
                                    && map@[n] + 1 == map@[c]);
                            }
                        }
                        assert forall|k: int|
                            0 <= k < bfs_queue@.len() implies (#[trigger] bfs_queue@[k]).wf()
                            && more.contains(bfs_queue@[k]@) by {
                            if k < queued.len() {
                                assert(bfs_queue@[k] == queued[k]);
                            }
                        }
                        known = more;
                    }
                }
            }
        }
        map
    }

    /// Where the player of the color `color` seems to be: where it is, if
    /// it is near enough to be seen; else where it was thought to be.
    fn estimate(&self, world: &World, rng: &mut CachedRng, me_at: Coord, color: PlayerColor, thought: Coord) -> (r: Coord)
        requires
            self.wf(),
            me_at.wf(),
            thought.wf(),
        ensures
            r.wf(),
            final(rng).cached() == old(rng).cached(),
            final(rng).cached_bits() == old(rng).cached_bits(),
            r@ == seems_at(self.sight(), world, me_at@, color, thought@),
    {
        let real_coord = coord_of_player(world, color);
        let dist = coord_dist(real_coord, me_at);
        proof {
            real_coord.lemma_view();
            me_at.lemma_view();
        }
        if dist < self.view_size + player_size().scalar_div(2) {
            real_coord
        } else if dist < self.view_size.scalar_div(2) {
            Coord::random(rng)
        } else {
            thought
        }
    }

    /// Looks round: finds out where prey and predator seem to be and counts
    /// the steps to them, and to the nearest teleporter, from everywhere.
    fn update_model(&mut self, world: &World, rng: &mut CachedRng)
        requires
            old(self).wf(),
        ensures
            final(self).wf(),
            final(self).color() == old(self).color(),
            final(self).sight() == old(self).sight(),
            final(self).heads_for() == old(self).heads_for(),
            final(self).maps().0.len() == 128,
            final(self).maps().1.len() == 128,
            final(self).maps().2.len() == 128,
            final(self).rebuilt_model(old(self), world),
            final(rng).cached() == old(rng).cached(),
            final(rng).cached_bits() == old(rng).cached_bits(),
    {
        let me_at = coord_of_player(world, self.my_color);
        let prey_at = self.estimate(world, rng, me_at, self.my_color.prey(), self.prey_maybe_at);
        self.prey_maybe_at = prey_at;
        let predator_at = self.estimate(
            world,
            rng,
            me_at,
            self.my_color.predator(),
            self.predator_maybe_at,
        );
        self.predator_maybe_at = predator_at;
        self.sink_to_prey = SinkAi::sink_map_to(world, self.prey_maybe_at, true);
        self.sink_to_predator = SinkAi::sink_map_to(world, self.predator_maybe_at, true);
        let first = SinkAi::sink_map_to(
            world,
            Coord::from_pos_flooring(world.entities.teleporters[0]),
            false,
        );
        let second = SinkAi::sink_map_to(
            world,
            Coord::from_pos_flooring(world.entities.teleporters[1]),
            false,
        );
        let ghost to_first = first@;
        let ghost to_second = second@;
        self.sink_to_teleporters = SinkAi::reduce_sink_maps(first, second);
        proof {
            assert(self.sink_to_teleporters@ =~= least_of(to_first, to_second));
            assert(teleporter_map(self.maps().2, world, to_first, to_second));
        }
    }

    /// The cell that the player makes for when it stands in the cell with
    /// index `me` of `room` and its maps are as given: downhill to the prey
    /// if the prey is no farther than the predator; else downhill to a
    /// teleporter if one is nearer than the predator; else uphill from the
    /// predator.
    pub open spec fn is_choice(
        room: &Room,
        me: int,
        to_prey: Seq<u8>,
        to_predator: Seq<u8>,
        to_teleporters: Seq<u8>,
        goal: int,
    ) -> bool {
        let cells = kernel_of(room, me);
        if to_prey[me] <= to_predator[me] {
            exists|k: int| #[trigger] first_least(cells, to_prey, k) && cells[k] == goal
        } else if to_teleporters[me] < to_predator[me] {
            exists|k: int| #[trigger] first_least(cells, to_teleporters, k) && cells[k] == goal
        } else {
            exists|k: int| #[trigger] last_greatest(cells, to_predator, k) && cells[k] == goal
        }
    }

    /// The maps of the player: to the prey, to the predator and to the
    /// teleporters.
    pub closed spec fn maps(&self) -> (Seq<u8>, Seq<u8>, Seq<u8>) {
        (self.sink_to_prey@, self.sink_to_predator@, self.sink_to_teleporters@)
    }

    /// Picks the cell to make for.
    fn update_goal(&mut self, world: &World)
        requires
            old(self).wf(),
            old(self).maps().0.len() == 128,
            old(self).maps().1.len() == 128,
            old(self).maps().2.len() == 128,
        ensures
            final(self).wf(),
            final(self).color() == old(self).color(),
            final(self).sight() == old(self).sight(),
            final(self).kept_model(old(self)),
            SinkAi::is_choice(
                &world.room,
                cell_index(world.entities.player(old(self).color()).pos),
                old(self).maps().0,
                old(self).maps().1,
                old(self).maps().2,
                final(self).heads_for()@,
            ),
    {
        let me_at = coord_of_player(world, self.my_color);
        let bi = me_at.bit_index();
        self.goal = if *self.sink_to_prey.get(bi) <= *self.sink_to_predator.get(bi) {
            SinkAi::sink_toward(me_at, &world.room, &self.sink_to_prey)
        } else {
            if *self.sink_to_teleporters.get(bi) < *self.sink_to_predator.get(bi) {
                SinkAi::sink_toward(me_at, &world.room, &self.sink_to_teleporters)
            } else {
                SinkAi::sink_away(me_at, &world.room, &self.sink_to_predator)
            }
        };
    }

    /// Looks round once in sixteen times, and picks the cell to make for
    /// every time.
    fn update_model_and_goal(&mut self, world: &World, rng: &mut CachedRng)
        requires
            old(self).wf(),
            old(self).maps().0.len() == 128,
            old(self).maps().1.len() == 128,
            old(self).maps().2.len() == 128,
            old(rng).wf(),
        ensures
            final(self).wf(),
            final(self).color() == old(self).color(),
            final(self).sight() == old(self).sight(),
            final(self).maps().0.len() == 128,
            final(self).maps().1.len() == 128,
            final(self).maps().2.len() == 128,
            final(rng).wf(),
            exists|bits: u32| #[trigger]
                final(rng).dealt(old(rng), 4, bits) && final(self).thought_over(
                    old(self),
                    world,
                    bits == 0,
                ),
    {
        let bits = rng.gen_bits(4);
        let ghost dealt_to = *rng;
        if bits == 0 {
            self.update_model(world, rng);
        }
        let ghost looked = *self;
        self.update_goal(world);
        proof {
            assert(rng.dealt(old(rng), 4, bits));
            assert(self.thought_over(old(self), world, bits == 0));
        }
    }
}

/// Whether the player of the color `color` stands near enough to the cell
/// with index `me` to be seen by one who sees `sight` far: nearer, from
/// corner to corner of their cells, than the sight and half a player more.
pub open spec fn seen_from(sight: Size, world: &World, me: int, color: PlayerColor) -> bool {
    crate::game::room::corner_of(cell_index(world.entities.player(color).pos)).minus(
        crate::game::room::corner_of(me),
    ).magnitudes().within(
        DimMap::xy((sight.at(Dim::X) + 910) as u16, (sight.at(Dim::Y) + 1820) as u16),
    )
}

/// The cell in which the player of the color `color` seems to be to one
/// who stands in the cell with index `me`, sees `sight` far, and thought it
/// in the cell with index `thought`: the cell in which it is, if it can be
/// seen, else the cell in which it was thought to be.
pub open spec fn seems_at(
    sight: Size,
    world: &World,
    me: int,
    color: PlayerColor,
    thought: int,
) -> int {
    if seen_from(sight, world, me, color) {
        cell_index(world.entities.player(color).pos)
    } else {
        thought
    }
}

/// The map that gives for each cell the smaller of the numbers that `a` and
/// `b` give for it.
pub open spec fn least_of(a: Seq<u8>, b: Seq<u8>) -> Seq<u8> {
    Seq::new(
        128,
        |i: int|
            if a[i] <= b[i] {
                a[i]
            } else {
                b[i]
            },
    )
}

/// `map` counts the steps to the nearer of the two teleporters: it is the
/// lesser of `first` and `second`, which count the steps to one each.
pub open spec fn teleporter_map(map: Seq<u8>, world: &World, first: Seq<u8>, second: Seq<u8>) -> bool {
    &&& counts_steps_to(first, world, cell_index(world.entities.teleporters[0]), false)
    &&& counts_steps_to(second, world, cell_index(world.entities.teleporters[1]), false)
    &&& map == least_of(first, second)
}

/// The player of the color `color` stands in the middle of its cell.
pub open spec fn centered(world: &World, color: PlayerColor) -> bool {
    world.entities.player(color).pos == crate::game::center_of(
        cell_index(world.entities.player(color).pos),
    )
}

impl SinkAi {
    /// The player is in order: it remembers cells only, and its maps cover
    /// the room.
    pub open spec fn ready(&self) -> bool {
        &&& self.wf()
        &&& self.maps().0.len() == 128
        &&& self.maps().1.len() == 128
        &&& self.maps().2.len() == 128
    }

    /// The player knows of the room what it knew in `before`.
    pub open spec fn kept_model(&self, before: &SinkAi) -> bool {
        &&& self.maps() == before.maps()
        &&& self.prey_guess() == before.prey_guess()
        &&& self.predator_guess() == before.predator_guess()
    }

    /// The player has looked round in `world` since `before`: it thinks
    /// prey and predator where they seem to be from where it stands, and
    /// its maps count the steps to those two cells, keeping away from
    /// teleporters, and to the nearer teleporter.
    pub open spec fn rebuilt_model(&self, before: &SinkAi, world: &World) -> bool {
        let me = cell_index(world.entities.player(before.color()).pos);
        &&& self.prey_guess().wf()
        &&& self.prey_guess()@ == seems_at(
            before.sight(),
            world,
            me,
            before.color().hunts(),
            before.prey_guess()@,
        )
        &&& self.predator_guess().wf()
        &&& self.predator_guess()@ == seems_at(
            before.sight(),
            world,
            me,
            before.color().hunted_by(),
            before.predator_guess()@,
        )
        &&& counts_steps_to(self.maps().0, world, self.prey_guess()@, true)
        &&& counts_steps_to(self.maps().1, world, self.predator_guess()@, true)
        &&& exists|first: Seq<u8>, second: Seq<u8>| #[trigger]
            teleporter_map(self.maps().2, world, first, second)
    }

    /// The player has thought over where to go in `world` since `before`:
    /// it has looked round if `looked` holds, else it knows what it knew;
    /// and it makes for the cell that its maps tell it to.
    pub open spec fn thought_over(&self, before: &SinkAi, world: &World, looked: bool) -> bool {
        &&& self.color() == before.color()
        &&& self.sight() == before.sight()
        &&& if looked {
            self.rebuilt_model(before, world)
        } else {
            self.kept_model(before)
        }
        &&& self.heads_for().wf()
        &&& SinkAi::is_choice(
            &world.room,
            cell_index(world.entities.player(before.color()).pos),
            self.maps().0,
            self.maps().1,
            self.maps().2,
            self.heads_for()@,
        )
    }

    /// The player was put somewhere else in `world` since `before`: it
    /// makes for the cell it is in, knows nothing of the ways through the
    /// room, and thinks prey and predator where it thought them.
    pub open spec fn was_moved(&self, before: &SinkAi, world: &World) -> bool {
        &&& self.color() == before.color()
        &&& self.sight() == before.sight()
        &&& self.prey_guess() == before.prey_guess()
        &&& self.predator_guess() == before.predator_guess()
        &&& self.heads_for().wf()
        &&& self.heads_for()@ == cell_index(world.entities.player(before.color()).pos)
        &&& self.maps().0 == Seq::new(128, |i: int| UNKNOWN)
        &&& self.maps().1 == Seq::new(128, |i: int| UNKNOWN)
        &&& self.maps().2 == Seq::new(128, |i: int| UNKNOWN)
    }

    /// The player has been asked in `world` how it wants to move since
    /// `before`, and has answered `vel`. Off the middle of its cell it has
    /// not changed; in the middle it has thought over where to go, with or
    /// without looking round. Its answer is the way to the middle of the
    /// cell that it makes for.
    pub open spec fn steered(&self, before: &SinkAi, world: &World, vel: Vel) -> bool {
        &&& if centered(world, before.color()) {
            self.thought_over(before, world, true) || self.thought_over(before, world, false)
        } else {
            *self == *before
        }
        &&& vel == heading(
            self.heads_for().center().minus(world.entities.player(before.color()).pos),
        )
    }

    /// The player forgets what it knew of the room, and makes for the cell
    /// it is in.
    pub fn i_was_moved(&mut self, world: &World)
        requires
            old(self).ready(),
        ensures
            final(self).ready(),
            final(self).was_moved(old(self), world),
    {
        self.goal = Coord::from_pos_flooring(world.entities.players[self.my_color.to_index()].pos);
        self.sink_to_teleporters = FullBitIndexMap::new_copied(UNKNOWN);
        self.sink_to_prey = FullBitIndexMap::new_copied(UNKNOWN);
        self.sink_to_predator = FullBitIndexMap::new_copied(UNKNOWN);
        proof {
            assert(self.sink_to_prey@ =~= Seq::new(128, |i: int| UNKNOWN));
            assert(self.sink_to_predator@ =~= Seq::new(128, |i: int| UNKNOWN));
            assert(self.sink_to_teleporters@ =~= Seq::new(128, |i: int| UNKNOWN));
        }
    }

    /// In the middle of a cell the player thinks over where to go: it deals
    /// itself four random bits, looks round if all four are nought, and
    /// picks the cell to make for. Then, and off the middle too, it heads
    /// for the middle of the cell that it makes for.
    pub fn update(&mut self, world: &World, rng: &mut CachedRng) -> (r: Vel)
        requires
            old(self).ready(),
            old(rng).wf(),
        ensures
            final(self).ready(),
            final(rng).wf(),
            final(self).steered(old(self), world, r),
            centered(world, old(self).color()) ==> exists|bits: u32| #[trigger]
                final(rng).dealt(old(rng), 4, bits) && final(self).thought_over(
                    old(self),
                    world,
                    bits == 0,
                ),
            !centered(world, old(self).color()) ==> final(rng).cached() == old(rng).cached()
                && final(rng).cached_bits() == old(rng).cached_bits(),
    {
        let pos = pos_of_player(world, self.my_color);
        let cell = Coord::from_pos_flooring(pos);
        let centre = cell.center_pos();
        let pos_centered = pos.arr[0] == centre.arr[0] && pos.arr[1] == centre.arr[1];
        proof {
            cell.lemma_view();
            if pos_centered {
                DimMap::lemma_ext(pos, centre);
            }
        }
        if pos_centered {
            self.update_model_and_goal(world, rng);
        }
        diff_to_vel(self.goal.center_pos() - pos_of_player(world, self.my_color))
    }
}

/// What a map says of the steps to a cell depends on the room and on where
/// the teleporters are, not on how anybody moves.
pub proof fn lemma_counts_by_places(
    map: Seq<u8>,
    w1: &World,
    w2: &World,
    sink: int,
    avoid_teleporters: bool,
)
    requires
        w1.room == w2.room,
        w1.entities.teleporters == w2.entities.teleporters,
        counts_steps_to(map, w1, sink, avoid_teleporters),
    ensures
        counts_steps_to(map, w2, sink, avoid_teleporters),
{
    assert forall|c: int| 0 <= c < 128 && #[trigger] map[c] != UNKNOWN && c != sink implies one_up(
        map,
        &w2.room,
        c,
    ) && (avoid_teleporters ==> !w2.entities.has_teleporter_in(c)) by {
        assert(one_up(map, &w1.room, c));
    }
}

/// What a player does when it is asked how it wants to move depends on
/// the room and on where everything is, not on how anybody moves.
pub proof fn lemma_steered_by_places(a1: SinkAi, a0: SinkAi, w1: &World, w2: &World, vel: Vel)
    requires
        w1.room == w2.room,
        w1.entities.teleporters == w2.entities.teleporters,
        forall|c: PlayerColor| w1.entities.player(c).pos == w2.entities.player(c).pos,
        a1.steered(&a0, w1, vel),
    ensures
        a1.steered(&a0, w2, vel),
{
    if centered(w1, a0.color()) {
        if a1.thought_over(&a0, w1, true) {
            lemma_counts_by_places(a1.maps().0, w1, w2, a1.prey_guess()@, true);
            lemma_counts_by_places(a1.maps().1, w1, w2, a1.predator_guess()@, true);
            let (first, second) = choose|first: Seq<u8>, second: Seq<u8>| #[trigger]
                teleporter_map(a1.maps().2, w1, first, second);
            lemma_counts_by_places(first, w1, w2, cell_index(w1.entities.teleporters[0]), false);
            lemma_counts_by_places(second, w1, w2, cell_index(w1.entities.teleporters[1]), false);
            assert(teleporter_map(a1.maps().2, w2, first, second));
            assert(a1.thought_over(&a0, w2, true));
        } else {
            assert(a1.thought_over(&a0, w2, false));
        }
    }
}

impl Ai for SinkAi {
    open spec fn in_order(&self) -> bool {
        self.ready()
    }

    fn i_was_moved(&mut self, world: &World)
        ensures
            final(self).was_moved(old(self), world),
    {
        SinkAi::i_was_moved(self, world)
    }

    fn update(&mut self, world: &World, rng: &mut CachedRng) -> (r: Vel)
        ensures
            final(self).steered(old(self), world, r),
            centered(world, old(self).color()) ==> exists|bits: u32| #[trigger]
                final(rng).dealt(old(rng), 4, bits) && final(self).thought_over(
                    old(self),
                    world,
                    bits == 0,
                ),
            !centered(world, old(self).color()) ==> final(rng).cached() == old(rng).cached()
                && final(rng).cached_bits() == old(rng).cached_bits(),
    {
        SinkAi::update(self, world, rng)
    }
}

} // verus!
