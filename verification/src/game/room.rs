//! The maze: a torus of cells with walls between them.
//!
//! The room is sixteen cells wide and eight cells high. Each cell owns the
//! wall along its upper edge and the wall along its left edge. The walls of
//! the first kind run along `X` and are kept under `X`, those of the second
//! kind under `Y`.
use crate::axes::{Dim, DimMap, Direction, Sign};
use crate::bit_set::{all_indices, BitIndex, BitIndexSet, INDICES};
use crate::game::{Pos, Size};
use crate::rng::CachedRng;
use crate::wrap_int::WrapInt;
use vstd::prelude::*;

verus! {

/// The length of the ring along either axis.
pub const ROOM_SIZE: u32 = 65536;

/// How many cells lie side by side along `X`.
pub const CELL_COUNT_X: u8 = 16;

/// How many cells lie one below the other along `Y`.
pub const CELL_COUNT_Y: u8 = 8;

/// How many cells the room has.
pub const TOT_CELL_COUNT: u16 = 128;

/// The width of a cell.
pub const CELL_SIZE_X: u16 = 4096;

/// The height of a cell.
pub const CELL_SIZE_Y: u16 = 8192;

/// The extent of a cell along `dim`.
pub open spec fn cell_extent(dim: Dim) -> int {
    match dim {
        Dim::X => 4096,
        Dim::Y => 8192,
    }
}

/// How many cells lie along `dim`.
pub open spec fn cell_count(dim: Dim) -> int {
    match dim {
        Dim::X => 16,
        Dim::Y => 8,
    }
}

/// The size of a cell.
pub open spec fn spec_cell_size() -> Size {
    DimMap::xy(4096u16, 8192u16)
}

/// Half the size of a cell.
pub open spec fn spec_half_cell_size() -> Size {
    DimMap::xy(2048u16, 4096u16)
}

/// The size of a cell.
#[verifier::when_used_as_spec(spec_cell_size)]
pub fn cell_size() -> (r: Size)
    ensures
        r == cell_size(),
{
    DimMap::new_xy(CELL_SIZE_X, CELL_SIZE_Y)
}

/// Half the size of a cell.
#[verifier::when_used_as_spec(spec_half_cell_size)]
pub fn half_cell_size() -> (r: Size)
    ensures
        r == half_cell_size(),
{
    DimMap::new_xy(CELL_SIZE_X / 2, CELL_SIZE_Y / 2)
}

/// The extent of a cell along `dim`.
pub fn cell_size_along(dim: Dim) -> (r: u16)
    ensures
        r == cell_extent(dim),
{
    match dim {
        Dim::X => CELL_SIZE_X,
        Dim::Y => CELL_SIZE_Y,
    }
}

/// The column, or the row, of the cell in which `pos` lies.
pub open spec fn cell_along(pos: Pos, dim: Dim) -> int {
    pos.at(dim).steps() as int / cell_extent(dim)
}

/// The index of the cell in column `col` and row `row`.
pub open spec fn index_of(col: int, row: int) -> int {
    row * 16 + col
}

/// The index of the cell in which `pos` lies.
pub open spec fn cell_index(pos: Pos) -> int {
    index_of(cell_along(pos, Dim::X), cell_along(pos, Dim::Y))
}

/// The upper left corner of the cell with index `i`.
pub open spec fn corner_of(i: int) -> Pos {
    DimMap::xy(
        WrapInt::of_u16(((i % 16) * 4096) as u16),
        WrapInt::of_u16(((i / 16) * 8192) as u16),
    )
}

/// The index of the cell next to cell `i` in direction `dir`; the room wraps
/// round at its edges.
pub open spec fn neighbour(i: int, dir: Direction) -> int {
    let col = i % 16;
    let row = i / 16;
    match dir {
        Direction::Up => index_of(col, (row + 7) % 8),
        Direction::Down => index_of(col, (row + 1) % 8),
        Direction::Left => index_of((col + 15) % 16, row),
        Direction::Right => index_of((col + 1) % 16, row),
    }
}

/// Going one cell in a direction and one cell back leads to where one
/// started; and a neighbour of a cell is a cell.
pub proof fn lemma_neighbour(i: int, dir: Direction)
    requires
        0 <= i < 128,
    ensures
        0 <= neighbour(i, dir) < 128,
        neighbour(neighbour(i, dir), dir.reversed()) == i,
{
}

/// Among the walls `x`, kept under `X`, and `y`, kept under `Y`, one
/// stands between cell `i` and its neighbour in direction `dir`.
pub open spec fn wall_between(x: Set<int>, y: Set<int>, i: int, dir: Direction) -> bool {
    match dir.axis().other() {
        Dim::X => x.contains(wall_owner(i, dir)),
        Dim::Y => y.contains(wall_owner(i, dir)),
    }
}

/// The cell in which the walk `path` ends that starts in cell `from`.
pub open spec fn walk_end(from: int, path: Seq<Direction>) -> int
    decreases path.len(),
{
    if path.len() == 0 {
        from
    } else {
        walk_end(neighbour(from, path[0]), path.drop_first())
    }
}

/// No wall stands in the way of the walk `path` that starts in cell `from`.
pub open spec fn walk_is_open(x: Set<int>, y: Set<int>, from: int, path: Seq<Direction>) -> bool
    decreases path.len(),
{
    path.len() == 0 || (!wall_between(x, y, from, path[0]) && walk_is_open(
        x,
        y,
        neighbour(from, path[0]),
        path.drop_first(),
    ))
}

/// A walk leads from cell `a` to cell `b` that no wall stands in the way of.
pub open spec fn joined(x: Set<int>, y: Set<int>, a: int, b: int) -> bool {
    exists|path: Seq<Direction>| walk_is_open(x, y, a, path) && walk_end(a, path) == b
}

/// Every neighbour of cell `v` is in `cells`.
pub open spec fn enclosed(cells: Set<int>, v: int) -> bool {
    forall|dir: Direction| cells.contains(#[trigger] neighbour(v, dir))
}

/// All four walls round cell `u` stand.
pub open spec fn walled_in(x: Set<int>, y: Set<int>, u: int) -> bool {
    forall|dir: Direction| #[trigger] wall_between(x, y, u, dir)
}

/// A wall parts two cells and no others: if the wall that a step from cell
/// `u` in direction `back` crosses is the one that a step from cell `i` in
/// direction `dir` crosses, then `u` is `i` or the neighbour of `i` in
/// direction `dir`.
pub proof fn lemma_wall_parts_two(i: int, dir: Direction, u: int, back: Direction)
    requires
        0 <= i < 128,
        0 <= u < 128,
        back.axis() == dir.axis(),
        wall_owner(u, back) == wall_owner(i, dir),
    ensures
        u == i || u == neighbour(i, dir),
{
    lemma_neighbour(i, dir);
    lemma_neighbour(u, back);
    lemma_neighbour(i, dir.reversed());
}

/// A wall stands between two cells whichever way one looks at it.
pub proof fn lemma_wall_both_ways(x: Set<int>, y: Set<int>, i: int, dir: Direction)
    requires
        0 <= i < 128,
    ensures
        wall_between(x, y, neighbour(i, dir), dir.reversed()) == wall_between(x, y, i, dir),
{
    lemma_neighbour(i, dir);
}

/// An open walk goes on by one step where no wall stands in the way of the
/// step.
pub proof fn lemma_walk_push(x: Set<int>, y: Set<int>, a: int, path: Seq<Direction>, dir: Direction)
    requires
        walk_is_open(x, y, a, path),
        !wall_between(x, y, walk_end(a, path), dir),
    ensures
        walk_is_open(x, y, a, path.push(dir)),
        walk_end(a, path.push(dir)) == neighbour(walk_end(a, path), dir),
    decreases path.len(),
{
    let longer = path.push(dir);
    if path.len() == 0 {
        assert(longer.drop_first() =~= Seq::<Direction>::empty());
        assert(longer[0] == dir);
        assert(walk_end(a, path) == a);
        assert(walk_is_open(x, y, neighbour(a, dir), longer.drop_first()));
        assert(walk_end(neighbour(a, dir), longer.drop_first()) == neighbour(a, dir));
    } else {
        lemma_walk_push(x, y, neighbour(a, path[0]), path.drop_first(), dir);
        assert(longer.drop_first() =~= path.drop_first().push(dir));
        assert(longer[0] == path[0]);
        assert(walk_is_open(x, y, neighbour(a, longer[0]), longer.drop_first()));
        assert(walk_end(a, path) == walk_end(neighbour(a, path[0]), path.drop_first()));
    }
}

/// A walk that is open stays open when walls are torn down.
pub proof fn lemma_walk_stays_open(
    x: Set<int>,
    y: Set<int>,
    fewer_x: Set<int>,
    fewer_y: Set<int>,
    a: int,
    path: Seq<Direction>,
)
    requires
        fewer_x.subset_of(x),
        fewer_y.subset_of(y),
        walk_is_open(x, y, a, path),
    ensures
        walk_is_open(fewer_x, fewer_y, a, path),
    decreases path.len(),
{
    if path.len() > 0 {
        lemma_walk_stays_open(x, y, fewer_x, fewer_y, neighbour(a, path[0]), path.drop_first());
    }
}

/// Cells that are joined stay joined when walls are torn down.
pub proof fn lemma_stays_joined(
    x: Set<int>,
    y: Set<int>,
    fewer_x: Set<int>,
    fewer_y: Set<int>,
    a: int,
    b: int,
)
    requires
        fewer_x.subset_of(x),
        fewer_y.subset_of(y),
        joined(x, y, a, b),
    ensures
        joined(fewer_x, fewer_y, a, b),
{
    let path = choose|path: Seq<Direction>| walk_is_open(x, y, a, path) && walk_end(a, path) == b;
    lemma_walk_stays_open(x, y, fewer_x, fewer_y, a, path);
}

/// Whoever can get to a cell can get to its neighbour if no wall stands
/// between the two.
pub proof fn lemma_joined_step(x: Set<int>, y: Set<int>, a: int, b: int, dir: Direction)
    requires
        joined(x, y, a, b),
        !wall_between(x, y, b, dir),
    ensures
        joined(x, y, a, neighbour(b, dir)),
{
    let path = choose|path: Seq<Direction>| walk_is_open(x, y, a, path) && walk_end(a, path) == b;
    lemma_walk_push(x, y, a, path, dir);
}

/// Two open walks, one after the other, are an open walk.
pub proof fn lemma_walk_concat(
    x: Set<int>,
    y: Set<int>,
    a: int,
    first: Seq<Direction>,
    second: Seq<Direction>,
)
    requires
        walk_is_open(x, y, a, first),
        walk_is_open(x, y, walk_end(a, first), second),
    ensures
        walk_is_open(x, y, a, first + second),
        walk_end(a, first + second) == walk_end(walk_end(a, first), second),
    decreases first.len(),
{
    if first.len() == 0 {
        assert(first + second =~= second);
    } else {
        lemma_walk_concat(x, y, neighbour(a, first[0]), first.drop_first(), second);
        assert((first + second).drop_first() =~= first.drop_first() + second);
        assert((first + second)[0] == first[0]);
    }
}

/// An open walk can be gone back.
pub proof fn lemma_walk_back(x: Set<int>, y: Set<int>, a: int, path: Seq<Direction>) -> (back: Seq<
    Direction,
>)
    requires
        0 <= a < 128,
        walk_is_open(x, y, a, path),
    ensures
        walk_is_open(x, y, walk_end(a, path), back),
        walk_end(walk_end(a, path), back) == a,
    decreases path.len(),
{
    if path.len() == 0 {
        Seq::<Direction>::empty()
    } else {
        let next = neighbour(a, path[0]);
        lemma_neighbour(a, path[0]);
        let rest = lemma_walk_back(x, y, next, path.drop_first());
        lemma_wall_both_ways(x, y, a, path[0]);
        lemma_walk_push(x, y, walk_end(a, path), rest, path[0].reversed());
        rest.push(path[0].reversed())
    }
}

/// Being joined goes both ways, and from one cell to a third by way of a
/// second.
pub proof fn lemma_joined_by_way_of(x: Set<int>, y: Set<int>, hub: int, a: int, b: int)
    requires
        0 <= hub < 128,
        joined(x, y, hub, a),
        joined(x, y, hub, b),
    ensures
        joined(x, y, a, b),
{
    let out = choose|path: Seq<Direction>| walk_is_open(x, y, hub, path) && walk_end(hub, path) == a;
    let on = choose|path: Seq<Direction>| walk_is_open(x, y, hub, path) && walk_end(hub, path) == b;
    let back = lemma_walk_back(x, y, hub, out);
    lemma_walk_concat(x, y, a, back, on);
}

proof fn lemma_enclosed_right(cells: Set<int>, i: int, k: nat)
    requires
        forall|v: int| 0 <= v < 128 && cells.contains(v) ==> enclosed(cells, v),
        0 <= i < 128,
        cells.contains(i),
    ensures
        cells.contains(index_of((i % 16 + k) % 16, i / 16)),
    decreases k,
{
    if k > 0 {
        lemma_enclosed_right(cells, i, (k - 1) as nat);
        let j = index_of((i % 16 + k - 1) % 16, i / 16);
        assert(enclosed(cells, j));
        assert(neighbour(j, Direction::Right) == index_of((i % 16 + k) % 16, i / 16));
    }
}

proof fn lemma_enclosed_down(cells: Set<int>, i: int, k: nat)
    requires
        forall|v: int| 0 <= v < 128 && cells.contains(v) ==> enclosed(cells, v),
        0 <= i < 128,
        cells.contains(i),
    ensures
        cells.contains(index_of(i % 16, (i / 16 + k) % 8)),
    decreases k,
{
    if k > 0 {
        lemma_enclosed_down(cells, i, (k - 1) as nat);
        let j = index_of(i % 16, (i / 16 + k - 1) % 8);
        assert(enclosed(cells, j));
        assert(neighbour(j, Direction::Down) == index_of(i % 16, (i / 16 + k) % 8));
    }
}

proof fn lemma_round_the_columns(from: int, to: int)
    requires
        0 <= from < 16,
        0 <= to < 16,
    ensures
        0 <= (to - from + 16) % 16 < 16,
        (from + (to - from + 16) % 16) % 16 == to,
{
}

proof fn lemma_round_the_rows(from: int, to: int)
    requires
        0 <= from < 8,
        0 <= to < 8,
    ensures
        0 <= (to - from + 8) % 8 < 8,
        (from + (to - from + 8) % 8) % 8 == to,
{
}

/// A set of cells that holds a cell, and with each of its cells all the
/// neighbours of that cell, holds every cell.
pub proof fn lemma_enclosed_is_all(cells: Set<int>, seed: int, target: int)
    requires
        forall|v: int| 0 <= v < 128 && cells.contains(v) ==> enclosed(cells, v),
        0 <= seed < 128,
        cells.contains(seed),
        0 <= target < 128,
    ensures
        cells.contains(target),
{
    let from_col = seed % 16;
    let from_row = seed / 16;
    let to_col = target % 16;
    let to_row = target / 16;
    let across = (to_col - from_col + 16) % 16;
    lemma_round_the_columns(from_col, to_col);
    lemma_enclosed_right(cells, seed, across as nat);
    let mid = index_of(to_col, from_row);
    assert(cells.contains(mid));
    assert(mid % 16 == to_col && mid / 16 == from_row);
    let down = (to_row - from_row + 8) % 8;
    lemma_round_the_rows(from_row, to_row);
    lemma_enclosed_down(cells, mid, down as nat);
    assert(index_of(to_col, to_row) == target);
}

/// A cell of the room, known by its upper left corner.
#[derive(Debug, Copy, Clone, PartialEq, Eq, Hash)]
pub struct Coord {
    pos: Pos,
}

/// Which wall a step crosses: a wall of the kind kept under `dim`, owned by
/// the cell that the step leaves if `managed_by_src`, else by the cell that
/// it enters.
pub struct CrossesWallInfo {
    pub dim: Dim,
    pub managed_by_src: bool,
}

impl Direction {
    pub fn crosses_wall_info(self) -> (r: CrossesWallInfo)
        ensures
            r.dim == self.axis().other(),
            r.managed_by_src == (self.sense() == Sign::Negative),
    {
        CrossesWallInfo {
            dim: core::ops::Not::not(self.dim()),
            managed_by_src: match self {
                Direction::Down | Direction::Right => false,
                Direction::Up | Direction::Left => true,
            },
        }
    }
}

/// The index of the cell that owns the wall which a step from cell `i` in
/// direction `dir` crosses.
pub open spec fn wall_owner(i: int, dir: Direction) -> int {
    if dir.sense() == Sign::Negative {
        i
    } else {
        neighbour(i, dir)
    }
}

impl View for Coord {
    type V = int;

    closed spec fn view(&self) -> int {
        cell_index(self.pos)
    }
}

impl Coord {
    pub const DOMAIN_SIZE: u16 = 128;

    /// The upper left corner of the cell.
    pub closed spec fn corner(&self) -> Pos {
        self.pos
    }

    /// The corner lies on the grid.
    pub closed spec fn wf(&self) -> bool {
        &&& self.pos.at(Dim::X).steps() % 4096 == 0
        &&& self.pos.at(Dim::Y).steps() % 8192 == 0
    }

    /// The point in the middle of the cell.
    pub open spec fn center(&self) -> Pos {
        self.corner().plus(DimMap::xy(WrapInt(2048), WrapInt(4096)))
    }

    /// A cell is known by its index: the index is that of a cell, the corner
    /// is the corner of the cell with that index, and cells with the same
    /// index are the same.
    pub proof fn lemma_view(&self)
        requires
            self.wf(),
        ensures
            0 <= self@ < 128,
            self.corner() == corner_of(self@),
            cell_index(self.corner()) == self@,
    {
        let x = self.pos.at(Dim::X);
        let y = self.pos.at(Dim::Y);
        let col = x.steps() as int / 4096;
        let row = y.steps() as int / 8192;
        assert(self@ == row * 16 + col);
        assert(self@ % 16 == col && self@ / 16 == row);
        assert(col * 4096 == x.steps());
        assert(row * 8192 == y.steps());
        assert(WrapInt::of_u16((col * 4096) as u16) == x);
        assert(WrapInt::of_u16((row * 8192) as u16) == y);
        DimMap::lemma_ext(self.pos, corner_of(self@));
    }

    /// The corner of a cell lies in the cell.
    pub proof fn lemma_corner_of(i: int)
        requires
            0 <= i < 128,
        ensures
            cell_index(corner_of(i)) == i,
            corner_of(i).at(Dim::X).steps() % 4096 == 0,
            corner_of(i).at(Dim::Y).steps() % 8192 == 0,
    {
        let col = i % 16;
        let row = i / 16;
        let x = WrapInt::of_u16((col * 4096) as u16);
        let y = WrapInt::of_u16((row * 8192) as u16);
        assert(x.steps() == col * 4096);
        assert(y.steps() == row * 8192);
        assert(x.steps() as int / 4096 == col);
        assert(y.steps() as int / 8192 == row);
    }

    /// Whether two cells are the same.
    pub fn same_cell(self, other: Coord) -> (r: bool)
        requires
            self.wf(),
            other.wf(),
        ensures
            r == (self@ == other@),
            r == (self == other),
    {
        proof {
            self.lemma_view();
            other.lemma_view();
            if self.pos.at(Dim::X) == other.pos.at(Dim::X) && self.pos.at(Dim::Y) == other.pos.at(
                Dim::Y,
            ) {
                DimMap::lemma_ext(self.pos, other.pos);
            }
        }
        self.pos.arr[0] == other.pos.arr[0] && self.pos.arr[1] == other.pos.arr[1]
    }

    /// The cell next to this one in direction `dir`, whether or not a wall
    /// stands between the two.
    pub fn stepped(self, dir: Direction) -> (r: Coord)
        requires
            self.wf(),
        ensures
            r.wf(),
            r@ == neighbour(self@, dir),
    {
        let dim = dir.dim();
        let size = cell_size_along(dim);
        let old_steps = self.pos.get(dim).to_u16();
        let new_steps = match dir.sign() {
            Sign::Positive => old_steps.wrapping_add(size),
            Sign::Negative => old_steps.wrapping_sub(size),
        };
        let mut r = self;
        r.pos.set(dim, WrapInt::from(new_steps));
        proof {
            self.lemma_view();
            let moved = r.pos.at(dim).steps() as int;
            let stayed = r.pos.at(dim.other()).steps() as int;
            assert(moved == new_steps);
            assert(stayed == self.pos.at(dim.other()).steps());
            assert(moved % cell_extent(dim) == 0);
            assert(moved / cell_extent(dim) == match dir.sense() {
                Sign::Positive => (old_steps as int / cell_extent(dim) + 1) % cell_count(dim),
                Sign::Negative => (old_steps as int / cell_extent(dim) + cell_count(dim) - 1)
                    % cell_count(dim),
            });
        }
        r
    }

    /// The cell next to this one in direction `dir`, unless a wall stands
    /// between the two.
    pub fn stepped_in_room(self, room: &Room, dir: Direction) -> (r: Option<Coord>)
        requires
            self.wf(),
        ensures
            match r {
                Some(dest) => dest.wf() && dest@ == neighbour(self@, dir) && !room.blocks(
                    self@,
                    dir,
                ),
                None => room.blocks(self@, dir),
            },
    {
        let dest = self.stepped(dir);
        let cwi = dir.crosses_wall_info();
        let owner = if cwi.managed_by_src {
            self
        } else {
            dest
        };
        if room.wall_sets.get(cwi.dim).contains(owner.bit_index()) {
            None
        } else {
            Some(dest)
        }
    }

    /// The upper left corner of the cell.
    pub fn corner_pos(self) -> (r: Pos)
        ensures
            r == self.corner(),
    {
        self.pos
    }

    /// The point in the middle of the cell.
    pub fn center_pos(self) -> (r: Pos)
        ensures
            r == self.center(),
    {
        self.pos + DimMap::new_xy(WrapInt(2048), WrapInt(4096))
    }

    /// The cell in which `pos` lies.
    pub fn from_pos_flooring(pos: Pos) -> (r: Coord)
        ensures
            r.wf(),
            r@ == cell_index(pos),
    {
        let x: u16 = pos.arr[0].to_u16();
        let y: u16 = pos.arr[1].to_u16();
        let fx: u16 = x / CELL_SIZE_X * CELL_SIZE_X;
        let fy: u16 = y / CELL_SIZE_Y * CELL_SIZE_Y;
        let r = Coord { pos: DimMap::new_xy(WrapInt::from(fx), WrapInt::from(fy)) };
        proof {
            assert(r.pos.at(Dim::X).steps() == fx);
            assert(r.pos.at(Dim::Y).steps() == fy);
            assert(fx as int / 4096 == x as int / 4096);
            assert(fy as int / 8192 == y as int / 8192);
        }
        r
    }

    /// The cell whose corner lies nearest to `pos`, going by the cells that
    /// start half a cell up and to the left of the grid.
    pub fn from_pos_rounding(pos: Pos) -> (r: Coord)
        ensures
            r.wf(),
            r@ == cell_index(pos.plus(DimMap::xy(WrapInt(2048), WrapInt(4096)))),
    {
        Coord::from_pos_flooring(pos + DimMap::new_xy(WrapInt(2048), WrapInt(4096)))
    }

    /// A cell picked at random.
    pub fn random(rng: &mut CachedRng) -> (r: Coord)
        ensures
            r.wf(),
            final(rng).cached() == old(rng).cached(),
            final(rng).cached_bits() == old(rng).cached_bits(),
    {
        Coord::from_bit_index(BitIndex::random(rng))
    }

    /// The cell with the given index.
    pub fn from_bit_index(bit_index: BitIndex) -> (r: Coord)
        requires
            bit_index.wf(),
        ensures
            r.wf(),
            r@ == bit_index@,
    {
        let col: u16 = bit_index.0 % 16;
        let row: u16 = bit_index.0 / 16;
        let x = WrapInt::from(col * CELL_SIZE_X);
        let y = WrapInt::from(row * CELL_SIZE_Y);
        let r = Coord { pos: DimMap::new_xy(x, y) };
        proof {
            Coord::lemma_corner_of(bit_index@);
            DimMap::lemma_ext(r.pos, corner_of(bit_index@));
        }
        r
    }

    /// The index of the cell.
    pub fn bit_index(self) -> (r: BitIndex)
        requires
            self.wf(),
        ensures
            r.wf(),
            r@ == self@,
    {
        let col: u16 = self.pos.arr[0].to_u16() / CELL_SIZE_X;
        let row: u16 = self.pos.arr[1].to_u16() / CELL_SIZE_Y;
        BitIndex(row * 16 + col)
    }
}

impl Default for Coord {
    fn default() -> (r: Coord)
        ensures
            r.wf(),
            r@ == 0,
    {
        Coord { pos: DimMap::new_xy(WrapInt(0), WrapInt(0)) }
    }
}

#[derive(Debug, Clone, PartialEq, Eq)]
pub struct Room {
    pub wall_sets: DimMap<BitIndexSet>,
}

impl Room {
    /// The cells that own a wall of the kind kept under `dim`.
    pub open spec fn walls(&self, dim: Dim) -> Set<int> {
        self.wall_sets.at(dim)@
    }

    /// A wall stands between cell `i` and its neighbour in direction `dir`.
    pub open spec fn blocks(&self, i: int, dir: Direction) -> bool {
        wall_between(self.walls(Dim::X), self.walls(Dim::Y), i, dir)
    }

    /// A walk leads from cell `a` to cell `b` that no wall stands in the
    /// way of.
    pub open spec fn connects(&self, a: int, b: int) -> bool {
        joined(self.walls(Dim::X), self.walls(Dim::Y), a, b)
    }

    /// From every cell of the room one can walk to every other.
    pub open spec fn connected(&self) -> bool {
        forall|a: int, b: int| 0 <= a < 128 && 0 <= b < 128 ==> #[trigger] self.connects(a, b)
    }

    /// How many walls stand in the room.
    pub fn wall_count(&self) -> (r: u32)
        ensures
            r == self.walls(Dim::X).len() + self.walls(Dim::Y).len(),
    {
        let x: u32 = self.wall_sets.arr[0].len() as u32;
        let y: u32 = self.wall_sets.arr[1].len() as u32;
        x + y
    }

    /// Whether the cell `coord` owns a wall of the kind kept under `dim`.
    pub fn has_wall(&self, coord: Coord, dim: Dim) -> (r: bool)
        requires
            coord.wf(),
        ensures
            r == self.walls(dim).contains(coord@),
    {
        self.wall_sets.get(dim).contains(coord.bit_index())
    }
}

/// A room under construction: all walls that still stand, and the cells
/// that the builder has been to.
struct IncompleteRoom {
    wall_sets: DimMap<BitIndexSet>,
    visited: BitIndexSet,
}

impl IncompleteRoom {
    spec fn walls(&self, dim: Dim) -> Set<int> {
        self.wall_sets.at(dim)@
    }

    /// Stepping from `src` in direction `dir` has led to the cell `dest`,
    /// which the builder had not been to: `dest` counts as visited now, and
    /// the wall between the two cells is gone.
    spec fn opened(&self, before: &IncompleteRoom, src: int, dir: Direction, dest: Coord) -> bool {
        &&& dest.wf()
        &&& dest@ == neighbour(src, dir)
        &&& !before.visited@.contains(dest@)
        &&& self.visited@ == before.visited@.insert(dest@)
        &&& self.walls(dir.axis().other()) == before.walls(dir.axis().other()).remove(
            wall_owner(src, dir),
        )
        &&& self.walls(dir.axis()) == before.walls(dir.axis())
    }

    /// A walk leads from cell `a` to cell `b` that no wall stands in the
    /// way of.
    spec fn reaches(&self, a: int, b: int) -> bool {
        joined(self.walls(Dim::X), self.walls(Dim::Y), a, b)
    }

    /// Walks from `start` through the whole room, tearing down a wall on
    /// the way into each cell, and back: afterwards every cell can be
    /// reached from `start`.
    fn carve(&mut self, rng: &mut CachedRng, start: Coord)
        requires
            start.wf(),
            old(rng).wf(),
            old(self).visited@ == Set::<int>::empty().insert(start@),
            old(self).walls(Dim::X) == all_indices(),
            old(self).walls(Dim::Y) == all_indices(),
        ensures
            final(rng).wf(),
            forall|v: int| 0 <= v < 128 ==> final(self).reaches(start@, v),
            final(self).walls(Dim::X).len() + final(self).walls(Dim::Y).len() == 129,
    {
        let mut at = start;
        let mut step_stack: Vec<Direction> = Vec::new();
        let ghost mut trail: Seq<int> = seq![start@];
        proof {
            start.lemma_view();
            assert(walk_is_open(self.walls(Dim::X), self.walls(Dim::Y), start@, Seq::empty()));
            assert(walk_end(start@, Seq::<Direction>::empty()) == start@);
            assert(self.reaches(start@, start@));
            assert(trail[0] == start@);
            assert forall|v: int| self.visited@.contains(v) implies trail.contains(v) by {
                assert(v == start@);
            }
            self.wall_sets.at(Dim::X).lemma_view_bounded();
            vstd::set_lib::lemma_int_range(0, 128);
            assert(all_indices() =~= vstd::set_lib::set_int_range(0, 128));
            assert forall|u: int| 0 <= u < 128 implies walled_in(
                self.walls(Dim::X),
                self.walls(Dim::Y),
                u,
            ) by {
                assert forall|dir: Direction| #[trigger]
                    wall_between(self.walls(Dim::X), self.walls(Dim::Y), u, dir) by {
                    lemma_neighbour(u, dir);
                }
            }
        }
        loop
            invariant_except_break
                at.wf(),
                trail.len() == step_stack@.len() + 1,
                trail[0] == start@,
                trail.last() == at@,
                forall|k: int|
                    0 <= k < step_stack@.len() ==> #[trigger] trail[k + 1] == neighbour(
                        trail[k],
                        step_stack@[k],
                    ),
                forall|k: int|
                    0 <= k < trail.len() ==> 0 <= #[trigger] trail[k] < 128 && self.visited@.contains(
                        trail[k],
                    ),
                forall|v: int| self.visited@.contains(v) ==> self.reaches(start@, v),
                forall|v: int|
                    self.visited@.contains(v) ==> trail.contains(v) || enclosed(self.visited@, v),
            invariant
                start.wf(),
                0 <= start@ < 128,
                rng.wf(),
                self.visited@.finite(),
                self.walls(Dim::X).finite(),
                self.walls(Dim::Y).finite(),
                self.walls(Dim::X).len() + self.walls(Dim::Y).len() + self.visited@.len() == 257,
                forall|u: int|
                    0 <= u < 128 && !self.visited@.contains(u) ==> walled_in(
                        self.walls(Dim::X),
                        self.walls(Dim::Y),
                        u,
                    ),
            ensures
                forall|v: int| 0 <= v < 128 ==> self.reaches(start@, v),
                self.walls(Dim::X).len() + self.walls(Dim::Y).len() == 129,
            decreases 128 - self.visited@.len(), step_stack.len(),
        {
            let ghost before = *self;
            proof {
                self.visited.lemma_view_bounded();
                at.lemma_view();
            }
            match self.try_visit_from(rng, at) {
                Some((dir, dest)) => {
                    proof {
                        self.visited.lemma_view_bounded();
                        dest.lemma_view();
                        let x = self.walls(Dim::X);
                        let y = self.walls(Dim::Y);
                        assert(x.subset_of(before.walls(Dim::X)) && y.subset_of(
                            before.walls(Dim::Y),
                        )) by {
                            match dir.axis() {
                                Dim::X => {},
                                Dim::Y => {},
                            }
                        }
                        assert(!wall_between(x, y, at@, dir)) by {
                            match dir.axis() {
                                Dim::X => {},
                                Dim::Y => {},
                            }
                        }
                        assert forall|v: int| self.visited@.contains(v) implies self.reaches(
                            start@,
                            v,
                        ) by {
                            lemma_stays_joined(
                                before.walls(Dim::X),
                                before.walls(Dim::Y),
                                x,
                                y,
                                start@,
                                at@,
                            );
                            if v == dest@ {
                                lemma_joined_step(x, y, start@, at@, dir);
                            } else {
                                lemma_stays_joined(
                                    before.walls(Dim::X),
                                    before.walls(Dim::Y),
                                    x,
                                    y,
                                    start@,
                                    v,
                                );
                            }
                        }
                        assert(walled_in(before.walls(Dim::X), before.walls(Dim::Y), dest@));
                        lemma_neighbour(at@, dir);
                        lemma_wall_both_ways(
                            before.walls(Dim::X),
                            before.walls(Dim::Y),
                            at@,
                            dir,
                        );
                        assert(wall_between(
                            before.walls(Dim::X),
                            before.walls(Dim::Y),
                            dest@,
                            dir.reversed(),
                        ));
                        assert(wall_between(before.walls(Dim::X), before.walls(Dim::Y), at@, dir));
                        assert(x.len() + y.len() + 1 == before.walls(Dim::X).len() + before.walls(
                            Dim::Y,
                        ).len()) by {
                            match dir.axis() {
                                Dim::X => {},
                                Dim::Y => {},
                            }
                        }
                        assert forall|u: int|
                            0 <= u < 128 && !self.visited@.contains(u) implies walled_in(x, y, u) by {
                            assert(walled_in(before.walls(Dim::X), before.walls(Dim::Y), u));
                            assert forall|back: Direction| #[trigger] wall_between(x, y, u, back) by {
                                assert(wall_between(
                                    before.walls(Dim::X),
                                    before.walls(Dim::Y),
                                    u,
                                    back,
                                ));
                                if back.axis() == dir.axis() && wall_owner(u, back) == wall_owner(
                                    at@,
                                    dir,
                                ) {
                                    lemma_wall_parts_two(at@, dir, u, back);
                                }
                            }
                        }
                        let longer = trail.push(dest@);
                        assert forall|v: int| self.visited@.contains(v) implies longer.contains(v)
                            || enclosed(self.visited@, v) by {
                            if v == dest@ {
                                assert(longer[longer.len() - 1] == v);
                            } else if trail.contains(v) {
                                let k = choose|k: int| 0 <= k < trail.len() && trail[k] == v;
                                assert(longer[k] == v);
                            } else {
                                assert(enclosed(before.visited@, v));
                                assert forall|d: Direction|
                                    self.visited@.contains(#[trigger] neighbour(v, d)) by {
                                    assert(before.visited@.contains(neighbour(v, d)));
                                }
                            }
                        }
                        trail = longer;
                    }
                    at = dest;
                    step_stack.push(dir);
                },
                None => {
                    proof {
                        assert(self.visited@ == before.visited@);
                        assert(enclosed(self.visited@, at@));
                    }
                    match step_stack.pop() {
                        Some(dir) => {
                            let ghost last = trail.len() - 1;
                            proof {
                                assert(trail[last - 1 + 1] == neighbour(trail[last - 1], dir));
                                lemma_neighbour(trail[last - 1], dir);
                            }
                            at = at.stepped(dir.invert());
                            proof {
                                let shorter = trail.drop_last();
                                assert forall|v: int|
                                    self.visited@.contains(v) implies shorter.contains(v) || enclosed(
                                    self.visited@,
                                    v,
                                ) by {
                                    if trail.contains(v) && !enclosed(self.visited@, v) {
                                        let k = choose|k: int| 0 <= k < trail.len() && trail[k] == v;
                                        assert(k != last);
                                        assert(shorter[k] == v);
                                    }
                                }
                                assert forall|k: int|
                                    0 <= k < step_stack@.len() implies #[trigger] shorter[k + 1]
                                    == neighbour(shorter[k], step_stack@[k]) by {
                                    assert(trail[k + 1] == neighbour(trail[k], step_stack@.push(dir)[k]));
                                }
                                trail = shorter;
                            }
                        },
                        None => {
                            proof {
                                assert(trail.len() == 1);
                                assert forall|v: int|
                                    0 <= v < 128 && self.visited@.contains(v) implies enclosed(
                                    self.visited@,
                                    v,
                                ) by {
                                    if trail.contains(v) {
                                        let k = choose|k: int| 0 <= k < trail.len() && trail[k] == v;
                                        assert(v == at@);
                                    }
                                }
                                assert forall|v: int| 0 <= v < 128 implies self.reaches(start@, v)
                                    && self.visited@.contains(v) by {
                                    lemma_enclosed_is_all(self.visited@, start@, v);
                                }
                                self.visited.lemma_view_bounded();
                                vstd::set_lib::lemma_int_range(0, 128);
                                assert(self.visited@ =~= vstd::set_lib::set_int_range(0, 128));
                            }
                            break ;
                        },
                    }
                },
            }
        }
    }

    spec fn unchanged(&self, before: &IncompleteRoom) -> bool {
        &&& self.visited@ == before.visited@
        &&& self.walls(Dim::X) == before.walls(Dim::X)
        &&& self.walls(Dim::Y) == before.walls(Dim::Y)
    }

    /// Tries the directions in a random order and takes the first that
    /// leads to a cell that the builder has not been to.
    fn try_visit_from(&mut self, rng: &mut CachedRng, src: Coord) -> (r: Option<(Direction, Coord)>)
        requires
            src.wf(),
        ensures
            final(rng).cached() == old(rng).cached(),
            final(rng).cached_bits() == old(rng).cached_bits(),
            match r {
                Some((dir, dest)) => final(self).opened(old(self), src@, dir, dest),
                None => {
                    &&& final(self).unchanged(old(self))
                    &&& forall|dir: Direction| old(self).visited@.contains(neighbour(src@, dir))
                },
            },
    {
        let dirs = rng.shuffled_directions();
        let mut i: usize = 0;
        while i < 4
            invariant
                i <= 4,
                src.wf(),
                rng.cached() == old(rng).cached(),
                rng.cached_bits() == old(rng).cached_bits(),
                self.unchanged(old(self)),
                forall|d: Direction| dirs@.contains(d),
                forall|k: int| 0 <= k < i ==> self.visited@.contains(neighbour(src@, dirs@[k])),
            decreases 4 - i,
        {
            let dir = dirs[i];
            match self.try_visit_in_direction(src, dir) {
                Some(dest) => {
                    return Some((dir, dest));
                },
                None => {},
            }
            i = i + 1;
        }
        proof {
            assert forall|dir: Direction| old(self).visited@.contains(neighbour(src@, dir)) by {
                assert(dirs@.contains(dir));
                let k = choose|k: int| 0 <= k < dirs@.len() && dirs@[k] == dir;
                assert(self.visited@.contains(neighbour(src@, dirs@[k])));
            }
        }
        None
    }

    /// Steps from `src` in direction `dir` if that leads to a cell that the
    /// builder has not been to, and tears down the wall on the way.
    fn try_visit_in_direction(&mut self, src: Coord, dir: Direction) -> (r: Option<Coord>)
        requires
            src.wf(),
        ensures
            match r {
                Some(dest) => final(self).opened(old(self), src@, dir, dest),
                None => {
                    &&& final(self).unchanged(old(self))
                    &&& old(self).visited@.contains(neighbour(src@, dir))
                },
            },
    {
        let dest = src.stepped(dir);
        if self.visited.insert(dest.bit_index()) {
            let cwi = dir.crosses_wall_info();
            let coord = if cwi.managed_by_src {
                src
            } else {
                dest
            };
            self.wall_sets.arr[cwi.dim.map_index()].remove(coord.bit_index());
            Some(dest)
        } else {
            proof {
                assert(self.visited@ =~= old(self).visited@);
            }
            None
        }
    }
}

impl Room {
    /// A room generated from `seed`, and the generator that went on from
    /// there.
    pub fn new_seeded(seed: u64) -> (r: (Room, CachedRng))
        ensures
            r.0.connected(),
            97 <= r.0.walls(Dim::X).len() + r.0.walls(Dim::Y).len() <= 129,
            r.1.wf(),
    {
        let mut rng = CachedRng::new_seeded(seed);
        let room = Room::new(&mut rng);
        (room, rng)
    }

    /// A random maze in which every cell can be reached from every other.
    /// Of the two hundred and fifty-six walls that a room can have, the
    /// builder leaves as many as a maze without a round way needs, one
    /// hundred and twenty-nine, less up to thirty-two.
    /// The builder starts in a random cell with every wall standing. It
    /// walks to a random neighbour that it has not been to and tears down
    /// the wall between the two; where it is stuck it goes back the way it
    /// came, until it is back at the start and stuck there. At the end it
    /// tears down up to thirty-two more walls at random.
    pub fn new(rng: &mut CachedRng) -> (r: Room)
        requires
            old(rng).wf(),
        ensures
            final(rng).wf(),
            r.connected(),
            97 <= r.walls(Dim::X).len() + r.walls(Dim::Y).len() <= 129,
    {
        let mut incomplete_room = IncompleteRoom {
            visited: BitIndexSet::default(),
            wall_sets: DimMap::new([BitIndexSet::full(), BitIndexSet::full()]),
        };
        let start = Coord::random(rng);
        incomplete_room.visited.insert(start.bit_index());
        incomplete_room.carve(rng, start);
        let mut n: u16 = 0;
        while n < INDICES / 4
            invariant
                n <= INDICES / 4,
                rng.wf(),
                start.wf(),
                forall|v: int| 0 <= v < 128 ==> incomplete_room.reaches(start@, v),
                129 - n <= incomplete_room.walls(Dim::X).len() + incomplete_room.walls(Dim::Y).len()
                    <= 129,
            decreases INDICES / 4 - n,
        {
            let dim = Dim::random(rng);
            let bit_index = BitIndex::random(rng);
            let ghost before = incomplete_room;
            let ghost x = incomplete_room.walls(Dim::X);
            let ghost y = incomplete_room.walls(Dim::Y);
            incomplete_room.wall_sets.arr[dim.map_index()].remove(bit_index);
            proof {
                before.wall_sets.at(Dim::X).lemma_view_bounded();
                before.wall_sets.at(Dim::Y).lemma_view_bounded();
                assert forall|v: int| 0 <= v < 128 implies incomplete_room.reaches(start@, v) by {
                    assert(before.reaches(start@, v));
                    lemma_stays_joined(
                        x,
                        y,
                        incomplete_room.walls(Dim::X),
                        incomplete_room.walls(Dim::Y),
                        start@,
                        v,
                    );
                }
            }
            n = n + 1;
        }
        let room = Room { wall_sets: incomplete_room.wall_sets };
        proof {
            start.lemma_view();
            assert forall|a: int, b: int| 0 <= a < 128 && 0 <= b < 128 implies #[trigger] room.connects(
                a,
                b,
            ) by {
                assert(incomplete_room.reaches(start@, a));
                assert(incomplete_room.reaches(start@, b));
                lemma_joined_by_way_of(room.walls(Dim::X), room.walls(Dim::Y), start@, a, b);
            }
        }
        room
    }

    /// The walls of the room as pairs of the owning cell and the kind of
    /// wall: first those kept under `X`, then those kept under `Y`, each
    /// kind by ascending index of the cell.
    pub fn iter_walls(&self) -> (r: Vec<(Coord, Dim)>)
        ensures
            r@.len() == self.walls(Dim::X).len() + self.walls(Dim::Y).len(),
            forall|k: int|
                0 <= k < r@.len() ==> (#[trigger] r@[k]).0.wf() && self.walls(r@[k].1).contains(
                    r@[k].0@,
                ),
            forall|i: int, dim: Dim|
                self.walls(dim).contains(i) ==> exists|k: int|
                    0 <= k < r@.len() && (#[trigger] r@[k]).0@ == i && r@[k].1 == dim,
            forall|j: int, k: int|
                0 <= j < k < r@.len() ==> listed_before(
                    (#[trigger] r@[j]).0@,
                    r@[j].1,
                    (#[trigger] r@[k]).0@,
                    r@[k].1,
                ),
    {
        let mut found: Vec<(Coord, Dim)> = Vec::new();
        self.list_walls(Dim::X, &mut found);
        self.list_walls(Dim::Y, &mut found);
        proof {
            assert forall|i: int, dim: Dim| self.walls(dim).contains(i) implies exists|k: int|
                0 <= k < found@.len() && (#[trigger] found@[k]).0@ == i && found@[k].1 == dim by {
                match dim {
                    Dim::X => {},
                    Dim::Y => {},
                }
            }
        }
        found
    }

    /// Appends the walls of one kind to `found`, by ascending index of the
    /// owning cell.
    fn list_walls(&self, dim: Dim, found: &mut Vec<(Coord, Dim)>)
        ensures
            final(found)@.len() == old(found)@.len() + self.walls(dim).len(),
            forall|k: int| 0 <= k < old(found)@.len() ==> final(found)@[k] == old(found)@[k],
            forall|k: int|
                old(found)@.len() <= k < final(found)@.len() ==> {
                    &&& (#[trigger] final(found)@[k]).0.wf()
                    &&& final(found)@[k].1 == dim
                    &&& self.walls(dim).contains(final(found)@[k].0@)
                },
            forall|i: int|
                self.walls(dim).contains(i) ==> exists|k: int|
                    old(found)@.len() <= k < final(found)@.len() && (#[trigger] final(found)@[k]).0@ == i,
            forall|j: int, k: int|
                old(found)@.len() <= j < k < final(found)@.len() ==> (#[trigger] final(found)@[j]).0@ < (#[trigger] final(found)@[k]).0@,
    {
        let set = self.wall_sets.get(dim);
        let ghost start = found@.len();
        let mut i: u16 = 0;
        proof {
            set.lemma_view_bounded();
            assert(set@.filter(|j: int| j < 0) =~= Set::<int>::empty());
        }
        while i < INDICES
            invariant
                i <= INDICES,
                set == self.wall_sets.at(dim),
                start == old(found)@.len(),
                set@.filter(|j: int| j < i).finite(),
                found@.len() == start + set@.filter(|j: int| j < i).len(),
                forall|k: int| 0 <= k < start ==> found@[k] == old(found)@[k],
                forall|k: int|
                    start <= k < found@.len() ==> {
                        &&& (#[trigger] found@[k]).0.wf()
                        &&& found@[k].1 == dim
                        &&& set@.contains(found@[k].0@)
                        &&& found@[k].0@ < i
                    },
                forall|m: int|
                    set@.contains(m) && m < i ==> exists|k: int|
                        start <= k < found@.len() && (#[trigger] found@[k]).0@ == m,
                forall|j: int, k: int|
                    start <= j < k < found@.len() ==> (#[trigger] found@[j]).0@ < (
                    #[trigger] found@[k]).0@,
            decreases INDICES - i,
        {
            let ghost before = set@.filter(|j: int| j < i);
            let ghost after = set@.filter(|j: int| j < i + 1);
            let ghost listed = found@;
            if set.contains(BitIndex(i)) {
                found.push((Coord::from_bit_index(BitIndex(i)), dim));
                proof {
                    assert(after =~= before.insert(i as int));
                    assert(found@[found@.len() - 1].0@ == i);
                    assert forall|m: int| set@.contains(m) && m < i + 1 implies exists|k: int|
                        start <= k < found@.len() && (#[trigger] found@[k]).0@ == m by {
                        if m < i {
                            let k = choose|k: int|
                                start <= k < listed.len() && (#[trigger] listed[k]).0@ == m;
                            assert(found@[k] == listed[k]);
                        } else {
                            assert(found@[found@.len() - 1].0@ == m);
                        }
                    }
                }
            } else {
                proof {
                    assert(after =~= before);
                }
            }
            i = i + 1;
        }
        proof {
            assert(set@.filter(|j: int| j < INDICES) =~= set@);
        }
    }

    /// The cells whose walls of the kind `wall_dim` something at `pos` may
    /// touch, the nearest two first.
    pub fn wall_cells_to_check_at(pos: Pos, wall_dim: Dim) -> (r: [Coord; 6])
        ensures
            forall|k: int| 0 <= k < 6 ==> (#[trigger] r@[k]).wf(),
            r@[0]@ == cell_index(pos.minus(half_cell_along(wall_dim.other()))),
            r@[1]@ == neighbour(r@[0]@, Direction::of(wall_dim.other(), Sign::Positive)),
            r@[2]@ == neighbour(r@[0]@, Direction::of(wall_dim, Sign::Negative)),
            wall_dim == Dim::X ==> {
                &&& r@[3]@ == neighbour(r@[0]@, Direction::Right)
                &&& r@[4]@ == neighbour(r@[1]@, Direction::Left)
                &&& r@[5]@ == neighbour(r@[1]@, Direction::Right)
            },
            wall_dim == Dim::Y ==> {
                &&& r@[3]@ == neighbour(r@[1]@, Direction::Up)
                &&& r@[4]@ == neighbour(r@[0]@, Direction::Down)
                &&& r@[5]@ == neighbour(r@[1]@, Direction::Down)
            },
    {
        match wall_dim {
            Dim::X => {
                let shifted = pos - DimMap::new_xy(WrapInt(0), WrapInt(4096));
                let a = Coord::from_pos_flooring(shifted);
                let b = a.stepped(Direction::Down);
                [
                    a,
                    b,
                    a.stepped(Direction::Left),
                    a.stepped(Direction::Right),
                    b.stepped(Direction::Left),
                    b.stepped(Direction::Right),
                ]
            },
            Dim::Y => {
                let shifted = pos - DimMap::new_xy(WrapInt(2048), WrapInt(0));
                let a = Coord::from_pos_flooring(shifted);
                let b = a.stepped(Direction::Right);
                [
                    a,
                    b,
                    a.stepped(Direction::Up),
                    b.stepped(Direction::Up),
                    a.stepped(Direction::Down),
                    b.stepped(Direction::Down),
                ]
            },
        }
    }
}

/// Half a cell along `dim`, and nothing along the other axis.
pub open spec fn half_cell_along(dim: Dim) -> Pos {
    match dim {
        Dim::X => DimMap::xy(WrapInt(2048), WrapInt(0)),
        Dim::Y => DimMap::xy(WrapInt(0), WrapInt(4096)),
    }
}

/// The order in which walls are listed: those kept under `X` before those
/// kept under `Y`, and those of one kind by ascending index.
pub open spec fn listed_before(i: int, di: Dim, k: int, dk: Dim) -> bool {
    (di == Dim::X && dk == Dim::Y) || (di == dk && i < k)
}

} // verus!
