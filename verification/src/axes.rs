//! The two axes of the plane, the two senses along an axis, the four
//! directions they combine to, and small maps keyed by axis or by sense.
use crate::wrap_int::WrapInt;
use vstd::prelude::*;
use vstd::std_specs::ops::{MulSpecImpl, NegSpecImpl, NotSpecImpl};

verus! {

#[derive(Debug, Copy, Clone, PartialEq, Eq, Structural)]
pub enum Direction {
    Up,
    Down,
    Left,
    Right,
}

#[derive(Debug, Copy, Clone, PartialEq, Eq, Structural)]
pub enum Dim {
    X,
    Y,
}

#[derive(Debug, Copy, Clone, PartialEq, Eq, Structural)]
pub enum Sign {
    Positive,
    Negative,
}

/// One value for each axis; `arr[0]` belongs to `X`, `arr[1]` to `Y`.
#[derive(Debug, Copy, Clone, PartialEq, Eq, Hash)]
pub struct DimMap<T> {
    pub arr: [T; 2],
}

/// One value for each sense; `arr[0]` belongs to `Positive`, `arr[1]` to
/// `Negative`.
#[derive(Debug, Copy, Clone)]
pub struct SignMap<T> {
    pub arr: [T; 2],
}

impl Sign {
    /// The place of the sense in a `SignMap`.
    pub open spec fn index(self) -> int {
        match self {
            Sign::Positive => 0,
            Sign::Negative => 1,
        }
    }

    /// The other sense.
    pub open spec fn flipped(self) -> Sign {
        match self {
            Sign::Positive => Sign::Negative,
            Sign::Negative => Sign::Positive,
        }
    }

    /// `x` taken in this sense: `x` itself for `Positive`, its inverse for
    /// `Negative`.
    pub open spec fn applied(self, x: WrapInt) -> WrapInt {
        match self {
            Sign::Positive => x,
            Sign::Negative => x.negated(),
        }
    }

    pub fn map_index(self) -> (r: usize)
        ensures
            r == self.index(),
    {
        match self {
            Sign::Positive => 0,
            Sign::Negative => 1,
        }
    }

    /// Both senses, in the order of their places in a `SignMap`.
    pub fn iter_domain() -> (r: [Sign; 2])
        ensures
            r@ == seq![Sign::Positive, Sign::Negative],
            forall|s: Sign| r@[s.index()] == s,
    {
        let r = [Sign::Positive, Sign::Negative];
        assert(r@ =~= seq![Sign::Positive, Sign::Negative]);
        r
    }
}

impl core::ops::Not for Sign {
    type Output = Sign;

    fn not(self) -> (r: Sign) {
        match self {
            Sign::Positive => Sign::Negative,
            Sign::Negative => Sign::Positive,
        }
    }
}

impl NotSpecImpl for Sign {
    open spec fn obeys_not_spec() -> bool {
        true
    }

    open spec fn not_req(self) -> bool {
        true
    }

    open spec fn not_spec(self) -> Sign {
        self.flipped()
    }
}

impl core::ops::Mul<WrapInt> for Sign {
    type Output = WrapInt;

    fn mul(self, rhs: WrapInt) -> (r: WrapInt) {
        match self {
            Sign::Positive => rhs,
            Sign::Negative => core::ops::Neg::neg(rhs),
        }
    }
}

impl MulSpecImpl<WrapInt> for Sign {
    open spec fn obeys_mul_spec() -> bool {
        true
    }

    open spec fn mul_req(self, rhs: WrapInt) -> bool {
        true
    }

    open spec fn mul_spec(self, rhs: WrapInt) -> WrapInt {
        self.applied(rhs)
    }
}

impl Dim {
    /// The place of the axis in a `DimMap`.
    pub open spec fn index(self) -> int {
        match self {
            Dim::X => 0,
            Dim::Y => 1,
        }
    }

    /// The other axis.
    pub open spec fn other(self) -> Dim {
        match self {
            Dim::X => Dim::Y,
            Dim::Y => Dim::X,
        }
    }

    pub fn map_index(self) -> (r: usize)
        ensures
            r == self.index(),
    {
        match self {
            Dim::X => 0,
            Dim::Y => 1,
        }
    }

    /// The direction along this axis in the given sense.
    pub fn sign(self, sign: Sign) -> (r: Direction)
        ensures
            r == Direction::of(self, sign),
    {
        Direction::new(self, sign)
    }

    /// Both axes, in the order of their places in a `DimMap`.
    pub fn iter_domain() -> (r: [Dim; 2])
        ensures
            r@ == seq![Dim::X, Dim::Y],
            forall|d: Dim| r@[d.index()] == d,
    {
        let r = [Dim::X, Dim::Y];
        assert(r@ =~= seq![Dim::X, Dim::Y]);
        r
    }
}

impl core::ops::Not for Dim {
    type Output = Dim;

    fn not(self) -> (r: Dim) {
        match self {
            Dim::Y => Dim::X,
            Dim::X => Dim::Y,
        }
    }
}

impl NotSpecImpl for Dim {
    open spec fn obeys_not_spec() -> bool {
        true
    }

    open spec fn not_req(self) -> bool {
        true
    }

    open spec fn not_spec(self) -> Dim {
        self.other()
    }
}

impl Direction {
    /// The direction along `dim` in the sense `sign`; `Y` grows downwards.
    pub open spec fn of(dim: Dim, sign: Sign) -> Direction {
        match (dim, sign) {
            (Dim::X, Sign::Negative) => Direction::Left,
            (Dim::X, Sign::Positive) => Direction::Right,
            (Dim::Y, Sign::Negative) => Direction::Up,
            (Dim::Y, Sign::Positive) => Direction::Down,
        }
    }

    /// The axis along which the direction moves.
    pub open spec fn axis(self) -> Dim {
        match self {
            Direction::Up | Direction::Down => Dim::Y,
            Direction::Left | Direction::Right => Dim::X,
        }
    }

    /// The sense in which the direction moves along its axis.
    pub open spec fn sense(self) -> Sign {
        match self {
            Direction::Up | Direction::Left => Sign::Negative,
            Direction::Down | Direction::Right => Sign::Positive,
        }
    }

    /// The direction that undoes this one.
    pub open spec fn reversed(self) -> Direction {
        Direction::of(self.axis(), self.sense().flipped())
    }

    /// All four directions.
    pub fn iter_domain() -> (r: [Direction; 4])
        ensures
            r@ == seq![Direction::Up, Direction::Down, Direction::Left, Direction::Right],
            forall|d: Direction| r@.contains(d),
    {
        let r = [Direction::Up, Direction::Down, Direction::Left, Direction::Right];
        assert(r@ =~= seq![Direction::Up, Direction::Down, Direction::Left, Direction::Right]);
        assert forall|d: Direction| r@.contains(d) by {
            match d {
                Direction::Up => assert(r@[0] == d),
                Direction::Down => assert(r@[1] == d),
                Direction::Left => assert(r@[2] == d),
                Direction::Right => assert(r@[3] == d),
            }
        }
        r
    }

    pub fn new(dim: Dim, sign: Sign) -> (r: Direction)
        ensures
            r == Direction::of(dim, sign),
            r.axis() == dim,
            r.sense() == sign,
    {
        match (dim, sign) {
            (Dim::X, Sign::Negative) => Direction::Left,
            (Dim::X, Sign::Positive) => Direction::Right,
            (Dim::Y, Sign::Negative) => Direction::Up,
            (Dim::Y, Sign::Positive) => Direction::Down,
        }
    }

    pub fn dim(self) -> (r: Dim)
        ensures
            r == self.axis(),
    {
        match self {
            Direction::Up | Direction::Down => Dim::Y,
            Direction::Left | Direction::Right => Dim::X,
        }
    }

    pub fn sign(self) -> (r: Sign)
        ensures
            r == self.sense(),
    {
        match self {
            Direction::Up | Direction::Left => Sign::Negative,
            Direction::Down | Direction::Right => Sign::Positive,
        }
    }

    pub fn invert(self) -> (r: Direction)
        ensures
            r == self.reversed(),
            r.reversed() == self,
    {
        match self {
            Direction::Up => Direction::Down,
            Direction::Down => Direction::Up,
            Direction::Left => Direction::Right,
            Direction::Right => Direction::Left,
        }
    }

    pub fn horizontal(self) -> (r: bool)
        ensures
            r == (self.axis() == Dim::X),
    {
        match self {
            Direction::Up | Direction::Down => false,
            Direction::Left | Direction::Right => true,
        }
    }
}

impl core::ops::Neg for Direction {
    type Output = Direction;

    fn neg(self) -> (r: Direction) {
        self.invert()
    }
}

impl NegSpecImpl for Direction {
    open spec fn obeys_neg_spec() -> bool {
        true
    }

    open spec fn neg_req(self) -> bool {
        true
    }

    open spec fn neg_spec(self) -> Direction {
        self.reversed()
    }
}

impl<T> DimMap<T> {
    /// The value kept for `dim`.
    pub open spec fn at(self, dim: Dim) -> T {
        self.arr[dim.index()]
    }

    /// The map with `x` for `X` and `y` for `Y`.
    pub open spec fn xy(x: T, y: T) -> DimMap<T> {
        DimMap { arr: [x, y] }
    }

    /// Two maps are equal as soon as they agree on both axes.
    pub proof fn lemma_ext(a: DimMap<T>, b: DimMap<T>)
        requires
            a.at(Dim::X) == b.at(Dim::X),
            a.at(Dim::Y) == b.at(Dim::Y),
        ensures
            a == b,
    {
        assert(a.arr =~= b.arr);
    }

    pub fn new(arr: [T; 2]) -> (r: Self)
        ensures
            r.arr == arr,
    {
        DimMap { arr }
    }

    pub fn new_xy(x: T, y: T) -> (r: Self)
        ensures
            r == DimMap::xy(x, y),
            r.at(Dim::X) == x,
            r.at(Dim::Y) == y,
    {
        DimMap { arr: [x, y] }
    }

    pub fn new_xy_with<F: Fn(Dim) -> T>(func: F) -> (r: Self)
        requires
            func.requires((Dim::X,)),
            func.requires((Dim::Y,)),
        ensures
            func.ensures((Dim::X,), r.at(Dim::X)),
            func.ensures((Dim::Y,), r.at(Dim::Y)),
    {
        let x = func(Dim::X);
        let y = func(Dim::Y);
        DimMap { arr: [x, y] }
    }

    pub fn map<N, F: Fn(&T) -> N>(&self, f: F) -> (r: DimMap<N>)
        requires
            f.requires((&self.at(Dim::X),)),
            f.requires((&self.at(Dim::Y),)),
        ensures
            f.ensures((&self.at(Dim::X),), r.at(Dim::X)),
            f.ensures((&self.at(Dim::Y),), r.at(Dim::Y)),
    {
        DimMap { arr: [f(&self.arr[0]), f(&self.arr[1])] }
    }

    /// The value kept for `dim`.
    pub fn get(&self, dim: Dim) -> (r: &T)
        ensures
            *r == self.at(dim),
    {
        &self.arr[dim.map_index()]
    }

    /// Replaces the value kept for `dim` and leaves the other one alone.
    pub fn set(&mut self, dim: Dim, value: T)
        ensures
            final(self).at(dim) == value,
            final(self).at(dim.other()) == old(self).at(dim.other()),
    {
        self.arr[dim.map_index()] = value;
    }
}

impl<T: Copy> DimMap<T> {
    /// The map with the values of the two axes exchanged.
    pub fn yx(self) -> (r: Self)
        ensures
            r.at(Dim::X) == self.at(Dim::Y),
            r.at(Dim::Y) == self.at(Dim::X),
    {
        DimMap { arr: [self.arr[1], self.arr[0]] }
    }
}

impl<T> SignMap<T> {
    /// The value kept for `sign`.
    pub open spec fn at(self, sign: Sign) -> T {
        self.arr[sign.index()]
    }

    pub fn new(arr: [T; 2]) -> (r: Self)
        ensures
            r.arr == arr,
    {
        SignMap { arr }
    }

    /// The value kept for `sign`.
    pub fn get(&self, sign: Sign) -> (r: &T)
        ensures
            *r == self.at(sign),
    {
        &self.arr[sign.map_index()]
    }

    /// Replaces the value kept for `sign` and leaves the other one alone.
    pub fn set(&mut self, sign: Sign, value: T)
        ensures
            final(self).at(sign) == value,
            final(self).at(sign.flipped()) == old(self).at(sign.flipped()),
    {
        self.arr[sign.map_index()] = value;
    }
}

} // verus!
