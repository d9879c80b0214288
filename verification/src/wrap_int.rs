//! Sixteen-bit integers on a ring: positions on one axis of the torus, and the
//! logical clocks that order protocol messages.
use core::cmp::Ordering;
use vstd::prelude::*;
use vstd::std_specs::cmp::PartialOrdSpecImpl;
use vstd::std_specs::convert::FromSpecImpl;
use vstd::std_specs::ops::{AddSpecImpl, NegSpecImpl, SubSpecImpl};

verus! {

/// The representative of `x` modulo 2^16 that lies in `-32768 ..= 32767`.
pub open spec fn wrap16(x: int) -> int {
    let m = x % 65536;
    if m >= 32768 {
        m - 65536
    } else {
        m
    }
}

/// An element of the ring of integers modulo 2^16, stored as its
/// representative in `-32768 ..= 32767`.
#[derive(Debug, Copy, Clone, PartialEq, Eq, Hash, Structural)]
pub struct WrapInt(pub i16);

impl View for WrapInt {
    type V = int;

    open spec fn view(&self) -> int {
        self.0 as int
    }
}

impl WrapInt {
    /// The neutral element of the ring.
    pub open spec fn zero() -> WrapInt {
        WrapInt(0)
    }

    pub const DOMAIN_SIZE: u32 = 65536;

    /// The ring sum of two elements.
    pub open spec fn plus(self, rhs: WrapInt) -> WrapInt {
        WrapInt(wrap16(self@ + rhs@) as i16)
    }

    /// The ring difference of two elements.
    pub open spec fn minus(self, rhs: WrapInt) -> WrapInt {
        WrapInt(wrap16(self@ - rhs@) as i16)
    }

    /// The additive inverse in the ring; `-32768` is its own inverse.
    pub open spec fn negated(self) -> WrapInt {
        WrapInt(wrap16(-self@) as i16)
    }

    /// How far the element lies from zero, going the shorter way round.
    pub open spec fn magnitude(self) -> nat {
        if self@ < 0 {
            (-self@) as nat
        } else {
            self@ as nat
        }
    }

    /// `self` comes strictly before `other`: `other` is reached from `self`
    /// by between 1 and 32767 increments.
    pub open spec fn precedes(self, other: WrapInt) -> bool {
        -32768 < self.minus(other)@ < 0
    }

    /// The two elements lie exactly half the ring apart, so that neither
    /// comes before the other.
    pub open spec fn opposite(self, other: WrapInt) -> bool {
        self.minus(other)@ == -32768
    }

    /// The element reached from zero by `x` increments.
    pub open spec fn of_u16(x: u16) -> WrapInt {
        WrapInt(wrap16(x as int) as i16)
    }

    /// The number of increments, below 2^16, that lead from zero to `self`.
    pub open spec fn steps(self) -> nat {
        (self@ % 65536) as nat
    }

    pub fn to_i16(self) -> (r: i16)
        ensures
            r == self@,
    {
        self.0
    }

    pub fn to_u16(self) -> (r: u16)
        ensures
            r == self.steps(),
            WrapInt::of_u16(r) == self,
    {
        if self.0 < 0 {
            (self.0 as i32 + 65536) as u16
        } else {
            self.0 as u16
        }
    }

    pub fn distance_from_zero(self) -> (r: u16)
        ensures
            r == self.magnitude(),
    {
        if self.0 < 0 {
            (0 - self.0 as i32) as u16
        } else {
            self.0 as u16
        }
    }

    /// On which side of zero the element lies, if on any.
    pub open spec fn side(self) -> Option<crate::axes::Sign> {
        if self@ == 0 {
            None
        } else if self@ < 0 {
            Some(crate::axes::Sign::Negative)
        } else {
            Some(crate::axes::Sign::Positive)
        }
    }

    pub fn sign(self) -> (r: Option<crate::axes::Sign>)
        ensures
            r == self.side(),
    {
        if self.0 == 0 {
            None
        } else if self.0 < 0 {
            Some(crate::axes::Sign::Negative)
        } else {
            Some(crate::axes::Sign::Positive)
        }
    }
}

impl Default for WrapInt {
    fn default() -> (r: WrapInt)
        ensures
            r == WrapInt::zero(),
    {
        WrapInt(0)
    }
}

impl From<i16> for WrapInt {
    fn from(x: i16) -> (r: WrapInt) {
        WrapInt(x)
    }
}

impl FromSpecImpl<i16> for WrapInt {
    open spec fn obeys_from_spec() -> bool {
        true
    }

    open spec fn from_spec(x: i16) -> WrapInt {
        WrapInt(x)
    }
}

impl From<u16> for WrapInt {
    fn from(x: u16) -> (r: WrapInt) {
        if x >= 32768 {
            WrapInt((x as i32 - 65536) as i16)
        } else {
            WrapInt(x as i16)
        }
    }
}

impl FromSpecImpl<u16> for WrapInt {
    open spec fn obeys_from_spec() -> bool {
        true
    }

    open spec fn from_spec(x: u16) -> WrapInt {
        WrapInt::of_u16(x)
    }
}

impl core::ops::Neg for WrapInt {
    type Output = WrapInt;

    fn neg(self) -> (r: WrapInt) {
        WrapInt(0i16.wrapping_sub(self.0))
    }
}

impl NegSpecImpl for WrapInt {
    open spec fn obeys_neg_spec() -> bool {
        true
    }

    open spec fn neg_req(self) -> bool {
        true
    }

    open spec fn neg_spec(self) -> WrapInt {
        self.negated()
    }
}

impl core::ops::Add<WrapInt> for WrapInt {
    type Output = WrapInt;

    fn add(self, rhs: WrapInt) -> (r: WrapInt) {
        WrapInt(self.0.wrapping_add(rhs.0))
    }
}

impl AddSpecImpl<WrapInt> for WrapInt {
    open spec fn obeys_add_spec() -> bool {
        true
    }

    open spec fn add_req(self, rhs: WrapInt) -> bool {
        true
    }

    open spec fn add_spec(self, rhs: WrapInt) -> WrapInt {
        self.plus(rhs)
    }
}

impl core::ops::Sub<WrapInt> for WrapInt {
    type Output = WrapInt;

    fn sub(self, rhs: WrapInt) -> (r: WrapInt) {
        WrapInt(self.0.wrapping_sub(rhs.0))
    }
}

impl SubSpecImpl<WrapInt> for WrapInt {
    open spec fn obeys_sub_spec() -> bool {
        true
    }

    open spec fn sub_req(self, rhs: WrapInt) -> bool {
        true
    }

    open spec fn sub_spec(self, rhs: WrapInt) -> WrapInt {
        self.minus(rhs)
    }
}

impl PartialOrd for WrapInt {
    fn partial_cmp(&self, other: &WrapInt) -> (r: Option<Ordering>) {
        let d: i16 = self.0.wrapping_sub(other.0);
        if d == 0 {
            Some(Ordering::Equal)
        } else if d == i16::MIN {
            None
        } else if d < 0 {
            Some(Ordering::Less)
        } else {
            Some(Ordering::Greater)
        }
    }
}

impl PartialOrdSpecImpl for WrapInt {
    open spec fn obeys_partial_cmp_spec() -> bool {
        true
    }

    open spec fn partial_cmp_spec(&self, other: &WrapInt) -> Option<Ordering> {
        if *self == *other {
            Some(Ordering::Equal)
        } else if self.opposite(*other) {
            None
        } else if self.precedes(*other) {
            Some(Ordering::Less)
        } else {
            Some(Ordering::Greater)
        }
    }
}

/// The order of the ring in terms of distance: `a` precedes `b` exactly when
/// between 1 and 32767 increments lead from `a` to `b`, and the two are
/// opposite exactly when 32768 do.
pub proof fn lemma_precedes_is_distance(a: WrapInt, b: WrapInt)
    ensures
        a.precedes(b) <==> 1 <= (b@ - a@) % 65536 <= 32767,
        a.opposite(b) <==> (b@ - a@) % 65536 == 32768,
        a == b <==> (b@ - a@) % 65536 == 0,
{
}

/// Of two elements that are not opposite each other, exactly one comes
/// before the other, unless they are equal.
pub proof fn lemma_trichotomy(a: WrapInt, b: WrapInt)
    requires
        !a.opposite(b),
    ensures
        a.precedes(b) || a == b || b.precedes(a),
        !(a.precedes(b) && a == b),
        !(a.precedes(b) && b.precedes(a)),
        !(a == b && b.precedes(a)),
{
}

/// Two opposite elements are opposite either way round, and neither comes
/// before the other.
pub proof fn lemma_opposite(a: WrapInt, b: WrapInt)
    requires
        a.opposite(b),
    ensures
        b.opposite(a),
        a != b,
        !a.precedes(b),
        !b.precedes(a),
{
}

/// Whoever comes before another is by that many increments behind it as the
/// other is ahead: the order goes by the distance on the ring.
pub proof fn lemma_precedes_by_steps(a: WrapInt, k: int)
    requires
        1 <= k <= 32767,
    ensures
        a.precedes(a.plus(WrapInt(k as i16))),
        !a.plus(WrapInt(k as i16)).precedes(a),
{
}

/// Before is transitive as long as the two distances together stay under
/// half the ring.
pub proof fn lemma_precedes_transitive(a: WrapInt, b: WrapInt, c: WrapInt)
    requires
        a.precedes(b),
        b.precedes(c),
        (b@ - a@) % 65536 + (c@ - b@) % 65536 <= 32767,
    ensures
        a.precedes(c),
{
}

/// What `<`, `==` and `>` mean on the ring: the comparison gives `Less`
/// exactly when the left side precedes the right, `Greater` when the right
/// precedes the left, `Equal` when they are equal, and nothing when they
/// are opposite.
pub proof fn lemma_comparison(a: WrapInt, b: WrapInt)
    ensures
        vstd::std_specs::cmp::PartialOrdSpec::partial_cmp_spec(&a, &b) == Some(Ordering::Less) <==> a.precedes(b),
        vstd::std_specs::cmp::PartialOrdSpec::partial_cmp_spec(&a, &b) == Some(Ordering::Greater) <==> b.precedes(a),
        vstd::std_specs::cmp::PartialOrdSpec::partial_cmp_spec(&a, &b) == Some(Ordering::Equal) <==> a == b,
        vstd::std_specs::cmp::PartialOrdSpec::partial_cmp_spec(&a, &b).is_none() <==> a.opposite(b),
{
}

} // verus!
