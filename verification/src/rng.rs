//! The source of randomness: a generator that hands out one word at a time,
//! and a cache that deals a word out a few bits at a time.
use crate::axes::Direction;
use vstd::prelude::*;

verus! {

#[verifier::external_type_specification]
#[verifier::external_body]
pub struct ExFastrandRng(fastrand::Rng);

/// `fastrand::Rng::new`: a generator whose seed is drawn from the state of
/// the thread. Nothing is claimed of it.
#[verifier::external_body]
fn generator_from_thread() -> (r: fastrand::Rng) {
    fastrand::Rng::new()
}

/// `fastrand::Rng::with_seed`: a generator that starts from `seed`. Nothing
/// is claimed of it.
#[verifier::external_body]
fn generator_from_seed(seed: u64) -> (r: fastrand::Rng) {
    fastrand::Rng::with_seed(seed)
}

/// `fastrand::Rng::u64` on the full range: any value may come back.
#[verifier::external_body]
fn draw_u64(generator: &mut fastrand::Rng) -> (r: u64) {
    generator.u64(..)
}

/// `fastrand::Rng::u32` on the full range: any value may come back.
#[verifier::external_body]
fn draw_u32(generator: &mut fastrand::Rng) -> (r: u32) {
    generator.u32(..)
}

/// `fastrand::Rng::u16` on the range from zero up to, not including, `bound`:
/// the value that comes back lies in that range. The range must not be
/// empty.
#[verifier::external_body]
fn draw_u16_below(generator: &mut fastrand::Rng, bound: u16) -> (r: u16)
    requires
        bound > 0,
    ensures
        r < bound,
{
    generator.u16(0..bound)
}

/// `fastrand::Rng::shuffle`: the slice holds afterwards what it held before,
/// in some order.
#[verifier::external_body]
fn shuffle_four(generator: &mut fastrand::Rng, directions: &mut [Direction; 4])
    ensures
        final(directions)@.to_multiset() == old(directions)@.to_multiset(),
{
    generator.shuffle(directions)
}

/// A generator of random numbers that keeps what is left of the last word
/// it drew, to deal out single bits cheaply.
pub struct CachedRng {
    pub fastrand_rng: fastrand::Rng,
    cache: u32,
    cache_lsb_left: u8,
}

/// The `bits` lowest bits of `word`.
pub open spec fn low_bits(word: u32, bits: u8) -> u32 {
    if bits >= 32 {
        word
    } else {
        word & (((1u32 << bits) - 1) as u32)
    }
}

/// `word` without its `bits` lowest bits, the rest moved down.
pub open spec fn high_bits(word: u32, bits: u8) -> u32 {
    if bits >= 32 {
        0
    } else {
        word >> bits
    }
}

impl CachedRng {
    /// The bits that were drawn and not dealt out yet, lowest first.
    pub closed spec fn cached(&self) -> u32 {
        self.cache
    }

    /// How many of the cached bits are left.
    pub closed spec fn cached_bits(&self) -> u8 {
        self.cache_lsb_left
    }

    /// No more bits count as cached than a word holds.
    pub open spec fn wf(&self) -> bool {
        self.cached_bits() <= 32
    }

    /// `self` is what becomes of `before` when `bits` bits are dealt out
    /// and come out as `r`: they are the lowest bits that were cached, as
    /// long as enough were; else they are the lowest bits of some new
    /// word, and the rest of that word is cached.
    pub open spec fn dealt(&self, before: &CachedRng, bits: u8, r: u32) -> bool {
        &&& before.cached_bits() >= bits ==> {
            &&& r == low_bits(before.cached(), bits)
            &&& self.cached() == high_bits(before.cached(), bits)
            &&& self.cached_bits() == before.cached_bits() - bits
        }
        &&& before.cached_bits() < bits ==> {
            &&& self.cached_bits() == 32 - bits
            &&& exists|word: u32| r == low_bits(word, bits) && self.cached() == high_bits(word, bits)
        }
    }

    /// A seed that differs from run to run.
    pub fn random_seed() -> u64 {
        let mut generator = generator_from_thread();
        draw_u64(&mut generator)
    }

    /// A generator that starts from `seed`, with nothing cached.
    pub fn new_seeded(seed: u64) -> (r: CachedRng)
        ensures
            r.wf(),
            r.cached_bits() == 0,
    {
        CachedRng { fastrand_rng: generator_from_seed(seed), cache: 0, cache_lsb_left: 0 }
    }

    /// Deals out `bits` random bits as the low bits of the result. They
    /// come from the cache as long as it holds enough; else a new word is
    /// drawn first, and what was left in the cache is dropped.
    pub fn gen_bits(&mut self, bits: u8) -> (r: u32)
        requires
            old(self).wf(),
            bits <= 32,
        ensures
            final(self).wf(),
            r == low_bits(r, bits),
            final(self).dealt(old(self), bits, r),
    {
        if self.cache_lsb_left < bits {
            self.cache = draw_u32(&mut self.fastrand_rng);
            self.cache_lsb_left = 32;
        }
        let word = self.cache;
        let ret = if bits == 32 {
            word
        } else {
            assert((1u32 << bits) >= 1) by (bit_vector)
                requires
                    bits < 32,
            ;
            let mask: u32 = (1u32 << bits) - 1;
            assert((word & mask) & mask == word & mask) by (bit_vector);
            word & mask
        };
        self.cache_lsb_left = self.cache_lsb_left - bits;
        self.cache = if bits == 32 {
            0
        } else {
            word >> bits
        };
        assert(ret == low_bits(word, bits) && self.cached() == high_bits(word, bits));
        ret
    }

    /// Deals out one random bit: whether it is set.
    pub fn gen_bool(&mut self) -> (r: bool)
        requires
            old(self).wf(),
        ensures
            final(self).wf(),
            exists|bit: u32| #[trigger] final(self).dealt(old(self), 1, bit) && r == (bit != 0),
    {
        let bit = self.gen_bits(1);
        assert(self.dealt(old(self), 1, bit));
        bit != 0
    }

    /// A random number below `bound`, which must not be zero.
    pub fn gen_u16_below(&mut self, bound: u16) -> (r: u16)
        requires
            bound > 0,
        ensures
            r < bound,
            final(self).cached() == old(self).cached(),
            final(self).cached_bits() == old(self).cached_bits(),
    {
        draw_u16_below(&mut self.fastrand_rng, bound)
    }

    /// The four directions in a random order.
    pub fn shuffled_directions(&mut self) -> (r: [Direction; 4])
        ensures
            forall|d: Direction| r@.contains(d),
            final(self).cached() == old(self).cached(),
            final(self).cached_bits() == old(self).cached_bits(),
    {
        let mut directions = Direction::iter_domain();
        let ghost before = directions@;
        shuffle_four(&mut self.fastrand_rng, &mut directions);
        proof {
            assert forall|d: Direction| directions@.contains(d) by {
                assert(before.contains(d));
                before.to_multiset_ensures();
                directions@.to_multiset_ensures();
                assert(before.to_multiset().count(d) > 0);
                assert(directions@.to_multiset().count(d) > 0);
            }
        }
        directions
    }
}

impl crate::axes::Dim {
    /// One of the two axes, picked by one random bit: `X` if the bit is
    /// set, else `Y`.
    pub fn random(rng: &mut CachedRng) -> (r: crate::axes::Dim)
        requires
            old(rng).wf(),
        ensures
            final(rng).wf(),
            exists|bit: u32| #[trigger]
                final(rng).dealt(old(rng), 1, bit) && r == if bit != 0 {
                    crate::axes::Dim::X
                } else {
                    crate::axes::Dim::Y
                },
    {
        if rng.gen_bool() {
            crate::axes::Dim::X
        } else {
            crate::axes::Dim::Y
        }
    }
}

} // verus!
