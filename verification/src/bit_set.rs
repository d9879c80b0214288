//! Sets of, and maps over, the indices of the cells of a room.
use crate::rng::CachedRng;
use vstd::prelude::*;

verus! {

/// How many indices there are: one for each cell of a room.
pub const INDICES: u16 = 128;

/// The index of a cell; valid if it is below [`INDICES`].
#[derive(Debug, Copy, Clone, PartialEq, Eq, Structural)]
pub struct BitIndex(pub u16);

/// A set of valid indices, one bit for each.
#[derive(Debug, Clone, PartialEq, Eq)]
pub struct BitIndexSet {
    words: [u64; 2],
}

/// Walks through the members of a set in ascending order.
pub struct BitIndexSetIter<'a> {
    bit_set: &'a BitIndexSet,
    next_index: u16,
}

struct SplitBitIndex {
    idx_in: usize,
    idx_of: usize,
}

/// One value for each valid index.
#[derive(Debug, Copy, Clone)]
pub struct FullBitIndexMap<T> {
    data: [T; 128],
}

/// Whether bit `k` of `word` is set.
pub open spec fn has_bit(word: u64, k: u64) -> bool {
    (word >> k) & 1 == 1
}

proof fn lemma_bit_set(word: u64, k: u64, m: u64)
    requires
        k < 64,
        m < 64,
    ensures
        has_bit(word | (1u64 << k), m) == (m == k || has_bit(word, m)),
        has_bit(word & !(1u64 << k), m) == (m != k && has_bit(word, m)),
        (word | (1u64 << k)) != word <==> !has_bit(word, k),
        (word & !(1u64 << k)) != word <==> has_bit(word, k),
        (word & (1u64 << k)) != 0 <==> has_bit(word, k),
        !has_bit(0, m),
        has_bit(!0u64, m),
{
    assert(((word | (1u64 << k)) >> m) & 1 == 1 <==> (m == k || (word >> m) & 1 == 1))
        by (bit_vector)
        requires
            k < 64,
            m < 64,
    ;
    assert(((word & !(1u64 << k)) >> m) & 1 == 1 <==> (m != k && (word >> m) & 1 == 1))
        by (bit_vector)
        requires
            k < 64,
            m < 64,
    ;
    assert((word | (1u64 << k)) != word <==> !((word >> k) & 1 == 1)) by (bit_vector)
        requires
            k < 64,
    ;
    assert((word & !(1u64 << k)) != word <==> ((word >> k) & 1 == 1)) by (bit_vector)
        requires
            k < 64,
    ;
    assert((word & (1u64 << k)) != 0 <==> ((word >> k) & 1 == 1)) by (bit_vector)
        requires
            k < 64,
    ;
    assert((0u64 >> m) & 1 != 1) by (bit_vector);
    assert(((!0u64) >> m) & 1 == 1) by (bit_vector)
        requires
            m < 64,
    ;
}

impl View for BitIndex {
    type V = int;

    open spec fn view(&self) -> int {
        self.0 as int
    }
}

impl BitIndex {
    /// The index stands for a cell.
    pub open spec fn wf(self) -> bool {
        self.0 < INDICES
    }

    fn split(self) -> (r: SplitBitIndex)
        requires
            self.wf(),
        ensures
            r.idx_of == self@ / 64,
            r.idx_in == self@ % 64,
            r.idx_of < 2,
            r.idx_in < 64,
    {
        SplitBitIndex { idx_of: (self.0 / 64) as usize, idx_in: (self.0 % 64) as usize }
    }

    /// All valid indices in ascending order.
    pub fn iter_domain() -> (r: Vec<BitIndex>)
        ensures
            r@.len() == INDICES,
            forall|i: int| 0 <= i < INDICES ==> (#[trigger] r@[i])@ == i,
    {
        let mut all: Vec<BitIndex> = Vec::new();
        let mut i: u16 = 0;
        while i < INDICES
            invariant
                i <= INDICES,
                all@.len() == i,
                forall|j: int| 0 <= j < i ==> (#[trigger] all@[j])@ == j,
            decreases INDICES - i,
        {
            all.push(BitIndex(i));
            i = i + 1;
        }
        all
    }

    /// A valid index, picked at random.
    pub fn random(rng: &mut CachedRng) -> (r: BitIndex)
        ensures
            r.wf(),
            final(rng).cached() == old(rng).cached(),
            final(rng).cached_bits() == old(rng).cached_bits(),
    {
        BitIndex(rng.gen_u16_below(INDICES))
    }
}

impl SplitBitIndex {
    fn unsplit(self) -> (r: BitIndex)
        requires
            self.idx_of < 2,
            self.idx_in < 64,
        ensures
            r.wf(),
            r@ == self.idx_of * 64 + self.idx_in,
    {
        BitIndex((self.idx_of * 64 + self.idx_in) as u16)
    }
}

impl View for BitIndexSet {
    type V = Set<int>;

    closed spec fn view(&self) -> Set<int> {
        Set::new(|i: int| 0 <= i < 128 && has_bit(self.words[i / 64], (i % 64) as u64))
    }
}

/// The set of all valid indices.
pub open spec fn all_indices() -> Set<int> {
    Set::new(|i: int| 0 <= i < INDICES)
}

/// A set of valid indices is finite and has at most [`INDICES`] members.
pub proof fn lemma_bounded(s: Set<int>)
    requires
        s.subset_of(all_indices()),
    ensures
        s.finite(),
        s.len() <= INDICES,
{
    vstd::set_lib::lemma_int_range(0, 128);
    assert(all_indices() =~= vstd::set_lib::set_int_range(0, 128));
    vstd::set_lib::lemma_len_subset(s, all_indices());
}

impl BitIndexSet {
    /// The set holds valid indices only, so it is finite and has at most
    /// [`INDICES`] members.
    pub proof fn lemma_view_bounded(&self)
        ensures
            self@.subset_of(all_indices()),
            self@.finite(),
            self@.len() <= INDICES,
    {
        lemma_bounded(self@);
    }

    /// The set of the indices in `indices`.
    pub fn from_iter(indices: Vec<BitIndex>) -> (r: BitIndexSet)
        requires
            forall|k: int| 0 <= k < indices@.len() ==> (#[trigger] indices@[k]).wf(),
        ensures
            forall|i: int|
                r@.contains(i) <==> exists|k: int|
                    0 <= k < indices@.len() && (#[trigger] indices@[k])@ == i,
    {
        let mut bs = BitIndexSet::default();
        let mut n: usize = 0;
        while n < indices.len()
            invariant
                n <= indices@.len(),
                forall|k: int| 0 <= k < indices@.len() ==> (#[trigger] indices@[k]).wf(),
                forall|i: int|
                    bs@.contains(i) <==> exists|k: int| 0 <= k < n && (#[trigger] indices@[k])@ == i,
            decreases indices@.len() - n,
        {
            let ghost before = bs@;
            bs.insert(indices[n]);
            proof {
                assert forall|i: int| bs@.contains(i) implies exists|k: int|
                    0 <= k < n + 1 && (#[trigger] indices@[k])@ == i by {
                    if before.contains(i) {
                        let k = choose|k: int| 0 <= k < n && (#[trigger] indices@[k])@ == i;
                        assert(indices@[k]@ == i);
                    } else {
                        assert(indices@[n as int]@ == i);
                    }
                }
            }
            n = n + 1;
        }
        bs
    }

    /// The set of all valid indices.
    pub fn full() -> (r: BitIndexSet)
        ensures
            r@ == all_indices(),
    {
        let mut me = BitIndexSet::default();
        me.set_all(true);
        me
    }

    pub fn contains(&self, bit_index: BitIndex) -> (r: bool)
        requires
            bit_index.wf(),
        ensures
            r == self@.contains(bit_index@),
    {
        let at = bit_index.split();
        let word = self.words[at.idx_of];
        proof {
            lemma_bit_set(word, at.idx_in as u64, at.idx_in as u64);
        }
        word & (1u64 << at.idx_in) != 0
    }

    /// Puts `bit_index` into the set; says whether it was missing before.
    pub fn insert(&mut self, bit_index: BitIndex) -> (r: bool)
        requires
            bit_index.wf(),
        ensures
            final(self)@ == old(self)@.insert(bit_index@),
            r == !old(self)@.contains(bit_index@),
    {
        let at = bit_index.split();
        let was = self.words[at.idx_of];
        let now = was | (1u64 << at.idx_in);
        self.words[at.idx_of] = now;
        proof {
            lemma_bit_set(was, at.idx_in as u64, at.idx_in as u64);
            assert forall|i: int| self@.contains(i) == old(self)@.insert(bit_index@).contains(
                i,
            ) by {
                if 0 <= i < 128 {
                    lemma_bit_set(was, at.idx_in as u64, (i % 64) as u64);
                }
            }
            assert(self@ =~= old(self)@.insert(bit_index@));
        }
        was != now
    }

    /// Takes `bit_index` out of the set; says whether it was there before.
    pub fn remove(&mut self, bit_index: BitIndex) -> (r: bool)
        requires
            bit_index.wf(),
        ensures
            final(self)@ == old(self)@.remove(bit_index@),
            r == old(self)@.contains(bit_index@),
    {
        let at = bit_index.split();
        let was = self.words[at.idx_of];
        let now = was & !(1u64 << at.idx_in);
        self.words[at.idx_of] = now;
        proof {
            lemma_bit_set(was, at.idx_in as u64, at.idx_in as u64);
            assert forall|i: int| self@.contains(i) == old(self)@.remove(bit_index@).contains(
                i,
            ) by {
                if 0 <= i < 128 {
                    lemma_bit_set(was, at.idx_in as u64, (i % 64) as u64);
                }
            }
            assert(self@ =~= old(self)@.remove(bit_index@));
        }
        was != now
    }

    /// Makes the set hold every valid index, or none.
    pub fn set_all(&mut self, set: bool)
        ensures
            final(self)@ == if set {
                all_indices()
            } else {
                Set::<int>::empty()
            },
    {
        let set_word: u64 = if set {
            !0u64
        } else {
            0
        };
        self.words[0] = set_word;
        self.words[1] = set_word;
        proof {
            let goal = if set {
                all_indices()
            } else {
                Set::<int>::empty()
            };
            assert forall|i: int| self@.contains(i) == goal.contains(i) by {
                if 0 <= i < 128 {
                    lemma_bit_set(0, 0, (i % 64) as u64);
                }
            }
            assert(self@ =~= goal);
        }
    }

    /// An iterator over the members in ascending order.
    pub fn iter(&self) -> (r: BitIndexSetIter<'_>)
        ensures
            r.remaining() == self@,
            r.wf(),
    {
        let r = BitIndexSetIter { bit_set: self, next_index: 0 };
        assert(r.remaining() =~= self@);
        r
    }

    /// How many members the set has.
    pub fn len(&self) -> (r: u16)
        ensures
            r == self@.len(),
            r <= INDICES,
    {
        let mut count: u16 = 0;
        let mut i: u16 = 0;
        assert(self@.filter(|j: int| j < 0) =~= Set::<int>::empty());
        while i < INDICES
            invariant
                i <= INDICES,
                count <= i,
                self@.filter(|j: int| j < i).finite(),
                count == self@.filter(|j: int| j < i).len(),
            decreases INDICES - i,
        {
            let ghost before = self@.filter(|j: int| j < i);
            let ghost after = self@.filter(|j: int| j < i + 1);
            if self.contains(BitIndex(i)) {
                assert(after =~= before.insert(i as int));
                count = count + 1;
            } else {
                assert(after =~= before);
            }
            i = i + 1;
        }
        assert(self@.filter(|j: int| j < INDICES) =~= self@);
        count
    }
}

impl Default for BitIndexSet {
    fn default() -> (r: BitIndexSet)
        ensures
            r@ == Set::<int>::empty(),
    {
        let r = BitIndexSet { words: [0, 0] };
        proof {
            assert forall|i: int| !r@.contains(i) by {
                if 0 <= i < 128 {
                    lemma_bit_set(0, 0, (i % 64) as u64);
                }
            }
            assert(r@ =~= Set::<int>::empty());
        }
        r
    }
}

impl<'a> BitIndexSetIter<'a> {
    /// The members that the iterator has not handed out yet.
    pub closed spec fn remaining(&self) -> Set<int> {
        self.bit_set@.filter(|i: int| i >= self.next_index)
    }

    pub closed spec fn wf(&self) -> bool {
        self.next_index <= INDICES
    }

    /// Hands out the smallest member that is left, if any is.
    pub fn next(&mut self) -> (r: Option<BitIndex>)
        requires
            old(self).wf(),
        ensures
            final(self).wf(),
            match r {
                Some(found) => {
                    &&& found.wf()
                    &&& old(self).remaining().contains(found@)
                    &&& forall|i: int| old(self).remaining().contains(i) ==> found@ <= i
                    &&& final(self).remaining() == old(self).remaining().remove(found@)
                },
                None => {
                    &&& old(self).remaining() == Set::<int>::empty()
                    &&& final(self).remaining() == Set::<int>::empty()
                },
            },
    {
        while self.next_index < INDICES
            invariant
                self.next_index <= INDICES,
                self.bit_set == old(self).bit_set,
                old(self).next_index <= self.next_index,
                forall|i: int|
                    old(self).next_index <= i < self.next_index ==> !self.bit_set@.contains(i),
            decreases INDICES - self.next_index,
        {
            let candidate = BitIndex(self.next_index);
            self.next_index = self.next_index + 1;
            if self.bit_set.contains(candidate) {
                proof {
                    assert(self.remaining() =~= old(self).remaining().remove(candidate@));
                }
                return Some(candidate);
            }
        }
        proof {
            self.bit_set.lemma_view_bounded();
            assert(old(self).remaining() =~= Set::<int>::empty());
            assert(self.remaining() =~= Set::<int>::empty());
        }
        None
    }
}

impl<T> View for FullBitIndexMap<T> {
    type V = Seq<T>;

    closed spec fn view(&self) -> Seq<T> {
        self.data@
    }
}

impl<T> FullBitIndexMap<T> {
    /// The map that holds `t` for every index.
    pub fn new_copied(t: T) -> (r: Self) where T: Copy
        ensures
            r@.len() == INDICES,
            forall|i: int| 0 <= i < INDICES ==> r@[i] == t,
    {
        FullBitIndexMap { data: [t;128] }
    }

    /// The value kept for `bi`.
    pub fn get(&self, bi: BitIndex) -> (r: &T)
        requires
            bi.wf(),
        ensures
            *r == self@[bi@],
    {
        &self.data[bi.0 as usize]
    }

    /// Replaces the value kept for `bi` and leaves the others alone.
    pub fn set(&mut self, bi: BitIndex, value: T)
        requires
            bi.wf(),
        ensures
            final(self)@ == old(self)@.update(bi@, value),
    {
        self.data[bi.0 as usize] = value;
        assert(self@ =~= old(self)@.update(bi@, value));
    }
}

} // verus!
