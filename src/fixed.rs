//! A Bloom filter whose size and number of hashes are fixed when it is made.
//! Its `k` hashes are one base hash with the seeds `0 .. k` mixed in.
use crate::error::ConstructionError;
use crate::hash::{default_hash, slot};
use crate::model::{all_set, hit, lemma_marked_push, marked, marks, reports, seeds_upto};
use vstd::prelude::*;

verus! {

pub struct BloomFilter {
    bit_vector: Vec<bool>,
    size: usize,
    hash_functions: usize,
    items: Ghost<Seq<Seq<char>>>,
}

impl BloomFilter {
    /// The bits of the filter.
    pub closed spec fn bits(&self) -> Seq<bool> {
        self.bit_vector@
    }

    /// The number of hashes, `k`.
    pub closed spec fn hash_count(&self) -> nat {
        self.hash_functions as nat
    }

    /// The items added so far, in order.
    pub closed spec fn log(&self) -> Seq<Seq<char>> {
        self.items@
    }

    /// The stored size is the length of the bit array.
    pub closed spec fn inv(&self) -> bool {
        self.size == self.bit_vector@.len()
    }

    /// The seeds of the filter's hashes.
    pub open spec fn seeds(&self) -> Seq<u64> {
        seeds_upto(self.hash_count())
    }

    /// Well formed: at least one bit and one hash, and the bits are exactly
    /// those that the items added so far set.
    pub open spec fn wf(&self) -> bool {
        &&& self.inv()
        &&& self.bits().len() > 0
        &&& self.hash_count() > 0
        &&& self.bits() == marks(self.log(), self.seeds(), self.bits().len())
    }

    /// A filter of `size` bits, all clear, with `hash_functions` hashes.
    pub fn new(size: usize, hash_functions: usize) -> (r: Result<Self, ConstructionError>)
        ensures
            r is Ok <==> size > 0 && hash_functions > 0,
            size == 0 ==> r == Err::<Self, _>(ConstructionError::ZeroSize),
            size > 0 && hash_functions == 0 ==> r == Err::<Self, _>(ConstructionError::NoHashFunctions),
            r matches Ok(f) ==> {
                &&& f.wf()
                &&& f.bits() == Seq::new(size as nat, |j: int| false)
                &&& f.hash_count() == hash_functions
                &&& f.log() == Seq::<Seq<char>>::empty()
            },
    {
        if size == 0 {
            return Err(ConstructionError::ZeroSize);
        }
        if hash_functions == 0 {
            return Err(ConstructionError::NoHashFunctions);
        }
        let mut bit_vector: Vec<bool> = Vec::new();
        while bit_vector.len() < size
            invariant
                bit_vector.len() <= size,
                forall|j: int| 0 <= j < bit_vector.len() ==> !bit_vector@[j],
            decreases size - bit_vector.len(),
        {
            bit_vector.push(false);
        }
        let f = BloomFilter { bit_vector, size, hash_functions, items: Ghost(Seq::empty()) };
        assert(f.bits() =~= marks(f.log(), f.seeds(), size as nat));
        assert(f.bits() =~= Seq::new(size as nat, |j: int| false));
        Ok(f)
    }

    /// The index that hash number `seed` picks for `item`.
    fn hash(&self, item: &str, seed: u64) -> (r: usize)
        requires
            self.inv(),
            self.size > 0,
        ensures
            r == slot(item@, seed, self.bits().len()),
    {
        default_hash(item, seed) % self.size
    }

    /// Sets the `k` bits that the hashes pick for `item`.
    pub fn add(&mut self, item: &str)
        requires
            old(self).wf(),
        ensures
            final(self).wf(),
            final(self).hash_count() == old(self).hash_count(),
            final(self).log() == old(self).log().push(item@),
            final(self).bits().len() == old(self).bits().len(),
            forall|j: int| 0 <= j < old(self).bits().len() && old(self).bits()[j] ==> #[trigger] final(self).bits()[j],
            forall|j: int|
                0 <= j < old(self).bits().len() ==> #[trigger] final(self).bits()[j] == (old(self).bits()[j]
                    || hit(item@, old(self).seeds(), old(self).bits().len(), j)),
    {
        let ghost m = self.bits().len();
        let ghost seeds = self.seeds();
        let ghost before = self.bits();
        let mut i: usize = 0;
        while i < self.hash_functions
            invariant
                self.inv(),
                self.bits().len() == m,
                m > 0,
                self.size == m,
                self.hash_count() == seeds.len(),
                seeds == seeds_upto(self.hash_count()),
                self.items == old(self).items,
                i <= self.hash_functions,
                forall|j: int|
                    0 <= j < m ==> #[trigger] self.bits()[j] == (before[j] || exists|i2: int|
                        0 <= i2 < i && slot(item@, seeds[i2], m) == j),
            decreases self.hash_functions - i,
        {
            let index = self.hash(item, i as u64);
            self.bit_vector.set(index, true);
            proof {
                assert forall|j: int| 0 <= j < m implies #[trigger] self.bits()[j] == (before[j]
                    || exists|i2: int| 0 <= i2 < i + 1 && slot(item@, seeds[i2], m) == j) by {
                    if j == index as int {
                        assert(slot(item@, seeds[i as int], m) == j);
                    }
                    if exists|i2: int| 0 <= i2 < i + 1 && slot(item@, seeds[i2], m) == j {
                        let i2 = choose|i2: int| 0 <= i2 < i + 1 && slot(item@, seeds[i2], m) == j;
                        if i2 < i {
                        } else {
                            assert(j == index as int);
                        }
                    }
                }
            }
            i = i + 1;
        }
        proof {
            let old_items = self.items@;
            self.items = Ghost(old_items.push(item@));
            assert forall|j: int| 0 <= j < m implies #[trigger] self.bits()[j] == marked(
                self.log(),
                seeds,
                m,
                j,
            ) by {
                lemma_marked_push(old_items, item@, seeds, m, j);
            }
            assert(self.bits() =~= marks(self.log(), seeds, m));
        }
    }

    /// Whether every bit that the hashes pick for `item` is set.
    pub fn contains(&self, item: &str) -> (r: bool)
        requires
            self.wf(),
        ensures
            r == all_set(self.bits(), item@, self.seeds()),
            r == reports(self.log(), self.seeds(), self.bits().len(), item@),
    {
        let ghost seeds = self.seeds();
        let mut i: usize = 0;
        while i < self.hash_functions
            invariant
                self.wf(),
                seeds == self.seeds(),
                i <= self.hash_functions,
                forall|i2: int| 0 <= i2 < i ==> #[trigger] self.bits()[slot(item@, seeds[i2], self.bits().len())],
            decreases self.hash_functions - i,
        {
            let index = self.hash(item, i as u64);
            if !self.bit_vector[index] {
                assert(!self.bits()[slot(item@, seeds[i as int], self.bits().len())]);
                return false;
            }
            i = i + 1;
        }
        true
    }

    /// The number of bits.
    pub fn size(&self) -> (r: usize)
        requires
            self.wf(),
        ensures
            r == self.bits().len(),
    {
        self.size
    }

    /// The number of hashes.
    pub fn hash_functions(&self) -> (r: usize)
        ensures
            r == self.hash_count(),
    {
        self.hash_functions
    }
}

/// Determinism: two filters with the same size and number of hashes, given
/// the same items, hold the same bits, so they give the same answer to every
/// query.
pub proof fn lemma_same_history_same_answers(f: &BloomFilter, g: &BloomFilter)
    requires
        f.wf(),
        g.wf(),
        f.bits().len() == g.bits().len(),
        f.hash_count() == g.hash_count(),
        f.log() == g.log(),
    ensures
        f.bits() == g.bits(),
        forall|x: Seq<char>| #[trigger] all_set(f.bits(), x, f.seeds()) == all_set(g.bits(), x, g.seeds()),
{
}

} // verus!
