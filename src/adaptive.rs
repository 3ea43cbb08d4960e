//! A Bloom filter that keeps a log of its items and doubles its bit array,
//! rebuilding it from the log, once it holds as many items as it has bits.
use crate::bits::{bits_of, get_bit, repeat, set_bit, BitArray, MAX_BITS};
use crate::error::ConstructionError;
use crate::hash::{default_hash, slot, str_hash_of};
use crate::model::{all_set, hit, lemma_marked_push, lemma_no_false_negatives, marked, marks, reports};
use vstd::prelude::*;

verus! {

/// One hash of the filter's family: the base string hash with a seed mixed in.
#[derive(Clone, Copy, Debug, PartialEq, Eq, Structural)]
pub struct SeededHash {
    pub seed: u64,
}

impl SeededHash {
    pub fn new(seed: u64) -> (r: Self)
        ensures
            r.seed == seed,
    {
        SeededHash { seed }
    }

    /// The hash of `item`, before it is reduced to an index.
    pub fn apply(&self, item: &str) -> (r: usize)
        ensures
            r == (str_hash_of(item@) ^ self.seed) as usize,
    {
        default_hash(item, self.seed)
    }
}

/// The seeds of a list of hashes, in order.
pub open spec fn seeds_of(hs: Seq<SeededHash>) -> Seq<u64> {
    hs.map_values(|h: SeededHash| h.seed)
}

/// The size after one more item is added to a filter of `m` bits and `n`
/// items: it doubles once the items reach the bits, as long as the doubled
/// array can still be encoded.
pub open spec fn next_size(m: nat, n: nat) -> nat {
    if n >= m && m <= MAX_BITS / 2 {
        2 * m
    } else {
        m
    }
}

/// The size of a filter made with `m0` bits once `n` items were added.
pub open spec fn size_after(m0: nat, n: nat) -> nat
    decreases n,
{
    if n == 0 {
        m0
    } else {
        next_size(size_after(m0, (n - 1) as nat), (n - 1) as nat)
    }
}

/// Sets the bits that `hash_functions` pick for `item` in an array of `m` bits.
fn mark(bits: &mut BitArray, m: usize, hash_functions: &Vec<SeededHash>, item: &str)
    requires
        bits_of(*old(bits)).len() == m,
        m > 0,
    ensures
        bits_of(*final(bits)).len() == m,
        forall|j: int|
            0 <= j < m ==> #[trigger] bits_of(*final(bits))[j] == (bits_of(*old(bits))[j] || hit(
                item@,
                seeds_of(hash_functions@),
                m as nat,
                j,
            )),
{
    let ghost seeds = seeds_of(hash_functions@);
    let ghost before = bits_of(*bits);
    let mut i: usize = 0;
    while i < hash_functions.len()
        invariant
            bits_of(*bits).len() == m,
            m > 0,
            seeds == seeds_of(hash_functions@),
            i <= hash_functions.len(),
            forall|j: int|
                0 <= j < m ==> #[trigger] bits_of(*bits)[j] == (before[j] || exists|i2: int|
                    0 <= i2 < i && slot(item@, seeds[i2], m as nat) == j),
        decreases hash_functions.len() - i,
    {
        let index = hash_functions[i].apply(item) % m;
        set_bit(bits, index, true);
        proof {
            assert forall|j: int| 0 <= j < m implies #[trigger] bits_of(*bits)[j] == (before[j]
                || exists|i2: int| 0 <= i2 < i + 1 && slot(item@, seeds[i2], m as nat) == j) by {
                if j == index as int {
                    assert(slot(item@, seeds[i as int], m as nat) == j);
                }
                if exists|i2: int| 0 <= i2 < i + 1 && slot(item@, seeds[i2], m as nat) == j {
                    let i2 = choose|i2: int| 0 <= i2 < i + 1 && slot(item@, seeds[i2], m as nat) == j;
                    if i2 == i {
                        assert(j == index as int);
                    }
                }
            }
        }
        i = i + 1;
    }
}

pub struct BloomFilter {
    bit_vector: BitArray,
    size: usize,
    hash_functions: Vec<SeededHash>,
    items: Vec<String>,
    first_size: Ghost<nat>,
}

impl BloomFilter {
    /// The bits of the filter.
    pub closed spec fn bits(&self) -> Seq<bool> {
        bits_of(self.bit_vector)
    }

    /// The seeds of the filter's hashes, in order.
    pub closed spec fn seeds(&self) -> Seq<u64> {
        seeds_of(self.hash_functions@)
    }

    /// The items added so far, in order.
    pub closed spec fn log(&self) -> Seq<Seq<char>> {
        self.items@.map_values(|s: String| s@)
    }

    /// The stored size is the length of the bit array.
    pub closed spec fn inv(&self) -> bool {
        self.size == self.bits().len()
    }

    /// The size that the filter was made with.
    pub closed spec fn initial_size(&self) -> nat {
        self.first_size@
    }

    /// Well formed: the bits are right for the log, and the size is the one
    /// that the growth policy gives after the logged items.
    pub open spec fn wf(&self) -> bool {
        &&& self.bits_ok()
        &&& self.bits().len() == size_after(self.initial_size(), self.log().len())
    }

    /// At least one bit and one hash, a size that bitvec can encode, and bits
    /// that are exactly those that the logged items set.
    pub open spec fn bits_ok(&self) -> bool {
        &&& self.inv()
        &&& 0 < self.bits().len() <= MAX_BITS
        &&& self.seeds().len() > 0
        &&& self.bits() == marks(self.log(), self.seeds(), self.bits().len())
    }

    /// An empty filter of `size` bits with the given hashes, in that order.
    pub fn new(size: usize, hash_functions: Vec<SeededHash>) -> (r: Result<Self, ConstructionError>)
        requires
            size <= MAX_BITS,
        ensures
            r is Ok <==> size > 0 && hash_functions.len() > 0,
            size == 0 ==> r == Err::<Self, _>(ConstructionError::ZeroSize),
            size > 0 && hash_functions.len() == 0 ==> r == Err::<Self, _>(
                ConstructionError::NoHashFunctions,
            ),
            r matches Ok(f) ==> {
                &&& f.wf()
                &&& f.bits() == Seq::new(size as nat, |j: int| false)
                &&& f.seeds() == seeds_of(hash_functions@)
                &&& f.log() == Seq::<Seq<char>>::empty()
                &&& f.initial_size() == size
            },
    {
        if size == 0 {
            return Err(ConstructionError::ZeroSize);
        }
        if hash_functions.len() == 0 {
            return Err(ConstructionError::NoHashFunctions);
        }
        let f = BloomFilter { bit_vector: repeat(false, size), size, hash_functions, items: Vec::new(),
            first_size: Ghost(size as nat),
        };
        assert(f.log() =~= Seq::<Seq<char>>::empty());
        assert(f.bits() =~= marks(f.log(), f.seeds(), size as nat));
        Ok(f)
    }

    /// Adds `item`, first growing the filter if it is due to grow.
    pub fn add(&mut self, item: &str)
        requires
            old(self).wf(),
        ensures
            final(self).wf(),
            final(self).seeds() == old(self).seeds(),
            final(self).initial_size() == old(self).initial_size(),
            final(self).log() == old(self).log().push(item@),
            final(self).bits().len() == next_size(old(self).bits().len(), old(self).log().len()),
    {
        if self.should_resize() && self.size <= MAX_BITS / 2 {
            let new_size = self.calculate_new_size();
            self.resize(new_size);
        }
        let ghost m = self.bits().len();
        let ghost seeds = self.seeds();
        let ghost old_log = self.log();
        mark(&mut self.bit_vector, self.size, &self.hash_functions, item);
        self.items.push(item.to_owned());
        proof {
            assert(self.log() =~= old_log.push(item@));
            assert forall|j: int| 0 <= j < m implies #[trigger] self.bits()[j] == marked(
                self.log(),
                seeds,
                m,
                j,
            ) by {
                lemma_marked_push(old_log, item@, seeds, m, j);
            }
            assert(self.bits() =~= marks(self.log(), seeds, m));
        }
    }

    /// Whether every bit that the hashes pick for `item` is set.
    pub fn contains(&self, item: &str) -> (r: bool)
        requires
            self.wf(),
        ensures
            r == all_set(self.bits(), item@, self.seeds()),
            r == reports(self.log(), self.seeds(), self.bits().len(), item@),
    {
        let ghost seeds = self.seeds();
        let mut i: usize = 0;
        while i < self.hash_functions.len()
            invariant
                self.wf(),
                seeds == self.seeds(),
                i <= self.hash_functions.len(),
                forall|i2: int|
                    0 <= i2 < i ==> #[trigger] self.bits()[slot(item@, seeds[i2], self.bits().len())],
            decreases self.hash_functions.len() - i,
        {
            let index = self.hash_functions[i].apply(item) % self.size;
            if !get_bit(&self.bit_vector, index) {
                assert(!self.bits()[slot(item@, seeds[i as int], self.bits().len())]);
                return false;
            }
            i = i + 1;
        }
        true
    }

    /// The load has reached one item per bit.
    fn should_resize(&self) -> (r: bool)
        ensures
            r == (self.items@.len() >= self.size),
    {
        self.items.len() >= self.size
    }

    /// Twice the current size.
    fn calculate_new_size(&self) -> (r: usize)
        requires
            self.size <= MAX_BITS / 2,
        ensures
            r == 2 * self.size,
    {
        self.size * 2
    }

    /// Replaces the bits by a fresh array of `new_size` bits that holds every
    /// logged item; the log stays as it is.
    fn resize(&mut self, new_size: usize)
        requires
            old(self).bits_ok(),
            old(self).size < new_size <= MAX_BITS,
        ensures
            final(self).bits_ok(),
            final(self).bits().len() == new_size,
            final(self).seeds() == old(self).seeds(),
            final(self).log() == old(self).log(),
            final(self).items == old(self).items,
            final(self).hash_functions == old(self).hash_functions,
            final(self).first_size == old(self).first_size,
    {
        let ghost seeds = self.seeds();
        let ghost log = self.log();
        let ghost m = new_size as nat;
        let mut fresh = repeat(false, new_size);
        let mut a: usize = 0;
        while a < self.items.len()
            invariant
                self.bits_ok(),
                seeds == self.seeds(),
                log == self.log(),
                self.items == old(self).items,
                self.hash_functions == old(self).hash_functions,
                self.first_size == old(self).first_size,
                self.size == old(self).size,
                a <= self.items.len(),
                bits_of(fresh).len() == new_size,
                m == new_size as nat,
                new_size > 0,
                forall|j: int| 0 <= j < m ==> #[trigger] bits_of(fresh)[j] == marked(log.take(a as int), seeds, m, j),
            decreases self.items.len() - a,
        {
            let ghost before = bits_of(fresh);
            mark(&mut fresh, new_size, &self.hash_functions, self.items[a].as_str());
            proof {
                assert(log.take(a + 1) =~= log.take(a as int).push(log[a as int]));
                assert forall|j: int| 0 <= j < m implies #[trigger] bits_of(fresh)[j] == marked(
                    log.take(a + 1),
                    seeds,
                    m,
                    j,
                ) by {
                    lemma_marked_push(log.take(a as int), log[a as int], seeds, m, j);
                }
            }
            a = a + 1;
        }
        self.bit_vector = fresh;
        self.size = new_size;
        proof {
            assert(log.take(a as int) =~= log);
            assert(self.bits() =~= marks(log, seeds, m));
        }
    }

    /// The number of bits.
    pub fn current_size(&self) -> (r: usize)
        requires
            self.wf(),
        ensures
            r == self.bits().len(),
    {
        self.size
    }

    /// The number of items added so far.
    pub fn item_count(&self) -> (r: usize)
        ensures
            r == self.log().len(),
    {
        self.items.len()
    }

    /// The number of hashes.
    pub fn hash_count(&self) -> (r: usize)
        ensures
            r == self.seeds().len(),
    {
        self.hash_functions.len()
    }
}

/// Growing keeps every member: once the items reach the bits, the next add
/// makes the filter larger, and every logged item is reported at the new size.
pub proof fn lemma_resize_keeps_members(
    items: Seq<Seq<char>>,
    seeds: Seq<u64>,
    m: nat,
    y: Seq<char>,
    x: Seq<char>,
)
    requires
        0 < m <= MAX_BITS / 2,
        items.len() >= m,
        items.contains(x),
    ensures
        next_size(m, items.len()) > m,
        reports(items.push(y), seeds, next_size(m, items.len()), x),
{
    lemma_no_false_negatives(items, seeds, m, x);
    assert(items.push(y) =~= items + seq![y]);
    assert(reports(items + seq![y], seeds, next_size(m, items.len()), x));
}

/// Determinism: two filters made with the same size and the same hashes, and
/// given the same items, hold the same bits, so they give the same answer to
/// every query.
pub proof fn lemma_same_history_same_answers(f: &BloomFilter, g: &BloomFilter)
    requires
        f.wf(),
        g.wf(),
        f.initial_size() == g.initial_size(),
        f.seeds() == g.seeds(),
        f.log() == g.log(),
    ensures
        f.bits() == g.bits(),
        forall|x: Seq<char>| #[trigger] all_set(f.bits(), x, f.seeds()) == all_set(g.bits(), x, g.seeds()),
{
}

} // verus!
