//! The mathematical model shared by both filters: a filter of `m` bits,
//! hashes given by their seeds, and the items added so far.
use crate::hash::slot;
use vstd::prelude::*;

verus! {

/// One of the seeds picks bit `j` for `item`.
pub open spec fn hit(item: Seq<char>, seeds: Seq<u64>, m: nat, j: int) -> bool {
    exists|i: int| 0 <= i < seeds.len() && slot(item, seeds[i], m) == j
}

/// Bit `j` has been set by one of the items.
pub open spec fn marked(items: Seq<Seq<char>>, seeds: Seq<u64>, m: nat, j: int) -> bool {
    exists|a: int| 0 <= a < items.len() && #[trigger] hit(items[a], seeds, m, j)
}

/// The bit array that holds exactly the bits set by `items`.
pub open spec fn marks(items: Seq<Seq<char>>, seeds: Seq<u64>, m: nat) -> Seq<bool> {
    Seq::new(m, |j: int| marked(items, seeds, m, j))
}

/// Every bit that a seed picks for `x` is set in `bits`.
pub open spec fn all_set(bits: Seq<bool>, x: Seq<char>, seeds: Seq<u64>) -> bool {
    forall|i: int| 0 <= i < seeds.len() ==> #[trigger] bits[slot(x, seeds[i], bits.len())]
}

/// What a filter of `m` bits that was given `items` answers when asked for `x`.
pub open spec fn reports(items: Seq<Seq<char>>, seeds: Seq<u64>, m: nat, x: Seq<char>) -> bool {
    all_set(marks(items, seeds, m), x, seeds)
}

/// The seeds `0, 1, ..., k - 1`.
pub open spec fn seeds_upto(k: nat) -> Seq<u64> {
    Seq::new(k, |i: int| i as u64)
}

/// Adding one item sets exactly the bits that its hashes pick.
pub proof fn lemma_marked_push(items: Seq<Seq<char>>, item: Seq<char>, seeds: Seq<u64>, m: nat, j: int)
    ensures
        marked(items.push(item), seeds, m, j) == (marked(items, seeds, m, j) || hit(item, seeds, m, j)),
{
    let pushed = items.push(item);
    if marked(pushed, seeds, m, j) {
        let a = choose|a: int| 0 <= a < pushed.len() && #[trigger] hit(pushed[a], seeds, m, j);
        if a < items.len() {
            assert(pushed[a] == items[a]);
        }
    }
    if marked(items, seeds, m, j) {
        let a = choose|a: int| 0 <= a < items.len() && #[trigger] hit(items[a], seeds, m, j);
        assert(pushed[a] == items[a]);
    }
    if hit(item, seeds, m, j) {
        assert(pushed[items.len() as int] == item);
    }
}

/// No false negatives: a filter whose items include `x` reports `x`, at any
/// size, and still does after any further items.
pub proof fn lemma_no_false_negatives(items: Seq<Seq<char>>, seeds: Seq<u64>, m: nat, x: Seq<char>)
    requires
        m > 0,
        items.contains(x),
    ensures
        reports(items, seeds, m, x),
        forall|more: Seq<Seq<char>>, m2: nat| m2 > 0 ==> #[trigger] reports(items + more, seeds, m2, x),
{
    assert forall|more: Seq<Seq<char>>, m2: nat| m2 > 0 implies #[trigger] reports(items + more, seeds, m2, x) by {
        let all = items + more;
        let a = choose|a: int| 0 <= a < items.len() && items[a] == x;
        assert(all[a] == x);
        assert forall|i: int| 0 <= i < seeds.len() implies #[trigger] marks(all, seeds, m2)[slot(x, seeds[i], m2)] by {
            assert(hit(all[a], seeds, m2, slot(x, seeds[i], m2)));
        }
    }
    assert(items + Seq::<Seq<char>>::empty() =~= items);
    assert(reports(items + Seq::<Seq<char>>::empty(), seeds, m, x));
}

/// An empty filter reports no item: all its bits are clear.
pub proof fn lemma_empty_reports_nothing(seeds: Seq<u64>, m: nat, x: Seq<char>)
    requires
        m > 0,
        seeds.len() > 0,
    ensures
        !reports(Seq::empty(), seeds, m, x),
        !all_set(Seq::new(m, |j: int| false), x, seeds),
{
    let clear = Seq::new(m, |j: int| false);
    let none = marks(Seq::empty(), seeds, m);
    assert(!none[slot(x, seeds[0], none.len())]);
    assert(!clear[slot(x, seeds[0], clear.len())]);
}

/// Bits only ever get set: a bit that some items set stays set once more
/// items are added.
pub proof fn lemma_bits_monotone(items: Seq<Seq<char>>, more: Seq<Seq<char>>, seeds: Seq<u64>, m: nat)
    ensures
        forall|j: int|
            0 <= j < m && #[trigger] marks(items, seeds, m)[j] ==> marks(items + more, seeds, m)[j],
{
    assert forall|j: int| 0 <= j < m && #[trigger] marks(items, seeds, m)[j] implies marks(
        items + more,
        seeds,
        m,
    )[j] by {
        let a = choose|a: int| 0 <= a < items.len() && #[trigger] hit(items[a], seeds, m, j);
        assert((items + more)[a] == items[a]);
    }
}

} // verus!
