use std::collections::hash_map::DefaultHasher;
use std::hash::{BuildHasher, BuildHasherDefault};
use vstd::prelude::*;

verus! {

/// The 64-bit digest that std's `DefaultHasher` gives a string.
pub uninterp spec fn str_hash_of(s: Seq<char>) -> u64;

/// Relies on `BuildHasher::hash_one` over `DefaultHasher`: a hasher made by
/// `DefaultHasher::default()` always starts from the same keys, so the digest
/// is a function of the string alone.
#[verifier::external_body]
fn str_hash(item: &str) -> (r: u64)
    ensures
        r == str_hash_of(item@),
{
    BuildHasherDefault::<DefaultHasher>::default().hash_one(item)
}

/// The index that the hash with the given seed picks for `item` in a bit
/// array of length `m`.
pub open spec fn slot(item: Seq<char>, seed: u64, m: nat) -> int {
    ((str_hash_of(item) ^ seed) as usize) as int % (m as int)
}

/// The string's digest with `seed` mixed in by exclusive or.
pub fn default_hash(item: &str, seed: u64) -> (r: usize)
    ensures
        r == (str_hash_of(item@) ^ seed) as usize,
{
    (str_hash(item) ^ seed) as usize
}

} // verus!
