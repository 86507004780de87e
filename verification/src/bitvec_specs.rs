//! The `bitvec` crate's bit vector, as this library uses it: a packed bit
//! array for Bloom filters and a word store for ribbon filter solutions.

use bitvec::order::Lsb0;
use bitvec::vec::BitVec;
use vstd::prelude::*;

verus! {

/// A `BitVec<usize, Lsb0>` holding the bits of a Bloom filter.
#[verifier::external_body]
pub struct BitArray {
    bits: BitVec<usize, Lsb0>,
}

/// A `BitVec<u64, Lsb0>` used as the word store of a ribbon filter.
#[verifier::external_body]
pub struct WordStore {
    words: BitVec<u64, Lsb0>,
}

/// The bits held by a bit array.
pub uninterp spec fn bits_of(v: BitArray) -> Seq<bool>;

/// The backing words held by a word store.
pub uninterp spec fn words_of(v: WordStore) -> Seq<u64>;

/// Longest bit length that `bitvec` can represent.
pub open spec fn max_bits() -> int {
    usize::MAX as int / 8
}

/// The largest bit count a bit array may have.
pub fn max_bits_value() -> (res: usize)
    ensures
        res == max_bits(),
{
    usize::MAX / 8
}

/// `BitVec::repeat(false, len)`: a vector of `len` cleared bits.
#[verifier::external_body]
pub(crate) fn bits_zeroed(len: usize) -> (res: BitArray)
    requires
        len <= max_bits(),
    ensures
        bits_of(res) == Seq::new(len as nat, |i: int| false),
{
    BitArray { bits: BitVec::<usize, Lsb0>::repeat(false, len) }
}

/// `BitVec::len`: the number of bits.
#[verifier::external_body]
pub(crate) fn bits_len(v: &BitArray) -> (res: usize)
    ensures
        res == bits_of(*v).len(),
{
    v.bits.len()
}

/// Reads bit `i` (`v[i]`).
#[verifier::external_body]
pub(crate) fn bits_get(v: &BitArray, i: usize) -> (res: bool)
    requires
        i < bits_of(*v).len(),
    ensures
        res == bits_of(*v)[i as int],
{
    v.bits[i]
}

/// `BitSlice::set`: writes bit `i`.
#[verifier::external_body]
pub(crate) fn bits_set(v: &mut BitArray, i: usize, value: bool)
    requires
        i < bits_of(*old(v)).len(),
    ensures
        bits_of(*final(v)) == bits_of(*old(v)).update(i as int, value),
{
    v.bits.set(i, value)
}

/// `BitVec::from_vec`: takes over `words` as backing storage.
#[verifier::external_body]
pub(crate) fn words_from_vec(words: Vec<u64>) -> (res: WordStore)
    requires
        words@.len() * 64 <= max_bits(),
    ensures
        words_of(res) == words@,
{
    WordStore { words: BitVec::<u64, Lsb0>::from_vec(words) }
}

/// `BitVec::as_raw_slice`: the backing words.
#[verifier::external_body]
pub(crate) fn words_raw(v: &WordStore) -> (res: &[u64])
    ensures
        res@ == words_of(*v),
{
    v.words.as_raw_slice()
}

} // verus!
