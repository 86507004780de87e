//! The standard library's default hasher applied to the values this library
//! hashes, written as the exact byte writes that `Hash` performs for them.

use std::collections::hash_map::DefaultHasher;
use std::hash::Hasher;
use vstd::prelude::*;
use vstd::std_specs::hash::DefaultHasherAdditionalSpecFns;
use vstd::utf8::encode_utf8;

use crate::bytes::{le_bytes, push_le_u64};

verus! {

/// The writes that hashing a string performs: its UTF-8 bytes, then `0xff`.
pub open spec fn str_writes(s: Seq<char>) -> Seq<Seq<u8>> {
    seq![encode_utf8(s), seq![0xffu8]]
}

/// The write that hashing a `u64` (or a `usize` on a 64-bit target) performs.
pub open spec fn u64_writes(x: u64) -> Seq<Seq<u8>> {
    seq![le_bytes(x)]
}

/// The element writes of a pair slice, without the length prefix.
pub open spec fn pairs_writes_body(pairs: Seq<(Seq<char>, Seq<char>)>) -> Seq<Seq<u8>>
    decreases pairs.len(),
{
    if pairs.len() == 0 {
        Seq::empty()
    } else {
        let last = pairs.last();
        pairs_writes_body(pairs.drop_last()) + str_writes(last.0) + str_writes(last.1)
    }
}

/// Hash of a string under the default hasher.
pub open spec fn spec_hash_str(s: Seq<char>) -> u64 {
    DefaultHasher::spec_finish(str_writes(s))
}

/// Hash of the pair `(seed, s)` under the default hasher.
pub open spec fn spec_hash_seeded_str(seed: u64, s: Seq<char>) -> u64 {
    DefaultHasher::spec_finish(u64_writes(seed) + str_writes(s))
}

/// Hash of a slice of string pairs under the default hasher.
pub open spec fn spec_hash_pairs(pairs: Seq<(Seq<char>, Seq<char>)>) -> u64 {
    DefaultHasher::spec_finish(u64_writes(pairs.len() as u64) + pairs_writes_body(pairs))
}

/// Feeds a string to the hasher the way `str::hash` does.
pub fn write_str(h: &mut DefaultHasher, s: &str)
    ensures
        final(h)@ == old(h)@ + str_writes(s@),
{
    h.write(s.as_bytes());
    let tail: [u8; 1] = [0xffu8];
    h.write(tail.as_slice());
    assert(tail@ =~= seq![0xffu8]);
    assert(final(h)@ =~= old(h)@ + str_writes(s@));
}

/// Feeds a `u64` to the hasher the way `u64::hash` does on a little-endian target.
pub fn write_u64(h: &mut DefaultHasher, x: u64)
    ensures
        final(h)@ == old(h)@ + u64_writes(x),
{
    let mut buf: Vec<u8> = Vec::new();
    push_le_u64(&mut buf, x);
    assert(buf@ =~= le_bytes(x));
    h.write(buf.as_slice());
    assert(final(h)@ =~= old(h)@ + u64_writes(x));
}

/// `hash_one` of a string with the default hasher.
pub fn hash_str(s: &str) -> (res: u64)
    ensures
        res == spec_hash_str(s@),
{
    let mut h = DefaultHasher::new();
    write_str(&mut h, s);
    assert(h@ =~= str_writes(s@));
    h.finish()
}

/// `hash_one` of the pair `(seed, s)` with the default hasher.
pub fn hash_seeded_str(seed: u64, s: &str) -> (res: u64)
    ensures
        res == spec_hash_seeded_str(seed, s@),
{
    let mut h = DefaultHasher::new();
    write_u64(&mut h, seed);
    write_str(&mut h, s);
    assert(h@ =~= u64_writes(seed) + str_writes(s@));
    h.finish()
}

/// The view of a slice of string pairs.
pub open spec fn pairs_view(pairs: Seq<(String, String)>) -> Seq<(Seq<char>, Seq<char>)> {
    pairs.map_values(|p: (String, String)| (p.0@, p.1@))
}

/// `hash_one` of a slice of string pairs with the default hasher.
pub fn hash_pairs(pairs: &[(String, String)]) -> (res: u64)
    ensures
        res == spec_hash_pairs(pairs_view(pairs@)),
{
    let mut h = DefaultHasher::new();
    let n = pairs.len();
    write_u64(&mut h, n as u64);
    let ghost start = h@;
    let mut i: usize = 0;
    while i < n
        invariant
            n == pairs@.len(),
            i <= n,
            h@ == start + pairs_writes_body(pairs_view(pairs@.subrange(0, i as int))),
        decreases n - i,
    {
        let ghost prev = pairs_view(pairs@.subrange(0, i as int));
        write_str(&mut h, pairs[i].0.as_str());
        write_str(&mut h, pairs[i].1.as_str());
        proof {
            let next = pairs_view(pairs@.subrange(0, i + 1));
            assert(next.drop_last() =~= prev);
            assert(next.last() == (pairs@[i as int].0@, pairs@[i as int].1@));
            assert(h@ =~= start + pairs_writes_body(next));
        }
        i = i + 1;
    }
    assert(pairs@.subrange(0, n as int) =~= pairs@);
    h.finish()
}

} // verus!
