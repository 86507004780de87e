//! Bloom filters over string keys, with a compact byte packing of their bits.

use vstd::prelude::*;
use vstd::wrapping::u64_specs::{wrapping_add, wrapping_mul};

use crate::bitvec_specs::{bits_get, bits_len, bits_of, bits_set, bits_zeroed, max_bits, BitArray};
use crate::std_hash::{hash_seeded_str, spec_hash_seeded_str};

verus! {

/// Bit probed by the `i`-th hash of a key with hash pair `(h0, h1)` in `m` bits.
pub open spec fn spec_probe(h0: u64, h1: u64, i: u64, m: int) -> int {
    (wrapping_add(h0, wrapping_mul(i, h1)) as int) % m
}

/// Whether all `k` probes of `key` hit set bits.
pub open spec fn spec_bloom_contains(bits: Seq<bool>, seeds: [u64; 2], k: u64, key: Seq<char>) -> bool {
    let h0 = spec_hash_seeded_str(seeds[0], key);
    let h1 = spec_hash_seeded_str(seeds[1], key);
    forall|i: u64| i < k ==> #[trigger] bits[spec_probe(h0, h1, i, bits.len() as int)]
}

/// Bit `t` of byte `b`.
pub open spec fn byte_bit(b: u8, t: int) -> bool {
    (b >> (t as u8)) & 1u8 == 1u8
}

/// The bits described by packed bytes, truncated or padded to `m` bits.
pub open spec fn spec_unpack(m: int, bytes: Seq<u8>) -> Seq<bool> {
    Seq::new(m as nat, |g: int| g / 8 < bytes.len() && byte_bit(bytes[g / 8], g % 8))
}

/// A Bloom filter with `hashes` probes per key, seeded by `seeds`.
pub struct BloomFilter {
    base: BitArray,
    seeds: [u64; 2],
    hashes: u64,
}

impl BloomFilter {
    /// The filter's bits.
    pub closed spec fn spec_bits(&self) -> Seq<bool> {
        bits_of(self.base)
    }

    pub closed spec fn spec_seeds(&self) -> [u64; 2] {
        self.seeds
    }

    /// Number of probes per key.
    pub closed spec fn spec_hashes(&self) -> u64 {
        self.hashes
    }

    /// Whether a query for `key` answers yes.
    pub open spec fn spec_contains(&self, key: Seq<char>) -> bool {
        spec_bloom_contains(self.spec_bits(), self.spec_seeds(), self.spec_hashes(), key)
    }

    /// An empty filter of `m` bits probed `k` times per key, with seeds `[0, 1]`.
    pub fn from_raw_parts(m: usize, k: u64) -> (res: Self)
        requires
            m > 0 && k > 0,
            m <= max_bits(),
        ensures
            res.spec_bits() == Seq::new(m as nat, |i: int| false),
            res.spec_seeds() == [0u64, 1u64],
            res.spec_hashes() == k,
    {
        BloomFilter { base: bits_zeroed(m), seeds: [0u64, 1u64], hashes: k }
    }

    /// An empty filter of `m` bits probed `k` times per key with the given seeds.
    pub fn from_raw_parts_with_seeds(m: usize, k: u64, seeds: [u64; 2]) -> (res: Self)
        requires
            m > 0 && k > 0,
            m <= max_bits(),
        ensures
            res.spec_bits() == Seq::new(m as nat, |i: int| false),
            res.spec_seeds() == seeds,
            res.spec_hashes() == k,
    {
        BloomFilter { base: bits_zeroed(m), seeds, hashes: k }
    }

    /// A filter of `m` bits whose bit `g` is bit `g % 8` of byte `g / 8`.
    pub fn from_raw_bits(m: usize, k: u64, bits: &[u8], seeds: [u64; 2]) -> (res: Self)
        requires
            m <= max_bits(),
            bits@.len() * 8 <= usize::MAX,
        ensures
            res.spec_bits() == spec_unpack(m as int, bits@),
            res.spec_seeds() == seeds,
            res.spec_hashes() == k,
    {
        let mut base = bits_zeroed(m);
        let n = bits.len();
        let mut byte_idx: usize = 0;
        while byte_idx < n
            invariant
                n == bits@.len(),
                n * 8 <= usize::MAX,
                byte_idx <= n,
                bits_of(base).len() == m,
                forall|g: int|
                    0 <= g < m ==> #[trigger] bits_of(base)[g] == (g / 8 < byte_idx && byte_bit(
                        bits@[g / 8],
                        g % 8,
                    )),
            decreases n - byte_idx,
        {
            let byte = bits[byte_idx];
            let mut bit_idx: usize = 0;
            while bit_idx < 8
                invariant
                    n == bits@.len(),
                    n * 8 <= usize::MAX,
                    byte_idx < n,
                    byte == bits@[byte_idx as int],
                    bit_idx <= 8,
                    bits_of(base).len() == m,
                    forall|g: int|
                        0 <= g < m ==> #[trigger] bits_of(base)[g] == ((g / 8 < byte_idx || (g / 8
                            == byte_idx && g % 8 < bit_idx)) && byte_bit(bits@[g / 8], g % 8)),
                ensures
                    bits_of(base).len() == m,
                    forall|g: int|
                        0 <= g < m ==> #[trigger] bits_of(base)[g] == ((g / 8 < byte_idx + 1)
                            && byte_bit(bits@[g / 8], g % 8)),
                decreases 8 - bit_idx,
            {
                let global_idx = byte_idx * 8 + bit_idx;
                if global_idx >= m {
                    proof {
                        assert forall|g: int|
                            0 <= g < m implies #[trigger] bits_of(base)[g] == ((g / 8 < byte_idx + 1)
                            && byte_bit(bits@[g / 8], g % 8)) by {
                            assert(g == 8 * (g / 8) + g % 8);
                            if g / 8 == byte_idx {
                                assert(g % 8 < bit_idx);
                            }
                        }
                    }
                    break;
                }
                let value = (byte >> (bit_idx as u8)) & 1 == 1;
                bits_set(&mut base, global_idx, value);
                proof {
                    assert forall|g: int|
                        0 <= g < m implies #[trigger] bits_of(base)[g] == ((g / 8 < byte_idx || (g / 8
                            == byte_idx && g % 8 < bit_idx + 1)) && byte_bit(bits@[g / 8], g % 8)) by {
                        if g == global_idx {
                            assert(g / 8 == byte_idx && g % 8 == bit_idx);
                        } else if g / 8 == byte_idx && g % 8 == bit_idx {
                            assert(g == 8 * (g / 8) + g % 8);
                        }
                    }
                }
                bit_idx = bit_idx + 1;
            }
            byte_idx = byte_idx + 1;
        }
        proof {
            assert(bits_of(base) =~= spec_unpack(m as int, bits@));
        }
        BloomFilter { base, seeds, hashes: k }
    }

    /// A copy of the filter's bits.
    pub fn bitslice(&self) -> (res: Vec<bool>)
        ensures
            res@ == self.spec_bits(),
    {
        let n = bits_len(&self.base);
        let mut out: Vec<bool> = Vec::new();
        let mut i: usize = 0;
        while i < n
            invariant
                n == bits_of(self.base).len(),
                i <= n,
                out@ == bits_of(self.base).subrange(0, i as int),
            decreases n - i,
        {
            out.push(bits_get(&self.base, i));
            assert(bits_of(self.base).subrange(0, i + 1) =~= bits_of(self.base).subrange(0, i as int).push(bits_of(self.base)[i as int]));
            i = i + 1;
        }
        assert(bits_of(self.base).subrange(0, n as int) =~= bits_of(self.base));
        out
    }

    /// Number of bits.
    pub fn num_bits(&self) -> (res: usize)
        ensures
            res == self.spec_bits().len(),
    {
        bits_len(&self.base)
    }

    pub fn seeds(&self) -> (res: [u64; 2])
        ensures
            res == self.spec_seeds(),
    {
        self.seeds
    }

    pub fn hashes(&self) -> (res: u64)
        ensures
            res == self.spec_hashes(),
    {
        self.hashes
    }

    /// Whether every probe of `value` hits a set bit.
    pub fn contains(&self, value: &str) -> (res: bool)
        requires
            self.spec_bits().len() > 0 || self.spec_hashes() == 0,
        ensures
            res == self.spec_contains(value@),
    {
        let h0 = hash_seeded_str(self.seeds[0], value);
        let h1 = hash_seeded_str(self.seeds[1], value);
        let len = bits_len(&self.base);
        let k = self.hashes;
        let mut i: u64 = 0;
        while i < k
            invariant
                len == self.spec_bits().len(),
                len > 0 || k == 0,
                k == self.spec_hashes(),
                h0 == spec_hash_seeded_str(self.spec_seeds()[0], value@),
                h1 == spec_hash_seeded_str(self.spec_seeds()[1], value@),
                i <= k,
                forall|j: u64| j < i ==> #[trigger] self.spec_bits()[spec_probe(h0, h1, j, len as int)],
            decreases k - i,
        {
            let x = h0.wrapping_add(i.wrapping_mul(h1));
            let bit = (x % (len as u64)) as usize;
            assert(bit == spec_probe(h0, h1, i, len as int));
            if !bits_get(&self.base, bit) {
                assert(!self.spec_bits()[spec_probe(h0, h1, i, len as int)]);
                return false;
            }
            i = i + 1;
        }
        true
    }

    /// Sets every bit probed by `value`.
    pub fn insert(&mut self, value: &str)
        requires
            old(self).spec_bits().len() > 0 || old(self).spec_hashes() == 0,
        ensures
            final(self).spec_seeds() == old(self).spec_seeds(),
            final(self).spec_hashes() == old(self).spec_hashes(),
            final(self).spec_bits().len() == old(self).spec_bits().len(),
            forall|g: int|
                0 <= g < old(self).spec_bits().len() ==> #[trigger] final(self).spec_bits()[g] == (old(
                    self,
                ).spec_bits()[g] || exists|i: u64|
                    i < old(self).spec_hashes() && g == spec_probe(
                        spec_hash_seeded_str(old(self).spec_seeds()[0], value@),
                        spec_hash_seeded_str(old(self).spec_seeds()[1], value@),
                        i,
                        old(self).spec_bits().len() as int,
                    )),
    {
        let h0 = hash_seeded_str(self.seeds[0], value);
        let h1 = hash_seeded_str(self.seeds[1], value);
        let len = bits_len(&self.base);
        let k = self.hashes;
        let ghost old_bits = bits_of(self.base);
        let mut i: u64 = 0;
        while i < k
            invariant
                len == old_bits.len(),
                len > 0 || k == 0,
                k == self.hashes,
                self.seeds == old(self).seeds,
                k == old(self).spec_hashes(),
                old_bits == old(self).spec_bits(),
                h0 == spec_hash_seeded_str(self.seeds[0], value@),
                h1 == spec_hash_seeded_str(self.seeds[1], value@),
                i <= k,
                bits_of(self.base).len() == len,
                forall|g: int|
                    0 <= g < len ==> #[trigger] bits_of(self.base)[g] == (old_bits[g] || exists|j: u64|
                        j < i && g == spec_probe(h0, h1, j, len as int)),
            decreases k - i,
        {
            let x = h0.wrapping_add(i.wrapping_mul(h1));
            let bit = (x % (len as u64)) as usize;
            assert(bit == spec_probe(h0, h1, i, len as int));
            bits_set(&mut self.base, bit, true);
            proof {
                assert forall|g: int|
                    0 <= g < len implies #[trigger] bits_of(self.base)[g] == (old_bits[g] || exists|j: u64|
                        j < i + 1 && g == spec_probe(h0, h1, j, len as int)) by {
                    if g == bit {
                        assert(i < i + 1 && g == spec_probe(h0, h1, i, len as int));
                    } else if exists|j: u64| j < i + 1 && g == spec_probe(h0, h1, j, len as int) {
                        let j = choose|j: u64| j < i + 1 && g == spec_probe(h0, h1, j, len as int);
                        assert(j != i);
                        assert(j < i && g == spec_probe(h0, h1, j, len as int));
                    }
                }
            }
            i = i + 1;
        }
    }

    /// Packs the bits into bytes: bit `g` goes to bit `g % 8` of byte `g / 8`.
    pub fn to_bytes(&self) -> (res: Vec<u8>)
        ensures
            res@.len() == (self.spec_bits().len() + 7) / 8,
            forall|j: int, t: int|
                0 <= j < res@.len() && 0 <= t < 8 ==> #[trigger] byte_bit(res@[j], t) == (8 * j + t
                    < self.spec_bits().len() && self.spec_bits()[8 * j + t]),
    {
        let len = bits_len(&self.base);
        let ghost bits = bits_of(self.base);
        let nbytes = len / 8 + if len % 8 == 0 { 0 } else { 1 };
        let mut out: Vec<u8> = Vec::new();
        let mut j: usize = 0;
        while j < nbytes
            invariant
                len == bits.len(),
                bits == bits_of(self.base),
                nbytes == (len + 7) / 8,
                j <= nbytes,
                out@.len() == j,
                forall|jj: int, t: int|
                    0 <= jj < j && 0 <= t < 8 ==> #[trigger] byte_bit(out@[jj], t) == (8 * jj + t
                        < len && bits[8 * jj + t]),
            decreases nbytes - j,
        {
            let start = j * 8;
            let mut byte: u8 = 0;
            proof {
                assert forall|tt: int| 0 <= tt < 8 implies #[trigger] byte_bit(byte, tt) == false by {
                    let a = tt as u8;
                    assert(a < 8 ==> (0u8 >> a) & 1u8 == 0u8) by (bit_vector);
                }
            }
            let mut t: usize = 0;
            while t < 8
                invariant
                    t <= 8,
                    start == 8 * j,
                    start <= len,
                    len == bits.len(),
                    bits == bits_of(self.base),
                    forall|tt: int| 0 <= tt < 8 ==> #[trigger] byte_bit(byte, tt) == (tt < t && start + tt
                        < len && bits[start + tt]),
                decreases 8 - t,
            {
                let set = if t < len - start { bits_get(&self.base, start + t) } else { false };
                let ghost prev = byte;
                if set {
                    byte = byte | (1u8 << (t as u8));
                }
                proof {
                    assert forall|tt: int| 0 <= tt < 8 implies #[trigger] byte_bit(byte, tt) == (tt < t + 1
                        && start + tt < len && bits[start + tt]) by {
                        let a = tt as u8;
                        let b = t as u8;
                        assert(byte_bit(prev, tt) == (tt < t && start + tt < len && bits[start + tt]));
                        if set {
                            assert(b < 8 && a < 8 ==> (((prev | (1u8 << b)) >> a) & 1u8 == 1u8) == (((prev
                                >> a) & 1u8 == 1u8) || a == b)) by (bit_vector);
                        }
                    }
                }
                t = t + 1;
            }
            out.push(byte);
            j = j + 1;
        }
        out
    }
}

/// A key just inserted is reported present: a Bloom filter has no false negatives.
pub proof fn lemma_insert_then_contains(before: BloomFilter, after: BloomFilter, key: Seq<char>)
    requires
        before.spec_bits().len() > 0,
        after.spec_seeds() == before.spec_seeds(),
        after.spec_hashes() == before.spec_hashes(),
        after.spec_bits().len() == before.spec_bits().len(),
        forall|g: int|
            0 <= g < before.spec_bits().len() ==> #[trigger] after.spec_bits()[g] == (before.spec_bits()[g]
                || exists|i: u64|
                i < before.spec_hashes() && g == spec_probe(
                    spec_hash_seeded_str(before.spec_seeds()[0], key),
                    spec_hash_seeded_str(before.spec_seeds()[1], key),
                    i,
                    before.spec_bits().len() as int,
                )),
    ensures
        after.spec_contains(key),
        forall|other: Seq<char>| before.spec_contains(other) ==> #[trigger] after.spec_contains(other),
{
    let len = before.spec_bits().len() as int;
    let h0 = spec_hash_seeded_str(before.spec_seeds()[0], key);
    let h1 = spec_hash_seeded_str(before.spec_seeds()[1], key);
    assert forall|i: u64| i < after.spec_hashes() implies #[trigger] after.spec_bits()[spec_probe(h0, h1, i, len)] by {
        let g = spec_probe(h0, h1, i, len);
        assert(0 <= g < len);
        assert(exists|j: u64| j < before.spec_hashes() && g == spec_probe(h0, h1, j, len));
    }
    assert forall|other: Seq<char>| before.spec_contains(other) implies #[trigger] after.spec_contains(other) by {
        let o0 = spec_hash_seeded_str(before.spec_seeds()[0], other);
        let o1 = spec_hash_seeded_str(before.spec_seeds()[1], other);
        assert forall|i: u64| i < after.spec_hashes() implies #[trigger] after.spec_bits()[spec_probe(o0, o1, i, len)] by {
            let g = spec_probe(o0, o1, i, len);
            assert(before.spec_bits()[g]);
        }
    }
}

/// Unpacking the packed bits of a filter gives back its bits.
pub proof fn lemma_pack_unpack(bits: Seq<bool>, packed: Seq<u8>)
    requires
        packed.len() == (bits.len() + 7) / 8,
        forall|j: int, t: int|
            0 <= j < packed.len() && 0 <= t < 8 ==> #[trigger] byte_bit(packed[j], t) == (8 * j + t
                < bits.len() && bits[8 * j + t]),
    ensures
        spec_unpack(bits.len() as int, packed) == bits,
{
    assert forall|g: int| 0 <= g < bits.len() implies #[trigger] spec_unpack(bits.len() as int, packed)[g]
        == bits[g] by {
        let j = g / 8;
        let t = g % 8;
        assert(g == 8 * j + t);
        assert(byte_bit(packed[j], t) == (8 * j + t < bits.len() && bits[8 * j + t]));
    }
    assert(spec_unpack(bits.len() as int, packed) =~= bits);
}

} // verus!
