//! Derivation of a key's banded equation from its hash.

use vstd::prelude::*;
use vstd::wrapping::u64_specs::{wrapping_add, wrapping_mul};

use super::params::{spec_last_word_mask, spec_words, Mode, Params};
use crate::std_hash::{hash_str, spec_hash_str};

verus! {

pub const MIX_CONST: u64 = 0x9E37_79B9_7F4A_7C15;

/// A key's equation: it touches rows `start .. start + 128` where the 128-bit
/// coefficient `coeff_hi:coeff_lo` has a set bit.
#[derive(Debug, Clone, Copy, PartialEq, Eq)]
pub struct StandardEquation {
    pub start: usize,
    pub coeff_lo: u64,
    pub coeff_hi: u64,
}

/// The SplitMix64 output function applied to an advanced state.
pub open spec fn spec_mix(z: u64) -> u64 {
    let z1 = wrapping_mul(z ^ (z >> 30u64), 0xBF58_476D_1CE4_E5B9u64);
    let z2 = wrapping_mul(z1 ^ (z1 >> 27u64), 0x94D0_49BB_1331_11EBu64);
    z2 ^ (z2 >> 31u64)
}

/// The SplitMix64 state after `k` draws from `seed`.
pub open spec fn spec_sm_state(seed: u64, k: nat) -> u64
    decreases k,
{
    if k == 0 {
        seed
    } else {
        wrapping_add(spec_sm_state(seed, (k - 1) as nat), MIX_CONST)
    }
}

/// The `n`-th word (counting from zero) drawn from a SplitMix64 stream.
pub open spec fn spec_stream_word(seed: u64, n: nat) -> u64 {
    spec_mix(spec_sm_state(seed, n + 1))
}

pub proof fn lemma_sm_step(seed: u64, k: nat)
    ensures
        spec_sm_state(seed, k + 1) == wrapping_add(spec_sm_state(seed, k), MIX_CONST),
        spec_sm_state(seed, 0) == seed,
{
}

/// A small, fast pseudo-random generator.
#[derive(Debug, Clone, Copy)]
pub struct SplitMix64 {
    pub state: u64,
}

impl SplitMix64 {
    pub fn new(seed: u64) -> (res: Self)
        ensures
            res.state == seed,
    {
        SplitMix64 { state: seed }
    }

    pub fn next_u64(&mut self) -> (res: u64)
        ensures
            final(self).state == wrapping_add(old(self).state, MIX_CONST),
            res == spec_mix(final(self).state),
    {
        self.state = self.state.wrapping_add(MIX_CONST);
        let mut z = self.state;
        z = (z ^ (z >> 30)).wrapping_mul(0xBF58_476D_1CE4_E5B9);
        z = (z ^ (z >> 27)).wrapping_mul(0x94D0_49BB_1331_11EB);
        z ^ (z >> 31)
    }
}

/// `floor(x * range / 2^64)`: maps a uniform word to `0 .. range`.
pub open spec fn spec_fastrange(x: u64, range: int) -> int {
    (x as int * range) / 0x1_0000_0000_0000_0000int
}

pub fn fastrange_u64(x: u64, range: usize) -> (res: usize)
    ensures
        res == spec_fastrange(x, range as int),
        range > 0 ==> res < range,
{
    assert((x as int) * (range as int) <= 0xffff_ffff_ffff_ffff * 0xffff_ffff_ffff_ffff)
        by (nonlinear_arith)
        requires
            0 <= x <= 0xffff_ffff_ffff_ffff,
            0 <= range <= 0xffff_ffff_ffff_ffff,
    ;
    let prod: u128 = (x as u128) * (range as u128);
    assert(prod >> 64u128 == prod / 0x1_0000_0000_0000_0000u128) by (bit_vector);
    proof {
        let xi = x as int;
        let ri = range as int;
        assert(xi * ri <= 0xffff_ffff_ffff_ffff * ri) by (nonlinear_arith)
            requires
                0 <= xi <= 0xffff_ffff_ffff_ffff,
                0 <= ri,
        ;
        assert(0xffff_ffff_ffff_ffffint * ri < 0x1_0000_0000_0000_0000int * ri || ri == 0)
            by (nonlinear_arith)
            requires
                0 <= ri,
        ;
        assert((xi * ri) / 0x1_0000_0000_0000_0000int <= ri) by (nonlinear_arith)
            requires
                0 <= xi * ri <= 0xffff_ffff_ffff_ffff * ri,
                0 <= ri,
        ;
        assert(ri > 0 ==> (xi * ri) / 0x1_0000_0000_0000_0000int < ri) by (nonlinear_arith)
            requires
                0 <= xi * ri <= 0xffff_ffff_ffff_ffff * ri,
                0 <= ri,
        ;
    }
    (prod >> 64) as usize
}

/// Start row of an equation drawn from `next_word`.
pub fn start_position_from_stream(next_word: u64, m: usize, w: usize) -> (res: usize)
    requires
        w <= m,
        m - w + 1 <= usize::MAX,
    ensures
        res == spec_fastrange(next_word, m - w + 1),
        res <= m - w,
{
    fastrange_u64(next_word, m - w + 1)
}

/// The seed used by construction attempt `attempt_index`.
pub open spec fn spec_attempt_seed(base_seed: u64, attempt_index: u64) -> u64 {
    wrapping_mul(
        spec_mix(wrapping_add(base_seed ^ wrapping_mul(attempt_index, MIX_CONST), MIX_CONST)),
        MIX_CONST,
    )
}

pub fn derive_attempt_seed(base_seed: u64, attempt_index: u64) -> (res: u64)
    ensures
        res == spec_attempt_seed(base_seed, attempt_index),
{
    let mut sm = SplitMix64::new(base_seed ^ attempt_index.wrapping_mul(MIX_CONST));
    sm.next_u64().wrapping_mul(MIX_CONST)
}

/// Seed of the stream from which an equation is drawn.
pub open spec fn spec_stream_seed(base_hash: u64, seed: u64) -> u64 {
    wrapping_mul(base_hash ^ seed, MIX_CONST)
}

/// Mask of the low `bits` bits (all bits when `bits >= 64`).
pub open spec fn spec_low_mask(bits: int) -> u64 {
    if bits >= 64 {
        u64::MAX
    } else {
        ((1u64 << (bits as u64)) - 1) as u64
    }
}

/// The equation of a key whose hash is `base_hash`.
pub open spec fn spec_equation(base_hash: u64, seed: u64, p: Params) -> StandardEquation {
    let s = spec_stream_seed(base_hash, seed);
    let start = spec_fastrange(spec_stream_word(s, 0), p.m - p.w + 1);
    if p.w <= 64 {
        StandardEquation {
            start: start as usize,
            coeff_lo: (spec_stream_word(s, 1) & spec_low_mask(p.w as int)) | 1u64,
            coeff_hi: 0,
        }
    } else {
        StandardEquation {
            start: start as usize,
            coeff_lo: spec_stream_word(s, 1) | 1u64,
            coeff_hi: spec_stream_word(s, 2) & spec_low_mask(p.w - 64),
        }
    }
}

/// Number of stream words the coefficient consumes after the start word.
pub open spec fn spec_coeff_words(p: Params) -> nat {
    if p.w <= 64 {
        1
    } else {
        2
    }
}

/// The fingerprint of a key whose hash is `base_hash`.
pub open spec fn spec_fingerprint(base_hash: u64, seed: u64, p: Params) -> Seq<u64> {
    let n = spec_words(p.r as int);
    let s = spec_stream_seed(base_hash, seed);
    let first = 1 + spec_coeff_words(p);
    if p.mode == Mode::Homogeneous {
        Seq::new(n as nat, |i: int| 0u64)
    } else {
        Seq::new(
            n as nat,
            |i: int|
                if i == n - 1 {
                    spec_stream_word(s, (first + i) as nat) & spec_last_word_mask(p.r as int)
                } else {
                    spec_stream_word(s, (first + i) as nat)
                },
        )
    }
}

pub fn low_mask(bits: usize) -> (res: u64)
    ensures
        res == spec_low_mask(bits as int),
{
    if bits >= 64 {
        u64::MAX
    } else {
        let b = bits as u64;
        assert(b < 64 ==> (1u64 << b) >= 1) by (bit_vector);
        (1u64 << b) - 1
    }
}

/// Derives the equation and fingerprint of `key` for a filter with `params`
/// and seed `seed`; the fingerprint is written into `fingerprint`.
pub fn standard_equation_w64(key: &str, seed: u64, params: &Params, fingerprint: &mut Vec<u64>) -> (res:
    StandardEquation)
    requires
        params.w <= params.m,
        params.w <= 128,
        params.m - params.w + 1 <= usize::MAX,
        old(fingerprint)@.len() == spec_words(params.r as int),
    ensures
        res == spec_equation(spec_hash_str(key@), seed, *params),
        final(fingerprint)@ == spec_fingerprint(spec_hash_str(key@), seed, *params),
        res.start <= params.m - params.w,
{
    let base_hash = hash_str(key);
    let stream_seed = (base_hash ^ seed).wrapping_mul(MIX_CONST);
    let mut stream = SplitMix64::new(stream_seed);
    let ghost s = stream_seed;
    proof {
        lemma_sm_step(s, 0);
        lemma_sm_step(s, 1);
        lemma_sm_step(s, 2);
    }
    let w0 = stream.next_u64();
    assert(stream.state == spec_sm_state(s, 1));
    let start = start_position_from_stream(w0, params.m, params.w);
    let mut coeff_lo: u64;
    let mut coeff_hi: u64;
    if params.w <= 64 {
        let width_mask = low_mask(params.w);
        let w1 = stream.next_u64();
        assert(stream.state == spec_sm_state(s, 2));
        coeff_lo = (w1 & width_mask) | 1;
        coeff_hi = 0;
    } else {
        let lo = stream.next_u64();
        assert(stream.state == spec_sm_state(s, 2));
        let hi_mask = low_mask(params.w - 64);
        let hi = stream.next_u64();
        assert(stream.state == spec_sm_state(s, 3));
        coeff_lo = lo | 1;
        coeff_hi = hi & hi_mask;
    }
    let ghost first: nat = 1 + spec_coeff_words(*params);
    assert(stream.state == spec_sm_state(s, first));
    let n = fingerprint.len();
    if matches!(params.mode, Mode::Homogeneous) {
        let mut i: usize = 0;
        while i < n
            invariant
                n == fingerprint@.len(),
                i <= n,
                forall|j: int| 0 <= j < i ==> fingerprint@[j] == 0u64,
            decreases n - i,
        {
            fingerprint.set(i, 0);
            i = i + 1;
        }
    } else {
        let mut i: usize = 0;
        while i < n
            invariant
                n == fingerprint@.len(),
                n == spec_words(params.r as int),
                i <= n,
                stream.state == spec_sm_state(s, (first + i) as nat),
                forall|j: int| 0 <= j < i ==> fingerprint@[j] == spec_stream_word(s, (first + j) as nat),
            decreases n - i,
        {
            proof {
                lemma_sm_step(s, (first + i) as nat);
            }
            let word = stream.next_u64();
            assert(stream.state == spec_sm_state(s, (first + i + 1) as nat));
            fingerprint.set(i, word);
            i = i + 1;
        }
        if n > 0 {
            let last = fingerprint[n - 1] & params.fingerprint_last_word_mask();
            fingerprint.set(n - 1, last);
        }
    }
    assert(final(fingerprint)@ =~= spec_fingerprint(base_hash, seed, *params));
    StandardEquation { start, coeff_lo, coeff_hi }
}

} // verus!
