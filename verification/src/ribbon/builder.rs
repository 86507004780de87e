//! Construction of ribbon filters by on-the-fly banded Gaussian elimination.

use vstd::prelude::*;

use super::algebra::{
    acc, band, coeff_bit, lemma_acc_ext, lemma_acc_frame, lemma_acc_len, lemma_acc_linear,
    lemma_acc_masked, lemma_acc_single, lemma_acc_skip, lemma_acc_empty, lemma_band_zero,
    lemma_other_rows, lemma_row_len, lemma_shift_band, lemma_xor_assoc, lemma_xor_comm, lemma_xor_masked,
    lemma_xor_self, lemma_xor_step, lemma_xor_zero, row, row_masked, sel_xor, set_row, shaped,
    xor_row_within, xor_rows, xor_words_from_row, zero_row,
};
use super::error::{BuildError, ConstructionFailure};
use super::filter::{spec_satisfies, RibbonFilter};
use super::hashing::{
    derive_attempt_seed, lemma_sm_step, spec_attempt_seed, spec_equation, spec_fingerprint,
    spec_sm_state, spec_stream_word, standard_equation_w64, SplitMix64,
};
use super::params::{spec_last_word_mask, spec_param_error, spec_valid, spec_words, Mode, Params};
use crate::bitvec_specs::max_bits;
use crate::std_hash::spec_hash_str;
use vstd::std_specs::bits::{axiom_u64_trailing_zeros, u64_trailing_zeros};

verus! {

/// Reusable buffers for queries.
#[derive(Debug, Clone)]
pub struct Scratch {
    pub fingerprint: Vec<u64>,
    pub acc: Vec<u64>,
}

impl Scratch {
    pub fn new(stride_words: usize) -> (res: Self)
        ensures
            res.fingerprint@ == Seq::new(stride_words as nat, |i: int| 0u64),
            res.acc@ == Seq::new(stride_words as nat, |i: int| 0u64),
    {
        Scratch { fingerprint: vec![0u64; stride_words], acc: vec![0u64; stride_words] }
    }

    pub fn reset(&mut self)
        ensures
            final(self).fingerprint@ == Seq::new(old(self).fingerprint@.len(), |i: int| 0u64),
            final(self).acc@ == Seq::new(old(self).acc@.len(), |i: int| 0u64),
    {
        let n = self.fingerprint.len();
        let mut i: usize = 0;
        while i < n
            invariant
                n == self.fingerprint@.len(),
                n == old(self).fingerprint@.len(),
                i <= n,
                forall|j: int| 0 <= j < i ==> self.fingerprint@[j] == 0u64,
                self.acc@ == old(self).acc@,
            decreases n - i,
        {
            self.fingerprint.set(i, 0);
            i = i + 1;
        }
        let n2 = self.acc.len();
        let mut k: usize = 0;
        while k < n2
            invariant
                n2 == self.acc@.len(),
                n2 == old(self).acc@.len(),
                k <= n2,
                forall|j: int| 0 <= j < k ==> self.acc@[j] == 0u64,
                self.fingerprint@ == Seq::new(old(self).fingerprint@.len(), |i: int| 0u64),
            decreases n2 - k,
        {
            self.acc.set(k, 0);
            k = k + 1;
        }
        assert(self.fingerprint@ =~= Seq::new(old(self).fingerprint@.len(), |i: int| 0u64));
        assert(self.acc@ =~= Seq::new(old(self).acc@.len(), |i: int| 0u64));
    }
}

/// Builds ribbon filters with fixed parameters.
#[derive(Debug)]
pub struct RibbonBuilder {
    params: Params,
}

/// The row count after `g` growth steps of factor `(w + 1) / w`, rounded up.
pub open spec fn spec_grown_m(m: int, w: int, g: nat) -> int
    decreases g,
{
    if g == 0 {
        m
    } else {
        let prod = spec_grown_m(m, w, (g - 1) as nat) * (w + 1);
        prod / w + if prod % w == 0 { 0int } else { 1int }
    }
}

/// Every attempt that `build` may make fits the machine.
pub open spec fn spec_build_fits(p: Params) -> bool {
    &&& (p.grow_limit + 1) * p.retry_limit <= usize::MAX
    &&& forall|g: nat|
        g <= p.grow_limit ==> #[trigger] spec_grown_m(p.m as int, p.w as int, g) * spec_words(p.r as int) * 64
            <= max_bits() && (g < p.grow_limit ==> spec_grown_m(p.m as int, p.w as int, g) * (p.w + 1)
            <= usize::MAX)
}

/// Growth step `g` of building under `p` fits the machine: its solution words,
/// its attempt count, and (when growth goes on) the next row count.
pub open spec fn step_fits(p: Params, g: nat) -> bool {
    &&& spec_grown_m(p.m as int, p.w as int, g) * spec_words(p.r as int) * 64 <= max_bits()
    &&& (g + 1) * p.retry_limit <= usize::MAX
    &&& (g < p.grow_limit && p.mode != Mode::Homogeneous) ==> spec_grown_m(p.m as int, p.w as int, g) * (
        p.w + 1) <= usize::MAX
}

/// Building under `p` reaches growth step `g` for `keys`: it exists, and every
/// attempt of the steps before it fails.
pub open spec fn reached(p: Params, keys: Seq<String>, g: nat) -> bool {
    &&& g <= p.grow_limit
    &&& p.mode == Mode::Homogeneous ==> g == 0
    &&& forall|g2: nat, t: nat|
        g2 < g && t < p.retry_limit ==> unsolvable(#[trigger] attempt_params(p, g2, t), keys, keys.len() as int)
}

/// Every growth step that building `keys` under `p` reaches fits the machine.
pub open spec fn spec_build_fits_for(p: Params, keys: Seq<String>) -> bool {
    forall|g: nat| #[trigger] reached(p, keys, g) ==> step_fits(p, g)
}

/// When every growth step fits, every step reached does.
pub proof fn lemma_fits_for(p: Params, keys: Seq<String>)
    requires
        spec_build_fits(p),
    ensures
        spec_build_fits_for(p, keys),
{
    assert forall|g: nat| #[trigger] reached(p, keys, g) implies step_fits(p, g) by {
        assert(spec_grown_m(p.m as int, p.w as int, g) * spec_words(p.r as int) * 64 <= max_bits());
        assert((g + 1) * p.retry_limit <= (p.grow_limit + 1) * p.retry_limit) by (nonlinear_arith)
            requires
                g <= p.grow_limit,
                p.retry_limit >= 0,
        ;
    }
}

/// Whether every attempt that `build` may make with `p` fits the machine.
pub fn build_fits(p: &Params) -> (res: bool)
    requires
        spec_valid(*p),
    ensures
        res == spec_build_fits(*p),
{
    let attempts = (p.grow_limit as u128 + 1).checked_mul(p.retry_limit as u128);
    match attempts {
        None => {
            return false;
        },
        Some(a) => {
            if a > usize::MAX as u128 {
                return false;
            }
        },
    }
    let word_bits: u128 = ((p.r as u128 + 63) / 64) * 64;
    let limit: u128 = (usize::MAX / 8) as u128;
    let w = p.w as u128;
    let mut cur: u128 = p.m as u128;
    let mut g: usize = 0;
    assert(cur == spec_grown_m(p.m as int, p.w as int, 0));
    loop
        invariant
            spec_valid(*p),
            (p.grow_limit + 1) * p.retry_limit <= usize::MAX,
            word_bits == spec_words(p.r as int) * 64,
            limit == max_bits(),
            w == p.w,
            g <= p.grow_limit,
            cur == spec_grown_m(p.m as int, p.w as int, g as nat),
            cur <= usize::MAX,
            forall|h: nat|
                h < g ==> #[trigger] spec_grown_m(p.m as int, p.w as int, h) * spec_words(p.r as int) * 64
                    <= max_bits() && (h < p.grow_limit ==> spec_grown_m(p.m as int, p.w as int, h) * (p.w
                    + 1) <= usize::MAX),
        decreases p.grow_limit - g,
    {
        let ghost gm = spec_grown_m(p.m as int, p.w as int, g as nat);
        assert(gm * spec_words(p.r as int) * 64 == gm * (spec_words(p.r as int) * 64)) by (nonlinear_arith);
        match cur.checked_mul(word_bits) {
            None => {
                return false;
            },
            Some(bits) => {
                if bits > limit {
                    return false;
                }
            },
        }
        if g == p.grow_limit {
            assert forall|h: nat|
                h <= p.grow_limit implies #[trigger] spec_grown_m(p.m as int, p.w as int, h) * spec_words(
                    p.r as int,
                ) * 64 <= max_bits() && (h < p.grow_limit ==> spec_grown_m(p.m as int, p.w as int, h)
                    * (p.w + 1) <= usize::MAX) by {
                if h == g as nat {
                }
            }
            return true;
        }
        assert(cur * (w + 1) <= 0xffff_ffff_ffff_ffffu128 * 129) by (nonlinear_arith)
            requires
                cur <= 0xffff_ffff_ffff_ffffu128,
                w <= 128,
        ;
        let grown = cur * (w + 1);
        if grown > usize::MAX as u128 {
            return false;
        }
        let next = grown / w + if grown % w == 0 {
            0
        } else {
            1
        };
        assert(next <= grown) by (nonlinear_arith)
            requires
                w >= 1,
                next == grown / w + if grown % w == 0 { 0u128 } else { 1u128 },
        ;
        g = g + 1;
        cur = next;
    }
}

impl RibbonBuilder {
    #[verifier::type_invariant]
    spec fn inv(self) -> bool {
        spec_valid(self.params)
    }

    pub closed spec fn spec_params(&self) -> Params {
        self.params
    }

    pub fn new(params: Params) -> (res: Result<Self, BuildError>)
        ensures
            match res {
                Ok(b) => b.spec_params() == params && spec_valid(params),
                Err(e) => spec_param_error(params) matches Some(pe) && e == BuildError::InvalidParams(pe),
            },
    {
        match params.validate() {
            Ok(()) => Ok(RibbonBuilder { params }),
            Err(e) => Err(BuildError::InvalidParams(e)),
        }
    }

    pub fn params(&self) -> (res: Params)
        ensures
            res == self.spec_params(),
            spec_valid(res),
    {
        proof {
            use_type_invariant(self);
        }
        self.params
    }

    /// Builds a filter over `keys`, retrying with fresh seeds and growing the
    /// row count as the retry policy allows.
    pub fn build(&self, keys: &[String]) -> (res: Result<RibbonFilter, BuildError>)
        requires
            spec_build_fits_for(self.spec_params(), keys@),
        ensures
            match res {
                Ok(f) => built_by_first_solvable_attempt(f, self.spec_params(), keys@),
                Err(BuildError::ConstructionFailed { final_m, attempts, .. }) => if matches!(
                    self.spec_params().mode,
                    Mode::Homogeneous
                ) {
                    final_m == self.spec_params().m && attempts == 1
                } else {
                    final_m == spec_grown_m(
                        self.spec_params().m as int,
                        self.spec_params().w as int,
                        self.spec_params().grow_limit as nat,
                    ) && attempts == (self.spec_params().grow_limit + 1)
                        * self.spec_params().retry_limit
                },
                Err(BuildError::InvalidParams(_)) => false,
            },
            res is Err ==> all_attempts_unsolvable(self.spec_params(), keys@),
            self.spec_params().mode == Mode::Homogeneous ==> (res matches Ok(f) && built_by_attempt(
                f,
                self.spec_params(),
                keys@,
                0,
                0,
            )),
    {
        proof {
            use_type_invariant(self);
        }
        let p = self.params;
        match p.validate() {
            Ok(()) => {},
            Err(e) => {
                return Err(BuildError::InvalidParams(e));
            },
        }
        let homogeneous = matches!(p.mode, Mode::Homogeneous);
        let mut attempts: usize = 0;
        let mut current_m = p.m;
        let mut last_failure: Option<ConstructionFailure> = None;
        let mut grow_step: usize = 0;
        proof {
            assert(spec_grown_m(p.m as int, p.w as int, 0) == p.m);
        }
        loop
            invariant_except_break
                grow_step <= p.grow_limit,
                p == self.params,
                spec_valid(p),
                spec_build_fits_for(p, keys@),
                homogeneous == matches!(p.mode, Mode::Homogeneous),
                current_m == spec_grown_m(p.m as int, p.w as int, grow_step as nat),
                attempts == grow_step * p.retry_limit,
                homogeneous ==> grow_step == 0,
                forall|g: nat, t: nat|
                    g < grow_step && t < p.retry_limit ==> unsolvable(
                        #[trigger] attempt_params(p, g, t),
                        keys@,
                        keys@.len() as int,
                    ),
            ensures
                all_attempts_unsolvable(p, keys@),
                if homogeneous {
                    current_m == p.m && attempts == 1
                } else {
                    current_m == spec_grown_m(p.m as int, p.w as int, p.grow_limit as nat)
                        && attempts == (p.grow_limit + 1) * p.retry_limit
                },
            decreases p.grow_limit - grow_step,
        {
            proof {
                assert(reached(p, keys@, grow_step as nat));
                assert(step_fits(p, grow_step as nat));
                assert(spec_grown_m(p.m as int, p.w as int, grow_step as nat) * spec_words(p.r as int) * 64 <= max_bits());
                assert(p.w <= current_m) by {
                    lemma_grown_ge(p.m as int, p.w as int, grow_step as nat);
                }
                assert((grow_step + 1) * p.retry_limit == grow_step * p.retry_limit + p.retry_limit) by (nonlinear_arith);
            }
            let mut retry_step: usize = 0;
            loop
                invariant_except_break
                    retry_step < p.retry_limit,
                    p == self.params,
                    spec_valid(p),
                    grow_step <= p.grow_limit,
                    p.w <= current_m,
                    current_m * spec_words(p.r as int) * 64 <= max_bits(),
                    current_m == spec_grown_m(p.m as int, p.w as int, grow_step as nat),
                    attempts == grow_step * p.retry_limit + retry_step,
                    grow_step * p.retry_limit + p.retry_limit <= usize::MAX,
                    homogeneous == matches!(p.mode, Mode::Homogeneous),
                    homogeneous ==> grow_step == 0 && retry_step == 0,
                    forall|g: nat, t: nat|
                        g < grow_step && t < p.retry_limit ==> unsolvable(
                            #[trigger] attempt_params(p, g, t),
                            keys@,
                            keys@.len() as int,
                        ),
                    forall|t: nat|
                        t < retry_step ==> unsolvable(
                            #[trigger] attempt_params(p, grow_step as nat, t),
                            keys@,
                            keys@.len() as int,
                        ),
                ensures
                    forall|g: nat, t: nat|
                        g < grow_step && t < p.retry_limit ==> unsolvable(
                            #[trigger] attempt_params(p, g, t),
                            keys@,
                            keys@.len() as int,
                        ),
                    homogeneous ==> unsolvable(attempt_params(p, 0, 0), keys@, keys@.len() as int),
                    !homogeneous ==> forall|t: nat|
                        t < p.retry_limit ==> unsolvable(
                            #[trigger] attempt_params(p, grow_step as nat, t),
                            keys@,
                            keys@.len() as int,
                        ),
                    if homogeneous {
                        attempts == 1
                    } else {
                        attempts == grow_step * p.retry_limit + p.retry_limit
                    },
                decreases p.retry_limit - retry_step,
            {
                attempts = attempts + 1;
                let attempt_index: u64 = ((grow_step as u64) << 32u64) | (retry_step as u64);
                let seed = derive_attempt_seed(p.seed, attempt_index);
                match self.build_once(keys, current_m, seed) {
                    Ok(filter) => {
                        proof {
                            let g: nat = grow_step as nat;
                            let t: nat = retry_step as nat;
                            assert(g as u64 == grow_step as u64);
                            assert(t as u64 == retry_step as u64);
                            assert(spec_grown_m(p.m as int, p.w as int, g) as usize == current_m);
                            assert(spec_attempt_seed(p.seed, ((g as u64) << 32u64) | (t as u64)) == seed);
                            assert(built_for(filter, self.spec_params(), current_m, seed, keys@));
                            assert(built_by_attempt(filter, self.spec_params(), keys@, g, t));
                            assert(earlier_unsolvable(self.spec_params(), keys@, g, t));
                            assert(built_by_first_solvable_attempt(filter, self.spec_params(), keys@));
                        }
                        return Ok(filter);
                    },
                    Err(err) => {
                        proof {
                            let g: nat = grow_step as nat;
                            let t: nat = retry_step as nat;
                            assert(g as u64 == grow_step as u64);
                            assert(t as u64 == retry_step as u64);
                            let ap = attempt_params(p, g, t);
                            assert(ap == (Params { m: current_m, seed, ..self.spec_params() }));
                            match err {
                                ConstructionFailure::InconsistentEquation { key_index, .. } => {
                                    lemma_unsolvable_all(ap, keys@, key_index + 1);
                                },
                                ConstructionFailure::OutOfBounds { .. } => {},
                            }
                            if homogeneous {
                                lemma_homogeneous_solvable(ap, keys@);
                            }
                        }
                        last_failure = Some(err);
                    },
                }
                if homogeneous {
                    break;
                }
                retry_step = retry_step + 1;
                if retry_step >= p.retry_limit {
                    break;
                }
            }
            if homogeneous {
                break;
            }
            if grow_step < p.grow_limit {
                let w = p.w;
                let prod = current_m * (w + 1);
                assert(prod % w != 0 ==> prod / w + 1 <= usize::MAX) by (nonlinear_arith)
                    requires
                        w >= 1,
                        0 <= prod <= usize::MAX,
                ;
                current_m = prod / w + if prod % w == 0 { 0 } else { 1 };
                grow_step = grow_step + 1;
            } else {
                break;
            }
        }
        proof {
            if homogeneous {
                assert(is_attempt(p, 0, 0));
                lemma_homogeneous_solvable(attempt_params(p, 0, 0), keys@);
            }
        }
        let failure = match last_failure {
            Some(f) => f,
            None => ConstructionFailure::InconsistentEquation { key_index: 0, row_index: 0 },
        };
        Err(BuildError::ConstructionFailed { final_m: current_m, attempts, last_failure: failure })
    }
}

/// Growth never shrinks the row count.
pub proof fn lemma_grown_ge(m: int, w: int, g: nat)
    requires
        w >= 1,
        m >= 0,
    ensures
        spec_grown_m(m, w, g) >= m,
    decreases g,
{
    if g > 0 {
        lemma_grown_ge(m, w, (g - 1) as nat);
        let prev = spec_grown_m(m, w, (g - 1) as nat);
        let prod = prev * (w + 1);
        assert(prod / w >= prev) by (nonlinear_arith)
            requires
                prod == prev * (w + 1),
                w >= 1,
                prev >= 0,
        ;
    }
}


/// `z` solves the equations of the first `n` of `keys` under `p`.
pub open spec fn solves_first(p: Params, z: Seq<u64>, keys: Seq<String>, n: int) -> bool {
    forall|k: int| 0 <= k < n ==> spec_satisfies(p, z, #[trigger] keys[k]@)
}

/// No solution words of the shape of `p` solve the equations of the first `n`
/// of `keys`: no filter with parameters `p` can hold all of them.
pub open spec fn unsolvable(p: Params, keys: Seq<String>, n: int) -> bool {
    forall|z: Seq<u64>|
        shaped(z, spec_words(p.r as int), p.m as int) ==> !#[trigger] solves_first(p, z, keys, n)
}

/// Every row an equation `(i, lo:hi)` touches lies below row `m`.
#[verifier::opaque]
pub open spec fn band_within(i: int, lo: u64, hi: u64, m: int) -> bool {
    forall|q: int| #[trigger] band(i, lo, hi)(q) ==> q < m
}

/// A key's equation touches only rows below `m`.
pub proof fn lemma_equation_within(h: u64, seed: u64, p: Params)
    requires
        1 <= p.w <= 128,
        spec_equation(h, seed, p).start <= p.m - p.w,
    ensures
        band_within(
            spec_equation(h, seed, p).start as int,
            spec_equation(h, seed, p).coeff_lo,
            spec_equation(h, seed, p).coeff_hi,
            p.m as int,
        ),
{
    reveal(band_within);
    let e = spec_equation(h, seed, p);
    assert forall|q: int| #[trigger] band(e.start as int, e.coeff_lo, e.coeff_hi)(q) implies q < p.m by {
        let j = q - e.start;
        let lo = e.coeff_lo;
        let hi = e.coeff_hi;
        if p.w <= 64 {
            let x = super::hashing::spec_stream_word(super::hashing::spec_stream_seed(h, seed), 1);
            let mk = super::hashing::spec_low_mask(p.w as int);
            assert(lo == (x & mk) | 1u64);
            assert(hi == 0u64);
            if 0 <= j < 64 {
                let sj = j as u64;
                let wu = p.w as u64;
                if wu < 64 {
                    assert(mk == ((1u64 << wu) - 1) as u64);
                    assert(1 <= wu < 64 && sj < 64 && (((x & (((1u64 << wu) - 1) as u64)) | 1u64) >> sj) & 1u64
                        == 1u64 ==> sj < wu) by (bit_vector);
                }
            } else if 64 <= j < 128 {
                let sj = (j - 64) as u64;
                assert(sj < 64 ==> (0u64 >> sj) & 1u64 == 0u64) by (bit_vector);
            }
        } else {
            let y = super::hashing::spec_stream_word(super::hashing::spec_stream_seed(h, seed), 2);
            let t = (p.w - 64) as u64;
            assert(hi == y & super::hashing::spec_low_mask(p.w - 64));
            if 64 <= j < 128 {
                let sj = (j - 64) as u64;
                if t < 64 {
                    assert(super::hashing::spec_low_mask(p.w - 64) == ((1u64 << t) - 1) as u64);
                    assert(1 <= t < 64 && sj < 64 && ((y & (((1u64 << t) - 1) as u64)) >> sj) & 1u64 == 1u64
                        ==> sj < t) by (bit_vector);
                }
            }
        }
    }
}

/// Adding a row to an equation keeps it within the first `m` rows when both are.
pub proof fn lemma_within_xor(i: int, lo1: u64, hi1: u64, lo2: u64, hi2: u64, m: int)
    requires
        band_within(i, lo1, hi1, m),
        band_within(i, lo2, hi2, m),
    ensures
        band_within(i, lo1 ^ lo2, hi1 ^ hi2, m),
{
    reveal(band_within);
    assert forall|q: int| #[trigger] band(i, lo1 ^ lo2, hi1 ^ hi2)(q) implies q < m by {
        super::algebra::lemma_band_xor(i, lo1, hi1, lo2, hi2, q);
        assert(band(i, lo1, hi1)(q) || band(i, lo2, hi2)(q));
    }
}

/// The leading row of a nonzero equation is one it touches.
pub proof fn lemma_lead_touched(i: int, lo: u64, hi: u64, s: int)
    requires
        !(lo == 0 && hi == 0),
        lo != 0 ==> s == u64_trailing_zeros(lo),
        lo == 0 ==> s == 64 + u64_trailing_zeros(hi),
    ensures
        band(i, lo, hi)(i + s),
{
    axiom_u64_trailing_zeros(lo);
    axiom_u64_trailing_zeros(hi);
    assert(band(i, lo, hi)(i + s) == coeff_bit(lo, hi, s));
}

/// An equation within the first `m` rows leads at a row below `m`, and moving
/// its start to the lead keeps the rows it touches.
pub proof fn lemma_within_shift(i: int, lo: u64, hi: u64, s: int, nlo: u64, nhi: u64, m: int)
    requires
        band_within(i, lo, hi, m),
        band(i, lo, hi)(i + s),
        forall|q: int| #[trigger] band(i, lo, hi)(q) == band(i + s, nlo, nhi)(q),
    ensures
        i + s < m,
        band_within(i + s, nlo, nhi, m),
{
    reveal(band_within);
    assert forall|q: int| #[trigger] band(i + s, nlo, nhi)(q) implies q < m by {
        assert(band(i, lo, hi)(q));
    }
}

/// A touched row of an equation within the first `m` rows is below `m`.
pub proof fn lemma_within_touched(i: int, lo: u64, hi: u64, m: int, q: int)
    requires
        band_within(i, lo, hi, m),
        band(i, lo, hi)(q),
    ensures
        q < m,
{
    reveal(band_within);
}

/// Every stored row is a consequence of the equations of the first `n` keys:
/// any solution of those of the shape of `p` satisfies it.
#[verifier::opaque]
pub open spec fn implied_by_keys(
    p: Params,
    keys: Seq<String>,
    n: int,
    stride: int,
    m: int,
    occ: Seq<bool>,
    clo: Seq<u64>,
    chi: Seq<u64>,
    rhs: Seq<u64>,
) -> bool {
    forall|z: Seq<u64>|
        #![trigger stored_ok(z, stride, m, occ, clo, chi, rhs)]
        shaped(z, stride, m) && solves_first(p, z, keys, n) ==> stored_ok(z, stride, m, occ, clo, chi, rhs)
}

/// With nothing stored, every stored row is trivially a consequence.
pub proof fn lemma_implied_empty(
    p: Params,
    keys: Seq<String>,
    stride: int,
    m: int,
    occ: Seq<bool>,
    clo: Seq<u64>,
    chi: Seq<u64>,
    rhs: Seq<u64>,
)
    requires
        forall|j: int| 0 <= j < m ==> !#[trigger] occ[j],
    ensures
        implied_by_keys(p, keys, 0, stride, m, occ, clo, chi, rhs),
{
    reveal(implied_by_keys);
}

/// What follows from the first `n` key equations follows from the first `n + 1`.
pub proof fn lemma_implied_more(
    p: Params,
    keys: Seq<String>,
    n: int,
    stride: int,
    m: int,
    occ: Seq<bool>,
    clo: Seq<u64>,
    chi: Seq<u64>,
    rhs: Seq<u64>,
)
    requires
        0 <= n < keys.len(),
        implied_by_keys(p, keys, n, stride, m, occ, clo, chi, rhs),
    ensures
        implied_by_keys(p, keys, n + 1, stride, m, occ, clo, chi, rhs),
{
    reveal(implied_by_keys);
    reveal(reduces_to);
    lemma_first_step(p, keys, n);
}

/// Storing a row that `z` satisfies keeps all stored rows satisfied.
pub proof fn lemma_store_extend(
    stride: int,
    m: int,
    occ: Seq<bool>,
    clo: Seq<u64>,
    chi: Seq<u64>,
    rhs: Seq<u64>,
    i: int,
    lo: u64,
    hi: u64,
    rhs2: Seq<u64>,
    z: Seq<u64>,
)
    requires
        stride >= 1,
        0 <= i < m,
        occ.len() == m,
        clo.len() == m,
        chi.len() == m,
        shaped(rhs, stride, m),
        forall|j: int| 0 <= j < m && j != i ==> #[trigger] row(rhs2, stride, j) == row(rhs, stride, j),
        stored_ok(z, stride, m, occ, clo, chi, rhs),
        acc(z, stride, band(i, lo, hi), m) == row(rhs2, stride, i),
    ensures
        stored_ok(z, stride, m, occ.update(i, true), clo.update(i, lo), chi.update(i, hi), rhs2),
{
    assert forall|j: int| 0 <= j < m && occ.update(i, true)[j] implies #[trigger] acc(
        z,
        stride,
        band(j, clo.update(i, lo)[j], chi.update(i, hi)[j]),
        m,
    ) == row(rhs2, stride, j) by {
        if j != i {
            assert(occ[j]);
            assert(acc(z, stride, band(j, clo[j], chi[j]), m) == row(rhs, stride, j));
        }
    }
}

/// Solving the first `n + 1` equations solves the first `n`, and equation `n`.
pub proof fn lemma_first_step(p: Params, keys: Seq<String>, n: int)
    requires
        0 <= n < keys.len(),
    ensures
        forall|z: Seq<u64>|
            #[trigger] solves_first(p, z, keys, n + 1) ==> solves_first(p, z, keys, n) && spec_satisfies(
                p,
                z,
                keys[n]@,
            ),
{
    assert forall|z: Seq<u64>| #[trigger] solves_first(p, z, keys, n + 1) implies solves_first(p, z, keys, n)
        && spec_satisfies(p, z, keys[n]@) by {
        assert forall|k: int| 0 <= k < n implies spec_satisfies(p, z, #[trigger] keys[k]@) by {
            assert(spec_satisfies(p, z, keys[k]@));
        }
        assert(spec_satisfies(p, z, keys[n]@));
    }
}

/// The equation of key `n` under `p`, as `(start, lo:hi) = fp`, is what
/// `spec_satisfies` checks.
pub open spec fn key_equation_is(
    p: Params,
    keys: Seq<String>,
    n: int,
    start: int,
    lo: u64,
    hi: u64,
    fp: Seq<u64>,
) -> bool {
    let h = spec_hash_str(keys[n]@);
    let e = spec_equation(h, p.seed, p);
    &&& start == e.start as int
    &&& lo == e.coeff_lo
    &&& hi == e.coeff_hi
    &&& fp == spec_fingerprint(h, p.seed, p)
}

/// Storing the reduced equation of key `n` keeps every stored row a
/// consequence of the first `n + 1` key equations.
pub proof fn lemma_store_consequence(
    p: Params,
    keys: Seq<String>,
    n: int,
    stride: int,
    m: int,
    occ: Seq<bool>,
    clo: Seq<u64>,
    chi: Seq<u64>,
    rhs: Seq<u64>,
    i: int,
    lo: u64,
    hi: u64,
    rhs2: Seq<u64>,
    kstart: int,
    klo: u64,
    khi: u64,
    fp: Seq<u64>,
    b: Seq<u64>,
)
    requires
        0 <= n < keys.len(),
        stride == spec_words(p.r as int),
        m == p.m,
        key_equation_is(p, keys, n, kstart, klo, khi, fp),
        stride >= 1,
        0 <= i < m,
        occ.len() == m,
        clo.len() == m,
        chi.len() == m,
        shaped(rhs, stride, m),
        forall|j: int| 0 <= j < m && j != i ==> #[trigger] row(rhs2, stride, j) == row(rhs, stride, j),
        row(rhs2, stride, i) == b,
        implied_by_keys(p, keys, n, stride, m, occ, clo, chi, rhs),
        reduces_to(stride, m, occ, clo, chi, rhs, kstart, klo, khi, fp, i, lo, hi, b),
    ensures
        implied_by_keys(p, keys, n + 1, stride, m, occ.update(i, true), clo.update(i, lo), chi.update(i, hi), rhs2),
{
    reveal(implied_by_keys);
    reveal(reduces_to);
    lemma_first_step(p, keys, n);
    assert forall|z: Seq<u64>|
        #![trigger stored_ok(z, stride, m, occ.update(i, true), clo.update(i, lo), chi.update(i, hi), rhs2)]
        shaped(z, stride, m) && solves_first(p, z, keys, n + 1) implies stored_ok(
        z,
        stride,
        m,
        occ.update(i, true),
        clo.update(i, lo),
        chi.update(i, hi),
        rhs2,
    ) by {
        assert(stored_ok(z, stride, m, occ, clo, chi, rhs));
        assert(spec_satisfies(p, z, keys[n]@));
        lemma_store_extend(stride, m, occ, clo, chi, rhs, i, lo, hi, rhs2, z);
    }
}

/// A reduced equation of key `n` with no coefficient and a nonzero right-hand
/// side shows the first `n + 1` key equations have no common solution.
pub proof fn lemma_inconsistent(
    p: Params,
    keys: Seq<String>,
    n: int,
    stride: int,
    m: int,
    occ: Seq<bool>,
    clo: Seq<u64>,
    chi: Seq<u64>,
    rhs: Seq<u64>,
    i: int,
    kstart: int,
    klo: u64,
    khi: u64,
    fp: Seq<u64>,
    b: Seq<u64>,
)
    requires
        0 <= n < keys.len(),
        stride == spec_words(p.r as int),
        m == p.m,
        key_equation_is(p, keys, n, kstart, klo, khi, fp),
        b != zero_row(stride),
        implied_by_keys(p, keys, n, stride, m, occ, clo, chi, rhs),
        reduces_to(stride, m, occ, clo, chi, rhs, kstart, klo, khi, fp, i, 0u64, 0u64, b),
    ensures
        unsolvable(p, keys, n + 1),
{
    reveal(implied_by_keys);
    reveal(reduces_to);
    lemma_first_step(p, keys, n);
    assert forall|z: Seq<u64>|
        shaped(z, spec_words(p.r as int), p.m as int) implies !#[trigger] solves_first(p, z, keys, n + 1) by {
        if solves_first(p, z, keys, n + 1) {
            assert(stored_ok(z, stride, m, occ, clo, chi, rhs));
            assert(spec_satisfies(p, z, keys[n]@));
            assert forall|q: int| 0 <= q < m implies !#[trigger] band(i, 0u64, 0u64)(q) by {
                lemma_band_zero(i, q);
            }
            lemma_acc_empty(z, stride, band(i, 0u64, 0u64), m);
        }
    }
}

/// Storing the reduced equation `(i, lo:hi) = b` of key `n` in a free row keeps
/// every fact the elimination relies on, for the new rows.
pub proof fn lemma_store_step(
    p: Params,
    keys: Seq<String>,
    n: int,
    stride: int,
    m: int,
    mask: u64,
    occ: Seq<bool>,
    clo: Seq<u64>,
    chi: Seq<u64>,
    rhs: Seq<u64>,
    i: int,
    lo: u64,
    hi: u64,
    rhs2: Seq<u64>,
    b: Seq<u64>,
    kstart: int,
    klo: u64,
    khi: u64,
    fp: Seq<u64>,
)
    requires
        0 <= n < keys.len(),
        stride == spec_words(p.r as int),
        m == p.m,
        key_equation_is(p, keys, n, kstart, klo, khi, fp),
        stride >= 1,
        0 <= i < m,
        !occ[i],
        occ.len() == m,
        clo.len() == m,
        chi.len() == m,
        shaped(rhs, stride, m),
        rhs2.len() == rhs.len(),
        forall|k: int|
            0 <= k < rhs.len() && (k < i * stride || k >= i * stride + stride) ==> rhs2[k] == rhs[k],
        row(rhs2, stride, i) == b,
        row_masked(b, mask),
        lo & 1u64 == 1u64,
        band_within(i, lo, hi, m),
        forall|j: int| 0 <= j < m && #[trigger] occ[j] ==> clo[j] & 1u64 == 1u64,
        forall|j: int| 0 <= j < m ==> row_masked(#[trigger] row(rhs, stride, j), mask),
        forall|j: int| 0 <= j < m && #[trigger] occ[j] ==> band_within(j, clo[j], chi[j], m),
        forall|k: int| 0 <= k < n ==> #[trigger] key_implied(stride, m, occ, clo, chi, rhs, p, keys[k]@),
        implied_by_keys(p, keys, n, stride, m, occ, clo, chi, rhs),
        reduces_to(stride, m, occ, clo, chi, rhs, kstart, klo, khi, fp, i, lo, hi, b),
    ensures
        forall|j: int| 0 <= j < m && #[trigger] occ.update(i, true)[j] ==> clo.update(i, lo)[j] & 1u64 == 1u64,
        forall|j: int| 0 <= j < m ==> row_masked(#[trigger] row(rhs2, stride, j), mask),
        forall|j: int|
            0 <= j < m && #[trigger] occ.update(i, true)[j] ==> band_within(
                j,
                clo.update(i, lo)[j],
                chi.update(i, hi)[j],
                m,
            ),
        forall|k: int|
            0 <= k < n ==> #[trigger] key_implied(
                stride,
                m,
                occ.update(i, true),
                clo.update(i, lo),
                chi.update(i, hi),
                rhs2,
                p,
                keys[k]@,
            ),
        implied(stride, m, occ.update(i, true), clo.update(i, lo), chi.update(i, hi), rhs2, kstart, klo, khi, fp),
        implied_by_keys(p, keys, n + 1, stride, m, occ.update(i, true), clo.update(i, lo), chi.update(i, hi), rhs2),
{
    reveal(reduces_to);
    let occ2 = occ.update(i, true);
    let clo2 = clo.update(i, lo);
    let chi2 = chi.update(i, hi);
    lemma_store_mono(stride, m, occ, clo, chi, rhs, i, lo, hi, rhs2);
    lemma_other_rows(rhs, rhs2, stride, m, i);
    assert forall|k: int| 0 <= k < n implies #[trigger] key_implied(stride, m, occ2, clo2, chi2, rhs2, p, keys[k]@) by {
        assert(key_implied(stride, m, occ, clo, chi, rhs, p, keys[k]@));
    }
    assert forall|z: Seq<u64>|
        #![trigger stored_ok(z, stride, m, occ2, clo2, chi2, rhs2)]
        shaped(z, stride, m) && stored_ok(z, stride, m, occ2, clo2, chi2, rhs2)
        implies acc(z, stride, band(kstart, klo, khi), m) == fp by {
        assert(stored_ok(z, stride, m, occ, clo, chi, rhs));
        assert(occ2[i]);
        assert(acc(z, stride, band(i, clo2[i], chi2[i]), m) == row(rhs2, stride, i));
    }
    assert forall|j: int| 0 <= j < m && #[trigger] occ2[j] implies clo2[j] & 1u64 == 1u64 by {
        if j != i {
            assert(occ[j]);
        }
    }
    assert forall|j: int| 0 <= j < m implies row_masked(#[trigger] row(rhs2, stride, j), mask) by {
        if j != i {
            assert(row(rhs2, stride, j) == row(rhs, stride, j));
        }
    }
    assert forall|j: int| 0 <= j < m && #[trigger] occ2[j] implies band_within(j, clo2[j], chi2[j], m) by {
        if j != i {
            assert(occ[j]);
        }
    }
    lemma_store_consequence(p, keys, n, stride, m, occ, clo, chi, rhs, i, lo, hi, rhs2, kstart, klo, khi, fp, b);
}

/// Under the stored rows, the key equation `(kstart, klo:khi) = fp` holds
/// exactly when its reduced form `(i, lo:hi) = b` does.
#[verifier::opaque]
pub open spec fn reduces_to(
    stride: int,
    m: int,
    occ: Seq<bool>,
    clo: Seq<u64>,
    chi: Seq<u64>,
    rhs: Seq<u64>,
    kstart: int,
    klo: u64,
    khi: u64,
    fp: Seq<u64>,
    i: int,
    lo: u64,
    hi: u64,
    b: Seq<u64>,
) -> bool {
    forall|z: Seq<u64>|
        #![trigger stored_ok(z, stride, m, occ, clo, chi, rhs)]
        shaped(z, stride, m) && stored_ok(z, stride, m, occ, clo, chi, rhs) ==> ((acc(
            z,
            stride,
            band(kstart, klo, khi),
            m,
        ) == fp) == (acc(z, stride, band(i, lo, hi), m) == b))
}

/// A row past the lead that an equation's upper part touches, the equation touches.
pub proof fn lemma_upper_touched(i: int, lo: u64, hi: u64, q: int)
    requires
        band(i, lo & !1u64, hi)(q),
    ensures
        band(i, lo, hi)(q),
{
    let j = q - i;
    if 0 <= j < 64 {
        let sj = j as u64;
        assert(sj < 64 && ((lo & !1u64) >> sj) & 1u64 == 1u64 ==> (lo >> sj) & 1u64 == 1u64) by (bit_vector);
    }
}

/// The parameters of attempt `t` of growth step `g` when building under `p`.
pub open spec fn attempt_params(p: Params, g: nat, t: nat) -> Params {
    Params {
        m: spec_grown_m(p.m as int, p.w as int, g) as usize,
        seed: spec_attempt_seed(p.seed, ((g as u64) << 32u64) | (t as u64)),
        ..p
    }
}

/// The attempts `build` makes under `p`: one in homogeneous mode, otherwise
/// every retry of every growth step.
pub open spec fn is_attempt(p: Params, g: nat, t: nat) -> bool {
    if p.mode == Mode::Homogeneous {
        g == 0 && t == 0
    } else {
        g <= p.grow_limit && t < p.retry_limit
    }
}

/// No attempt of building under `p` has a solution for all of `keys`.
pub open spec fn all_attempts_unsolvable(p: Params, keys: Seq<String>) -> bool {
    forall|g: nat, t: nat|
        is_attempt(p, g, t) ==> unsolvable(#[trigger] attempt_params(p, g, t), keys, keys.len() as int)
}

/// With no solution for the first `n` keys, there is none for all of them.
pub proof fn lemma_unsolvable_all(p: Params, keys: Seq<String>, n: int)
    requires
        0 <= n <= keys.len(),
        unsolvable(p, keys, n),
    ensures
        unsolvable(p, keys, keys.len() as int),
{
    assert forall|z: Seq<u64>|
        shaped(z, spec_words(p.r as int), p.m as int) implies !#[trigger] solves_first(
        p,
        z,
        keys,
        keys.len() as int,
    ) by {
        if solves_first(p, z, keys, keys.len() as int) {
            assert forall|k: int| 0 <= k < n implies spec_satisfies(p, z, #[trigger] keys[k]@) by {
                assert(spec_satisfies(p, z, keys[k]@));
            }
            assert(solves_first(p, z, keys, n));
        }
    }
}

/// XOR over an all-zero matrix is the zero row.
pub proof fn lemma_acc_zero(stride: int, m: int, sel: spec_fn(int) -> bool, n: int)
    requires
        stride >= 1,
        0 <= n <= m,
    ensures
        acc(zero_row(m * stride), stride, sel, n) == zero_row(stride),
    decreases n,
{
    if n > 0 {
        lemma_acc_zero(stride, m, sel, n - 1);
        let z = zero_row(m * stride);
        lemma_row_len(z, stride, m, n - 1);
        assert(row(z, stride, n - 1) =~= zero_row(stride));
        lemma_xor_zero(zero_row(stride));
    }
}

/// In homogeneous mode every fingerprint is zero, so the all-zero solution
/// satisfies every key: the equations always have a common solution.
pub proof fn lemma_homogeneous_solvable(p: Params, keys: Seq<String>)
    requires
        p.mode == Mode::Homogeneous,
        p.r >= 1,
    ensures
        !unsolvable(p, keys, keys.len() as int),
{
    let stride = spec_words(p.r as int);
    let m = p.m as int;
    assert(stride >= 1);
    assert(m * stride >= 0) by (nonlinear_arith)
        requires
            m >= 0,
            stride >= 1,
    ;
    let z = zero_row(m * stride);
    assert forall|k: int| 0 <= k < keys.len() implies spec_satisfies(p, z, #[trigger] keys[k]@) by {
        let h = spec_hash_str(keys[k]@);
        let e = spec_equation(h, p.seed, p);
        lemma_acc_zero(stride, m, band(e.start as int, e.coeff_lo, e.coeff_hi), m);
        assert(spec_fingerprint(h, p.seed, p) =~= zero_row(stride));
    }
    assert(shaped(z, stride, m));
    assert(solves_first(p, z, keys, keys.len() as int));
}

/// A filter that `build` returns answers yes for every key it was built over:
/// a built ribbon filter has no false negatives.
pub proof fn lemma_built_contains(f: RibbonFilter, p: Params, keys: Seq<String>)
    requires
        built_by_first_solvable_attempt(f, p, keys),
    ensures
        f.wf(),
        forall|k: int| 0 <= k < keys.len() ==> #[trigger] f.spec_contains(keys[k]@),
{
    let (g, t) = choose|g: nat, t: nat| #[trigger] built_by_attempt(f, p, keys, g, t);
}

/// The stored rows of the elimination: which rows are taken, their
/// coefficients, and their right-hand sides (`stride` words per row).
pub type EquationRows = (Seq<bool>, Seq<u64>, Seq<u64>, Seq<u64>);

/// Where reducing an equation against the stored rows ends.
pub enum Reduction {
    /// In free row `.0`, with coefficient `.2:.1` and right-hand side `.3`.
    Stored(int, u64, u64, Seq<u64>),
    /// It became `0 = 0`: implied by the stored rows.
    Redundant,
    /// It became `0 = b` with `b` nonzero.
    Inconsistent,
    /// Its lead left the table.
    OffTable,
}

/// Offset of the lowest set bit of the coefficient `hi:lo`.
pub open spec fn spec_lead(lo: u64, hi: u64) -> int {
    if lo != 0 {
        u64_trailing_zeros(lo) as int
    } else {
        64 + u64_trailing_zeros(hi) as int
    }
}

/// The coefficient `hi:lo` moved down by `s` bits (`1 <= s < 128`).
pub open spec fn spec_shift_coeff(lo: u64, hi: u64, s: int) -> (u64, u64) {
    if s >= 64 {
        (hi >> ((s - 64) as u64), 0u64)
    } else {
        ((lo >> (s as u64)) | (hi << ((64 - s) as u64)), hi >> (s as u64))
    }
}

/// Reduces the equation `(i, lo:hi) = b` against the stored rows: while its
/// lead row is taken, add that row and move to the new lead.
#[verifier::opaque]
pub open spec fn spec_reduce(stride: int, m: int, st: EquationRows, i: int, lo: u64, hi: u64, b: Seq<u64>) -> Reduction
    decreases m - i,
{
    if i < 0 || i >= m {
        Reduction::OffTable
    } else if !st.0[i] {
        Reduction::Stored(i, lo, hi, b)
    } else {
        let lo2 = lo ^ st.1[i];
        let hi2 = hi ^ st.2[i];
        let b2 = xor_rows(b, row(st.3, stride, i));
        if lo2 == 0 && hi2 == 0 {
            if b2 == zero_row(stride) {
                Reduction::Redundant
            } else {
                Reduction::Inconsistent
            }
        } else {
            let s = spec_lead(lo2, hi2);
            if s < 1 || i + s >= m {
                Reduction::OffTable
            } else {
                spec_reduce(stride, m, st, i + s, spec_shift_coeff(lo2, hi2, s).0, spec_shift_coeff(lo2, hi2, s).1, b2)
            }
        }
    }
}

/// `z` with row `i` replaced by `r`.
pub open spec fn spec_set_row(z: Seq<u64>, stride: int, i: int, r: Seq<u64>) -> Seq<u64> {
    Seq::new(z.len(), |k: int| if i * stride <= k < i * stride + stride { r[k - i * stride] } else { z[k] })
}

/// The stored rows after storing `(i, lo:hi) = b`.
pub open spec fn spec_store(st: EquationRows, stride: int, i: int, lo: u64, hi: u64, b: Seq<u64>) -> EquationRows {
    (st.0.update(i, true), st.1.update(i, lo), st.2.update(i, hi), spec_set_row(st.3, stride, i, b))
}

/// The stored rows after the equations of the first `n` keys under `p` were
/// reduced in order, or `None` once one of them is inconsistent or leaves the table.
pub open spec fn spec_eliminate(p: Params, keys: Seq<String>, n: nat) -> Option<EquationRows>
    decreases n,
{
    let stride = spec_words(p.r as int);
    let m = p.m as int;
    if n == 0 {
        Some((Seq::new(m as nat, |j: int| false), Seq::new(m as nat, |j: int| 0u64), Seq::new(m as nat, |j: int| 0u64), Seq::new((m * stride) as nat, |k: int| 0u64)))
    } else {
        match spec_eliminate(p, keys, (n - 1) as nat) {
            None => None,
            Some(st) => {
                let h = spec_hash_str(keys[n - 1]@);
                let e = spec_equation(h, p.seed, p);
                match spec_reduce(stride, m, st, e.start as int, e.coeff_lo, e.coeff_hi, spec_fingerprint(h, p.seed, p)) {
                    Reduction::Stored(i, lo, hi, b) => Some(spec_store(st, stride, i, lo, hi, b)),
                    Reduction::Redundant => Some(st),
                    _ => None,
                }
            },
        }
    }
}

/// A free lead row stores the equation.
pub proof fn lemma_reduce_free(stride: int, m: int, st: EquationRows, i: int, lo: u64, hi: u64, b: Seq<u64>)
    requires
        0 <= i < m,
        !st.0[i],
    ensures
        spec_reduce(stride, m, st, i, lo, hi, b) == Reduction::Stored(i, lo, hi, b),
{
    reveal(spec_reduce);
}

/// A taken lead row is added; a zero coefficient then ends the reduction.
pub proof fn lemma_reduce_zero(stride: int, m: int, st: EquationRows, i: int, lo: u64, hi: u64, b: Seq<u64>)
    requires
        0 <= i < m,
        st.0[i],
        lo ^ st.1[i] == 0,
        hi ^ st.2[i] == 0,
    ensures
        spec_reduce(stride, m, st, i, lo, hi, b) == if xor_rows(b, row(st.3, stride, i)) == zero_row(stride) {
            Reduction::Redundant
        } else {
            Reduction::Inconsistent
        },
{
    reveal(spec_reduce);
}

/// A taken lead row is added and the equation moves to its new lead.
pub proof fn lemma_reduce_step(
    stride: int,
    m: int,
    st: EquationRows,
    i: int,
    lo: u64,
    hi: u64,
    b: Seq<u64>,
    s: int,
    nlo: u64,
    nhi: u64,
)
    requires
        0 <= i < m,
        st.0[i],
        !((lo ^ st.1[i]) == 0 && (hi ^ st.2[i]) == 0),
        s == spec_lead(lo ^ st.1[i], hi ^ st.2[i]),
        s >= 1,
        (nlo, nhi) == spec_shift_coeff(lo ^ st.1[i], hi ^ st.2[i], s),
    ensures
        spec_reduce(stride, m, st, i, lo, hi, b) == spec_reduce(
            stride,
            m,
            st,
            i + s,
            nlo,
            nhi,
            xor_rows(b, row(st.3, stride, i)),
        ),
{
    reveal(spec_reduce);
    if i + s >= m {
        reveal(spec_reduce);
    }
}

/// One more key: the stored rows follow from how its equation reduces.
pub proof fn lemma_eliminate_step(p: Params, keys: Seq<String>, n: nat, st: EquationRows, r: Reduction)
    requires
        spec_eliminate(p, keys, n) == Some(st),
        ({
            let h = spec_hash_str(keys[n as int]@);
            let e = spec_equation(h, p.seed, p);
            spec_reduce(spec_words(p.r as int), p.m as int, st, e.start as int, e.coeff_lo, e.coeff_hi, spec_fingerprint(h, p.seed, p)) == r
        }),
    ensures
        spec_eliminate(p, keys, n + 1) == match r {
            Reduction::Stored(i, lo, hi, b) => Some(spec_store(st, spec_words(p.r as int), i, lo, hi, b)),
            Reduction::Redundant => Some(st),
            _ => None,
        },
{
    assert(((n + 1) - 1) as nat == n);
}

/// Writing row `i` of `z1` with `r`, leaving the other words, gives `spec_set_row`.
pub proof fn lemma_set_row_is(z1: Seq<u64>, z2: Seq<u64>, stride: int, i: int, r: Seq<u64>)
    requires
        stride >= 1,
        0 <= i,
        (i + 1) * stride <= z1.len(),
        z2.len() == z1.len(),
        r.len() == stride,
        row(z2, stride, i) == r,
        forall|k: int| 0 <= k < z1.len() && (k < i * stride || k >= i * stride + stride) ==> z2[k] == z1[k],
    ensures
        z2 == spec_set_row(z1, stride, i, r),
{
    assert((i + 1) * stride == i * stride + stride) by (nonlinear_arith);
    assert(0 <= i * stride) by (nonlinear_arith)
        requires
            0 <= i,
            stride >= 1,
    ;
    assert forall|k: int| 0 <= k < z1.len() implies z2[k] == #[trigger] spec_set_row(z1, stride, i, r)[k] by {
        if i * stride <= k < i * stride + stride {
            assert(row(z2, stride, i)[k - i * stride] == z2[k]);
        }
    }
    assert(z2 =~= spec_set_row(z1, stride, i, r));
}

/// Number of free rows among the first `i` rows.
pub open spec fn free_before(occ: Seq<bool>, i: int) -> nat
    decreases i,
{
    if i <= 0 {
        0
    } else {
        free_before(occ, i - 1) + if occ[i - 1] {
            0nat
        } else {
            1nat
        }
    }
}

/// Seed of the stream that fills free rows in homogeneous mode.
pub open spec fn fill_seed(p: Params) -> u64 {
    p.seed ^ 0xD1B5_4A32_D192_ED03u64
}

/// The content of the `c`-th free row of a filter built under `p`: the next
/// `stride` words of the fill stream (the last one masked) in homogeneous
/// mode, zero otherwise.
pub open spec fn fill_row(p: Params, c: nat) -> Seq<u64> {
    let stride = spec_words(p.r as int);
    if p.mode == Mode::Homogeneous {
        Seq::new(
            stride as nat,
            |t: int|
                if t == stride - 1 {
                    spec_stream_word(fill_seed(p), (c * stride + t) as nat) & spec_last_word_mask(p.r as int)
                } else {
                    spec_stream_word(fill_seed(p), (c * stride + t) as nat)
                },
        )
    } else {
        zero_row(stride)
    }
}

/// The rows an equation `(i, lo:hi)` touches above its lead row `i`.
pub open spec fn upper_band(i: int, lo: u64, hi: u64) -> spec_fn(int) -> bool {
    band(i, lo & !1u64, hi)
}

/// The free rows of `z` hold their fill.
pub open spec fn free_rows_filled(p: Params, occ: Seq<bool>, z: Seq<u64>) -> bool {
    forall|j: int|
        0 <= j < p.m && !occ[j] ==> #[trigger] row(z, spec_words(p.r as int), j) == fill_row(p, free_before(occ, j))
}

/// Each taken row `j >= lo` of `z` is its stored right-hand side plus the rows
/// its equation touches above it: the value back-substitution gives it.
pub open spec fn rows_back_substituted(p: Params, st: EquationRows, z: Seq<u64>, lo: int) -> bool {
    forall|j: int|
        lo <= j < p.m && st.0[j] ==> #[trigger] row(z, spec_words(p.r as int), j) == xor_rows(
            row(st.3, spec_words(p.r as int), j),
            acc(z, spec_words(p.r as int), upper_band(j, st.1[j], st.2[j]), p.m as int),
        )
}

/// `z` is the solution `build_once` writes for the stored rows `st`: free rows
/// hold their fill, taken rows are back-substituted from the top row down.
/// These conditions fix `z` row by row from the last row up
/// (`lemma_solution_unique`).
pub open spec fn solution_of(p: Params, st: EquationRows, z: Seq<u64>) -> bool {
    &&& shaped(z, spec_words(p.r as int), p.m as int)
    &&& free_rows_filled(p, st.0, z)
    &&& rows_back_substituted(p, st, z, 0)
}

/// The rows above a lead row are above it.
pub proof fn lemma_upper_above(j: int, lo: u64, hi: u64, q: int)
    requires
        upper_band(j, lo, hi)(q),
    ensures
        q > j,
{
    if q == j {
        assert(((lo & !1u64) >> 0u64) & 1u64 == 0u64) by (bit_vector);
    }
}

/// Back-substituting row `i` keeps the other rows' facts.
pub proof fn lemma_backsub_keep(p: Params, st: EquationRows, z1: Seq<u64>, z2: Seq<u64>, i: int)
    requires
        spec_words(p.r as int) >= 1,
        shaped(z1, spec_words(p.r as int), p.m as int),
        z2.len() == z1.len(),
        0 <= i < p.m,
        st.0.len() == p.m,
        st.0[i],
        forall|j: int| 0 <= j < p.m && j != i ==> #[trigger] row(z2, spec_words(p.r as int), j) == row(z1, spec_words(p.r as int), j),
        free_rows_filled(p, st.0, z1),
        rows_back_substituted(p, st, z1, i + 1),
        row(z2, spec_words(p.r as int), i) == xor_rows(
            row(st.3, spec_words(p.r as int), i),
            acc(z2, spec_words(p.r as int), upper_band(i, st.1[i], st.2[i]), p.m as int),
        ),
    ensures
        free_rows_filled(p, st.0, z2),
        rows_back_substituted(p, st, z2, i),
{
    let stride = spec_words(p.r as int);
    let m = p.m as int;
    assert forall|j: int| 0 <= j < m && !st.0[j] implies #[trigger] row(z2, stride, j) == fill_row(p, free_before(st.0, j)) by {
        assert(row(z1, stride, j) == fill_row(p, free_before(st.0, j)));
    }
    assert forall|j: int| i <= j < m && st.0[j] implies #[trigger] row(z2, stride, j) == xor_rows(
        row(st.3, stride, j),
        acc(z2, stride, upper_band(j, st.1[j], st.2[j]), m),
    ) by {
        if j > i {
            assert(row(z1, stride, j) == xor_rows(row(st.3, stride, j), acc(z1, stride, upper_band(j, st.1[j], st.2[j]), m)));
            assert forall|q: int| 0 <= q < m && #[trigger] upper_band(j, st.1[j], st.2[j])(q) implies row(z2, stride, q) == row(z1, stride, q) by {
                lemma_upper_above(j, st.1[j], st.2[j], q);
            }
            lemma_acc_frame(z2, z1, stride, upper_band(j, st.1[j], st.2[j]), m);
        }
    }
}

/// Two words that both satisfy `solution_of` for `st` agree on every row from `lo` up.
proof fn lemma_rows_agree_from(p: Params, st: EquationRows, z1: Seq<u64>, z2: Seq<u64>, lo: int)
    requires
        0 <= lo <= p.m,
        solution_of(p, st, z1),
        solution_of(p, st, z2),
    ensures
        forall|j: int| lo <= j < p.m ==> #[trigger] row(z1, spec_words(p.r as int), j) == row(z2, spec_words(p.r as int), j),
    decreases p.m - lo,
{
    let stride = spec_words(p.r as int);
    let m = p.m as int;
    if lo < m {
        lemma_rows_agree_from(p, st, z1, z2, lo + 1);
        if st.0[lo] {
            let ub = upper_band(lo, st.1[lo], st.2[lo]);
            assert forall|q: int| 0 <= q < m && #[trigger] ub(q) implies row(z1, stride, q) == row(z2, stride, q) by {
                lemma_upper_above(lo, st.1[lo], st.2[lo], q);
            }
            lemma_acc_frame(z1, z2, stride, ub, m);
            assert(row(z1, stride, lo) == xor_rows(row(st.3, stride, lo), acc(z1, stride, ub, m)));
            assert(row(z2, stride, lo) == xor_rows(row(st.3, stride, lo), acc(z2, stride, ub, m)));
        } else {
            assert(row(z1, stride, lo) == fill_row(p, free_before(st.0, lo)));
            assert(row(z2, stride, lo) == fill_row(p, free_before(st.0, lo)));
        }
    }
}

/// `solution_of` fixes the solution words: the stored rows of an elimination
/// have exactly one solution of that form.
pub proof fn lemma_solution_unique(p: Params, st: EquationRows, z1: Seq<u64>, z2: Seq<u64>)
    requires
        solution_of(p, st, z1),
        solution_of(p, st, z2),
    ensures
        z1 == z2,
{
    let stride = spec_words(p.r as int);
    let m = p.m as int;
    lemma_rows_agree_from(p, st, z1, z2, 0);
    assert forall|k: int| 0 <= k < z1.len() implies z1[k] == z2[k] by {
        let j = k / stride;
        let o = k % stride;
        assert(k == j * stride + o && 0 <= o < stride) by (nonlinear_arith)
            requires
                stride >= 1,
                j == k / stride,
                o == k % stride,
        ;
        assert(0 <= j < m) by (nonlinear_arith)
            requires
                stride >= 1,
                0 <= k < m * stride,
                k == j * stride + o,
                0 <= o < stride,
        ;
        lemma_row_len(z1, stride, m, j);
        assert(row(z1, stride, j)[o] == z1[k]);
        assert(row(z2, stride, j)[o] == z2[k]);
    }
    assert(z1 =~= z2);
}

/// Every stored row's equation holds in `z`.
pub open spec fn stored_ok(
    z: Seq<u64>,
    stride: int,
    m: int,
    occ: Seq<bool>,
    clo: Seq<u64>,
    chi: Seq<u64>,
    rhs: Seq<u64>,
) -> bool {
    forall|i: int|
        0 <= i < m && occ[i] ==> #[trigger] acc(z, stride, band(i, clo[i], chi[i]), m) == row(
            rhs,
            stride,
            i,
        )
}

/// Every solution of the stored rows also solves the equation `(start, lo:hi) = fp`.
pub open spec fn implied(
    stride: int,
    m: int,
    occ: Seq<bool>,
    clo: Seq<u64>,
    chi: Seq<u64>,
    rhs: Seq<u64>,
    start: int,
    lo: u64,
    hi: u64,
    fp: Seq<u64>,
) -> bool {
    forall|z: Seq<u64>|
        #![trigger stored_ok(z, stride, m, occ, clo, chi, rhs)]
        shaped(z, stride, m) && stored_ok(z, stride, m, occ, clo, chi, rhs) ==> acc(
            z,
            stride,
            band(start, lo, hi),
            m,
        ) == fp
}

/// Every solution of the stored rows solves the equation of `key` under `p`.
pub open spec fn key_implied(
    stride: int,
    m: int,
    occ: Seq<bool>,
    clo: Seq<u64>,
    chi: Seq<u64>,
    rhs: Seq<u64>,
    p: Params,
    key: Seq<char>,
) -> bool {
    let h = spec_hash_str(key);
    let e = spec_equation(h, p.seed, p);
    implied(
        stride,
        m,
        occ,
        clo,
        chi,
        rhs,
        e.start as int,
        e.coeff_lo,
        e.coeff_hi,
        spec_fingerprint(h, p.seed, p),
    )
}

/// The filter `build_once` makes for `keys` with `m` rows and seed `seed`: its
/// words are the one solution (see `lemma_solution_unique`) of the rows that
/// eliminating the keys' equations in order stores, and it answers yes for
/// every key.
pub open spec fn built_for(f: RibbonFilter, base: Params, m: usize, seed: u64, keys: Seq<String>) -> bool {
    &&& f.spec_params() == (Params { m, seed, ..base })
    &&& spec_eliminate(Params { m, seed, ..base }, keys, keys.len()) matches Some(st) && solution_of(
        Params { m, seed, ..base },
        st,
        f.spec_z(),
    )
    &&& f.wf()
    &&& forall|k: int| 0 <= k < keys.len() ==> #[trigger] f.spec_contains(keys[k]@)
    &&& forall|i: int|
        0 <= i < m ==> row_masked(
            #[trigger] row(f.spec_z(), spec_words(base.r as int), i),
            spec_last_word_mask(base.r as int),
        )
}

/// `f` is what attempt `t` of growth step `g` builds for `keys` under `p`.
pub open spec fn built_by_attempt(f: RibbonFilter, p: Params, keys: Seq<String>, g: nat, t: nat) -> bool {
    &&& g <= p.grow_limit
    &&& t < p.retry_limit
    &&& built_for(
        f,
        p,
        spec_grown_m(p.m as int, p.w as int, g) as usize,
        spec_attempt_seed(p.seed, ((g as u64) << 32u64) | (t as u64)),
        keys,
    )
}

/// Every attempt that `build` makes under `p` before attempt `t` of growth step
/// `g` has no solution for `keys`.
pub open spec fn earlier_unsolvable(p: Params, keys: Seq<String>, g: nat, t: nat) -> bool {
    forall|g2: nat, t2: nat|
        (g2 < g && t2 < p.retry_limit) || (g2 == g && t2 < t) ==> unsolvable(
            #[trigger] attempt_params(p, g2, t2),
            keys,
            keys.len() as int,
        )
}

/// `f` is what `build` makes for `keys` under `p`: the filter of the first
/// attempt, in the order `build` makes them, whose equations have a solution.
pub open spec fn built_by_first_solvable_attempt(f: RibbonFilter, p: Params, keys: Seq<String>) -> bool {
    exists|g: nat, t: nat| #[trigger] built_by_attempt(f, p, keys, g, t) && earlier_unsolvable(p, keys, g, t)
}

/// Solutions of the rows after storing a new row also solve the rows before.
pub proof fn lemma_store_mono(
    stride: int,
    m: int,
    occ: Seq<bool>,
    clo: Seq<u64>,
    chi: Seq<u64>,
    rhs: Seq<u64>,
    i: int,
    lo: u64,
    hi: u64,
    rhs2: Seq<u64>,
)
    requires
        stride >= 1,
        0 <= i < m,
        occ.len() == m,
        clo.len() == m,
        chi.len() == m,
        !occ[i],
        shaped(rhs, stride, m),
        rhs2.len() == rhs.len(),
        forall|k: int|
            0 <= k < rhs.len() && (k < i * stride || k >= i * stride + stride) ==> rhs2[k] == rhs[k],
    ensures
        forall|z: Seq<u64>|
            #![trigger stored_ok(z, stride, m, occ.update(i, true), clo.update(i, lo), chi.update(i, hi), rhs2)]
            stored_ok(z, stride, m, occ.update(i, true), clo.update(i, lo), chi.update(i, hi), rhs2)
                ==> stored_ok(z, stride, m, occ, clo, chi, rhs),
{
    lemma_other_rows(rhs, rhs2, stride, m, i);
    assert forall|z: Seq<u64>|
        #![trigger stored_ok(z, stride, m, occ.update(i, true), clo.update(i, lo), chi.update(i, hi), rhs2)]
        stored_ok(z, stride, m, occ.update(i, true), clo.update(i, lo), chi.update(i, hi), rhs2)
            implies stored_ok(z, stride, m, occ, clo, chi, rhs) by {
        assert forall|j: int| 0 <= j < m && occ[j] implies #[trigger] acc(
            z,
            stride,
            band(j, clo[j], chi[j]),
            m,
        ) == row(rhs, stride, j) by {
            assert(j != i);
            assert(occ.update(i, true)[j]);
            assert(clo.update(i, lo)[j] == clo[j]);
            assert(chi.update(i, hi)[j] == chi[j]);
            assert(acc(z, stride, band(j, clo.update(i, lo)[j], chi.update(i, hi)[j]), m) == row(
                rhs2,
                stride,
                j,
            ));
        }
    }
}

/// Whether every word of `b` is zero.
fn all_zero(b: &Vec<u64>) -> (res: bool)
    ensures
        res == (b@ == zero_row(b@.len() as int)),
{
    let n = b.len();
    let mut t: usize = 0;
    while t < n
        invariant
            n == b@.len(),
            t <= n,
            forall|q: int| 0 <= q < t ==> b@[q] == 0u64,
        decreases n - t,
    {
        if b[t] != 0 {
            assert(b@[t as int] != zero_row(n as int)[t as int]);
            return false;
        }
        t = t + 1;
    }
    assert(b@ =~= zero_row(n as int));
    true
}

/// The solution words before back-substitution: every free row holds its fill
/// (see `fill_row`) and every taken row is zero.
fn fill_free_rows(occupied: &Vec<bool>, built: &Params, stride: usize, mask: u64) -> (z: Vec<u64>)
    requires
        stride == spec_words(built.r as int),
        stride >= 1,
        mask == spec_last_word_mask(built.r as int),
        occupied@.len() == built.m,
        built.m * stride <= usize::MAX,
    ensures
        shaped(z@, stride as int, built.m as int),
        forall|i: int| 0 <= i < built.m ==> row_masked(#[trigger] row(z@, stride as int, i), mask),
        free_rows_filled(*built, occupied@, z@),
{
    let m = occupied.len();
    let total = m * stride;
    let ghost occ = occupied@;
    let mut z: Vec<u64> = vec![0u64; total];
    proof {
        assert forall|i: int| 0 <= i < m implies row_masked(#[trigger] row(z@, stride as int, i), mask) by {
            lemma_row_len(z@, stride as int, m as int, i);
            assert(row(z@, stride as int, i)[stride - 1] == 0u64);
            assert(0u64 & mask == 0u64) by (bit_vector);
        }
    }
    if matches!(built.mode, Mode::Homogeneous) {
        let mut rng = SplitMix64::new(built.seed ^ 0xD1B5_4A32_D192_ED03);
        let ghost sn = fill_seed(*built);
        proof {
            assert(free_before(occ, 0) == 0);
            assert(spec_sm_state(sn, 0) == sn);
        }
        let mut i: usize = 0;
        while i < m
            invariant
                i <= m,
                stride >= 1,
                stride == spec_words(built.r as int),
                mask == spec_last_word_mask(built.r as int),
                built.m == m,
                built.mode == Mode::Homogeneous,
                sn == fill_seed(*built),
                total == m * stride,
                occupied@ == occ,
                occ.len() == m,
                shaped(z@, stride as int, m as int),
                forall|i: int| 0 <= i < m ==> row_masked(#[trigger] row(z@, stride as int, i), mask),
                rng.state == spec_sm_state(sn, (free_before(occ, i as int) * stride) as nat),
                forall|j: int|
                    0 <= j < i && !occ[j] ==> #[trigger] row(z@, stride as int, j) == fill_row(
                        *built,
                        free_before(occ, j),
                    ),
            decreases m - i,
        {
            let ghost c = free_before(occ, i as int);
            proof {
                assert(free_before(occ, i + 1) == c + if occ[i as int] {
                    0nat
                } else {
                    1nat
                });
            }
            if !occupied[i] {
                proof {
                    lemma_row_len(z@, stride as int, m as int, i as int);
                    assert((i + 1) * stride == i * stride + stride) by (nonlinear_arith);
                    assert(c * stride >= 0) by (nonlinear_arith)
                        requires
                            c >= 0,
                            stride >= 1,
                    ;
                }
                let ghost base: nat = (c * stride) as nat;
                let mut noise: Vec<u64> = Vec::new();
                let mut t: usize = 0;
                while t < stride
                    invariant
                        t <= stride,
                        noise@.len() == t,
                        rng.state == spec_sm_state(sn, (base + t) as nat),
                        forall|q: int| 0 <= q < t ==> #[trigger] noise@[q] == spec_stream_word(sn, (base + q) as nat),
                    decreases stride - t,
                {
                    proof {
                        lemma_sm_step(sn, (base + t) as nat);
                    }
                    let word = rng.next_u64();
                    noise.push(word);
                    t = t + 1;
                }
                let raw_last = noise[stride - 1];
                let last = raw_last & mask;
                noise.set(stride - 1, last);
                proof {
                    assert forall|q: int| 0 <= q < stride implies #[trigger] noise@[q] == fill_row(*built, c)[q] by {
                        assert((c * stride + q) as nat == (base + q) as nat);
                    }
                    assert(noise@ =~= fill_row(*built, c));
                }
                let ghost z_prev = z@;
                set_row(&mut z, stride, i, noise.as_slice());
                proof {
                    assert((raw_last & mask) & mask == raw_last & mask) by (bit_vector);
                    assert(row(z@, stride as int, i as int) == noise@);
                    lemma_other_rows(z_prev, z@, stride as int, m as int, i as int);
                    assert forall|j: int| 0 <= j < m implies row_masked(#[trigger] row(z@, stride as int, j), mask) by {
                        if j != i {
                            assert(row(z@, stride as int, j) == row(z_prev, stride as int, j));
                        }
                    }
                    assert((c + 1) * stride == c * stride + stride) by (nonlinear_arith);
                    assert forall|j: int|
                        0 <= j < i + 1 && !occ[j] implies #[trigger] row(z@, stride as int, j) == fill_row(
                            *built,
                            free_before(occ, j),
                        ) by {
                        if j != i {
                            assert(row(z@, stride as int, j) == row(z_prev, stride as int, j));
                        }
                    }
                }
            }
            i = i + 1;
        }
    } else {
        proof {
            assert forall|j: int| 0 <= j < m && !occ[j] implies #[trigger] row(z@, stride as int, j) == fill_row(
                *built,
                free_before(occ, j),
            ) by {
                lemma_row_len(z@, stride as int, m as int, j);
                assert(row(z@, stride as int, j) =~= zero_row(stride as int));
            }
        }
    }
    proof {
        assert(free_rows_filled(*built, occ, z@));
    }
    z
}

/// Back-substitution: each taken row of `z`, from the last one up, becomes its
/// stored right-hand side plus the rows its equation touches above it.
fn back_substitute(
    z: &mut Vec<u64>,
    occupied: &Vec<bool>,
    coeff_lo: &Vec<u64>,
    coeff_hi: &Vec<u64>,
    rhs: &Vec<u64>,
    built: &Params,
    stride: usize,
    mask: u64,
) -> (res: Result<(), ConstructionFailure>)
    requires
        stride == spec_words(built.r as int),
        stride >= 1,
        mask == spec_last_word_mask(built.r as int),
        occupied@.len() == built.m,
        coeff_lo@.len() == built.m,
        coeff_hi@.len() == built.m,
        built.m + 128 <= usize::MAX,
        built.m * stride <= usize::MAX,
        shaped(rhs@, stride as int, built.m as int),
        shaped(old(z)@, stride as int, built.m as int),
        forall|i: int| 0 <= i < built.m && #[trigger] occupied@[i] ==> coeff_lo@[i] & 1u64 == 1u64,
        forall|i: int| 0 <= i < built.m ==> row_masked(#[trigger] row(rhs@, stride as int, i), mask),
        forall|i: int| 0 <= i < built.m ==> row_masked(#[trigger] row(old(z)@, stride as int, i), mask),
        forall|j: int|
            0 <= j < built.m && #[trigger] occupied@[j] ==> band_within(j, coeff_lo@[j], coeff_hi@[j], built.m as int),
        free_rows_filled(*built, occupied@, old(z)@),
    ensures
        res is Ok,
        shaped(final(z)@, stride as int, built.m as int),
        forall|i: int| 0 <= i < built.m ==> row_masked(#[trigger] row(final(z)@, stride as int, i), mask),
        stored_ok(final(z)@, stride as int, built.m as int, occupied@, coeff_lo@, coeff_hi@, rhs@),
        solution_of(*built, (occupied@, coeff_lo@, coeff_hi@, rhs@), final(z)@),
{
    let m = occupied.len();
    let ghost occ = occupied@;
    let ghost clo = coeff_lo@;
    let ghost chi = coeff_hi@;
    let ghost rh = rhs@;
    let mut ii: usize = m;
    while ii > 0
        invariant
            ii <= m,
            m + 128 <= usize::MAX,
            m * stride <= usize::MAX,
            stride >= 1,
            stride == spec_words(built.r as int),
            mask == spec_last_word_mask(built.r as int),
            built.m == m,
            occupied@ == occ,
            coeff_lo@ == clo,
            coeff_hi@ == chi,
            rhs@ == rh,
            free_rows_filled(*built, occ, z@),
            rows_back_substituted(*built, (occ, clo, chi, rh), z@, ii as int),
            occ.len() == m,
            clo.len() == m,
            chi.len() == m,
            shaped(rh, stride as int, m as int),
            shaped(z@, stride as int, m as int),
            forall|i: int| 0 <= i < m && #[trigger] occ[i] ==> clo[i] & 1u64 == 1u64,
            forall|i: int| 0 <= i < m ==> row_masked(#[trigger] row(rh, stride as int, i), mask),
            forall|i: int| 0 <= i < m ==> row_masked(#[trigger] row(z@, stride as int, i), mask),
            forall|j: int|
                ii <= j < m && #[trigger] occ[j] ==> acc(z@, stride as int, band(j, clo[j], chi[j]), m as int)
                    == row(rh, stride as int, j),
            forall|j: int| 0 <= j < m && #[trigger] occ[j] ==> band_within(j, clo[j], chi[j], m as int),
        decreases ii,
    {
        ii = ii - 1;
        let i = ii;
        if !occupied[i] {
            proof {
                assert forall|j: int|
                    i <= j < m && occ[j] implies #[trigger] row(z@, stride as int, j) == xor_rows(
                        row(rh, stride as int, j),
                        acc(z@, stride as int, upper_band(j, clo[j], chi[j]), m as int),
                    ) by {
                    assert(j != i);
                }
            }
            continue;
        }
        let ghost z_before = z@;
        proof {
            lemma_row_len(rh, stride as int, m as int, i as int);
            assert((i + 1) * stride == i * stride + stride) by (nonlinear_arith);
        }
        let row_start = i * stride;
        let row_end = row_start + stride;
        set_row(z, stride, i, &rhs[row_start..row_end]);
        let ghost z0 = z@;
        proof {
            assert(rhs@.subrange(row_start as int, row_end as int) == row(rh, stride as int, i as int));
            lemma_other_rows(z_before, z0, stride as int, m as int, i as int);
        }
        let upper_lo = coeff_lo[i] & !1u64;
        let upper_hi = coeff_hi[i];
        let ghost ub = band(i as int, upper_lo, upper_hi);
        proof {
            assert forall|p: int| 0 <= p < i + 1 implies !#[trigger] ub(p) by {
                if p == i {
                    let x = coeff_lo[i as int];
                    assert(((x & !1u64) >> 0u64) & 1u64 == 0u64) by (bit_vector);
                }
            }
            lemma_acc_empty(z0, stride as int, ub, i as int + 1);
            lemma_xor_zero(row(rh, stride as int, i as int));
        }
        let mut j: usize = 1;
        while j < 128
            invariant
                1 <= j <= 128,
                i < m,
                m + 128 <= usize::MAX,
                stride >= 1,
                shaped(z0, stride as int, m as int),
                z@.len() == z0.len(),
                ub == band(i as int, upper_lo, upper_hi),
                upper_lo == clo[i as int] & !1u64,
                upper_hi == chi[i as int],
                band_within(i as int, clo[i as int], chi[i as int], m as int),
                forall|p: int| 0 <= p < m && p != i ==> #[trigger] row(z@, stride as int, p) == row(z0, stride as int, p),
                forall|k: int| 0 <= k < z0.len() && (k < i * stride || k >= i * stride + stride) ==> z@[k] == z0[k],
                row(z@, stride as int, i as int) == xor_rows(
                    row(rh, stride as int, i as int),
                    acc(z0, stride as int, ub, if i + j <= m { i + j } else { m as int }),
                ),
            decreases 128 - j,
        {
            let bit = if j < 64 {
                (upper_lo >> (j as u64)) & 1 == 1
            } else {
                (upper_hi >> ((j - 64) as u64)) & 1 == 1
            };
            assert(bit == ub((i + j) as int));
            if bit {
                proof {
                    lemma_upper_touched(i as int, clo[i as int], chi[i as int], i + j);
                    lemma_within_touched(i as int, clo[i as int], chi[i as int], m as int, i + j);
                }
                if j >= m - i {
                    return Err(ConstructionFailure::OutOfBounds { key_index: None, row_index: i + j, m });
                }
                let p = i + j;
                let ghost zb = z@;
                proof {
                    lemma_row_len(z0, stride as int, m as int, p as int);
                    lemma_row_len(z0, stride as int, m as int, i as int);
                    assert((p + 1) * stride == p * stride + stride) by (nonlinear_arith);
                    assert((i + 1) * stride == i * stride + stride) by (nonlinear_arith);
                }
                xor_row_within(z, stride, i, p);
                proof {
                    lemma_other_rows(zb, z@, stride as int, m as int, i as int);
                    let a = acc(z0, stride as int, ub, p as int);
                    let rr = row(z0, stride as int, p as int);
                    lemma_acc_len(z0, stride as int, m as int, ub, p as int);
                    lemma_xor_assoc(row(rh, stride as int, i as int), a, rr);
                }
            }
            j = j + 1;
        }
        proof {
            let n = if i + 128 <= m { i + 128 } else { m as int };
            assert forall|p: int| n <= p < m implies !#[trigger] ub(p) by {}
            lemma_acc_skip(z0, stride as int, ub, n, m as int);
            // the rows selected by `ub` lie above `i` and are unchanged
            assert forall|p: int| 0 <= p < m && #[trigger] ub(p) implies row(z@, stride as int, p) == row(z0, stride as int, p) by {
                if p == i {
                    let x = coeff_lo[i as int];
                    assert(((x & !1u64) >> 0u64) & 1u64 == 0u64) by (bit_vector);
                }
            }
            lemma_acc_frame(z@, z0, stride as int, ub, m as int);
            let x_acc = acc(z@, stride as int, ub, m as int);
            let single = |p: int| p == i as int;
            let full = band(i as int, clo[i as int], chi[i as int]);
            assert forall|p: int| 0 <= p < m implies #[trigger] full(p) == sel_xor(ub, single)(p) by {
                let jj = p - i;
                let x = clo[i as int];
                if jj == 0 {
                    assert(x & 1u64 == 1u64);
                    assert((x >> 0u64) & 1u64 == x & 1u64) by (bit_vector);
                    assert(((x & !1u64) >> 0u64) & 1u64 == 0u64) by (bit_vector);
                } else if 0 < jj < 64 {
                    let s = jj as u64;
                    assert(0 < s < 64 ==> ((x & !1u64) >> s) & 1u64 == (x >> s) & 1u64) by (bit_vector);
                }
            }
            lemma_acc_ext(z@, stride as int, full, sel_xor(ub, single), m as int);
            lemma_acc_linear(z@, stride as int, m as int, ub, single, m as int);
            lemma_acc_single(z@, stride as int, m as int, i as int);
            lemma_acc_len(z@, stride as int, m as int, ub, m as int);
            lemma_row_len(rh, stride as int, m as int, i as int);
            // full = X ^ (rhs_i ^ X) = rhs_i
            lemma_xor_comm(row(rh, stride as int, i as int), x_acc);
            lemma_xor_assoc(x_acc, x_acc, row(rh, stride as int, i as int));
            lemma_xor_self(x_acc);
            lemma_xor_zero(row(rh, stride as int, i as int));
        }
        assert(row(z@, stride as int, i as int) == xor_rows(row(rh, stride as int, i as int), acc(z@, stride as int, ub, m as int)));
        // masking the last word leaves it unchanged: the row is already masked
        let ghost z_pre_mask = z@;
        proof {
            let n = if i + 128 <= m { i + 128 } else { m as int };
            assert forall|p: int| 0 <= p < m implies row_masked(#[trigger] row(z0, stride as int, p), mask) by {
                if p != i {
                    assert(row(z0, stride as int, p) == row(z_before, stride as int, p));
                }
            }
            lemma_acc_masked(z0, stride as int, m as int, mask, ub, n);
            lemma_acc_len(z0, stride as int, m as int, ub, n);
            lemma_xor_masked(row(rh, stride as int, i as int), acc(z0, stride as int, ub, n), mask);
            assert(row(z@, stride as int, i as int)[stride - 1] == z@[row_end - 1]);
        }
        let last = z[row_end - 1] & mask;
        z.set(row_end - 1, last);
        assert(z@ =~= z_pre_mask);
        proof {
            assert(ub == upper_band(i as int, clo[i as int], chi[i as int]));
            lemma_backsub_keep(*built, (occ, clo, chi, rh), z_before, z@, i as int);
            lemma_other_rows(z_before, z@, stride as int, m as int, i as int);
            assert forall|j: int|
                ii <= j < m && #[trigger] occ[j] implies acc(z@, stride as int, band(j, clo[j], chi[j]), m as int)
                    == row(rh, stride as int, j) by {
                if j != i {
                    assert forall|p: int| 0 <= p < m && #[trigger] band(j, clo[j], chi[j])(p) implies row(z@, stride as int, p) == row(z_before, stride as int, p) by {
                        if p == i {
                            assert(!band(j, clo[j], chi[j])(p));
                        }
                    }
                    lemma_acc_frame(z@, z_before, stride as int, band(j, clo[j], chi[j]), m as int);
                }
            }
            assert forall|j: int| 0 <= j < m implies row_masked(#[trigger] row(z@, stride as int, j), mask) by {
                if j != i {
                    assert(row(z@, stride as int, j) == row(z_before, stride as int, j));
                }
            }
        }
    }
    Ok(())
}

impl RibbonBuilder {
    /// One construction attempt with `m` rows and seed `seed`.
    #[verifier::rlimit(100)]
    fn build_once(&self, keys: &[String], m: usize, seed: u64) -> (res: Result<
        RibbonFilter,
        ConstructionFailure,
    >)
        requires
            spec_valid(self.spec_params()),
            self.spec_params().w <= m,
            m * spec_words(self.spec_params().r as int) * 64 <= max_bits(),
        ensures
            res matches Ok(f) ==> built_for(f, self.spec_params(), m, seed, keys@),
            res matches Err(ConstructionFailure::InconsistentEquation { key_index, .. }) ==> key_index
                < keys@.len() && unsolvable(Params { m, seed, ..self.spec_params() }, keys@, key_index + 1),
            !(res matches Err(ConstructionFailure::OutOfBounds { .. })),
    {
        let stride = self.params.fingerprint_words();
        let fp_last_mask = self.params.fingerprint_last_word_mask();
        let built = Params { m, seed, ..self.params };
        let ghost mask = fp_last_mask;
        proof {
            assert(stride >= 1);
            assert(m * stride <= m * stride * 64) by (nonlinear_arith)
                requires
                    m * stride >= 0,
            ;
            assert(m * stride >= 0) by (nonlinear_arith)
                requires
                    m >= 0,
                    stride >= 0,
            ;
        }
        assert(m + 128 <= usize::MAX) by (nonlinear_arith)
            requires
                m * stride * 64 <= usize::MAX as int / 8,
                stride >= 1,
                m >= 0,
        ;
        let total = m * stride;
        let mut occupied: Vec<bool> = vec![false; m];
        let mut coeff_lo: Vec<u64> = vec![0u64; m];
        let mut coeff_hi: Vec<u64> = vec![0u64; m];
        let mut rhs: Vec<u64> = vec![0u64; total];
        let mut key_fp: Vec<u64> = vec![0u64; stride];
        proof {
            assert forall|i: int| 0 <= i < m implies row_masked(#[trigger] row(rhs@, stride as int, i), mask) by {
                lemma_row_len(rhs@, stride as int, m as int, i);
                assert(row(rhs@, stride as int, i)[stride - 1] == 0u64);
                assert(0u64 & mask == 0u64) by (bit_vector);
            }
        }
        proof {
            lemma_implied_empty(built, keys@, stride as int, m as int, occupied@, coeff_lo@, coeff_hi@, rhs@);
        }
        let n_keys = keys.len();
        let mut key_index: usize = 0;
        while key_index < n_keys
            invariant
                n_keys == keys@.len(),
                key_index <= n_keys,
                stride == spec_words(self.params.r as int),
                stride >= 1,
                mask == spec_last_word_mask(self.params.r as int),
                fp_last_mask == mask,
                built == (Params { m, seed, ..self.params }),
                spec_valid(self.params),
                self.params.w <= m,
                m * stride * 64 <= max_bits(),
                m + 128 <= usize::MAX,
                total == m * stride,
                occupied@.len() == m,
                coeff_lo@.len() == m,
                coeff_hi@.len() == m,
                shaped(rhs@, stride as int, m as int),
                key_fp@.len() == stride,
                forall|i: int| 0 <= i < m && #[trigger] occupied@[i] ==> coeff_lo@[i] & 1u64 == 1u64,
                forall|i: int| 0 <= i < m ==> row_masked(#[trigger] row(rhs@, stride as int, i), mask),
                forall|k: int|
                    0 <= k < key_index ==> #[trigger] key_implied(
                        stride as int,
                        m as int,
                        occupied@,
                        coeff_lo@,
                        coeff_hi@,
                        rhs@,
                        built,
                        keys@[k]@,
                    ),
                implied_by_keys(built, keys@, key_index as int, stride as int, m as int, occupied@, coeff_lo@, coeff_hi@, rhs@),
                spec_eliminate(built, keys@, key_index as nat) == Some((occupied@, coeff_lo@, coeff_hi@, rhs@)),
                forall|j: int|
                    0 <= j < m && #[trigger] occupied@[j] ==> band_within(j, coeff_lo@[j], coeff_hi@[j], m as int),
            decreases n_keys - key_index,
        {
            let equation = standard_equation_w64(keys[key_index].as_str(), seed, &built, &mut key_fp);
            let ghost h = spec_hash_str(keys@[key_index as int]@);
            let ghost kstart = equation.start as int;
            let ghost klo = equation.coeff_lo;
            let ghost khi = equation.coeff_hi;
            let ghost fp = key_fp@;
            let ghost occ0 = occupied@;
            let ghost clo0 = coeff_lo@;
            let ghost chi0 = coeff_hi@;
            let ghost rhs0 = rhs@;
            proof {
                lemma_equation_within(h, seed, built);
                assert(key_equation_is(built, keys@, key_index as int, kstart, klo, khi, fp));
            }
            let mut i = equation.start;
            let mut c_lo = equation.coeff_lo;
            let mut c_hi = equation.coeff_hi;
            let mut b = key_fp.clone();
            if i >= m {
                return Err(ConstructionFailure::OutOfBounds { key_index: Some(key_index), row_index: i, m });
            }
            proof {
                let wlast = fp[stride - 1];
                if matches!(self.params.mode, Mode::Homogeneous) {
                    assert(fp[stride - 1] == 0u64);
                    assert(0u64 & mask == 0u64) by (bit_vector);
                } else {
                    let raw = spec_fingerprint(h, seed, built);
                    let x = super::hashing::spec_stream_word(super::hashing::spec_stream_seed(h, seed), (1 + super::hashing::spec_coeff_words(built) + stride - 1) as nat);
                    assert(wlast == x & mask);
                    assert((x & mask) & mask == x & mask) by (bit_vector);
                }
                assert(b@ == fp);
                assert(equation.coeff_lo & 1u64 == 1u64) by {
                    let x = equation.coeff_lo;
                    if built.w <= 64 {
                        let y = super::hashing::spec_stream_word(super::hashing::spec_stream_seed(h, seed), 1) & super::hashing::spec_low_mask(built.w as int);
                        assert(x == y | 1u64);
                        assert((y | 1u64) & 1u64 == 1u64) by (bit_vector);
                    } else {
                        let y = super::hashing::spec_stream_word(super::hashing::spec_stream_seed(h, seed), 1);
                        assert(x == y | 1u64);
                        assert((y | 1u64) & 1u64 == 1u64) by (bit_vector);
                    }
                }
            }
            assert(reduces_to(
                stride as int,
                m as int,
                occupied@,
                coeff_lo@,
                coeff_hi@,
                rhs@,
                kstart,
                klo,
                khi,
                fp,
                i as int,
                c_lo,
                c_hi,
                b@,
            )) by {
                reveal(reduces_to);
            }
            loop
                invariant_except_break
                    i < m,
                    band_within(i as int, c_lo, c_hi, m as int),
                    implied_by_keys(built, keys@, key_index as int, stride as int, m as int, occupied@, coeff_lo@, coeff_hi@, rhs@),
                    spec_reduce(stride as int, m as int, (occ0, clo0, chi0, rhs0), i as int, c_lo, c_hi, b@) == spec_reduce(
                        stride as int,
                        m as int,
                        (occ0, clo0, chi0, rhs0),
                        kstart,
                        klo,
                        khi,
                        fp,
                    ),
                    b@.len() == stride,
                    row_masked(b@, mask),
                    c_lo & 1u64 == 1u64,
                    occupied@ == occ0,
                    coeff_lo@ == clo0,
                    coeff_hi@ == chi0,
                    rhs@ == rhs0,
                    reduces_to(
                        stride as int,
                        m as int,
                        occ0,
                        clo0,
                        chi0,
                        rhs0,
                        kstart,
                        klo,
                        khi,
                        fp,
                        i as int,
                        c_lo,
                        c_hi,
                        b@,
                    ),
                invariant
                    n_keys == keys@.len(),
                    key_index < n_keys,
                    key_equation_is(built, keys@, key_index as int, kstart, klo, khi, fp),
                    spec_eliminate(built, keys@, key_index as nat) == Some((occ0, clo0, chi0, rhs0)),
                    stride == spec_words(self.params.r as int),
                    stride >= 1,
                    mask == spec_last_word_mask(self.params.r as int),
                    fp_last_mask == mask,
                    built == (Params { m, seed, ..self.params }),
                    spec_valid(self.params),
                    self.params.w <= m,
                    m * stride * 64 <= max_bits(),
                    m + 128 <= usize::MAX,
                    total == m * stride,
                    occupied@.len() == m,
                    coeff_lo@.len() == m,
                    coeff_hi@.len() == m,
                    shaped(rhs@, stride as int, m as int),
                    key_fp@.len() == stride,
                    forall|i: int| 0 <= i < m && #[trigger] occupied@[i] ==> coeff_lo@[i] & 1u64 == 1u64,
                    forall|i: int| 0 <= i < m ==> row_masked(#[trigger] row(rhs@, stride as int, i), mask),
                    forall|k: int|
                        0 <= k < key_index ==> #[trigger] key_implied(
                            stride as int,
                            m as int,
                            occupied@,
                            coeff_lo@,
                            coeff_hi@,
                            rhs@,
                            built,
                            keys@[k]@,
                        ),
                    forall|j: int|
                        0 <= j < m && #[trigger] occupied@[j] ==> band_within(j, coeff_lo@[j], coeff_hi@[j], m as int),
                ensures
                    implied(stride as int, m as int, occupied@, coeff_lo@, coeff_hi@, rhs@, kstart, klo, khi, fp),
                    implied_by_keys(built, keys@, key_index + 1, stride as int, m as int, occupied@, coeff_lo@, coeff_hi@, rhs@),
                    spec_eliminate(built, keys@, (key_index + 1) as nat) == Some((occupied@, coeff_lo@, coeff_hi@, rhs@)),
                decreases m - i,
            {
                if !occupied[i] {
                    let ghost old_occ = occupied@;
                    let ghost old_lo = coeff_lo@;
                    let ghost old_hi = coeff_hi@;
                    let ghost old_rhs = rhs@;
                    occupied.set(i, true);
                    coeff_lo.set(i, c_lo);
                    coeff_hi.set(i, c_hi);
                    proof {
                        lemma_row_len(rhs@, stride as int, m as int, i as int);
                        assert((i + 1) * stride == i * stride + stride) by (nonlinear_arith);
                    }
                    set_row(&mut rhs, stride, i, b.as_slice());
                    proof {
                        assert(occupied@ == old_occ.update(i as int, true));
                        assert(coeff_lo@ == old_lo.update(i as int, c_lo));
                        assert(coeff_hi@ == old_hi.update(i as int, c_hi));
                        lemma_store_step(
                            built,
                            keys@,
                            key_index as int,
                            stride as int,
                            m as int,
                            mask,
                            old_occ,
                            old_lo,
                            old_hi,
                            old_rhs,
                            i as int,
                            c_lo,
                            c_hi,
                            rhs@,
                            b@,
                            kstart,
                            klo,
                            khi,
                            fp,
                        );
                        lemma_reduce_free(stride as int, m as int, (occ0, clo0, chi0, rhs0), i as int, c_lo, c_hi, b@);
                        lemma_set_row_is(old_rhs, rhs@, stride as int, i as int, b@);
                        lemma_eliminate_step(built, keys@, key_index as nat, (occ0, clo0, chi0, rhs0), Reduction::Stored(i as int, c_lo, c_hi, b@));
                    }
                    break;
                }
                let ci_lo = coeff_lo[i];
                let ci_hi = coeff_hi[i];
                let ghost old_b = b@;
                let ghost pre_xor_i = i as int;
                let ghost old_lo = c_lo;
                let ghost old_hi = c_hi;
                c_lo = c_lo ^ ci_lo;
                c_hi = c_hi ^ ci_hi;
                proof {
                    lemma_row_len(rhs@, stride as int, m as int, i as int);
                    assert((i + 1) * stride == i * stride + stride) by (nonlinear_arith);
                }
                xor_words_from_row(&mut b, rhs.as_slice(), stride, i);
                proof {
                    let ri = row(rhs0, stride as int, i as int);
                    assert(b@ == xor_rows(old_b, ri));
                    lemma_xor_masked(old_b, ri, mask);
                    assert(reduces_to(stride as int, m as int, occ0, clo0, chi0, rhs0, kstart, klo, khi, fp, i as int, c_lo, c_hi, b@)) by {
                        reveal(reduces_to);
                        assert forall|z: Seq<u64>|
                            #![trigger stored_ok(z, stride as int, m as int, occ0, clo0, chi0, rhs0)]
                            shaped(z, stride as int, m as int) && stored_ok(z, stride as int, m as int, occ0, clo0, chi0, rhs0)
                            implies ((acc(z, stride as int, band(kstart, klo, khi), m as int) == fp) == (acc(
                                z,
                                stride as int,
                                band(i as int, c_lo, c_hi),
                                m as int,
                            ) == b@)) by {
                            assert(acc(z, stride as int, band(i as int, clo0[i as int], chi0[i as int]), m as int) == ri);
                            lemma_xor_step(z, stride as int, m as int, i as int, old_lo, old_hi, ci_lo, ci_hi, ri, old_b);
                        }
                    }
                    let (x, y) = (old_lo, ci_lo);
                    assert((x & 1u64 == 1u64 && y & 1u64 == 1u64) ==> (x ^ y) & 1u64 == 0u64) by (bit_vector);
                    assert(occupied@[i as int]);
                    lemma_within_xor(i as int, old_lo, old_hi, ci_lo, ci_hi, m as int);
                }
                if c_lo == 0 && c_hi == 0 {
                    if all_zero(&b) {
                        proof {
                            assert(implied(stride as int, m as int, occupied@, coeff_lo@, coeff_hi@, rhs@, kstart, klo, khi, fp)) by {
                                reveal(reduces_to);
                                assert forall|z: Seq<u64>|
                                    #![trigger stored_ok(z, stride as int, m as int, occupied@, coeff_lo@, coeff_hi@, rhs@)]
                                    shaped(z, stride as int, m as int) && stored_ok(z, stride as int, m as int, occupied@, coeff_lo@, coeff_hi@, rhs@)
                                    implies acc(z, stride as int, band(kstart, klo, khi), m as int) == fp by {
                                    assert forall|p: int| 0 <= p < m implies !#[trigger] band(i as int, c_lo, c_hi)(p) by {
                                        lemma_band_zero(i as int, p);
                                    }
                                    lemma_acc_empty(z, stride as int, band(i as int, c_lo, c_hi), m as int);
                                }
                            }
                            lemma_implied_more(
                                built,
                                keys@,
                                key_index as int,
                                stride as int,
                                m as int,
                                occupied@,
                                coeff_lo@,
                                coeff_hi@,
                                rhs@,
                            );
                            lemma_reduce_zero(stride as int, m as int, (occ0, clo0, chi0, rhs0), pre_xor_i, old_lo, old_hi, old_b);
                            lemma_eliminate_step(built, keys@, key_index as nat, (occ0, clo0, chi0, rhs0), Reduction::Redundant);
                        }
                        break;
                    }
                    proof {
                        lemma_reduce_zero(stride as int, m as int, (occ0, clo0, chi0, rhs0), pre_xor_i, old_lo, old_hi, old_b);
                        lemma_eliminate_step(built, keys@, key_index as nat, (occ0, clo0, chi0, rhs0), Reduction::Inconsistent);
                        lemma_inconsistent(
                            built,
                            keys@,
                            key_index as int,
                            stride as int,
                            m as int,
                            occ0,
                            clo0,
                            chi0,
                            rhs0,
                            i as int,
                            kstart,
                            klo,
                            khi,
                            fp,
                            b@,
                        );
                    }
                    return Err(ConstructionFailure::InconsistentEquation { key_index, row_index: i });
                }
                proof {
                    axiom_u64_trailing_zeros(c_lo);
                    axiom_u64_trailing_zeros(c_hi);
                }
                let shift: usize = if c_lo != 0 {
                    c_lo.trailing_zeros() as usize
                } else {
                    64 + c_hi.trailing_zeros() as usize
                };
                assert(shift >= 1 && shift < 128) by {
                    if c_lo != 0 {
                        if shift == 0 {
                            assert((c_lo >> 0u64) & 1u64 == 1u64);
                            assert(c_lo >> 0u64 == c_lo) by (bit_vector);
                        }
                    }
                }
                let ghost pre_i = i;
                let ghost pre_lo = c_lo;
                let ghost pre_hi = c_hi;
                proof {
                    lemma_lead_touched(i as int, c_lo, c_hi, shift as int);
                    lemma_within_touched(i as int, c_lo, c_hi, m as int, i + shift);
                }
                i = i + shift;
                if i >= m {
                    return Err(ConstructionFailure::OutOfBounds { key_index: Some(key_index), row_index: i, m });
                }
                if shift >= 64 {
                    c_lo = c_hi >> ((shift - 64) as u64);
                    c_hi = 0;
                } else if shift > 0 {
                    c_lo = (c_lo >> (shift as u64)) | (c_hi << ((64 - shift) as u64));
                    c_hi = c_hi >> (shift as u64);
                }
                proof {
                    lemma_shift_band(pre_i as int, pre_lo, pre_hi, shift as int, c_lo, c_hi);
                    assert(reduces_to(stride as int, m as int, occ0, clo0, chi0, rhs0, kstart, klo, khi, fp, i as int, c_lo, c_hi, b@)) by {
                        reveal(reduces_to);
                        assert forall|z: Seq<u64>|
                            #![trigger stored_ok(z, stride as int, m as int, occ0, clo0, chi0, rhs0)]
                            shaped(z, stride as int, m as int) && stored_ok(z, stride as int, m as int, occ0, clo0, chi0, rhs0)
                            implies ((acc(z, stride as int, band(kstart, klo, khi), m as int) == fp) == (acc(
                                z,
                                stride as int,
                                band(i as int, c_lo, c_hi),
                                m as int,
                            ) == b@)) by {
                            lemma_acc_ext(z, stride as int, band(pre_i as int, pre_lo, pre_hi), band(i as int, c_lo, c_hi), m as int);
                        }
                    }
                    lemma_within_shift(pre_i as int, pre_lo, pre_hi, shift as int, c_lo, c_hi, m as int);
                    lemma_reduce_step(stride as int, m as int, (occ0, clo0, chi0, rhs0), pre_i as int, old_lo, old_hi, old_b, shift as int, c_lo, c_hi);
                }
            }
            proof {
                assert(key_implied(stride as int, m as int, occupied@, coeff_lo@, coeff_hi@, rhs@, built, keys@[key_index as int]@));
            }
            key_index = key_index + 1;
        }
        let ghost occ = occupied@;
        let ghost clo = coeff_lo@;
        let ghost chi = coeff_hi@;
        let ghost rh = rhs@;
        let mut z = fill_free_rows(&occupied, &built, stride, fp_last_mask);
        match back_substitute(&mut z, &occupied, &coeff_lo, &coeff_hi, &rhs, &built, stride, fp_last_mask) {
            Ok(()) => {},
            Err(e) => {
                return Err(e);
            },
        }
        let ghost zf = z@;
        proof {
            assert(stored_ok(zf, stride as int, m as int, occ, clo, chi, rh));
        }
        let filter = RibbonFilter::new(built, z);
        proof {
            assert(m * stride <= m * stride * 64) by (nonlinear_arith)
                requires
                    m * stride >= 0,
            ;
            assert forall|k: int| 0 <= k < keys@.len() implies #[trigger] filter.spec_contains(keys@[k]@) by {
                assert(key_implied(stride as int, m as int, occ, clo, chi, rh, built, keys@[k]@));
            }
            assert(spec_eliminate(built, keys@, keys@.len()) == Some((occ, clo, chi, rh)));
            assert(solution_of(built, (occ, clo, chi, rh), filter.spec_z()));
        }
        Ok(filter)
    }
}

} // verus!
