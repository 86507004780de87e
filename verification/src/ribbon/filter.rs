//! Querying a built ribbon filter.

use vstd::prelude::*;

use super::algebra::{
    acc, band, lemma_acc_empty, lemma_acc_len, words_equal, zero_row, lemma_acc_skip, lemma_row_len, shaped, xor_words_from_row,
};
use super::builder::Scratch;
use super::hashing::{spec_equation, spec_fingerprint, standard_equation_w64};
use super::params::{spec_words, Params};
use crate::bitvec_specs::{max_bits, words_from_vec, words_of, words_raw, WordStore};
use crate::std_hash::spec_hash_str;

verus! {

/// Whether the solution `z` of a filter with parameters `p` satisfies the
/// equation of `key`: the XOR of the rows its band selects is its fingerprint.
pub open spec fn spec_satisfies(p: Params, z: Seq<u64>, key: Seq<char>) -> bool {
    let h = spec_hash_str(key);
    let e = spec_equation(h, p.seed, p);
    acc(z, spec_words(p.r as int), band(e.start as int, e.coeff_lo, e.coeff_hi), p.m as int)
        == spec_fingerprint(h, p.seed, p)
}

/// Parameters under which a filter can be queried without a panic.
pub open spec fn spec_queryable(p: Params) -> bool {
    &&& p.w <= p.m
    &&& p.w <= 128
    &&& p.m - p.w + 1 <= usize::MAX
    &&& p.r >= 1
}

/// A static approximate-membership filter over string keys.
pub struct RibbonFilter {
    params: Params,
    z: WordStore,
    stride_words: usize,
}

impl RibbonFilter {
    /// The filter's parameters.
    pub closed spec fn spec_params(&self) -> Params {
        self.params
    }

    /// The solution words, `spec_words(r)` words per row.
    pub closed spec fn spec_z(&self) -> Seq<u64> {
        words_of(self.z)
    }

    /// Whether a query for `key` answers yes.
    pub open spec fn spec_contains(&self, key: Seq<char>) -> bool {
        spec_satisfies(self.spec_params(), self.spec_z(), key)
    }

    /// The filter can be queried: its words form `m` rows of the right width.
    pub closed spec fn wf(&self) -> bool {
        &&& spec_queryable(self.params)
        &&& self.stride_words == spec_words(self.params.r as int)
        &&& shaped(words_of(self.z), self.stride_words as int, self.params.m as int)
        &&& words_of(self.z).len() * 64 <= max_bits()
    }

    pub proof fn lemma_wf(&self)
        requires
            self.wf(),
        ensures
            spec_queryable(self.spec_params()),
            shaped(self.spec_z(), spec_words(self.spec_params().r as int), self.spec_params().m as int),
            self.spec_z().len() * 64 <= max_bits(),
    {
    }

    pub(crate) fn new(params: Params, z: Vec<u64>) -> (res: Self)
        requires
            z@.len() * 64 <= max_bits(),
        ensures
            res.spec_params() == params,
            res.spec_z() == z@,
            spec_queryable(params) && shaped(z@, spec_words(params.r as int), params.m as int)
                ==> res.wf(),
    {
        let stride_words = params.fingerprint_words();
        let z = words_from_vec(z);
        RibbonFilter { params, z, stride_words }
    }

    /// Reconstructs a filter from its serialized components.
    pub fn from_raw_parts(params: Params, z_raw: Vec<u64>) -> (res: Self)
        requires
            z_raw@.len() * 64 <= max_bits(),
        ensures
            res.spec_params() == params,
            res.spec_z() == z_raw@,
            spec_queryable(params) && shaped(z_raw@, spec_words(params.r as int), params.m as int)
                ==> res.wf(),
    {
        Self::new(params, z_raw)
    }

    /// The raw solution words, for serialization.
    pub fn z_raw(&self) -> (res: &[u64])
        ensures
            res@ == self.spec_z(),
    {
        words_raw(&self.z)
    }

    pub fn params(&self) -> (res: Params)
        ensures
            res == self.spec_params(),
    {
        self.params
    }

    /// Scratch space sized for queries on this filter.
    pub fn new_scratch(&self) -> (res: Scratch)
        ensures
            self.wf() ==> res.fingerprint@.len() == spec_words(self.spec_params().r as int)
                && res.acc@.len() == spec_words(self.spec_params().r as int),
    {
        Scratch::new(self.stride_words)
    }

    pub fn contains(&self, key: &str) -> (res: bool)
        requires
            self.wf(),
        ensures
            res == self.spec_contains(key@),
    {
        let mut scratch = self.new_scratch();
        self.contains_in(key, &mut scratch)
    }

    /// Queries `key`, using `scratch` for intermediate rows.
    pub fn contains_in(&self, key: &str, scratch: &mut Scratch) -> (res: bool)
        requires
            self.wf(),
            old(scratch).fingerprint@.len() == spec_words(self.spec_params().r as int),
            old(scratch).acc@.len() == spec_words(self.spec_params().r as int),
        ensures
            res == self.spec_contains(key@),
            final(scratch).fingerprint@.len() == old(scratch).fingerprint@.len(),
            final(scratch).acc@.len() == old(scratch).acc@.len(),
    {
        scratch.reset();
        let stride = self.stride_words;
        let m = self.params.m;
        let equation = standard_equation_w64(key, self.params.seed, &self.params, &mut scratch.fingerprint);
        let raw = words_raw(&self.z);
        let ghost z = raw@;
        let ghost sel = band(equation.start as int, equation.coeff_lo, equation.coeff_hi);
        let start = equation.start;
        let ghost fp = scratch.fingerprint@;
        proof {
            assert forall|p: int| 0 <= p < start implies !#[trigger] sel(p) by {}
            lemma_acc_empty(z, stride as int, sel, start as int);
            assert(scratch.acc@ =~= zero_row(stride as int));
        }
        let room = m - start;
        let mut j: usize = 0;
        while j < 128
            invariant
                j <= 128,
                start <= m,
                room == m - start,
                stride == spec_words(self.params.r as int),
                shaped(z, stride as int, m as int),
                raw@ == z,
                sel == band(start as int, equation.coeff_lo, equation.coeff_hi),
                scratch.fingerprint@ == fp,
                scratch.acc@.len() == stride,
                scratch.acc@ == acc(z, stride as int, sel, start + if j <= room { j as int } else { room as int }),
            decreases 128 - j,
        {
            let bit = if j < 64 {
                (equation.coeff_lo >> (j as u64)) & 1 == 1
            } else {
                (equation.coeff_hi >> ((j - 64) as u64)) & 1 == 1
            };
            assert(bit == sel((start + j) as int));
            if j < room {
                let p = start + j;
                proof {
                    lemma_row_len(z, stride as int, m as int, p as int);
                    assert((p + 1) * stride == p * stride + stride) by (nonlinear_arith);
                }
                if bit {
                    xor_words_from_row(&mut scratch.acc, raw, stride, p);
                }
                proof {
                    lemma_acc_len(z, stride as int, m as int, sel, p as int + 1);
                }
            }
            j = j + 1;
        }
        proof {
            let n = start + if 128 <= room { 128int } else { room as int };
            assert forall|p: int| n <= p < m implies !#[trigger] sel(p) by {}
            lemma_acc_skip(z, stride as int, sel, n, m as int);
        }
        words_equal(&scratch.acc, &scratch.fingerprint)
    }
}

} // verus!
