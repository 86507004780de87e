//! Linear algebra over GF(2) on rows of 64-bit words: the meaning of a banded
//! equation on a solution vector, and the laws that elimination relies on.

use vstd::prelude::*;
use vstd::std_specs::bits::{axiom_u64_trailing_zeros, u64_trailing_zeros};

verus! {

/// A row of `k` zero words.
pub open spec fn zero_row(k: int) -> Seq<u64> {
    Seq::new(k as nat, |j: int| 0u64)
}

/// Word-wise XOR of two rows.
pub open spec fn xor_rows(a: Seq<u64>, b: Seq<u64>) -> Seq<u64> {
    Seq::new(a.len(), |j: int| a[j] ^ b[j])
}

/// Row `p` of a flat matrix with `stride` words per row.
pub open spec fn row(z: Seq<u64>, stride: int, p: int) -> Seq<u64> {
    z.subrange(p * stride, p * stride + stride)
}

/// XOR of the rows `p < n` of `z` selected by `sel`.
pub open spec fn acc(z: Seq<u64>, stride: int, sel: spec_fn(int) -> bool, n: int) -> Seq<u64>
    decreases n,
{
    if n <= 0 {
        zero_row(stride)
    } else {
        let prev = acc(z, stride, sel, n - 1);
        if sel(n - 1) {
            xor_rows(prev, row(z, stride, n - 1))
        } else {
            prev
        }
    }
}

/// Bit `j` of the 128-bit value `hi:lo` (false outside `0 .. 128`).
pub open spec fn coeff_bit(lo: u64, hi: u64, j: int) -> bool {
    if 0 <= j < 64 {
        (lo >> (j as u64)) & 1u64 == 1u64
    } else if 64 <= j < 128 {
        (hi >> ((j - 64) as u64)) & 1u64 == 1u64
    } else {
        false
    }
}

/// The rows touched by an equation starting at row `i` with coefficient `hi:lo`.
pub open spec fn band(i: int, lo: u64, hi: u64) -> spec_fn(int) -> bool {
    |p: int| coeff_bit(lo, hi, p - i)
}

/// Symmetric difference of two row selections.
pub open spec fn sel_xor(s1: spec_fn(int) -> bool, s2: spec_fn(int) -> bool) -> spec_fn(int) -> bool {
    |p: int| s1(p) != s2(p)
}

/// The rows of `z` have `stride` words each, and there are at least `m` of them.
pub open spec fn shaped(z: Seq<u64>, stride: int, m: int) -> bool {
    stride >= 1 && m >= 0 && z.len() == m * stride
}

pub proof fn lemma_row_len(z: Seq<u64>, stride: int, m: int, p: int)
    requires
        shaped(z, stride, m),
        0 <= p < m,
    ensures
        row(z, stride, p).len() == stride,
        0 <= p * stride,
        p * stride + stride <= m * stride,
{
    assert(0 <= p * stride) by (nonlinear_arith)
        requires
            0 <= p,
            stride >= 1,
    ;
    assert(p * stride + stride <= m * stride) by (nonlinear_arith)
        requires
            p < m,
            stride >= 1,
    ;
}

pub proof fn lemma_acc_len(z: Seq<u64>, stride: int, m: int, sel: spec_fn(int) -> bool, n: int)
    requires
        shaped(z, stride, m),
        n <= m,
    ensures
        acc(z, stride, sel, n).len() == stride,
    decreases n,
{
    if n > 0 {
        lemma_acc_len(z, stride, m, sel, n - 1);
        lemma_row_len(z, stride, m, n - 1);
    }
}

pub proof fn lemma_xor_assoc(a: Seq<u64>, b: Seq<u64>, c: Seq<u64>)
    requires
        a.len() == b.len() == c.len(),
    ensures
        xor_rows(xor_rows(a, b), c) == xor_rows(a, xor_rows(b, c)),
{
    assert forall|j: int| 0 <= j < a.len() implies #[trigger] xor_rows(xor_rows(a, b), c)[j]
        == xor_rows(a, xor_rows(b, c))[j] by {
        let (x, y, w) = (a[j], b[j], c[j]);
        assert((x ^ y) ^ w == x ^ (y ^ w)) by (bit_vector);
    }
    assert(xor_rows(xor_rows(a, b), c) =~= xor_rows(a, xor_rows(b, c)));
}

pub proof fn lemma_xor_comm(a: Seq<u64>, b: Seq<u64>)
    requires
        a.len() == b.len(),
    ensures
        xor_rows(a, b) == xor_rows(b, a),
{
    assert forall|j: int| 0 <= j < a.len() implies #[trigger] xor_rows(a, b)[j] == xor_rows(
        b,
        a,
    )[j] by {
        let (x, y) = (a[j], b[j]);
        assert(x ^ y == y ^ x) by (bit_vector);
    }
    assert(xor_rows(a, b) =~= xor_rows(b, a));
}

pub proof fn lemma_xor_zero(a: Seq<u64>)
    ensures
        xor_rows(a, zero_row(a.len() as int)) == a,
        xor_rows(zero_row(a.len() as int), a) == a,
{
    assert forall|j: int| 0 <= j < a.len() implies #[trigger] xor_rows(
        a,
        zero_row(a.len() as int),
    )[j] == a[j] && xor_rows(zero_row(a.len() as int), a)[j] == a[j] by {
        let x = a[j];
        assert(x ^ 0u64 == x && 0u64 ^ x == x) by (bit_vector);
    }
    assert(xor_rows(a, zero_row(a.len() as int)) =~= a);
    assert(xor_rows(zero_row(a.len() as int), a) =~= a);
}

pub proof fn lemma_xor_self(a: Seq<u64>)
    ensures
        xor_rows(a, a) == zero_row(a.len() as int),
{
    assert forall|j: int| 0 <= j < a.len() implies #[trigger] xor_rows(a, a)[j] == 0u64 by {
        let x = a[j];
        assert(x ^ x == 0u64) by (bit_vector);
    }
    assert(xor_rows(a, a) =~= zero_row(a.len() as int));
}

/// `x ^ y == b` exactly when `x == b ^ y`.
pub proof fn lemma_xor_cancel(x: Seq<u64>, y: Seq<u64>, b: Seq<u64>)
    requires
        x.len() == y.len() == b.len(),
    ensures
        (xor_rows(x, y) == b) <==> (x == xor_rows(b, y)),
{
    lemma_xor_assoc(x, y, y);
    lemma_xor_self(y);
    lemma_xor_zero(x);
    lemma_xor_assoc(b, y, y);
    lemma_xor_zero(b);
}

/// The XOR of the rows selected by a symmetric difference is the XOR of the two XORs.
pub proof fn lemma_acc_linear(
    z: Seq<u64>,
    stride: int,
    m: int,
    s1: spec_fn(int) -> bool,
    s2: spec_fn(int) -> bool,
    n: int,
)
    requires
        shaped(z, stride, m),
        n <= m,
    ensures
        acc(z, stride, sel_xor(s1, s2), n) == xor_rows(acc(z, stride, s1, n), acc(z, stride, s2, n)),
    decreases n,
{
    if n <= 0 {
        lemma_xor_zero(zero_row(stride));
    } else {
        lemma_acc_linear(z, stride, m, s1, s2, n - 1);
        let a = acc(z, stride, s1, n - 1);
        let b = acc(z, stride, s2, n - 1);
        let r = row(z, stride, n - 1);
        lemma_acc_len(z, stride, m, s1, n - 1);
        lemma_acc_len(z, stride, m, s2, n - 1);
        lemma_row_len(z, stride, m, n - 1);
        if s1(n - 1) && !s2(n - 1) {
            lemma_xor_assoc(a, r, b);
            lemma_xor_comm(r, b);
            lemma_xor_assoc(a, b, r);
        } else if !s1(n - 1) && s2(n - 1) {
            lemma_xor_assoc(a, b, r);
        } else if s1(n - 1) && s2(n - 1) {
            lemma_xor_assoc(a, r, xor_rows(b, r));
            lemma_xor_assoc(r, b, r);
            lemma_xor_comm(r, b);
            lemma_xor_assoc(b, r, r);
            lemma_xor_self(r);
            lemma_xor_zero(b);
        }
    }
}

/// Two selections that agree below `n` give the same XOR.
pub proof fn lemma_acc_ext(
    z: Seq<u64>,
    stride: int,
    s1: spec_fn(int) -> bool,
    s2: spec_fn(int) -> bool,
    n: int,
)
    requires
        forall|p: int| 0 <= p < n ==> #[trigger] s1(p) == s2(p),
    ensures
        acc(z, stride, s1, n) == acc(z, stride, s2, n),
    decreases n,
{
    if n > 0 {
        lemma_acc_ext(z, stride, s1, s2, n - 1);
    }
}

/// A selection with no row below `n` gives the zero row.
pub proof fn lemma_acc_empty(z: Seq<u64>, stride: int, s: spec_fn(int) -> bool, n: int)
    requires
        forall|p: int| 0 <= p < n ==> !#[trigger] s(p),
    ensures
        acc(z, stride, s, n) == zero_row(stride),
    decreases n,
{
    if n > 0 {
        lemma_acc_empty(z, stride, s, n - 1);
    }
}

/// The XOR depends only on the selected rows.
pub proof fn lemma_acc_frame(
    z1: Seq<u64>,
    z2: Seq<u64>,
    stride: int,
    s: spec_fn(int) -> bool,
    n: int,
)
    requires
        forall|p: int| 0 <= p < n && #[trigger] s(p) ==> row(z1, stride, p) == row(z2, stride, p),
    ensures
        acc(z1, stride, s, n) == acc(z2, stride, s, n),
    decreases n,
{
    if n > 0 {
        lemma_acc_frame(z1, z2, stride, s, n - 1);
    }
}

/// XOR of coefficients is symmetric difference of bands.
pub proof fn lemma_band_xor(i: int, lo1: u64, hi1: u64, lo2: u64, hi2: u64, p: int)
    ensures
        band(i, lo1 ^ lo2, hi1 ^ hi2)(p) == sel_xor(band(i, lo1, hi1), band(i, lo2, hi2))(p),
{
    let j = p - i;
    if 0 <= j < 64 {
        let s = j as u64;
        assert(((lo1 ^ lo2) >> s) & 1u64 == 1u64 <==> (((lo1 >> s) & 1u64 == 1u64) != ((lo2
            >> s) & 1u64 == 1u64))) by (bit_vector);
    } else if 64 <= j < 128 {
        let s = (j - 64) as u64;
        assert(((hi1 ^ hi2) >> s) & 1u64 == 1u64 <==> (((hi1 >> s) & 1u64 == 1u64) != ((hi2
            >> s) & 1u64 == 1u64))) by (bit_vector);
    }
}

/// Rows of different indices occupy disjoint word ranges.
pub proof fn lemma_rows_disjoint(i: int, j: int, stride: int, t: int)
    requires
        i != j,
        0 <= t < stride,
    ensures
        j * stride + t < i * stride || j * stride + t >= i * stride + stride,
{
    if j < i {
        assert(j * stride + t < i * stride) by (nonlinear_arith)
            requires
                j < i,
                0 <= t < stride,
        ;
    } else {
        assert(j * stride + t >= i * stride + stride) by (nonlinear_arith)
            requires
                j > i,
                0 <= t < stride,
        ;
    }
}

} // verus!

verus! {

/// Rows in `[a, n)` that are not selected do not change the XOR.
pub proof fn lemma_acc_skip(z: Seq<u64>, stride: int, s: spec_fn(int) -> bool, a: int, n: int)
    requires
        0 <= a <= n,
        forall|p: int| a <= p < n ==> !#[trigger] s(p),
    ensures
        acc(z, stride, s, n) == acc(z, stride, s, a),
    decreases n - a,
{
    if n > a {
        lemma_acc_skip(z, stride, s, a, n - 1);
    }
}

/// All rows' last words keep only the bits allowed by `mask`.
pub open spec fn rows_masked(z: Seq<u64>, stride: int, m: int, mask: u64) -> bool {
    forall|i: int|
        0 <= i < m ==> #[trigger] z[i * stride + stride - 1] & mask == z[i * stride + stride - 1]
}

/// The last word of a row keeps only the bits allowed by `mask`.
pub open spec fn row_masked(r: Seq<u64>, mask: u64) -> bool {
    r.len() >= 1 ==> r[r.len() - 1] & mask == r[r.len() - 1]
}

pub proof fn lemma_xor_masked(a: Seq<u64>, b: Seq<u64>, mask: u64)
    requires
        a.len() == b.len(),
        row_masked(a, mask),
        row_masked(b, mask),
    ensures
        row_masked(xor_rows(a, b), mask),
{
    if a.len() >= 1 {
        let x = a[a.len() - 1];
        let y = b[a.len() - 1];
        assert((x & mask == x && y & mask == y) ==> ((x ^ y) & mask == x ^ y)) by (bit_vector);
    }
}

/// Copies `src` into row `i` of the flat matrix `z`.
pub fn set_row(z: &mut Vec<u64>, stride: usize, i: usize, src: &[u64])
    requires
        src@.len() == stride,
        (i + 1) * stride <= old(z)@.len(),
    ensures
        final(z)@.len() == old(z)@.len(),
        row(final(z)@, stride as int, i as int) == src@,
        forall|k: int|
            0 <= k < old(z)@.len() && (k < i * stride || k >= i * stride + stride)
                ==> final(z)@[k] == old(z)@[k],
{
    let _n = z.len();
    assert(i * stride + stride == (i + 1) * stride && 0 <= i * stride) by (nonlinear_arith);
    let base = i * stride;
    let mut t: usize = 0;
    while t < stride
        invariant
            base == i * stride,
            base + stride <= z@.len(),
            z@.len() <= usize::MAX,
            z@.len() == old(z)@.len(),
            src@.len() == stride,
            t <= stride,
            forall|q: int| 0 <= q < t ==> z@[base + q] == src@[q],
            forall|k: int|
                0 <= k < old(z)@.len() && (k < base || k >= base + t) ==> z@[k] == old(z)@[k],
        decreases stride - t,
    {
        z.set(base + t, src[t]);
        t = t + 1;
    }
    assert(row(z@, stride as int, i as int) =~= src@);
}

/// Word index `k` lies outside the row that starts at word `d`.
pub open spec fn off_row(k: int, d: int, stride: int) -> bool {
    k < d || k >= d + stride
}

/// XORs row `src_row` of `z` into row `dst_row` of `z`.
pub fn xor_row_within(z: &mut Vec<u64>, stride: usize, dst_row: usize, src_row: usize)
    requires
        dst_row != src_row,
        (dst_row + 1) * stride <= old(z)@.len(),
        (src_row + 1) * stride <= old(z)@.len(),
    ensures
        final(z)@.len() == old(z)@.len(),
        row(final(z)@, stride as int, dst_row as int) == xor_rows(
            row(old(z)@, stride as int, dst_row as int),
            row(old(z)@, stride as int, src_row as int),
        ),
        forall|k: int|
            0 <= k < old(z)@.len() && (k < dst_row * stride || k >= dst_row * stride + stride)
                ==> final(z)@[k] == old(z)@[k],
{
    let _n = z.len();
    assert(dst_row * stride + stride == (dst_row + 1) * stride && 0 <= dst_row * stride)
        by (nonlinear_arith);
    assert(src_row * stride + stride == (src_row + 1) * stride && 0 <= src_row * stride)
        by (nonlinear_arith);
    let d = dst_row * stride;
    let s = src_row * stride;
    assert forall|k: int| s <= k < s + stride implies #[trigger] off_row(k, d as int, stride as int) by {
        lemma_rows_disjoint(dst_row as int, src_row as int, stride as int, k - s);
    }
    let mut t: usize = 0;
    while t < stride
        invariant
            d == dst_row * stride,
            s == src_row * stride,
            d + stride <= z@.len(),
            s + stride <= z@.len(),
            z@.len() == old(z)@.len(),
            z@.len() <= usize::MAX,
            t <= stride,
            forall|k: int| s <= k < s + stride ==> #[trigger] off_row(k, d as int, stride as int),
            forall|q: int| 0 <= q < t ==> #[trigger] z@[d + q] == old(z)@[d + q] ^ old(z)@[s + q],
            forall|k: int|
                0 <= k < old(z)@.len() && (k < d || k >= d + t) ==> z@[k] == old(z)@[k],
        decreases stride - t,
    {
        assert(off_row((s + t) as int, d as int, stride as int));
        let v = z[s + t];
        let cur = z[d + t];
        z.set(d + t, cur ^ v);
        t = t + 1;
    }
    assert forall|q: int| 0 <= q < stride implies #[trigger] row(z@, stride as int, dst_row as int)[q]
        == xor_rows(
        row(old(z)@, stride as int, dst_row as int),
        row(old(z)@, stride as int, src_row as int),
    )[q] by {
        assert(row(z@, stride as int, dst_row as int)[q] == z@[d + q]);
        assert(row(old(z)@, stride as int, src_row as int)[q] == old(z)@[s + q]);
    }
    assert(row(z@, stride as int, dst_row as int) =~= xor_rows(
        row(old(z)@, stride as int, dst_row as int),
        row(old(z)@, stride as int, src_row as int),
    ));
}

/// XORs row `i` of `src` into `dst`.
pub fn xor_words_from_row(dst: &mut Vec<u64>, src: &[u64], stride: usize, i: usize)
    requires
        old(dst)@.len() == stride,
        (i + 1) * stride <= src@.len(),
    ensures
        final(dst)@ == xor_rows(old(dst)@, row(src@, stride as int, i as int)),
{
    let _n = src.len();
    assert(i * stride + stride == (i + 1) * stride && 0 <= i * stride) by (nonlinear_arith);
    let base = i * stride;
    let mut t: usize = 0;
    while t < stride
        invariant
            base == i * stride,
            base + stride <= src@.len(),
            src@.len() <= usize::MAX,
            dst@.len() == stride,
            t <= stride,
            forall|q: int| 0 <= q < t ==> dst@[q] == old(dst)@[q] ^ src@[base + q],
            forall|q: int| t <= q < stride ==> dst@[q] == old(dst)@[q],
        decreases stride - t,
    {
        let cur = dst[t];
        dst.set(t, cur ^ src[base + t]);
        t = t + 1;
    }
    assert(dst@ =~= xor_rows(old(dst)@, row(src@, stride as int, i as int)));
}

/// Rows other than `i` are unchanged when only words of row `i` changed.
pub proof fn lemma_other_rows(z1: Seq<u64>, z2: Seq<u64>, stride: int, m: int, i: int)
    requires
        shaped(z1, stride, m),
        z2.len() == z1.len(),
        0 <= i < m,
        forall|k: int|
            0 <= k < z1.len() && (k < i * stride || k >= i * stride + stride) ==> z2[k] == z1[k],
    ensures
        forall|j: int| 0 <= j < m && j != i ==> #[trigger] row(z2, stride, j) == row(z1, stride, j),
{
    assert forall|j: int| 0 <= j < m && j != i implies #[trigger] row(z2, stride, j) == row(
        z1,
        stride,
        j,
    ) by {
        lemma_row_len(z1, stride, m, j);
        assert forall|t: int| 0 <= t < stride implies #[trigger] row(z2, stride, j)[t] == row(
            z1,
            stride,
            j,
        )[t] by {
            lemma_rows_disjoint(i, j, stride, t);
            assert(row(z2, stride, j)[t] == z2[j * stride + t]);
            assert(row(z1, stride, j)[t] == z1[j * stride + t]);
        }
        assert(row(z2, stride, j) =~= row(z1, stride, j));
    }
}


/// Word-wise equality of two rows.
pub fn words_equal(a: &Vec<u64>, b: &Vec<u64>) -> (res: bool)
    ensures
        res == (a@ == b@),
{
    if a.len() != b.len() {
        return false;
    }
    let n = a.len();
    let mut t: usize = 0;
    while t < n
        invariant
            n == a@.len(),
            n == b@.len(),
            t <= n,
            forall|q: int| 0 <= q < t ==> a@[q] == b@[q],
        decreases n - t,
    {
        if a[t] != b[t] {
            return false;
        }
        t = t + 1;
    }
    assert(a@ =~= b@);
    true
}

} // verus!

verus! {

pub proof fn bv_shift_low(lo: u64, hi: u64, s: u64, j: u64)
    by (bit_vector)
    requires
        0 < s < 64,
        j < 64 - s,
    ensures
        (((lo >> s) | (hi << ((64u64 - s) as u64))) >> j) & 1u64 == (lo >> ((j + s) as u64)) & 1u64,
{
}

pub proof fn bv_shift_mid(lo: u64, hi: u64, s: u64, j: u64)
    by (bit_vector)
    requires
        0 < s < 64,
        64 - s <= j < 64,
    ensures
        (((lo >> s) | (hi << ((64u64 - s) as u64))) >> j) & 1u64 == (hi >> ((j + s - 64u64) as u64)) & 1u64,
{
}

pub proof fn bv_shift_hi(hi: u64, s: u64, k: u64)
    by (bit_vector)
    requires
        s < 64,
        k < 64,
    ensures
        k + s < 64 ==> ((hi >> s) >> k) & 1u64 == (hi >> ((k + s) as u64)) & 1u64,
        k + s >= 64 ==> ((hi >> s) >> k) & 1u64 == 0u64,
{
}

pub proof fn bv_zero_bit(j: u64)
    by (bit_vector)
    requires
        j < 64,
    ensures
        (0u64 >> j) & 1u64 == 0u64,
{
}

pub proof fn bv_bit0(x: u64, s: u64, hi: u64)
    by (bit_vector)
    requires
        0 < s < 64,
        (x >> s) & 1u64 == 1u64,
    ensures
        ((x >> s) | (hi << ((64u64 - s) as u64))) & 1u64 == 1u64,
{
}

pub proof fn bv_bit0_hi(hi: u64, t: u64)
    by (bit_vector)
    requires
        t < 64,
        (hi >> t) & 1u64 == 1u64,
    ensures
        (hi >> t) & 1u64 == 1u64,
        ((hi >> t) >> 0u64) & 1u64 == 1u64,
{
}

/// Shifting the coefficient right by its trailing zeros while advancing the
/// start row by the same amount leaves the band unchanged.
pub proof fn lemma_shift_band(i: int, lo: u64, hi: u64, s: int, nlo: u64, nhi: u64)
    requires
        !(lo == 0 && hi == 0),
        lo != 0 ==> s == u64_trailing_zeros(lo),
        lo == 0 ==> s == 64 + u64_trailing_zeros(hi),
        s >= 64 ==> nlo == hi >> ((s - 64) as u64) && nhi == 0,
        0 < s < 64 ==> nlo == (lo >> (s as u64)) | (hi << ((64 - s) as u64)) && nhi == hi >> (
        s as u64),
        s == 0 ==> nlo == lo && nhi == hi,
    ensures
        forall|p: int| #[trigger] band(i, lo, hi)(p) == band(i + s, nlo, nhi)(p),
        nlo & 1u64 == 1u64,
{
    axiom_u64_trailing_zeros(lo);
    axiom_u64_trailing_zeros(hi);
    assert forall|p: int| #[trigger] band(i, lo, hi)(p) == band(i + s, nlo, nhi)(p) by {
        let j = p - i - s;
        let old_j = p - i;
        if s == 0 {
        } else if s < 64 {
            let su = s as u64;
            if 0 <= j < 64 - s {
                bv_shift_low(lo, hi, su, j as u64);
                assert((j as u64) + su == old_j as u64);
            } else if 64 - s <= j < 64 {
                bv_shift_mid(lo, hi, su, j as u64);
                assert((j as u64) + su - 64u64 == (old_j - 64) as u64);
            } else if 64 <= j < 128 {
                bv_shift_hi(hi, su, (j - 64) as u64);
                if j - 64 + s < 64 {
                    assert(((j - 64) as u64) + su == (old_j - 64) as u64);
                }
            } else if j < 0 && old_j >= 0 {
                assert((lo >> (old_j as u64)) & 1u64 == 0u64);
            }
        } else {
            let t = (s - 64) as u64;
            assert(lo == 0);
            if 0 <= j < 64 {
                bv_shift_hi(hi, t, j as u64);
                if j + t < 64 {
                    assert((j as u64) + t == (old_j - 64) as u64);
                }
            } else if j < 0 && old_j >= 0 {
                if old_j < 64 {
                    bv_zero_bit(old_j as u64);
                } else {
                    assert((hi >> ((old_j - 64) as u64)) & 1u64 == 0u64);
                }
            }
        }
    }
    if s == 0 {
        assert((lo >> 0u64) & 1u64 == 1u64);
        assert(lo >> 0u64 == lo) by (bit_vector);
    } else if s < 64 {
        assert((lo >> (s as u64)) & 1u64 == 1u64);
        bv_bit0(lo, s as u64, hi);
    } else {
        bv_bit0_hi(hi, (s - 64) as u64);
        assert((hi >> ((s - 64) as u64)) & 1u64 == 1u64);
    }
}

/// A zero coefficient selects no rows.
pub proof fn lemma_band_zero(i: int, p: int)
    ensures
        !band(i, 0u64, 0u64)(p),
{
    let j = p - i;
    if 0 <= j < 64 {
        bv_zero_bit(j as u64);
    } else if 64 <= j < 128 {
        bv_zero_bit((j - 64) as u64);
    }
}

/// Adding row `i`'s stored equation (whose XOR is `ri`) to the current one keeps
/// its truth: the new equation holds exactly when the old one did.
pub proof fn lemma_xor_step(
    z: Seq<u64>,
    stride: int,
    m: int,
    i: int,
    c_lo: u64,
    c_hi: u64,
    ci_lo: u64,
    ci_hi: u64,
    ri: Seq<u64>,
    b: Seq<u64>,
)
    requires
        shaped(z, stride, m),
        0 <= i < m,
        acc(z, stride, band(i, ci_lo, ci_hi), m) == ri,
        ri.len() == stride,
        b.len() == stride,
    ensures
        (acc(z, stride, band(i, c_lo ^ ci_lo, c_hi ^ ci_hi), m) == xor_rows(b, ri)) == (acc(
            z,
            stride,
            band(i, c_lo, c_hi),
            m,
        ) == b),
{
    let s1 = band(i, c_lo, c_hi);
    let s2 = band(i, ci_lo, ci_hi);
    assert forall|p: int| 0 <= p < m implies #[trigger] band(i, c_lo ^ ci_lo, c_hi ^ ci_hi)(p)
        == sel_xor(s1, s2)(p) by {
        lemma_band_xor(i, c_lo, c_hi, ci_lo, ci_hi, p);
    }
    lemma_acc_ext(z, stride, band(i, c_lo ^ ci_lo, c_hi ^ ci_hi), sel_xor(s1, s2), m);
    lemma_acc_linear(z, stride, m, s1, s2, m);
    let a = acc(z, stride, s1, m);
    lemma_acc_len(z, stride, m, s1, m);
    lemma_xor_cancel(a, ri, xor_rows(b, ri));
    lemma_xor_cancel(b, ri, xor_rows(b, ri));
}

/// The XOR of a single selected row is that row.
pub proof fn lemma_acc_single(z: Seq<u64>, stride: int, m: int, i: int)
    requires
        shaped(z, stride, m),
        0 <= i < m,
    ensures
        acc(z, stride, |p: int| p == i, m) == row(z, stride, i),
{
    let s = |p: int| p == i;
    assert forall|p: int| 0 <= p < i implies !#[trigger] s(p) by {}
    lemma_acc_empty(z, stride, s, i);
    lemma_row_len(z, stride, m, i);
    lemma_xor_zero(row(z, stride, i));
    assert forall|p: int| i + 1 <= p < m implies !#[trigger] s(p) by {}
    lemma_acc_skip(z, stride, s, i + 1, m);
}

/// The XOR of masked rows is masked.
pub proof fn lemma_acc_masked(z: Seq<u64>, stride: int, m: int, mask: u64, s: spec_fn(int) -> bool, n: int)
    requires
        shaped(z, stride, m),
        n <= m,
        forall|p: int| 0 <= p < m ==> row_masked(#[trigger] row(z, stride, p), mask),
    ensures
        row_masked(acc(z, stride, s, n), mask),
    decreases n,
{
    if n <= 0 {
        assert(0u64 & mask == 0u64) by (bit_vector);
    } else {
        lemma_acc_masked(z, stride, m, mask, s, n - 1);
        lemma_acc_len(z, stride, m, s, n - 1);
        lemma_row_len(z, stride, m, n - 1);
        if s(n - 1) {
            lemma_xor_masked(acc(z, stride, s, n - 1), row(z, stride, n - 1), mask);
        }
    }
}

} // verus!
