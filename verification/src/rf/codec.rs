//! Wire format of a ribbon filter:
//! `[m: u64][w: u64][r: u64][seed: u64][mode: u8][packed_len: u64][rows]`,
//! integers little-endian, each row packed into `ceil(r / 8)` bytes.

use vstd::arithmetic::div_mod::{
    lemma_fundamental_div_mod, lemma_fundamental_div_mod_converse_div,
    lemma_fundamental_div_mod_converse_mod,
};
use vstd::prelude::*;


use crate::bitvec_specs::{max_bits, max_bits_value};
use crate::bytes::{le_bytes, le_value, lemma_le_bytes_injective, lemma_le_roundtrip, push_le_u64, read_le_u64};
use crate::ribbon::algebra::{lemma_row_len, row, row_masked, shaped};
use crate::ribbon::filter::{spec_satisfies, RibbonFilter};
use crate::ribbon::hashing::{low_mask, spec_low_mask};
use crate::ribbon::builder::{all_attempts_unsolvable, build_fits, lemma_fits_for, built_by_attempt, built_by_first_solvable_attempt, earlier_unsolvable, spec_build_fits, RibbonBuilder};
use crate::ribbon::params::{spec_last_word_mask, spec_param_error, spec_valid, spec_words, Mode, Params};
use crate::wire::random_u64;

verus! {

/// Length of the fixed header.
pub const HEADER_LEN: usize = 41;

/// Bytes per packed row.
pub open spec fn spec_row_bytes(r: int) -> int {
    (r + 7) / 8
}

/// Bits carried by chunk `j` of a row of `r` bits.
pub open spec fn spec_take(r: int, j: int) -> int {
    if r - 64 * j >= 64 {
        64
    } else {
        r - 64 * j
    }
}

/// Bytes that chunk `j` of a row of `r` bits occupies.
pub open spec fn spec_chunk_bytes(r: int, j: int) -> int {
    (spec_take(r, j) + 7) / 8
}

/// Byte `k` of the packed rows of `z`.
pub open spec fn spec_packed_byte(z: Seq<u64>, r: int, k: int) -> u8 {
    let bpr = spec_row_bytes(r);
    let stride = spec_words(r);
    let i = k / bpr;
    let rem = k % bpr;
    let j = rem / 8;
    le_bytes(z[i * stride + j] & spec_low_mask(spec_take(r, j)))[rem % 8]
}

/// The mode byte.
pub open spec fn spec_mode_byte(mode: Mode) -> u8 {
    match mode {
        Mode::Standard => 0,
        Mode::Homogeneous => 1,
    }
}

/// The encoding of a filter with parameters `p` and solution `z`.
pub open spec fn spec_encode(p: Params, z: Seq<u64>) -> Seq<u8> {
    let packed = p.m * spec_row_bytes(p.r as int);
    le_bytes(p.m as u64) + le_bytes(p.w as u64) + le_bytes(p.r as u64) + le_bytes(p.seed) + seq![
        spec_mode_byte(p.mode),
    ] + le_bytes(packed as u64) + Seq::new(packed as nat, |k: int| spec_packed_byte(z, p.r as int, k))
}

/// The value of chunk `j` of row `i` in the packed rows starting at `base`.
pub open spec fn spec_chunk_value(b: Seq<u8>, base: int, r: int, i: int, j: int) -> u64 {
    let off = base + i * spec_row_bytes(r) + 8 * j;
    let tb = spec_chunk_bytes(r, j);
    le_value(Seq::new(8, |q: int| if q < tb { b[off + q] } else { 0u8 }))
}

pub open spec fn spec_header_m(b: Seq<u8>) -> int {
    le_value(b.subrange(0, 8)) as usize as int
}

pub open spec fn spec_header_r(b: Seq<u8>) -> int {
    le_value(b.subrange(16, 24)) as usize as int
}

pub open spec fn spec_header_packed(b: Seq<u8>) -> int {
    le_value(b.subrange(33, 41)) as usize as int
}

/// Decoding does not exhaust the machine: the advertised sizes fit.
pub open spec fn spec_decode_fits(b: Seq<u8>) -> bool {
    b.len() >= 41 ==> (spec_header_packed(b) + 41 <= usize::MAX && (b.len() >= 41
        + spec_header_packed(b) ==> spec_header_m(b) * spec_words(spec_header_r(b)) * 64
        <= max_bits()))
}

/// Whether the sizes a filter encoding advertises fit this machine, so that
/// decoding it can proceed.
pub fn decode_fits(bytes: &[u8]) -> (res: bool)
    ensures
        res == spec_decode_fits(bytes@),
{
    let len = bytes.len();
    if len < HEADER_LEN {
        return true;
    }
    let m = read_le_u64(bytes, 0) as usize;
    let r = read_le_u64(bytes, 16) as usize;
    let packed_len = read_le_u64(bytes, 33) as usize;
    assert(m == spec_header_m(bytes@) && r == spec_header_r(bytes@) && packed_len == spec_header_packed(bytes@));
    if packed_len > usize::MAX - HEADER_LEN {
        return false;
    }
    if len < HEADER_LEN + packed_len {
        return true;
    }
    let stride = r / 64 + if r % 64 == 0 { 0 } else { 1 };
    assert(stride == spec_words(r as int));
    let limit = max_bits_value() / 64;
    if stride == 0 {
        assert(m * stride * 64 == 0) by (nonlinear_arith)
            requires
                stride == 0,
        ;
        return true;
    }
    let fits = m <= limit / stride;
    proof {
        let lim = max_bits() / 64;
        assert(limit == lim);
        if fits {
            assert(m * stride <= lim) by (nonlinear_arith)
                requires
                    m <= lim / (stride as int),
                    stride > 0,
                    lim >= 0,
            ;
            assert(m * stride * 64 <= max_bits()) by (nonlinear_arith)
                requires
                    m * stride <= lim,
                    lim == max_bits() / 64,
            ;
        } else {
            assert(m * stride * 64 > max_bits()) by (nonlinear_arith)
                requires
                    m > lim / (stride as int),
                    stride > 0,
                    lim >= 0,
                    lim == max_bits() / 64,
            ;
        }
    }
    fits
}

/// What decoding `b` yields: the parameters and solution words, if any.
pub open spec fn spec_decode(b: Seq<u8>) -> Option<(Params, Seq<u64>)> {
    if b.len() < 41 {
        None
    } else {
        let m = spec_header_m(b);
        let w = le_value(b.subrange(8, 16)) as usize;
        let r = spec_header_r(b);
        let seed = le_value(b.subrange(24, 32));
        let mode = if b[32] == 0 {
            Mode::Standard
        } else {
            Mode::Homogeneous
        };
        let packed = spec_header_packed(b);
        let p = Params { m: m as usize, w, r: r as usize, mode, seed: 0, retry_limit: 1, grow_limit: 0 };
        if b.len() < 41 + packed {
            None
        } else if b.len() < 41 + m * spec_row_bytes(r) {
            None
        } else if spec_param_error(p) is Some {
            None
        } else {
            let stride = spec_words(r);
            Some(
                (
                    Params { seed, ..p },
                    Seq::new(
                        (m * stride) as nat,
                        |k: int| spec_chunk_value(b, 41, r, k / stride, k % stride),
                    ),
                ),
            )
        }
    }
}

/// Facts about how a row of `r` bits splits into chunks.
pub proof fn lemma_row_layout(r: int)
    requires
        r >= 1,
    ensures
        spec_words(r) >= 1,
        spec_row_bytes(r) == 8 * (spec_words(r) - 1) + spec_chunk_bytes(r, spec_words(r) - 1),
        forall|j: int| 0 <= j < spec_words(r) - 1 ==> #[trigger] spec_take(r, j) == 64,
        1 <= spec_take(r, spec_words(r) - 1) <= 64,
        1 <= spec_chunk_bytes(r, spec_words(r) - 1) <= 8,
        spec_last_word_mask(r) == spec_low_mask(spec_take(r, spec_words(r) - 1)),
{
    let s = spec_words(r);
    let t = spec_take(r, s - 1);
    assert(r == 64 * (s - 1) + t);
    if r % 64 != 0 {
        assert(t == r % 64);
    }
}

/// A value below `2^(8 * tb)` survives truncation to its first `tb` bytes.
pub proof fn lemma_prefix_roundtrip(x: u64, take: int)
    requires
        1 <= take <= 64,
    ensures
        le_value(
            Seq::new(
                8,
                |q: int|
                    if q < (take + 7) / 8 {
                        le_bytes(x & spec_low_mask(take))[q]
                    } else {
                        0u8
                    },
            ),
        ) == x & spec_low_mask(take),
{
    let y = x & spec_low_mask(take);
    let tb = (take + 7) / 8;
    let padded = Seq::new(8, |q: int| if q < tb { le_bytes(y)[q] } else { 0u8 });
    assert forall|q: int| tb <= q < 8 implies #[trigger] le_bytes(y)[q] == 0u8 by {
        let t = take as u64;
        let qq = q as u64;
        if take < 64 {
            assert(spec_low_mask(take) == ((1u64 << t) - 1) as u64);
            lemma_high_bytes_zero(x, t, qq);
        } else {
            assert(false);
        }
    }
    assert(padded =~= le_bytes(y));
    lemma_le_roundtrip(y);
}

/// Bytes of `x & (2^t - 1)` at or above byte `ceil(t / 8)` are zero.
pub proof fn lemma_high_bytes_zero(x: u64, t: u64, q: u64)
    requires
        1 <= t < 64,
        (t + 7) / 8 <= q < 8,
    ensures
        le_bytes(x & (((1u64 << t) - 1) as u64))[q as int] == 0u8,
{
    let y = x & (((1u64 << t) - 1) as u64);
    assert(((y >> (8 * q)) & 0xff) == 0) by (bit_vector)
        requires
            y == x & (((1u64 << t) - 1) as u64),
            1 <= t < 64,
            (t + 7) / 8 <= q < 8,
    ;
    if q == 0 {
        assert(le_bytes(y)[0] == (y & 0xff) as u8);
        assert(y >> 0u64 == y) by (bit_vector);
    }
}


/// Position of byte `q` of chunk `j` of row `i` among the packed rows.
pub proof fn lemma_packed_index(r: int, i: int, j: int, q: int)
    requires
        r >= 1,
        i >= 0,
        0 <= j < spec_words(r),
        0 <= q < spec_chunk_bytes(r, j),
    ensures
        (i * spec_row_bytes(r) + 8 * j + q) / spec_row_bytes(r) == i,
        (i * spec_row_bytes(r) + 8 * j + q) % spec_row_bytes(r) == 8 * j + q,
        (8 * j + q) / 8 == j,
        (8 * j + q) % 8 == q,
{
    lemma_row_layout(r);
    let bpr = spec_row_bytes(r);
    if j < spec_words(r) - 1 {
        assert(spec_take(r, j) == 64);
    }
    assert(8 * j + q < bpr);
    lemma_fundamental_div_mod_converse_div(i * bpr + 8 * j + q, bpr, i, 8 * j + q);
    lemma_fundamental_div_mod_converse_mod(i * bpr + 8 * j + q, bpr, i, 8 * j + q);
}

/// Appends the first `n` little-endian bytes of `x`.
fn push_le_prefix(out: &mut Vec<u8>, x: u64, n: usize)
    requires
        n <= 8,
    ensures
        final(out)@ == old(out)@ + le_bytes(x).subrange(0, n as int),
{
    let mut tmp: Vec<u8> = Vec::new();
    push_le_u64(&mut tmp, x);
    assert(tmp@ =~= le_bytes(x));
    let mut q: usize = 0;
    while q < n
        invariant
            q <= n,
            n <= 8,
            tmp@ == le_bytes(x),
            out@ == old(out)@ + le_bytes(x).subrange(0, q as int),
        decreases n - q,
    {
        out.push(tmp[q]);
        assert(le_bytes(x).subrange(0, q + 1) =~= le_bytes(x).subrange(0, q as int).push(le_bytes(x)[q as int]));
        q = q + 1;
    }
}

/// Reads `n` bytes at `off` as the low bytes of a little-endian `u64`.
fn read_le_prefix(b: &[u8], off: usize, n: usize) -> (res: u64)
    requires
        n <= 8,
        off + n <= b@.len(),
    ensures
        res == le_value(Seq::new(8, |q: int| if q < n { b@[off + q] } else { 0u8 })),
{
    let _len = b.len();
    let mut buf: Vec<u8> = Vec::new();
    let mut q: usize = 0;
    while q < 8
        invariant
            b@.len() <= usize::MAX,
            q <= 8,
            n <= 8,
            off + n <= b@.len(),
            buf@.len() == q,
            forall|t: int| 0 <= t < q ==> #[trigger] buf@[t] == (if t < n { b@[off + t] } else { 0u8 }),
        decreases 8 - q,
    {
        if q < n {
            buf.push(b[off + q]);
        } else {
            buf.push(0u8);
        }
        q = q + 1;
    }
    assert(buf@.subrange(0, 8) =~= Seq::new(8, |q: int| if q < n { b@[off + q] } else { 0u8 }));
    read_le_u64(buf.as_slice(), 0)
}

/// Serializes a filter into its wire format.
pub fn encode_filter(filter: &RibbonFilter) -> (res: Vec<u8>)
    requires
        filter.wf(),
    ensures
        res@ == spec_encode(filter.spec_params(), filter.spec_z()),
{
    proof {
        filter.lemma_wf();
    }
    let p = filter.params();
    let z_raw = filter.z_raw();
    let m = p.m;
    let r = p.r;
    let stride = p.fingerprint_words();
    let ghost z = z_raw@;
    let ghost ri = r as int;
    let _zl = z_raw.len();
    proof {
        assert(m * stride * 64 <= usize::MAX as int / 8) by (nonlinear_arith)
            requires
                z.len() == m * stride,
                z.len() * 64 <= usize::MAX as int / 8,
        ;
        lemma_row_layout(ri);
        assert(m * spec_row_bytes(ri) <= m * stride * 8) by (nonlinear_arith)
            requires
                spec_row_bytes(ri) <= 8 * stride,
                m >= 0,
        ;
        assert(m * stride * 8 <= usize::MAX) by (nonlinear_arith)
            requires
                m * stride * 64 <= usize::MAX as int / 8,
                m >= 0,
                stride >= 0,
        ;
    }
    let bytes_per_row = r / 8 + if r % 8 == 0 { 0 } else { 1 };
    let packed_len = m * bytes_per_row;
    let mut bytes: Vec<u8> = Vec::new();
    push_le_u64(&mut bytes, m as u64);
    push_le_u64(&mut bytes, p.w as u64);
    push_le_u64(&mut bytes, r as u64);
    push_le_u64(&mut bytes, p.seed);
    let mode_byte: u8 = match p.mode {
        Mode::Standard => 0u8,
        Mode::Homogeneous => 1u8,
    };
    bytes.push(mode_byte);
    push_le_u64(&mut bytes, packed_len as u64);
    let ghost header = bytes@;
    let mut row_i: usize = 0;
    while row_i < m
        invariant
            row_i <= m,
            r == p.r,
            ri == r,
            ri >= 1,
            m == p.m,
            stride == spec_words(ri),
            bytes_per_row == spec_row_bytes(ri),
            packed_len == m * bytes_per_row,
            m * stride * 64 <= max_bits(),
            z.len() <= usize::MAX,
            z == z_raw@,
            shaped(z, stride as int, m as int),
            bytes@ == header + Seq::new(
                (row_i * bytes_per_row) as nat,
                |k: int| spec_packed_byte(z, ri, k),
            ),
        decreases m - row_i,
    {
        proof {
            lemma_row_len(z, stride as int, m as int, row_i as int);
            assert(row_i * bytes_per_row + bytes_per_row == (row_i + 1) * bytes_per_row) by (nonlinear_arith);
        }
        let base = row_i * stride;
        let mut bits_left = r;
        let mut word_i: usize = 0;
        while bits_left > 0
            invariant
                row_i < m,
                r == p.r,
                ri == r,
                ri >= 1,
                stride == spec_words(ri),
                bytes_per_row == spec_row_bytes(ri),
                base == row_i * stride,
                base + stride <= z.len(),
                z.len() <= usize::MAX,
                z == z_raw@,
                word_i <= stride,
                bits_left == ri - 64 * word_i || (bits_left == 0 && word_i == stride),
                bits_left > 0 ==> word_i < stride,
                bits_left == 0 ==> word_i == stride,
                bytes@ == header + Seq::new(
                    (row_i * bytes_per_row + if bits_left == 0 { bytes_per_row as int } else { 8 * word_i }) as nat,
                    |k: int| spec_packed_byte(z, ri, k),
                ),
            decreases bits_left,
        {
            let take = if bits_left < 64 { bits_left } else { 64 };
            let take_bytes = take / 8 + if take % 8 == 0 { 0 } else { 1 };
            let word = z_raw[base + word_i];
            let mask = low_mask(take);
            let ghost before = bytes@;
            push_le_prefix(&mut bytes, word & mask, take_bytes);
            proof {
                assert(take == spec_take(ri, word_i as int));
                assert(take_bytes == spec_chunk_bytes(ri, word_i as int));
                let start = row_i * bytes_per_row + 8 * word_i;
                assert forall|k: int| 0 <= k < take_bytes implies #[trigger] spec_packed_byte(z, ri, start + k)
                    == le_bytes(word & mask)[k] by {
                    lemma_packed_index(ri, row_i as int, word_i as int, k);
                }
                if take < 64 || bits_left == 64 {
                    // last chunk of the row
                    assert(word_i == stride - 1);
                }
                let new_len = if bits_left - take == 0 { row_i * bytes_per_row + bytes_per_row } else { start + 8 };
                if bits_left - take != 0 {
                    assert(take == 64 && take_bytes == 8);
                }
                assert(new_len == start + take_bytes);
                assert(before =~= header + Seq::new(start as nat, |k: int| spec_packed_byte(z, ri, k)));
                assert(bytes@ == before + le_bytes(word & mask).subrange(0, take_bytes as int));
                assert forall|k: int| 0 <= k < header.len() + new_len implies #[trigger] bytes@[k] == (header + Seq::new(new_len as nat, |k: int| spec_packed_byte(z, ri, k)))[k] by {
                    if k >= header.len() + start {
                        let kk = k - header.len() - start;
                        assert(spec_packed_byte(z, ri, start + kk) == le_bytes(word & mask)[kk]);
                    }
                }
                assert(bytes@ =~= header + Seq::new(new_len as nat, |k: int| spec_packed_byte(z, ri, k)));
            }
            bits_left = bits_left - take;
            word_i = word_i + 1;
        }
        row_i = row_i + 1;
    }
    assert(bytes@ =~= spec_encode(p, z));
    bytes
}


/// Reconstructs a filter from the wire format written by [`encode_filter`].
pub fn reconstruct_filter_from_bytes(bytes: &[u8]) -> (res: Option<RibbonFilter>)
    requires
        spec_decode_fits(bytes@),
    ensures
        match spec_decode(bytes@) {
            None => res is None,
            Some((p, z)) => res matches Some(f) && f.spec_params() == p && f.spec_z() == z && f.wf(),
        },
{
    let len = bytes.len();
    if len < HEADER_LEN {
        return None;
    }
    let m = read_le_u64(bytes, 0) as usize;
    let w = read_le_u64(bytes, 8) as usize;
    let r = read_le_u64(bytes, 16) as usize;
    let seed = read_le_u64(bytes, 24);
    let mode = if bytes[32] == 0 {
        Mode::Standard
    } else {
        Mode::Homogeneous
    };
    let packed_len = read_le_u64(bytes, 33) as usize;
    assert(m == spec_header_m(bytes@) && r == spec_header_r(bytes@) && packed_len == spec_header_packed(bytes@));
    if len < HEADER_LEN + packed_len {
        return None;
    }
    let ghost b = bytes@;
    let ghost ri = r as int;
    let stride = r / 64 + if r % 64 == 0 { 0 } else { 1 };
    let bytes_per_row = r / 8 + if r % 8 == 0 { 0 } else { 1 };
    assert(stride == spec_words(ri));
    assert(m * stride <= usize::MAX) by (nonlinear_arith)
        requires
            m * stride * 64 <= usize::MAX as int / 8,
            m >= 0,
            stride >= 0,
    ;
    let mut z_raw: Vec<u64> = vec![0u64; m * stride];
    let ghost target = Seq::new((m * stride) as nat, |k: int| spec_chunk_value(b, 41, ri, k / stride as int, k % stride as int));
    let mut off: usize = HEADER_LEN;
    let mut row_i: usize = 0;
    while row_i < m
        invariant
            b == bytes@,
            len == b.len(),
            row_i <= m,
            r == ri,
            stride == spec_words(ri),
            bytes_per_row == spec_row_bytes(ri),
            z_raw@.len() == m * stride,
            m * stride <= usize::MAX,
            off == 41 + row_i * bytes_per_row,
            off <= len,
            forall|k: int| 0 <= k < row_i * stride ==> #[trigger] z_raw@[k] == target[k],
            m == spec_header_m(b),
            ri == spec_header_r(b),
            len >= 41 + spec_header_packed(b),
            len >= 41,
            target == Seq::new((m * stride) as nat, |k: int| spec_chunk_value(b, 41, ri, k / stride as int, k % stride as int)),
        decreases m - row_i,
    {
        proof {
            assert(row_i * stride + stride == (row_i + 1) * stride) by (nonlinear_arith);
            assert((row_i + 1) * stride <= m * stride) by (nonlinear_arith)
                requires
                    row_i < m,
                    stride >= 0,
            ;
            assert(row_i * bytes_per_row + bytes_per_row == (row_i + 1) * bytes_per_row) by (nonlinear_arith);
            if ri >= 1 {
                lemma_row_layout(ri);
            }
        }
        let base = row_i * stride;
        let mut bits_left = r;
        let mut word_i: usize = 0;
        while bits_left > 0
            invariant
                b == bytes@,
                len == b.len(),
                row_i < m,
                r == ri,
                ri >= 1 ==> spec_row_bytes(ri) == 8 * (spec_words(ri) - 1) + spec_chunk_bytes(ri, spec_words(ri) - 1),
                ri >= 1 ==> forall|j: int| 0 <= j < spec_words(ri) - 1 ==> #[trigger] spec_take(ri, j) == 64,
                stride == spec_words(ri),
                bytes_per_row == spec_row_bytes(ri),
                base == row_i * stride,
                base + stride <= m * stride,
                z_raw@.len() == m * stride,
                m * stride <= usize::MAX,
                word_i <= stride,
                bits_left == ri - 64 * word_i || (bits_left == 0 && word_i == stride),
                bits_left > 0 ==> word_i < stride,
                bits_left == 0 ==> word_i == stride,
                off == 41 + row_i * bytes_per_row + if bits_left == 0 { bytes_per_row as int } else { 8 * word_i },
                off <= len,
                forall|k: int| 0 <= k < base + word_i ==> #[trigger] z_raw@[k] == target[k],
                m == spec_header_m(b),
                ri == spec_header_r(b),
                len >= 41 + spec_header_packed(b),
                len >= 41,
                target == Seq::new((m * stride) as nat, |k: int| spec_chunk_value(b, 41, ri, k / stride as int, k % stride as int)),
            decreases bits_left,
        {
            let take = if bits_left < 64 { bits_left } else { 64 };
            let take_bytes = take / 8 + if take % 8 == 0 { 0 } else { 1 };
            assert(take == spec_take(ri, word_i as int));
            assert(take_bytes == spec_chunk_bytes(ri, word_i as int));
            if take_bytes > len - off {
                proof {
                    if bits_left - take != 0 {
                        assert(take_bytes == 8);
                    }
                    // the rows would need more bytes than there are
                    assert(off + take_bytes <= 41 + row_i * bytes_per_row + bytes_per_row);
                    assert(41 + (row_i + 1) * bytes_per_row <= 41 + m * bytes_per_row) by (nonlinear_arith)
                        requires
                            row_i < m,
                            bytes_per_row >= 0,
                    ;
                    assert(row_i * bytes_per_row + bytes_per_row == (row_i + 1) * bytes_per_row) by (nonlinear_arith);
                }
                return None;
            }
            let value = read_le_prefix(bytes, off, take_bytes);
            proof {
                let k = base + word_i;
                lemma_fundamental_div_mod_converse_div(k as int, stride as int, row_i as int, word_i as int);
                lemma_fundamental_div_mod_converse_mod(k as int, stride as int, row_i as int, word_i as int);
                assert(k < m * stride);
                let off2 = 41 + row_i * spec_row_bytes(ri) + 8 * word_i;
                assert(off == off2);
                assert(Seq::new(8, |q: int| if q < take_bytes { b[off + q] } else { 0u8 }) =~= Seq::new(
                    8,
                    |q: int| if q < spec_chunk_bytes(ri, word_i as int) { b[off2 + q] } else { 0u8 },
                ));
                assert(value == spec_chunk_value(b, 41, ri, row_i as int, word_i as int));
                assert(value == target[k as int]);
            }
            z_raw.set(base + word_i, value);
            off = off + take_bytes;
            proof {
                if bits_left - take != 0 {
                    assert(take_bytes == 8);
                }
            }
            bits_left = bits_left - take;
            word_i = word_i + 1;
        }
        row_i = row_i + 1;
    }
    proof {
        assert(off == 41 + m * bytes_per_row);
        assert(z_raw@ =~= target);
    }
    let params = match Params::new(m, w, r, mode) {
        Ok(p) => p.with_seed(seed),
        Err(_) => {
            return None;
        },
    };
    proof {
        assert(z_raw@.len() * 64 <= max_bits());
    }
    Some(RibbonFilter::from_raw_parts(params, z_raw))
}


/// A filter whose rows keep only `r` meaningful bits survives the wire format
/// exactly: decoding its encoding yields the same parameters (with the default
/// retry policy) and the same solution words, so it answers every query the same.
pub proof fn lemma_filter_roundtrip(f: RibbonFilter)
    requires
        f.wf(),
        spec_param_error(Params { seed: 0, retry_limit: 1, grow_limit: 0, ..f.spec_params() }) is None,
        forall|i: int|
            0 <= i < f.spec_params().m ==> row_masked(
                #[trigger] row(f.spec_z(), spec_words(f.spec_params().r as int), i),
                spec_last_word_mask(f.spec_params().r as int),
            ),
    ensures
        spec_decode_fits(spec_encode(f.spec_params(), f.spec_z())),
        spec_decode(spec_encode(f.spec_params(), f.spec_z())) == Some(
            (Params { retry_limit: 1, grow_limit: 0, ..f.spec_params() }, f.spec_z()),
        ),
        forall|key: Seq<char>|
            spec_satisfies(Params { retry_limit: 1, grow_limit: 0, ..f.spec_params() }, f.spec_z(), key)
                == #[trigger] f.spec_contains(key),
{
    f.lemma_wf();
    let p = f.spec_params();
    let z = f.spec_z();
    let m = p.m as int;
    let r = p.r as int;
    let stride = spec_words(r);
    let bpr = spec_row_bytes(r);
    let e = spec_encode(p, z);
    lemma_row_layout(r);
    assert(m * bpr <= m * stride * 8) by (nonlinear_arith)
        requires
            bpr <= 8 * stride,
            m >= 0,
    ;
    assert(m * stride * 8 <= usize::MAX as int / 8) by (nonlinear_arith)
        requires
            m * stride * 64 <= usize::MAX as int / 8,
            m >= 0,
            stride >= 0,
    ;
    let packed = m * bpr;
    lemma_le_roundtrip(p.m as u64);
    lemma_le_roundtrip(p.w as u64);
    lemma_le_roundtrip(p.r as u64);
    lemma_le_roundtrip(p.seed);
    lemma_le_roundtrip(packed as u64);
    assert(e.subrange(0, 8) =~= le_bytes(p.m as u64));
    assert(e.subrange(8, 16) =~= le_bytes(p.w as u64));
    assert(e.subrange(16, 24) =~= le_bytes(p.r as u64));
    assert(e.subrange(24, 32) =~= le_bytes(p.seed));
    assert(e[32] == spec_mode_byte(p.mode));
    assert(e.subrange(33, 41) =~= le_bytes(packed as u64));
    assert(e.len() == 41 + packed);
    assert(spec_header_m(e) == m);
    assert(spec_header_r(e) == r);
    assert(spec_header_packed(e) == packed);
    let dz = Seq::new((m * stride) as nat, |k: int| spec_chunk_value(e, 41, r, k / stride, k % stride));
    assert forall|k: int| 0 <= k < m * stride implies #[trigger] dz[k] == z[k] by {
        lemma_roundtrip_word(p, z, e, k);
    }
    assert(dz =~= z);
}


/// Word `k` of the solution is read back from the encoding unchanged.
proof fn lemma_roundtrip_word(p: Params, z: Seq<u64>, e: Seq<u8>, k: int)
    requires
        p.r >= 1,
        shaped(z, spec_words(p.r as int), p.m as int),
        e == spec_encode(p, z),
        0 <= k < p.m * spec_words(p.r as int),
        forall|i: int|
            0 <= i < p.m ==> row_masked(
                #[trigger] row(z, spec_words(p.r as int), i),
                spec_last_word_mask(p.r as int),
            ),
    ensures
        spec_chunk_value(e, 41, p.r as int, k / spec_words(p.r as int), k % spec_words(p.r as int)) == z[k],
{
    let m = p.m as int;
    let r = p.r as int;
    let stride = spec_words(r);
    let bpr = spec_row_bytes(r);
    let packed = m * bpr;
    lemma_row_layout(r);
    let i = k / stride;
    let j = k % stride;
    lemma_fundamental_div_mod(k, stride);
    assert(k == i * stride + j) by (nonlinear_arith)
        requires
            k == stride * i + j,
    ;
    assert(0 <= i < m) by (nonlinear_arith)
        requires
            0 <= k < m * stride,
            stride >= 1,
            i == k / stride,
    ;
    let tb = spec_chunk_bytes(r, j);
    let take = spec_take(r, j);
    let y = z[k] & spec_low_mask(take);
    let off = 41 + i * bpr + 8 * j;
    assert(e.len() == 41 + packed);
    assert forall|q: int| 0 <= q < tb implies #[trigger] e[off + q] == le_bytes(y)[q] by {
        lemma_packed_index(r, i, j, q);
        assert(8 * j + q < bpr);
        assert(i * bpr + bpr <= m * bpr) by (nonlinear_arith)
            requires
                0 <= i < m,
                bpr >= 0,
        ;
    }
    assert(Seq::new(8, |q: int| if q < tb { e[off + q] } else { 0u8 }) =~= Seq::new(
        8,
        |q: int| if q < (take + 7) / 8 { le_bytes(y)[q] } else { 0u8 },
    ));
    lemma_prefix_roundtrip(z[k], take);
    if j < stride - 1 {
        let x = z[k];
        assert(x & u64::MAX == x) by (bit_vector);
    } else {
        lemma_row_len(z, stride, m, i);
        assert(row(z, stride, i)[stride - 1] == z[k]);
    }
}

/// The encoding of a filter built for `keys` decodes to parameters and words
/// that satisfy every key: the receiver's copy has no false negatives.
pub proof fn lemma_built_bytes_hold_keys(f: RibbonFilter, p: Params, keys: Seq<String>, g: nat, t: nat)
    requires
        spec_valid(p),
        built_by_attempt(f, p, keys, g, t),
    ensures
        spec_decode_fits(spec_encode(f.spec_params(), f.spec_z())),
        spec_decode(spec_encode(f.spec_params(), f.spec_z())) matches Some((q, z)) && q.w == p.w && q.r == p.r
            && q.mode == p.mode && spec_encode(f.spec_params(), f.spec_z()).len() == 41 + q.m * spec_row_bytes(
            q.r as int,
        ) && (forall|k: int| 0 <= k < keys.len() ==> #[trigger] spec_satisfies(q, z, keys[k]@)),
{
    f.lemma_wf();
    assert(spec_param_error(Params { seed: 0, retry_limit: 1, grow_limit: 0, ..f.spec_params() }) is None);
    lemma_filter_roundtrip(f);
    let q = Params { retry_limit: 1, grow_limit: 0, ..f.spec_params() };
    assert forall|k: int| 0 <= k < keys.len() implies #[trigger] spec_satisfies(q, f.spec_z(), keys[k]@) by {
        assert(f.spec_contains(keys[k]@));
    }
}

/// Filter bytes round trip: the bytes `build_filter_bytes` sends for `keys`
/// (the encoding of the filter `build` makes under `base` and `seed`) can be
/// read, and the filter `reconstruct_filter_from_bytes` rebuilds from them
/// keeps the width, fingerprint size and mode of `base`, has `m` rows of
/// `spec_row_bytes(r)` bytes after the 41-byte header, and answers yes for
/// every key: the receiver's copy has no false negatives.
pub proof fn lemma_filter_bytes_roundtrip(base: Params, keys: Seq<String>, seed: u64, bytes: Seq<u8>, f: RibbonFilter)
    requires
        spec_valid(base),
        exists|b: RibbonFilter|
            #[trigger] built_by_first_solvable_attempt(b, Params { seed, ..base }, keys) && bytes == spec_encode(
                b.spec_params(),
                b.spec_z(),
            ),
        spec_decode(bytes) == Some((f.spec_params(), f.spec_z())),
    ensures
        spec_decode_fits(bytes),
        f.spec_params().w == base.w,
        f.spec_params().r == base.r,
        f.spec_params().mode == base.mode,
        bytes.len() == 41 + f.spec_params().m * spec_row_bytes(f.spec_params().r as int),
        forall|k: int| 0 <= k < keys.len() ==> #[trigger] f.spec_contains(keys[k]@),
{
    let params = Params { seed, ..base };
    let b = choose|b: RibbonFilter|
        #[trigger] built_by_first_solvable_attempt(b, params, keys) && bytes == spec_encode(b.spec_params(), b.spec_z());
    let (g, t) = choose|g: nat, t: nat| #[trigger] built_by_attempt(b, params, keys, g, t) && earlier_unsolvable(params, keys, g, t);
    assert(spec_valid(params));
    lemma_built_bytes_hold_keys(b, params, keys, g, t);
    assert forall|k: int| 0 <= k < keys.len() implies #[trigger] f.spec_contains(keys[k]@) by {
        let (q, z) = spec_decode(bytes).unwrap();
        assert(spec_satisfies(q, z, keys[k]@));
    }
}

/// Builds a ribbon filter over `keys` with the parameters `base` under a fresh
/// random seed, and encodes it. Returns the bytes and the seed, or `None` when
/// the parameters are invalid, when an attempt would not fit the machine, or
/// when no attempt under the drawn seed has a solution for the keys.
pub fn build_filter_bytes(base: Params, keys: &[String]) -> (res: Option<(Vec<u8>, u64)>)
    ensures
        res matches Some((bytes, seed)) ==> exists|f: RibbonFilter|
            #[trigger] built_by_first_solvable_attempt(f, Params { seed, ..base }, keys@) && bytes@ == spec_encode(
                f.spec_params(),
                f.spec_z(),
            ),
        !spec_valid(base) ==> res is None,
        spec_valid(base) && !spec_build_fits(base) ==> res is None,
        res is None && spec_valid(base) && spec_build_fits(base) ==> exists|seed: u64|
            #[trigger] all_attempts_unsolvable(Params { seed, ..base }, keys@),
        res matches Some((bytes, seed)) ==> spec_decode_fits(bytes@) && (spec_decode(bytes@) matches Some(
            (q, z),
        ) && q.w == base.w && q.r == base.r && q.mode == base.mode && bytes@.len() == 41 + q.m
            * spec_row_bytes(q.r as int) && (forall|k: int|
            0 <= k < keys@.len() ==> #[trigger] spec_satisfies(q, z, keys@[k]@))),
{
    let seed = random_u64();
    let params = base.with_seed(seed);
    let builder = match RibbonBuilder::new(params) {
        Ok(b) => b,
        Err(_) => {
            return None;
        },
    };
    if !build_fits(&params) {
        return None;
    }
    proof {
        lemma_fits_for(params, keys@);
    }
    match builder.build(keys) {
        Ok(filter) => {
            proof {
                let (g, t) = choose|g: nat, t: nat| #[trigger] built_by_attempt(filter, params, keys@, g, t);
                assert(filter.wf());
                lemma_built_bytes_hold_keys(filter, params, keys@, g, t);
            }
            let bytes = encode_filter(&filter);
            Some((bytes, seed))
        },
        Err(_) => {
            assert(all_attempts_unsolvable(Params { seed, ..base }, keys@));
            None
        },
    }
}

} // verus!
