//! Deterministic fixed-point vector arithmetic.
//!
//! Values travel as the raw bits of `substrate_fixed` numbers: an `I32F32`
//! is an `i64` holding `value * 2^32`, an `I64F64` is an `i128` holding
//! `value * 2^64`. Products, quotients and conversions go through
//! `substrate_fixed`; sums are sums of the bits, as in `substrate_fixed`.

use substrate_fixed::types::{I32F32, I64F64};
use vstd::prelude::*;

verus! {

/// `1.0` as the bits of an `I32F32`.
pub open spec fn one32() -> int {
    0x1_0000_0000
}

/// `1.0` as the bits of an `I64F64`.
pub open spec fn one64() -> int {
    0x1_0000_0000_0000_0000
}

/// Sum of the first `n` entries of `s`.
pub open spec fn sum_to(s: Seq<int>, n: int) -> int
    decreases n,
{
    if n <= 0 {
        0
    } else {
        sum_to(s, n - 1) + s[n - 1]
    }
}

/// Sum of all entries of `s`.
pub open spec fn total(s: Seq<int>) -> int {
    sum_to(s, s.len() as int)
}

pub open spec fn ints128(v: Seq<i128>) -> Seq<int> {
    Seq::new(v.len(), |i: int| v[i] as int)
}

pub open spec fn ints64(v: Seq<i64>) -> Seq<int> {
    Seq::new(v.len(), |i: int| v[i] as int)
}

pub open spec fn ints_u64(v: Seq<u64>) -> Seq<int> {
    Seq::new(v.len(), |i: int| v[i] as int)
}

pub open spec fn nonneg(s: Seq<int>) -> bool {
    forall|i: int| 0 <= i < s.len() ==> 0 <= #[trigger] s[i]
}

/// `x` scaled so that its entries sum to `1.0` (`one64()` in bits), each
/// entry rounded down; an all-zero vector stays as it is.
pub open spec fn normalized(x: Seq<int>) -> Seq<int> {
    if total(x) == 0 {
        x
    } else {
        Seq::new(x.len(), |i: int| x[i] * one64() / total(x))
    }
}

// ---------------------------------------------------------------------------
// Lemmas on sums.

pub proof fn lemma_sum_to_monotone(s: Seq<int>, i: int, j: int)
    requires
        nonneg(s),
        0 <= i <= j <= s.len(),
    ensures
        0 <= sum_to(s, i) <= sum_to(s, j),
    decreases j,
{
    if i < j {
        lemma_sum_to_monotone(s, i, j - 1);
        assert(0 <= s[j - 1]);
    } else if i > 0 {
        lemma_sum_to_monotone(s, i - 1, i - 1);
        assert(0 <= s[i - 1]);
    }
}

/// One entry of a non-negative vector is at most its total.
pub proof fn lemma_entry_le_total(s: Seq<int>, k: int)
    requires
        nonneg(s),
        0 <= k < s.len(),
    ensures
        s[k] <= total(s),
{
    lemma_sum_to_monotone(s, 0, k);
    lemma_sum_to_monotone(s, k + 1, s.len() as int);
}

/// A non-negative vector whose total is zero is all zero.
pub proof fn lemma_zero_total(s: Seq<int>)
    requires
        nonneg(s),
        total(s) == 0,
    ensures
        forall|k: int| 0 <= k < s.len() ==> #[trigger] s[k] == 0,
{
    assert forall|k: int| 0 <= k < s.len() implies #[trigger] s[k] == 0 by {
        lemma_entry_le_total(s, k);
    }
}

/// If each `g[i] * d` is at most `a[i] * c`, so are the sums.
pub proof fn lemma_sum_scaled_le(a: Seq<int>, g: Seq<int>, c: int, d: int, n: int)
    requires
        0 <= n <= a.len(),
        n <= g.len(),
        forall|i: int| 0 <= i < n ==> #[trigger] g[i] * d <= a[i] * c,
    ensures
        sum_to(g, n) * d <= sum_to(a, n) * c,
    decreases n,
{
    if n > 0 {
        lemma_sum_scaled_le(a, g, c, d, n - 1);
        let gs = sum_to(g, n - 1);
        let as_ = sum_to(a, n - 1);
        assert(g[n - 1] * d <= a[n - 1] * c);
        assert((gs + g[n - 1]) * d <= (as_ + a[n - 1]) * c) by (nonlinear_arith)
            requires
                gs * d <= as_ * c,
                g[n - 1] * d <= a[n - 1] * c,
        ;
    }
}

/// If each `a[i] * c` is below `(g[i] + 1) * d`, then `sum(a) * c` is at
/// most `(sum(g) + n) * d`.
pub proof fn lemma_sum_scaled_ge(a: Seq<int>, g: Seq<int>, c: int, d: int, n: int)
    requires
        0 <= n <= a.len(),
        n <= g.len(),
        forall|i: int| 0 <= i < n ==> #[trigger] a[i] * c < (g[i] + 1) * d,
    ensures
        sum_to(a, n) * c <= (sum_to(g, n) + n) * d,
    decreases n,
{
    if n > 0 {
        lemma_sum_scaled_ge(a, g, c, d, n - 1);
        let gs = sum_to(g, n - 1);
        let as_ = sum_to(a, n - 1);
        assert(a[n - 1] * c < (g[n - 1] + 1) * d);
        assert((as_ + a[n - 1]) * c <= (gs + g[n - 1] + n) * d) by (nonlinear_arith)
            requires
                as_ * c <= (gs + (n - 1)) * d,
                a[n - 1] * c < (g[n - 1] + 1) * d,
        ;
        assert(sum_to(a, n) == as_ + a[n - 1]);
        assert(sum_to(g, n) == gs + g[n - 1]);
    } else {
        assert(sum_to(a, n) * c == 0) by (nonlinear_arith)
            requires
                sum_to(a, n) == 0,
        ;
        assert((sum_to(g, n) + n) * d == 0) by (nonlinear_arith)
            requires
                sum_to(g, n) == 0,
                n == 0,
        ;
    }
}

// ---------------------------------------------------------------------------
// Calls into substrate_fixed, on raw bits.

/// Relies on `I64F64::from_num` for a `u64`: the conversion is exact, so the
/// bits are `x * 2^64`; values from `2^63` on do not fit and are excluded.
#[verifier::external_body]
fn fx64_from_u64(x: u64) -> (r: i128)
    requires
        x < 0x8000_0000_0000_0000u64,
    ensures
        r as int == x as int * one64(),
{
    I64F64::from_num(x).to_bits()
}

/// Relies on `I32F32::from_num` for a `u16`: the conversion is exact, so the
/// bits are `x * 2^32`.
#[verifier::external_body]
pub(crate) fn fx32_from_u16(x: u16) -> (r: i64)
    ensures
        r as int == x as int * one32(),
{
    I32F32::from_num(x).to_bits()
}

/// Relies on `I64F64` division (`Div`): the quotient's bits are
/// `a * 2^64 / b` truncated, which is rounding down for the non-negative
/// operands admitted here; the quotient is at most `1.0`, so it fits.
#[verifier::external_body]
fn fx64_div(a: i128, b: i128) -> (r: i128)
    requires
        0 <= a <= b,
        0 < b,
    ensures
        r as int == a as int * one64() / b as int,
{
    (I64F64::from_bits(a) / I64F64::from_bits(b)).to_bits()
}

/// Relies on `I64F64` multiplication (`Mul`): the full product of the bits
/// shifted right by 64, which rounds down for non-negative operands.
#[verifier::external_body]
fn fx64_mul(a: i128, b: i128) -> (r: i128)
    requires
        0 <= a,
        0 <= b,
        a as int * b as int / one64() < 0x8000_0000_0000_0000_0000_0000_0000_0000,
    ensures
        r as int == a as int * b as int / one64(),
{
    (I64F64::from_bits(a) * I64F64::from_bits(b)).to_bits()
}

/// Relies on `I32F32` multiplication (`Mul`): the product of the bits,
/// widened to 128 bits and shifted right by 32, which rounds down for
/// non-negative operands.
#[verifier::external_body]
fn fx32_mul(a: i64, b: i64) -> (r: i64)
    requires
        0 <= a,
        0 <= b,
        a as int * b as int / one32() < 0x8000_0000_0000_0000,
    ensures
        r as int == a as int * b as int / one32(),
{
    (I32F32::from_bits(a) * I32F32::from_bits(b)).to_bits()
}

/// Relies on `I32F32::from_num` of an `I64F64`: the 32 dropped fraction bits
/// are truncated, which rounds down for a non-negative value; the integer
/// part must fit in 32 bits.
#[verifier::external_body]
fn fx64_to_fx32(a: i128) -> (r: i64)
    requires
        0 <= a,
        a as int / one32() < 0x8000_0000_0000_0000,
    ensures
        r as int == a as int / one32(),
{
    I32F32::from_num(I64F64::from_bits(a)).to_bits()
}

/// Relies on `I64F64::from_num` of an `I32F32`: exact, the bits gain 32
/// fraction bits.
#[verifier::external_body]
fn fx32_to_fx64(a: i64) -> (r: i128)
    ensures
        r as int == a as int * one32(),
{
    I64F64::from_num(I32F32::from_bits(a)).to_bits()
}

/// Relies on `I64F64::to_num::<u64>`: the fraction is truncated, which
/// rounds down for a non-negative value; the integer part of any
/// non-negative `I64F64` fits in a `u64`.
#[verifier::external_body]
fn fx64_to_u64(a: i128) -> (r: u64)
    requires
        0 <= a,
    ensures
        r as int == a as int / one64(),
{
    I64F64::from_bits(a).to_num::<u64>()
}

// ---------------------------------------------------------------------------
// Vector operations.

/// Each `u64` as an `I64F64`.
pub fn vec_u64_to_fixed64(v: &Vec<u64>) -> (r: Vec<i128>)
    requires
        forall|i: int| 0 <= i < v@.len() ==> #[trigger] v@[i] < 0x8000_0000_0000_0000u64,
    ensures
        r@.len() == v@.len(),
        forall|i: int| 0 <= i < v@.len() ==> #[trigger] r@[i] as int == v@[i] as int * one64(),
{
    let mut r: Vec<i128> = Vec::new();
    let mut i: usize = 0;
    while i < v.len()
        invariant
            i <= v@.len(),
            r@.len() == i,
            forall|i: int| 0 <= i < v@.len() ==> #[trigger] v@[i] < 0x8000_0000_0000_0000u64,
            forall|k: int| 0 <= k < i ==> #[trigger] r@[k] as int == v@[k] as int * one64(),
        decreases v@.len() - i,
    {
        r.push(fx64_from_u64(v[i]));
        i = i + 1;
    }
    r
}

/// Scales `x` so that it sums to `1.0`, each entry rounded down; leaves an
/// all-zero `x` as it is.
pub fn inplace_normalize_64(x: &mut Vec<i128>)
    requires
        nonneg(ints128(old(x)@)),
        total(ints128(old(x)@)) < 0x8000_0000_0000_0000_0000_0000_0000_0000,
    ensures
        ints128(final(x)@) == normalized(ints128(old(x)@)),
{
    let ghost x0 = ints128(x@);
    let n = x.len();
    let mut sum: i128 = 0;
    let mut i: usize = 0;
    while i < n
        invariant
            n == x.len(),
            i <= n,
            x0 == ints128(x@),
            nonneg(x0),
            total(x0) < 0x8000_0000_0000_0000_0000_0000_0000_0000,
            sum as int == sum_to(x0, i as int),
        decreases n - i,
    {
        proof {
            lemma_sum_to_monotone(x0, i as int + 1, n as int);
        }
        assert(x0[i as int] == x@[i as int] as int);
        sum = sum + x[i];
        i = i + 1;
    }
    proof {
        lemma_sum_to_monotone(x0, 0, n as int);
    }
    if sum == 0 {
        return;
    }
    i = 0;
    while i < n
        invariant
            n == x.len(),
            n == x0.len(),
            i <= n,
            nonneg(x0),
            sum as int == total(x0),
            0 < sum,
            forall|k: int| 0 <= k < i ==> x@[k] as int == x0[k] * one64() / total(x0),
            forall|k: int| i <= k < n ==> x@[k] as int == x0[k],
        decreases n - i,
    {
        proof {
            lemma_entry_le_total(x0, i as int);
        }
        let q = fx64_div(x[i], sum);
        x.set(i, q);
        i = i + 1;
    }
    assert(ints128(x@) =~= normalized(x0));
}

/// Narrows each `I64F64` to an `I32F32`, rounding down.
pub fn vec_fixed64_to_fixed32(v: Vec<i128>) -> (r: Vec<i64>)
    requires
        forall|i: int| 0 <= i < v@.len() ==> 0 <= #[trigger] v@[i] < 0x8000_0000_0000_0000_0000_0000,
    ensures
        r@.len() == v@.len(),
        forall|i: int| 0 <= i < v@.len() ==> #[trigger] r@[i] as int == v@[i] as int / one32(),
{
    let mut r: Vec<i64> = Vec::new();
    let mut i: usize = 0;
    while i < v.len()
        invariant
            i <= v@.len(),
            r@.len() == i,
            forall|i: int| 0 <= i < v@.len() ==> 0 <= #[trigger] v@[i] < 0x8000_0000_0000_0000_0000_0000,
            forall|k: int| 0 <= k < i ==> #[trigger] r@[k] as int == v@[k] as int / one32(),
        decreases v@.len() - i,
    {
        r.push(fx64_to_fx32(v[i]));
        i = i + 1;
    }
    r
}

/// Widens each `I32F32` to an `I64F64`, exactly.
pub fn vec_fixed32_to_fixed64(v: Vec<i64>) -> (r: Vec<i128>)
    ensures
        r@.len() == v@.len(),
        forall|i: int| 0 <= i < v@.len() ==> #[trigger] r@[i] as int == v@[i] as int * one32(),
{
    let mut r: Vec<i128> = Vec::new();
    let mut i: usize = 0;
    while i < v.len()
        invariant
            i <= v@.len(),
            r@.len() == i,
            forall|k: int| 0 <= k < i ==> #[trigger] r@[k] as int == v@[k] as int * one32(),
        decreases v@.len() - i,
    {
        r.push(fx32_to_fx64(v[i]));
        i = i + 1;
    }
    r
}

/// `amount * x[i]` for each fraction `x[i]`, rounded down to whole units.
pub fn vec_fixed64_scale_to_u64(x: &Vec<i128>, amount: u64) -> (r: Vec<u64>)
    requires
        amount < 0x8000_0000_0000_0000u64,
        forall|i: int| 0 <= i < x@.len() ==> 0 <= #[trigger] x@[i] <= one64(),
    ensures
        r@.len() == x@.len(),
        forall|i: int| 0 <= i < x@.len() ==> #[trigger] r@[i] as int == amount as int * x@[i] as int / one64(),
{
    let a = fx64_from_u64(amount);
    let mut r: Vec<u64> = Vec::new();
    let mut i: usize = 0;
    while i < x.len()
        invariant
            i <= x@.len(),
            r@.len() == i,
            a as int == amount as int * one64(),
            amount < 0x8000_0000_0000_0000u64,
            forall|i: int| 0 <= i < x@.len() ==> 0 <= #[trigger] x@[i] <= one64(),
            forall|k: int| 0 <= k < i ==> #[trigger] r@[k] as int == amount as int * x@[k] as int / one64(),
        decreases x@.len() - i,
    {
        let xi = x[i];
        assert(a as int * xi as int / one64() == amount as int * xi as int) by (nonlinear_arith)
            requires
                a as int == amount as int * one64(),
                one64() > 0,
        ;
        assert(amount as int * xi as int <= (0x8000_0000_0000_0000 - 1) * one64()) by (nonlinear_arith)
            requires
                0 <= xi as int <= one64(),
                0 <= amount < 0x8000_0000_0000_0000,
        ;
        let p = fx64_mul(a, xi);
        assert(p as int == amount as int * xi as int);
        r.push(fx64_to_u64(p));
        i = i + 1;
    }
    r
}

/// Every normalized vector sums to `1.0` up to one unit of rounding per
/// entry; a vector that sums to zero is all zero and stays so.
pub proof fn lemma_normalized_total(x: Seq<int>)
    requires
        nonneg(x),
    ensures
        total(x) == 0 ==> forall|k: int| 0 <= k < x.len() ==> #[trigger] normalized(x)[k] == 0,
        total(x) > 0 ==> one64() - x.len() <= total(normalized(x)) <= one64(),
{
    lemma_sum_to_monotone(x, 0, x.len() as int);
    if total(x) == 0 {
        lemma_zero_total(x);
    } else {
        let t = total(x);
        let g = normalized(x);
        assert forall|i: int| 0 <= i < x.len() implies #[trigger] g[i] * t <= x[i] * one64()
            && x[i] * one64() < (g[i] + 1) * t by {
            let q = x[i] * one64() / t;
            assert(g[i] == q);
            assert(q * t <= x[i] * one64() && x[i] * one64() < (q + 1) * t) by (nonlinear_arith)
                requires
                    q == x[i] * one64() / t,
                    t > 0,
            ;
        }
        lemma_sum_scaled_le(x, g, one64(), t, x.len() as int);
        lemma_sum_scaled_ge(x, g, one64(), t, x.len() as int);
        let gs = total(g);
        let n = x.len() as int;
        assert(gs <= one64()) by (nonlinear_arith)
            requires
                gs * t <= t * one64(),
                t > 0,
        ;
        assert(one64() - n <= gs) by (nonlinear_arith)
            requires
                t * one64() <= (gs + n) * t,
                t > 0,
        ;
    }
}

/// A sum of `n` entries, each at most `b`, is at most `n * b`.
pub proof fn lemma_sum_le_bound(s: Seq<int>, b: int, n: int)
    requires
        0 <= n <= s.len(),
        forall|i: int| 0 <= i < n ==> #[trigger] s[i] <= b,
    ensures
        sum_to(s, n) <= n * b,
    decreases n,
{
    if n > 0 {
        lemma_sum_le_bound(s, b, n - 1);
        assert((n - 1) * b + b == n * b) by (nonlinear_arith);
    } else {
        assert(n * b == 0) by (nonlinear_arith)
            requires
                n == 0,
        ;
    }
}

/// The entries of a normalized non-negative vector lie in `[0, 1.0]` and
/// sum to at most `1.0`.
pub proof fn lemma_normalized_entries(x: Seq<int>)
    requires
        nonneg(x),
    ensures
        normalized(x).len() == x.len(),
        nonneg(normalized(x)),
        forall|i: int| 0 <= i < x.len() ==> #[trigger] normalized(x)[i] <= one64(),
        total(normalized(x)) <= one64(),
{
    lemma_normalized_total(x);
    lemma_sum_to_monotone(x, 0, x.len() as int);
    let t = total(x);
    if t == 0 {
        lemma_sum_le_bound(x, 0, x.len() as int);
    } else {
        assert forall|i: int| 0 <= i < x.len() implies 0 <= #[trigger] normalized(x)[i] <= one64() by {
            lemma_entry_le_total(x, i);
            let a = x[i];
            assert(0 <= a * one64() / t <= one64()) by (nonlinear_arith)
                requires
                    0 <= a <= t,
                    t > 0,
            ;
        }
    }
}

/// The rows of a matrix as sequences of integers.
pub open spec fn rows_int(m: Seq<Vec<i64>>) -> Seq<Seq<int>> {
    Seq::new(m.len(), |i: int| ints64(m[i]@))
}

/// The `I32F32` products `w[i][j] * s[i]` down column `j`, each rounded
/// down.
pub open spec fn column_terms(w: Seq<Seq<int>>, s: Seq<int>, j: int) -> Seq<int> {
    Seq::new(s.len(), |i: int| w[i][j] * s[i] / one32())
}

/// `rank[j] = sum over i of matrix[i][j] * vector[i]` for the `k` columns of
/// the matrix; a matrix without rows gives `k` zeros.
pub fn matmul(matrix: &Vec<Vec<i64>>, vector: &Vec<i64>, k: usize) -> (r: Vec<i64>)
    requires
        matrix@.len() == vector@.len(),
        forall|i: int| 0 <= i < matrix@.len() ==> (#[trigger] matrix@[i])@.len() == k,
        forall|i: int, j: int|
            0 <= i < matrix@.len() && 0 <= j < k ==> 0 <= #[trigger] matrix@[i]@[j],
        forall|i: int| 0 <= i < vector@.len() ==> 0 <= #[trigger] vector@[i],
        forall|j: int|
            0 <= j < k ==> #[trigger] total(column_terms(rows_int(matrix@), ints64(vector@), j))
                < 0x8000_0000_0000_0000,
    ensures
        r@.len() == k,
        forall|j: int|
            0 <= j < k ==> #[trigger] r@[j] as int == total(
                column_terms(rows_int(matrix@), ints64(vector@), j),
            ),
{
    let ghost w = rows_int(matrix@);
    let n = vector.len();
    let mut r: Vec<i64> = Vec::new();
    let mut j: usize = 0;
    while j < k
        invariant
            j <= k,
            r@.len() == j,
            n == vector@.len(),
            w == rows_int(matrix@),
            matrix@.len() == n,
            forall|i: int| 0 <= i < matrix@.len() ==> (#[trigger] matrix@[i])@.len() == k,
            forall|i: int, j: int|
                0 <= i < matrix@.len() && 0 <= j < k ==> 0 <= #[trigger] matrix@[i]@[j],
            forall|i: int| 0 <= i < vector@.len() ==> 0 <= #[trigger] vector@[i],
            forall|j: int|
                0 <= j < k ==> #[trigger] total(column_terms(w, ints64(vector@), j))
                    < 0x8000_0000_0000_0000,
            forall|jj: int|
                0 <= jj < j ==> #[trigger] r@[jj] as int == total(column_terms(w, ints64(vector@), jj)),
        decreases k - j,
    {
        let ghost ct = column_terms(w, ints64(vector@), j as int);
        assert(nonneg(ct)) by {
            assert forall|i: int| 0 <= i < ct.len() implies 0 <= #[trigger] ct[i] by {
                let a = matrix@[i]@[j as int] as int;
                let b = vector@[i] as int;
                assert(0 <= a);
                assert(0 <= b);
                assert(0 <= a * b / one32()) by (nonlinear_arith)
                    requires
                        0 <= a,
                        0 <= b,
                ;
            }
        }
        let mut acc: i64 = 0;
        let mut i: usize = 0;
        while i < n
            invariant
                i <= n,
                j < k,
                n == vector@.len(),
                matrix@.len() == n,
                w == rows_int(matrix@),
                ct == column_terms(w, ints64(vector@), j as int),
                nonneg(ct),
                total(ct) < 0x8000_0000_0000_0000,
                forall|i: int| 0 <= i < matrix@.len() ==> (#[trigger] matrix@[i])@.len() == k,
                forall|i: int, j: int|
                    0 <= i < matrix@.len() && 0 <= j < k ==> 0 <= #[trigger] matrix@[i]@[j],
                forall|i: int| 0 <= i < vector@.len() ==> 0 <= #[trigger] vector@[i],
                acc as int == sum_to(ct, i as int),
            decreases n - i,
        {
            proof {
                lemma_sum_to_monotone(ct, i as int + 1, n as int);
                lemma_sum_to_monotone(ct, i as int, i as int);
            }
            let row = &matrix[i];
            assert(ct[i as int] == row@[j as int] as int * vector@[i as int] as int / one32());
            assert(w[i as int][j as int] == row@[j as int] as int);
            let t = fx32_mul(row[j], vector[i]);
            acc = acc + t;
            i = i + 1;
        }
        r.push(acc);
        j = j + 1;
    }
    r
}

/// The largest of the first `n` entries of `v`, or zero.
pub open spec fn max_to(v: Seq<u16>, n: int) -> int
    decreases n,
{
    if n <= 0 {
        0
    } else if v[n - 1] as int > max_to(v, n - 1) {
        v[n - 1] as int
    } else {
        max_to(v, n - 1)
    }
}

/// The largest entry of `v`, or zero when `v` is empty.
pub open spec fn max_of(v: Seq<u16>) -> int {
    max_to(v, v.len() as int)
}

/// Rescales `values` so that the largest maps to `65535`, each entry
/// `v * 65535 / max` rounded down; an all-zero or empty input is returned as
/// it is.
pub fn vec_u16_max_upscale_to_u16(values: &Vec<u16>) -> (r: Vec<u16>)
    ensures
        r@.len() == values@.len(),
        max_of(values@) == 0 ==> r@ == values@,
        max_of(values@) > 0 ==> forall|i: int|
            0 <= i < values@.len() ==> #[trigger] r@[i] as int == values@[i] as int * 65535
                / max_of(values@),
{
    let n = values.len();
    let mut m: u16 = 0;
    let mut i: usize = 0;
    while i < n
        invariant
            n == values@.len(),
            i <= n,
            m as int == max_to(values@, i as int),
            forall|k: int| 0 <= k < i ==> values@[k] <= m,
        decreases n - i,
    {
        if values[i] > m {
            m = values[i];
        }
        i = i + 1;
    }
    if m == 0 {
        return values.clone();
    }
    let mut r: Vec<u16> = Vec::new();
    i = 0;
    while i < n
        invariant
            n == values@.len(),
            i <= n,
            r@.len() == i,
            m as int == max_of(values@),
            m > 0,
            forall|k: int| 0 <= k < n ==> values@[k] <= m,
            forall|k: int|
                0 <= k < i ==> #[trigger] r@[k] as int == values@[k] as int * 65535 / (m as int),
        decreases n - i,
    {
        let v = values[i] as u64;
        let mm = m as u64;
        assert((v as int) * 65535 / (mm as int) <= 65535) by (nonlinear_arith)
            requires
                v <= mm,
                mm > 0,
        ;
        let q = v * 65535 / mm;
        r.push(q as u16);
        i = i + 1;
    }
    r
}

} // verus!
