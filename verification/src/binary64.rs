//! The rounding of IEEE 754 binary64 arithmetic, computed exactly on
//! integers: converting an integer, dividing two such values, multiplying
//! the quotient by a third, each rounded to the nearest value with 53
//! significant bits (ties to even), and rounding the product to an integer
//! with halves away from zero, as `round()` followed by a saturating
//! conversion to `u64` does.
use vstd::prelude::*;
use vstd::arithmetic::power2::{
    pow2, lemma2_to64, lemma_pow2_adds, lemma_pow2_pos, lemma_pow2_strictly_increases,
    lemma_pow2_unfold,
};
use vstd::arithmetic::div_mod::{lemma_div_is_ordered, lemma_fundamental_div_mod};

verus! {

/// The number of binary digits of `x`.
pub open spec fn bit_len(x: nat) -> nat
    decreases x,
{
    if x == 0 {
        0
    } else {
        1 + bit_len(x / 2)
    }
}

/// `n / d` rounded to the nearest integer, ties to the even one.
pub open spec fn round_even(n: nat, d: nat) -> nat {
    let q = n / d;
    let r = n % d;
    if 2 * r > d || (2 * r == d && q % 2 == 1) {
        q + 1
    } else {
        q
    }
}

/// `n / d` rounded to the nearest integer, halves rounded up.
pub open spec fn round_half_up(n: nat, d: nat) -> nat {
    n / d + if 2 * (n % d) >= d { 1nat } else { 0nat }
}

/// The nearest binary64 value to the integer `x` is `f64_mant(x) * 2^f64_shift(x)`:
/// `x` itself when it has at most 53 binary digits, otherwise `x` rounded to
/// its 53 leading digits.
pub open spec fn f64_shift(x: nat) -> nat {
    if bit_len(x) <= 53 {
        0
    } else {
        (bit_len(x) - 53) as nat
    }
}

pub open spec fn f64_mant(x: nat) -> nat {
    round_even(x, pow2(f64_shift(x)))
}

/// The nearest binary64 value to the integer `x` (ties to even).
pub open spec fn f64_value(x: nat) -> nat {
    f64_mant(x) * pow2(f64_shift(x))
}

/// The binary exponent used to round `n / d`: the least `s` from `from` on
/// with `n * 2^s >= 2^52 * d` (at most 120), so that `n * 2^s / d` has 53
/// binary digits before the point.
pub open spec fn quot_scale(n: nat, d: nat, from: nat) -> nat
    decreases 120 - from,
{
    if from >= 120 || n * pow2(from) >= pow2(52) * d {
        from
    } else {
        quot_scale(n, d, from + 1)
    }
}

/// `round((i as f64 / m as f64) * d as f64) as u64` for integers `i`, `m`
/// and `d`: the quotient is `a / 2^s`, the binary64 value of `i / m`; the
/// product `a * mant(d) * 2^(shift(d) - s)` is rounded to 53 digits, then to
/// an integer with halves up, and capped at `u64::MAX`.
pub open spec fn scaled_ratio(i: nat, m: nat, d: nat) -> nat {
    if i == 0 {
        0
    } else {
        let fi = f64_value(i);
        let fm = f64_value(m);
        let s = quot_scale(fi, fm, 0);
        let a = round_even(fi * pow2(s), fm);
        let p = a * f64_mant(d);
        let e = f64_shift(p) + f64_shift(d) - s;
        let r = if e >= 0 {
            f64_mant(p) * pow2(e as nat)
        } else {
            round_half_up(f64_mant(p), pow2((-e) as nat))
        };
        if r > u64::MAX {
            u64::MAX as nat
        } else {
            r
        }
    }
}

// ---------------------------------------------------------------------------
// Facts about the definitions
// ---------------------------------------------------------------------------

proof fn lemma_pow2_values()
    ensures
        pow2(52) == 0x10_0000_0000_0000,
        pow2(53) == 0x20_0000_0000_0000,
        pow2(64) == 0x1_0000_0000_0000_0000,
        pow2(116) == 0x10_0000_0000_0000_0000_0000_0000_0000,
        pow2(117) == 0x20_0000_0000_0000_0000_0000_0000_0000,
        pow2(119) == 0x80_0000_0000_0000_0000_0000_0000_0000,
        pow2(120) == 0x100_0000_0000_0000_0000_0000_0000_0000,
        pow2(128) == 0x1_0000_0000_0000_0000_0000_0000_0000_0000,
{
    lemma2_to64();
    lemma_pow2_adds(32, 20);
    lemma_pow2_adds(32, 21);
    lemma_pow2_adds(32, 23);
    lemma_pow2_adds(32, 24);
    lemma_pow2_adds(64, 52);
    lemma_pow2_adds(64, 53);
    lemma_pow2_adds(64, 55);
    lemma_pow2_adds(64, 56);
    lemma_pow2_adds(64, 64);
}

proof fn lemma_pow2_le(a: nat, b: nat)
    requires
        a <= b,
    ensures
        pow2(a) <= pow2(b),
{
    if a < b {
        lemma_pow2_strictly_increases(a, b);
    }
}

/// `x` has `bit_len(x)` binary digits.
pub proof fn lemma_bit_len(x: nat)
    ensures
        x < pow2(bit_len(x)),
        x > 0 ==> bit_len(x) >= 1 && pow2((bit_len(x) - 1) as nat) <= x,
    decreases x,
{
    lemma_pow2_values_small();
    if x > 0 {
        lemma_bit_len(x / 2);
        lemma_pow2_unfold(bit_len(x));
        if x / 2 > 0 {
            lemma_pow2_unfold((bit_len(x) - 1) as nat);
        }
    }
}

proof fn lemma_pow2_values_small()
    ensures
        pow2(0) == 1,
        pow2(1) == 2,
{
    lemma2_to64();
}

/// A number below `2^k` has at most `k` binary digits.
pub proof fn lemma_bit_len_at_most(x: nat, k: nat)
    requires
        x < pow2(k),
    ensures
        bit_len(x) <= k,
{
    lemma_bit_len(x);
    if x > 0 && bit_len(x) > k {
        lemma_pow2_le(k, (bit_len(x) - 1) as nat);
    }
}

proof fn lemma_round_even_bounds(n: nat, d: nat)
    requires
        d > 0,
    ensures
        n / d <= round_even(n, d) <= n / d + 1,
        d == 1 ==> round_even(n, d) == n,
{
}

/// The rounded value of a positive integer has 53 digits at most and is
/// positive.
pub proof fn lemma_f64_mant(x: nat)
    requires
        x > 0,
    ensures
        1 <= f64_mant(x) <= pow2(53),
        f64_shift(x) + 53 >= bit_len(x),
{
    lemma_bit_len(x);
    lemma_pow2_values();
    lemma_pow2_values_small();
    let k = f64_shift(x);
    lemma_pow2_pos(k);
    lemma_round_even_bounds(x, pow2(k));
    if bit_len(x) <= 53 {
        lemma_pow2_le(bit_len(x), 53);
    } else {
        let l = bit_len(x);
        lemma_pow2_adds(53, k);
        lemma_pow2_adds(52, k);
        assert(l == 53 + k);
        let q = pow2(k);
        assert(x / q < pow2(53)) by {
            lemma_fundamental_div_mod(x as int, q as int);
            assert(x < pow2(53) * q);
            assert((x / q) * q <= x) by (nonlinear_arith)
                requires
                    x == q * (x / q) + x % q,
                    x % q >= 0,
            ;
            assert(x / q < pow2(53)) by (nonlinear_arith)
                requires
                    (x / q) * q <= x,
                    x < pow2(53) * q,
                    q > 0,
            ;
        }
        assert(x / q >= 1) by {
            assert(pow2(52) * q <= x);
            assert(q <= x) by (nonlinear_arith)
                requires
                    pow2(52) * q <= x,
                    pow2(52) >= 1,
                    q > 0,
            ;
            lemma_div_is_ordered(q as int, x as int, q as int);
            vstd::arithmetic::div_mod::lemma_div_basics(q as int);
        }
    }
}

/// The binary64 value of an integer below `2^64` is positive (for a positive
/// integer) and at most `2^64`.
pub proof fn lemma_f64_value_u64(x: nat)
    requires
        0 < x < pow2(64),
    ensures
        1 <= f64_value(x) <= pow2(64),
        f64_shift(x) <= 11,
{
    lemma_f64_mant(x);
    lemma_bit_len_at_most(x, 64);
    lemma_pow2_values();
    let k = f64_shift(x);
    lemma_pow2_pos(k);
    lemma_pow2_le(k, 11);
    lemma_pow2_adds(53, 11);
    assert(f64_mant(x) * pow2(k) <= pow2(53) * pow2(11)) by (nonlinear_arith)
        requires
            f64_mant(x) <= pow2(53),
            pow2(k) <= pow2(11),
    ;
    assert(f64_mant(x) * pow2(k) >= 1) by (nonlinear_arith)
        requires
            f64_mant(x) >= 1,
            pow2(k) >= 1,
    ;
}

/// Rounding to the nearest multiple of `d` moves `n` by at most `d / 2`.
proof fn lemma_round_even_error(n: nat, d: nat)
    requires
        d > 0,
    ensures
        2 * (round_even(n, d) * d - n) <= d,
        2 * (n - round_even(n, d) * d) <= d,
{
    lemma_fundamental_div_mod(n as int, d as int);
    let q = n / d;
    let r = n % d;
    assert(n == q * d + r) by (nonlinear_arith)
        requires
            n == d * q + r,
    ;
    if 2 * r > d || (2 * r == d && q % 2 == 1) {
        assert(round_even(n, d) * d == q * d + d) by (nonlinear_arith)
            requires
                round_even(n, d) == q + 1,
        ;
    } else {
        assert(round_even(n, d) * d == q * d);
    }
}

/// Rounding halves up to the nearest multiple of `d` moves `n` by at most
/// `d / 2`.
proof fn lemma_round_half_up_error(n: nat, d: nat)
    requires
        d > 0,
    ensures
        2 * (round_half_up(n, d) * d - n) <= d,
        2 * (n - round_half_up(n, d) * d) <= d,
{
    lemma_fundamental_div_mod(n as int, d as int);
    let q = n / d;
    let r = n % d;
    assert(n == q * d + r) by (nonlinear_arith)
        requires
            n == d * q + r,
    ;
    if 2 * r >= d {
        assert(round_half_up(n, d) * d == q * d + d) by (nonlinear_arith)
            requires
                round_half_up(n, d) == q + 1,
        ;
    } else {
        assert(round_half_up(n, d) * d == q * d);
    }
}

/// An integer with at most 53 binary digits is a binary64 value.
pub proof fn lemma_f64_exact(x: nat)
    requires
        x < pow2(53),
    ensures
        f64_shift(x) == 0,
        f64_mant(x) == x,
        f64_value(x) == x,
{
    lemma_bit_len_at_most(x, 53);
    lemma_pow2_values_small();
    lemma_round_even_bounds(x, 1);
}

/// The binary64 value of a positive integer is within a relative `2^-53`
/// of it.
pub proof fn lemma_f64_relative_error(x: nat)
    requires
        x > 0,
    ensures
        pow2(53) * (f64_value(x) - x) <= x,
        pow2(53) * (x - f64_value(x)) <= x,
{
    lemma_pow2_values();
    lemma_pow2_values_small();
    let k = f64_shift(x);
    let q = pow2(k);
    lemma_pow2_pos(k);
    if bit_len(x) <= 53 {
        lemma_round_even_bounds(x, 1);
        assert(f64_value(x) == x);
    } else {
        lemma_bit_len(x);
        lemma_pow2_adds(52, k);
        assert(pow2(52) * q <= x);
        lemma_round_even_error(x, q);
        let v = f64_value(x);
        assert(v == round_even(x, q) * q);
        assert(pow2(53) == 2 * pow2(52));
        assert(pow2(53) * (v - x) <= x) by (nonlinear_arith)
            requires
                2 * (v - x) <= q,
                pow2(52) * q <= x,
                pow2(53) == 2 * pow2(52),
                pow2(52) > 0,
        ;
        assert(pow2(53) * (x - v) <= x) by (nonlinear_arith)
            requires
                2 * (x - v) <= q,
                pow2(52) * q <= x,
                pow2(53) == 2 * pow2(52),
                pow2(52) > 0,
        ;
    }
}

/// What `quot_scale` picks: the least `s` from `from` on with
/// `n * 2^s >= 2^52 * d`, when there is one below 120.
proof fn lemma_quot_scale(n: nat, d: nat, from: nat)
    requires
        from <= 120,
    ensures
        from <= quot_scale(n, d, from) <= 120,
        quot_scale(n, d, from) < 120 ==> n * pow2(quot_scale(n, d, from)) >= pow2(52) * d,
        forall|j: nat| from <= j < quot_scale(n, d, from) ==> n * #[trigger] pow2(j) < pow2(52) * d,
    decreases 120 - from,
{
    if from < 120 && n * pow2(from) < pow2(52) * d {
        lemma_quot_scale(n, d, from + 1);
    }
}

/// For `1 <= i <= m < 2^53`, the quotient `i / m` in binary64 is `a / 2^s`
/// with `2^52 <= 2^s`, `a <= 2^53`, and `a` within half a unit of
/// `i * 2^s / m`.
proof fn lemma_quotient(i: nat, m: nat)
    requires
        1 <= i <= m < pow2(53),
    ensures
        ({
            let s = quot_scale(i, m, 0);
            let a = round_even(i * pow2(s), m);
            &&& pow2(52) <= pow2(s)
            &&& i * pow2(s) >= pow2(52) * m
            &&& a <= pow2(53)
            &&& 2 * (a * m - i * pow2(s)) <= m
            &&& 2 * (i * pow2(s) - a * m) <= m
        }),
{
    lemma_pow2_values();
    lemma_pow2_values_small();
    lemma_quot_scale(i, m, 0);
    let s = quot_scale(i, m, 0);
    lemma_pow2_pos(s);
    assert(i * pow2(117) >= pow2(52) * m) by (nonlinear_arith)
        requires
            i >= 1,
            m < pow2(53),
            pow2(117) == 0x20_0000_0000_0000_0000_0000_0000_0000,
            pow2(52) == 0x10_0000_0000_0000,
            pow2(53) == 0x20_0000_0000_0000,
    ;
    if s >= 120 {
        assert(i * pow2(117) < pow2(52) * m);
        assert(false);
    }
    assert(i * pow2(s) >= pow2(52) * m);
    assert(pow2(52) <= pow2(s)) by (nonlinear_arith)
        requires
            i * pow2(s) >= pow2(52) * m,
            i <= m,
            m >= 1,
    ;
    assert(s >= 1) by {
        if s == 0 {
            assert(i * pow2(0) < pow2(52) * m) by (nonlinear_arith)
                requires
                    pow2(0) == 1,
                    i <= m,
                    m >= 1,
                    pow2(52) >= 2,
            ;
        }
    }
    let j = (s - 1) as nat;
    assert(i * pow2(j) < pow2(52) * m);
    lemma_pow2_unfold(s);
    let x = i * pow2(s);
    assert(x < pow2(53) * m) by (nonlinear_arith)
        requires
            i * pow2(j) < pow2(52) * m,
            pow2(s) == 2 * pow2(j),
            x == i * pow2(s),
            pow2(53) == 2 * pow2(52),
    ;
    lemma_round_even_error(x, m);
    let a = round_even(x, m);
    assert(a <= pow2(53)) by (nonlinear_arith)
        requires
            2 * (a * m - x) <= m,
            x < pow2(53) * m,
            m >= 1,
    ;
}

/// For a video of `d < 2^50` seconds and `1 <= m <= d`, the binary64 point
/// `round((i / m) * d)` is within one second of the exact `i * d / m`:
/// `i * d - m < r * m < i * d + m`.
pub proof fn lemma_scaled_ratio_close(i: nat, m: nat, d: nat)
    requires
        i <= m,
        1 <= m <= d,
        d < pow2(50),
    ensures
        (scaled_ratio(i, m, d) as int) * m > i * d - m,
        (scaled_ratio(i, m, d) as int) * m < i * d + m,
{
    lemma_pow2_values();
    lemma_pow2_values_small();
    assert(pow2(50) * 8 == pow2(53) && pow2(50) * 4 == pow2(52)) by {
        lemma2_to64();
        lemma_pow2_adds(50, 3);
        lemma_pow2_adds(50, 2);
    }
    if i == 0 {
        assert(scaled_ratio(i, m, d) == 0);
        return;
    }
    lemma_f64_exact(i);
    lemma_f64_exact(m);
    lemma_f64_exact(d);
    lemma_quotient(i, m);
    let s = quot_scale(i, m, 0);
    let big_s = pow2(s);
    let a = round_even(i * big_s, m);
    let p = a * d;
    assert(p >= 1) by (nonlinear_arith)
        requires
            2 * (i * big_s - a * m) <= m,
            i * big_s >= pow2(52) * m,
            pow2(52) >= 2,
            m >= 1,
            d >= 1,
            p == a * d,
    ;
    assert(p <= pow2(53) * d) by (nonlinear_arith)
        requires
            p == a * d,
            a <= pow2(53),
    ;
    lemma_f64_relative_error(p);
    let v = f64_value(p);
    let pt = f64_shift(p);
    let pm = f64_mant(p);
    lemma_pow2_pos(pt);
    let e: int = pt + f64_shift(d) - s;
    let r0: nat = if e >= 0 {
        pm * pow2(e as nat)
    } else {
        round_half_up(pm, pow2((-e) as nat))
    };
    // |r0 * 2^s - v| <= 2^s / 2
    if e >= 0 {
        lemma_pow2_adds(s, e as nat);
        assert(r0 * big_s == v) by (nonlinear_arith)
            requires
                r0 == pm * pow2(e as nat),
                v == pm * pow2(pt),
                pow2(pt) == big_s * pow2(e as nat),
        ;
    } else {
        let g = (-e) as nat;
        lemma_pow2_pos(g);
        lemma_pow2_adds(pt, g);
        lemma_round_half_up_error(pm, pow2(g));
        assert(2 * (r0 * big_s - v) <= big_s && 2 * (v - r0 * big_s) <= big_s) by (nonlinear_arith)
            requires
                2 * (r0 * pow2(g) - pm) <= pow2(g),
                2 * (pm - r0 * pow2(g)) <= pow2(g),
                big_s == pow2(pt) * pow2(g),
                v == pm * pow2(pt),
                pow2(pt) >= 1,
        ;
    }
    // r0 * m * 2^s - i * d * 2^s = (r0 2^s - v) m + (v - p) m + (a m - i 2^s) d
    let e1: int = r0 * big_s - v;
    let e2: int = v - p;
    let e3: int = a * m - i * big_s;
    assert((r0 * m) * big_s - (i * d) * big_s == e1 * m + e2 * m + e3 * d) by (nonlinear_arith)
        requires
            e1 == r0 * big_s - v,
            e2 == v - p,
            e3 == a * m - i * big_s,
            p == a * d,
    ;
    assert(2 * e1 * m <= big_s * m && -2 * e1 * m <= big_s * m) by (nonlinear_arith)
        requires
            2 * e1 <= big_s,
            -2 * e1 <= big_s,
            m >= 1,
    ;
    assert(e2 * m <= d * m && -e2 * m <= d * m) by (nonlinear_arith)
        requires
            pow2(53) * e2 <= p,
            -pow2(53) * e2 <= p,
            p <= pow2(53) * d,
            pow2(53) > 0,
            m >= 1,
    ;
    assert(2 * e3 * d <= m * d && -2 * e3 * d <= m * d) by (nonlinear_arith)
        requires
            2 * e3 <= m,
            -2 * e3 <= m,
            d >= 1,
    ;
    assert(4 * d <= big_s) by (nonlinear_arith)
        requires
            d < pow2(50),
            pow2(50) * 4 == pow2(52),
            big_s >= pow2(52),
    ;
    let lhs: int = (r0 * m) * big_s - (i * d) * big_s;
    assert(lhs < m * big_s && -lhs < m * big_s) by (nonlinear_arith)
        requires
            lhs == e1 * m + e2 * m + e3 * d,
            2 * e1 * m <= big_s * m,
            -2 * e1 * m <= big_s * m,
            e2 * m <= d * m,
            -e2 * m <= d * m,
            2 * e3 * d <= m * d,
            -2 * e3 * d <= m * d,
            4 * d <= big_s,
            m >= 1,
            d >= 1,
    ;
    assert(r0 * m < i * d + m && r0 * m > i * d - m) by (nonlinear_arith)
        requires
            lhs == (r0 * m) * big_s - (i * d) * big_s,
            lhs < m * big_s,
            -lhs < m * big_s,
            big_s > 0,
    ;
    assert(r0 <= u64::MAX) by (nonlinear_arith)
        requires
            r0 * m < i * d + m,
            i <= m,
            m >= 1,
            d < pow2(50),
            pow2(50) * 8 == pow2(53),
            pow2(53) == 0x20_0000_0000_0000,
    ;
    assert(scaled_ratio(i, m, d) == r0);
}

// ---------------------------------------------------------------------------
// Computing the definitions
// ---------------------------------------------------------------------------

/// `2^k`.
fn pow2_u128(k: u32) -> (r: u128)
    requires
        k < 128,
    ensures
        r == pow2(k as nat),
{
    proof {
        lemma_pow2_values_small();
        lemma_pow2_values();
    }
    let mut p: u128 = 1;
    let mut j: u32 = 0;
    while j < k
        invariant
            j <= k < 128,
            p == pow2(j as nat),
            pow2(128) == 0x1_0000_0000_0000_0000_0000_0000_0000_0000,
        decreases k - j,
    {
        proof {
            lemma_pow2_unfold((j + 1) as nat);
            lemma_pow2_strictly_increases((j + 1) as nat, 128);
        }
        p = p * 2;
        j = j + 1;
    }
    p
}

fn bit_len_u128(x: u128) -> (r: u32)
    ensures
        r == bit_len(x as nat),
        r <= 128,
{
    proof {
        lemma_pow2_values();
        lemma_bit_len_at_most(x as nat, 128);
    }
    let mut y: u128 = x;
    let mut n: u32 = 0;
    while y > 0
        invariant
            bit_len(x as nat) == n + bit_len(y as nat),
            bit_len(x as nat) <= 128,
        decreases y,
    {
        y = y / 2;
        n = n + 1;
    }
    n
}

fn round_even_u128(n: u128, d: u128) -> (r: u128)
    requires
        d > 0,
    ensures
        r == round_even(n as nat, d as nat),
{
    let q = n / d;
    let rem = n % d;
    proof {
        lemma_fundamental_div_mod(n as int, d as int);
    }
    if rem > d - rem || (rem == d - rem && q % 2 == 1) {
        assert(q < u128::MAX) by (nonlinear_arith)
            requires
                n == d * q + rem,
                rem > 0,
                rem < d,
                n <= u128::MAX,
                q >= 0,
        ;
        q + 1
    } else {
        q
    }
}

fn round_half_up_u128(n: u128, d: u128) -> (r: u128)
    requires
        d > 0,
        n < u128::MAX,
    ensures
        r == round_half_up(n as nat, d as nat),
{
    let q = n / d;
    let rem = n % d;
    proof {
        lemma_fundamental_div_mod(n as int, d as int);
    }
    assert(q <= n) by (nonlinear_arith)
        requires
            n == d * q + rem,
            rem >= 0,
            d >= 1,
            q >= 0,
    ;
    if rem >= d - rem {
        q + 1
    } else {
        q
    }
}

/// The binary64 value of `x`, as `(mantissa, shift)`.
fn to_f64(x: u128) -> (r: (u128, u32))
    requires
        x > 0,
    ensures
        r.0 == f64_mant(x as nat),
        r.1 == f64_shift(x as nat),
        r.0 <= pow2(53),
{
    proof {
        lemma_f64_mant(x as nat);
    }
    let l = bit_len_u128(x);
    let k: u32 = if l <= 53 { 0 } else { l - 53 };
    let q = pow2_u128(k);
    proof {
        lemma_pow2_pos(k as nat);
    }
    (round_even_u128(x, q), k)
}

/// `round((i as f64 / m as f64) * d as f64) as u64`, exactly as binary64
/// arithmetic computes it.
pub fn f64_scaled_ratio(i: u64, m: u64, d: u64) -> (r: u64)
    requires
        m > 0,
        d > 0,
    ensures
        r == scaled_ratio(i as nat, m as nat, d as nat),
{
    if i == 0 {
        return 0;
    }
    proof {
        lemma_pow2_values();
        lemma_f64_value_u64(i as nat);
        lemma_f64_value_u64(m as nat);
        lemma_f64_value_u64(d as nat);
        lemma_f64_mant(d as nat);
    }
    let (mi, si) = to_f64(i as u128);
    let (mm, sm) = to_f64(m as u128);
    let (md, sd) = to_f64(d as u128);
    let fi: u128 = mi * pow2_u128(si);
    let fm: u128 = mm * pow2_u128(sm);
    let ghost gfi = fi as nat;
    let ghost gfm = fm as nat;
    assert(gfi == f64_value(i as nat));
    assert(gfm == f64_value(m as nat));
    let bound: u128 = fm * pow2_u128(52);
    assert(bound <= pow2(116)) by (nonlinear_arith)
        requires
            bound == fm * pow2(52),
            fm <= pow2(64),
            pow2(116) == pow2(64) * pow2(52),
    ;
    // x == fi * 2^s, the least s with x >= 2^52 * fm
    let mut x: u128 = fi;
    let mut s: u32 = 0;
    proof {
        lemma_pow2_values_small();
    }
    while s < 120 && x < bound
        invariant
            s <= 120,
            x == gfi * pow2(s as nat),
            pow2(s as nat) <= x,
            bound == gfm * pow2(52),
            bound <= pow2(116),
            1 <= gfi <= pow2(64),
            quot_scale(gfi, gfm, 0) == quot_scale(gfi, gfm, s as nat),
            s > 0 ==> x < 2 * bound,
            x <= pow2(117),
        decreases 120 - s,
    {
        proof {
            lemma_pow2_values();
            lemma_pow2_unfold((s + 1) as nat);
            assert(quot_scale(gfi, gfm, s as nat) == quot_scale(gfi, gfm, (s + 1) as nat));
            assert(gfi * pow2((s + 1) as nat) == 2 * x) by (nonlinear_arith)
                requires
                    x == gfi * pow2(s as nat),
                    pow2((s + 1) as nat) == 2 * pow2(s as nat),
            ;
        }
        x = x * 2;
        s = s + 1;
    }
    proof {
        // the loop stops because fi * 2^s >= 2^52 * fm
        if s >= 120 {
            lemma_pow2_le(117, s as nat);
            assert(false);
        }
        assert(quot_scale(gfi, gfm, s as nat) == s);
    }
    let a = round_even_u128(x, fm);
    proof {
        lemma_pow2_values_small();
        lemma_round_even_bounds(x as nat, gfm);
        if s == 0 {
            assert(x / fm <= x) by (nonlinear_arith)
                requires
                    fm >= 1,
            {
                vstd::arithmetic::div_mod::lemma_div_is_ordered_by_denominator(x as int, 1, fm as int);
            }
        } else {
            assert(x / fm < pow2(53)) by (nonlinear_arith)
                requires
                    x < 2 * (fm * pow2(52)),
                    pow2(53) == 2 * pow2(52),
                    fm >= 1,
            {
                lemma_fundamental_div_mod(x as int, fm as int);
                assert((x / fm) * fm <= x);
            }
        }
        assert(a >= 1) by {
            assert(x >= fm) by (nonlinear_arith)
                requires
                    x >= fm * pow2(52),
                    pow2(52) >= 1,
                    fm >= 1,
            ;
            lemma_div_is_ordered(fm as int, x as int, fm as int);
            vstd::arithmetic::div_mod::lemma_div_basics(fm as int);
        }
    }
    assert(a <= pow2(64) + 1);
    assert((a as int) * (md as int) <= u128::MAX) by (nonlinear_arith)
        requires
            1 <= a <= pow2(64) + 1,
            1 <= md <= pow2(53),
            pow2(64) == 0x1_0000_0000_0000_0000,
            pow2(53) == 0x20_0000_0000_0000,
    ;
    let p: u128 = a * md;
    assert(p <= (pow2(64) + 1) * pow2(53) && p >= 1) by (nonlinear_arith)
        requires
            p == a * md,
            1 <= a <= pow2(64) + 1,
            1 <= md <= pow2(53),
    ;
    let (mp, sp) = to_f64(p);
    proof {
        lemma_f64_mant(p as nat);
        lemma_pow2_adds(64, 54);
        lemma_pow2_unfold(54);
        assert((pow2(64) + 1) * pow2(53) < pow2(118)) by (nonlinear_arith)
            requires
                pow2(118) == pow2(64) * pow2(54),
                pow2(54) == 2 * pow2(53),
                pow2(53) >= 1,
                pow2(64) >= 2,
        ;
        lemma_bit_len_at_most(p as nat, 118);
    }
    // the product is mp * 2^(sp + sd - s)
    let up: u32 = sp + sd;
    let ghost e: int = up - s;
    let res: u128 = if up >= s {
        let g = up - s;
        if g >= 64 {
            proof {
                lemma_pow2_le(64, g as nat);
                assert(mp * pow2(g as nat) >= pow2(64)) by (nonlinear_arith)
                    requires
                        mp >= 1,
                        pow2(g as nat) >= pow2(64),
                ;
            }
            0x1_0000_0000_0000_0000u128
        } else {
            let q = pow2_u128(g);
            proof {
                lemma_pow2_le(g as nat, 63);
                lemma_pow2_adds(53, 63);
                assert(mp * q <= pow2(116)) by (nonlinear_arith)
                    requires
                        mp <= pow2(53),
                        q <= pow2(63),
                        pow2(116) == pow2(53) * pow2(63),
                ;
            }
            mp * q
        }
    } else {
        let g = s - up;
        let q = pow2_u128(g);
        proof {
            lemma_pow2_pos(g as nat);
        }
        round_half_up_u128(mp, q)
    };
    proof {
        if up >= s && (up - s) >= 64 {
            assert(scaled_ratio(i as nat, m as nat, d as nat) == u64::MAX);
        }
    }
    if res > 0xFFFF_FFFF_FFFF_FFFFu128 {
        0xFFFF_FFFF_FFFF_FFFFu64
    } else {
        res as u64
    }
}

} // verus!
