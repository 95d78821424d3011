//! Arithmetic of IEEE 754 double precision on non-negative numbers, stated
//! with integers: the double nearest to a quotient has 53 significant bits,
//! and ties go to the even neighbour.
//!
//! Every value here stays far inside the range of normal doubles.

use vstd::prelude::*;
use vstd::arithmetic::power2::{
    lemma_pow2_adds, lemma_pow2_pos, lemma_pow2_strictly_increases, lemma_pow2_subtracts,
    lemma_pow2_unfold, pow2,
};

verus! {

/// The integer nearest to `n / d`, the even one of two that are equally near.
pub open spec fn nearest_integer(n: nat, d: nat) -> nat {
    let q = n / d;
    let r = n % d;
    if 2 * r < d || (2 * r == d && q % 2 == 0) {
        q
    } else {
        q + 1
    }
}

/// For `n >= d`: the `k` with `2^k <= n / d < 2^(k+1)`.
pub open spec fn doublings_up(n: nat, d: nat) -> nat
    decreases n - d,
{
    if d == 0 || n < 2 * d {
        0
    } else {
        1 + doublings_up(n, 2 * d)
    }
}

/// For `0 < n < d`: the `k` with `2^-k <= n / d < 2^(1-k)`.
pub open spec fn doublings_down(n: nat, d: nat) -> nat
    decreases
            if n < d {
                d - n
            } else {
                0
            },
{
    if n == 0 || n >= d {
        0
    } else {
        1 + doublings_down(2 * n, d)
    }
}

/// The double nearest to `n / d`, as numerator and denominator; the
/// denominator is a power of two.
pub open spec fn nearest_double(n: nat, d: nat) -> (nat, nat) {
    if n == 0 {
        (0, 1)
    } else if n < d {
        let k = doublings_down(n, d);
        (nearest_integer(n * pow2(52 + k), d), pow2(52 + k))
    } else {
        let k = doublings_up(n, d);
        if k <= 52 {
            (
                nearest_integer(n * pow2((52 - k) as nat), d),
                pow2((52 - k) as nat),
            )
        } else {
            (
                nearest_integer(n, d * pow2((k - 52) as nat)) * pow2((k - 52) as nat),
                1,
            )
        }
    }
}

/// The double nearest to an integer, which is an integer itself.
pub open spec fn integer_double(n: nat) -> nat {
    let k = doublings_up(n, 1);
    if k <= 52 {
        n
    } else {
        nearest_integer(n, pow2((k - 52) as nat)) * pow2((k - 52) as nat)
    }
}

// ---------------------------------------------------------------------------
// Facts
// ---------------------------------------------------------------------------

proof fn lemma_up_bounds(n: nat, d: nat)
    requires
        0 < d <= n,
    ensures
        d * pow2(doublings_up(n, d)) <= n,
        n < d * pow2(doublings_up(n, d) + 1),
    decreases n - d,
{
    vstd::arithmetic::power2::lemma2_to64();
    if n >= 2 * d {
        let k = doublings_up(n, 2 * d);
        lemma_up_bounds(n, 2 * d);
        assert(doublings_up(n, d) == k + 1);
        lemma_pow2_unfold((k + 1) as nat);
        lemma_pow2_unfold((k + 2) as nat);
        assert((2 * d) * pow2(k) == d * (2 * pow2(k))) by (nonlinear_arith);
        assert((2 * d) * pow2(k + 1) == d * (2 * pow2(k + 1))) by (nonlinear_arith);
        assert(pow2((k + 1) as nat) == 2 * pow2(k));
        assert(pow2((k + 2) as nat) == 2 * pow2(k + 1));
        assert(d * pow2((k + 1) as nat) <= n);
        assert(n < d * pow2((k + 2) as nat));
    } else {
        assert(doublings_up(n, d) == 0);
        assert(d * pow2(0) == d) by (nonlinear_arith)
            requires
                pow2(0) == 1,
        ;
        assert(d * pow2(1) == 2 * d) by (nonlinear_arith)
            requires
                pow2(1) == 2,
        ;
    }
}

proof fn lemma_nearest_integer_bound(n: nat, d: nat, m: nat)
    requires
        d > 0,
        n <= d * m,
    ensures
        nearest_integer(n, d) <= m,
{
    let q = n / d;
    let r = n % d;
    vstd::arithmetic::div_mod::lemma_fundamental_div_mod(n as int, d as int);
    if q >= m {
        assert(d * q >= d * m) by (nonlinear_arith)
            requires
                q >= m,
                d > 0,
        ;
        assert(r == 0);
        assert(d * q == d * m);
        assert(q == m) by (nonlinear_arith)
            requires
                d * q == d * m,
                d > 0,
        ;
    }
}

proof fn lemma_nearest_integer_at_least(n: nat, d: nat, m: nat)
    requires
        d > 0,
        n >= d * m,
    ensures
        nearest_integer(n, d) >= m,
{
    let q = n / d;
    vstd::arithmetic::div_mod::lemma_fundamental_div_mod(n as int, d as int);
    if q < m {
        assert(d * (q + 1) <= d * m) by (nonlinear_arith)
            requires
                q + 1 <= m,
        ;
        assert(d * (q + 1) == d * q + d) by (nonlinear_arith);
    }
}

proof fn lemma_nearest_integer_scales(n: nat, d: nat, c: nat)
    requires
        d > 0,
        c > 0,
    ensures
        nearest_integer(n * c, d * c) == nearest_integer(n, d),
{
    let q = n / d;
    let r = n % d;
    vstd::arithmetic::div_mod::lemma_fundamental_div_mod(n as int, d as int);
    assert(n * c == q * (d * c) + r * c) by (nonlinear_arith)
        requires
            n == d * q + r,
    ;
    assert(0 <= r * c < d * c) by (nonlinear_arith)
        requires
            0 <= r < d,
            c > 0,
    ;
    vstd::arithmetic::div_mod::lemma_fundamental_div_mod_converse(
        (n * c) as int,
        (d * c) as int,
        q as int,
        (r * c) as int,
    );
    assert((2 * (r * c) < d * c) == (2 * r < d)) by (nonlinear_arith)
        requires
            c > 0,
    ;
    assert((2 * (r * c) == d * c) == (2 * r == d)) by (nonlinear_arith)
        requires
            c > 0,
    ;
}

/// Two to a given power.
fn power_of_two(k: u32) -> (r: u128)
    requires
        k < 128,
    ensures
        r == pow2(k as nat),
        r > 0,
{
    let mut r: u128 = 1;
    let mut i: u32 = 0;
    proof {
        vstd::arithmetic::power2::lemma2_to64();
    }
    while i < k
        invariant
            i <= k < 128,
            r == pow2(i as nat),
        decreases k - i,
    {
        proof {
            lemma_pow2_unfold((i + 1) as nat);
            lemma_pow2_strictly_increases((i + 1) as nat, 128);
            assert(pow2(128) == 0x1_0000_0000_0000_0000_0000_0000_0000_0000) by {
                lemma_pow2_adds(64, 64);
                vstd::arithmetic::power2::lemma2_to64();
            }
        }
        r = r * 2;
        i += 1;
    }
    proof {
        lemma_pow2_pos(k as nat);
    }
    r
}

/// The integer nearest to a quotient, ties to even.
pub fn round_quotient(n: u128, d: u128) -> (r: u128)
    requires
        0 < d <= u128::MAX / 2,
        n < u128::MAX,
    ensures
        r == nearest_integer(n as nat, d as nat),
{
    let q: u128 = n / d;
    let rem: u128 = n % d;
    if 2 * rem < d || (2 * rem == d && q % 2 == 0) {
        q
    } else {
        proof {
            if d == 1 {
                assert(rem == 0);
            }
            assert(q <= n) by (nonlinear_arith)
                requires
                    q == n / d,
                    d > 0,
            ;
        }
        q + 1
    }
}

proof fn lemma_big_powers()
    ensures
        pow2(52) == 0x10_0000_0000_0000,
        pow2(53) == 0x20_0000_0000_0000,
        pow2(74) == 0x400_0000_0000_0000_0000,
        pow2(75) == 0x800_0000_0000_0000_0000,
        pow2(126) == 0x4000_0000_0000_0000_0000_0000_0000_0000,
        pow2(127) == 0x8000_0000_0000_0000_0000_0000_0000_0000,
        pow2(0) == 1,
{
    vstd::arithmetic::power2::lemma2_to64();
    vstd::arithmetic::power2::lemma2_to64_rest();
    lemma_pow2_adds(64, 10);
    lemma_pow2_adds(64, 11);
    lemma_pow2_adds(64, 62);
    lemma_pow2_adds(64, 63);
}

proof fn lemma_times_power(n: nat, k: nat)
    ensures
        n * pow2((k + 1) as nat) == 2 * (n * pow2(k)),
        n > 0 ==> pow2(k) <= n * pow2(k),
{
    lemma_pow2_unfold((k + 1) as nat);
    assert(n * (2 * pow2(k)) == 2 * (n * pow2(k))) by (nonlinear_arith);
    assert(n > 0 ==> pow2(k) <= n * pow2(k)) by (nonlinear_arith);
}

/// How often `n` has to be doubled to reach `d`, and what it is then.
fn scale_up(n: u128, d: u128) -> (r: (u32, u128))
    requires
        0 < n < d < 0x400_0000_0000_0000_0000,
    ensures
        r.0 == doublings_down(n as nat, d as nat),
        0 < r.0 <= 74,
        r.1 == n * pow2(r.0 as nat),
        d <= r.1 < 2 * d,
{
    let mut scaled: u128 = n;
    let mut k: u32 = 0;
    proof {
        lemma_big_powers();
        assert(n * pow2(0) == n) by (nonlinear_arith)
            requires
                pow2(0) == 1,
        ;
    }
    while scaled < d
        invariant
            0 < n < d < 0x400_0000_0000_0000_0000,
            0 < scaled < 2 * d,
            scaled == n * pow2(k as nat),
            k == 0 ==> scaled == n,
            k > 0 ==> pow2((k - 1) as nat) < d,
            k <= 74,
            doublings_down(n as nat, d as nat) == k + doublings_down(scaled as nat, d as nat),
        decreases 2 * d - scaled,
    {
        proof {
            lemma_times_power(n as nat, k as nat);
            lemma_big_powers();
        }
        scaled = scaled * 2;
        k += 1;
    }
    (k, scaled)
}

/// How often `d` can be doubled without passing `n`.
fn scale_down(n: u128, d: u128) -> (r: u32)
    requires
        0 < d <= n < 0x8000_0000_0000_0000_0000_0000_0000_0000,
    ensures
        r == doublings_up(n as nat, d as nat),
        r < 127,
        d * pow2(r as nat) <= n,
        n < d * pow2((r + 1) as nat),
{
    let mut scaled: u128 = d;
    let mut k: u32 = 0;
    proof {
        lemma_big_powers();
        assert(d * pow2(0) == d) by (nonlinear_arith)
            requires
                pow2(0) == 1,
        ;
    }
    while scaled <= n / 2
        invariant
            0 < d <= n < 0x8000_0000_0000_0000_0000_0000_0000_0000,
            0 < scaled <= n,
            scaled == d * pow2(k as nat),
            k < 127,
            pow2(k as nat) <= scaled,
            doublings_up(n as nat, d as nat) == k + doublings_up(n as nat, scaled as nat),
        decreases n - scaled,
    {
        proof {
            lemma_times_power(d as nat, k as nat);
            lemma_times_power(d as nat, (k + 1) as nat);
            lemma_big_powers();
        }
        scaled = scaled * 2;
        k += 1;
    }
    proof {
        lemma_up_bounds(n as nat, d as nat);
    }
    k
}

proof fn lemma_scaled_bound(n: nat, d: nat, k: nat)
    requires
        k <= 52,
        n < d * pow2((k + 1) as nat),
    ensures
        n * pow2((52 - k) as nat) <= d * pow2(53),
{
    lemma_pow2_adds((k + 1) as nat, (52 - k) as nat);
    lemma_pow2_pos((52 - k) as nat);
    assert(n * pow2((52 - k) as nat) <= d * (pow2((k + 1) as nat) * pow2((52 - k) as nat)))
        by (nonlinear_arith)
        requires
            n < d * pow2((k + 1) as nat),
    ;
}

proof fn lemma_scaled_floor(n: nat, d: nat, k: nat)
    requires
        k <= 52,
        d * pow2(k) <= n,
    ensures
        n * pow2((52 - k) as nat) >= d * pow2(52),
{
    lemma_pow2_adds(k, (52 - k) as nat);
    lemma_pow2_pos((52 - k) as nat);
    assert(n * pow2((52 - k) as nat) >= d * (pow2(k) * pow2((52 - k) as nat)))
        by (nonlinear_arith)
        requires
            d * pow2(k) <= n,
    ;
}

/// The double nearest to a quotient, as numerator and denominator.
pub fn divide(n: u128, d: u128) -> (r: (u128, u128))
    requires
        0 < d < 0x400_0000_0000_0000_0000,
        n < 0x8000_0000_0000_0000_0000_0000_0000_0000,
    ensures
        (r.0 as nat, r.1 as nat) == nearest_double(n as nat, d as nat),
        0 < r.1 <= 0x4000_0000_0000_0000_0000_0000_0000_0000,
        r.0 <= 0x20_0000_0000_0000 || (r.1 == 1 && r.0 <= 2 * n),
        n > 0 ==> r.0 > 0,
{
    proof {
        lemma_big_powers();
    }
    if n == 0 {
        return (0, 1);
    }
    if n < d {
        let (k, scaled) = scale_up(n, d);
        let one = power_of_two(52 + k);
        let num: u128 = scaled * 0x10_0000_0000_0000;
        proof {
            lemma_pow2_adds(k as nat, 52);
            assert(num == n * pow2((52 + k) as nat)) by (nonlinear_arith)
                requires
                    num == (n * pow2(k as nat)) * pow2(52),
                    pow2((52 + k) as nat) == pow2(k as nat) * pow2(52),
            ;
            if 52 + k < 126 {
                lemma_pow2_strictly_increases((52 + k) as nat, 126);
            }
            assert(num <= d * pow2(53)) by (nonlinear_arith)
                requires
                    num == scaled * pow2(52),
                    pow2(53) == 2 * pow2(52),
                    scaled < 2 * d,
            ;
            lemma_nearest_integer_bound(num as nat, d as nat, pow2(53));
            assert(num >= d * pow2(52)) by (nonlinear_arith)
                requires
                    num == scaled * pow2(52),
                    scaled >= d,
            ;
            lemma_nearest_integer_at_least(num as nat, d as nat, pow2(52));
        }
        return (round_quotient(num, d), one);
    }
    let k = scale_down(n, d);
    if k <= 52 {
        let one = power_of_two(52 - k);
        proof {
            lemma_scaled_bound(n as nat, d as nat, k as nat);
            assert(d * pow2(53) < 0x8000_0000_0000_0000_0000_0000_0000_0000) by (nonlinear_arith)
                requires
                    d < 0x400_0000_0000_0000_0000,
                    pow2(53) == 0x20_0000_0000_0000,
            ;
            lemma_nearest_integer_bound(
                (n * pow2((52 - k) as nat)) as nat,
                d as nat,
                pow2(53),
            );
            if 0 < k {
                lemma_pow2_strictly_increases((52 - k) as nat, 52);
            }
            lemma_scaled_floor(n as nat, d as nat, k as nat);
            lemma_nearest_integer_at_least(
                (n * pow2((52 - k) as nat)) as nat,
                d as nat,
                pow2(52),
            );
        }
        let num: u128 = n * one;
        (round_quotient(num, d), one)
    } else {
        let unit = power_of_two(k - 52);
        proof {
            lemma_pow2_strictly_increases((k - 52) as nat, k as nat);
            lemma_pow2_adds((k - 52) as nat, 52);
            assert(d * pow2((k - 52) as nat) * pow2(52) <= n) by (nonlinear_arith)
                requires
                    d * pow2(k as nat) <= n,
                    pow2(k as nat) == pow2((k - 52) as nat) * pow2(52),
            ;
        }
        let den: u128 = d * unit;
        proof {
            assert(0 < den && unit <= den) by (nonlinear_arith)
                requires
                    den == d * unit,
                    0 < d,
                    0 < unit,
            ;
            assert(den * 0x10_0000_0000_0000 <= n);
        }
        let m = round_quotient(n, den);
        proof {
            let q = n / den;
            vstd::arithmetic::div_mod::lemma_fundamental_div_mod(n as int, den as int);
            assert(q * unit <= n) by (nonlinear_arith)
                requires
                    n >= den * q,
                    den == d * unit,
                    d >= 1,
            ;
            assert(m * unit <= 2 * n) by (nonlinear_arith)
                requires
                    m <= q + 1,
                    q * unit <= n,
                    unit <= n,
            ;
            lemma_nearest_integer_at_least(n as nat, den as nat, 1);
            assert(m * unit > 0) by (nonlinear_arith)
                requires
                    m >= 1,
                    unit > 0,
            ;
        }
        (m * unit, 1)
    }
}

/// The double nearest to an integer.
pub fn to_double(n: u128) -> (r: u128)
    requires
        n < 0x4000_0000_0000_0000_0000_0000_0000_0000,
    ensures
        r == integer_double(n as nat),
        r <= 2 * n,
        n < 0x20_0000_0000_0000 ==> r == n,
        n > 0 ==> r > 0,
{
    if n == 0 {
        return 0;
    }
    let k = scale_down(n, 1);
    proof {
        lemma_big_powers();
        if n < 0x20_0000_0000_0000 && k > 52 {
            if k > 53 {
                lemma_pow2_strictly_increases(53, k as nat);
            }
        }
    }
    if k <= 52 {
        return n;
    }
    let unit = power_of_two(k - 52);
    proof {
        lemma_pow2_adds((k - 52) as nat, 52);
        assert(unit * 0x10_0000_0000_0000 <= n);
    }
    let m = round_quotient(n, unit);
    proof {
        let q = n / unit;
        vstd::arithmetic::div_mod::lemma_fundamental_div_mod(n as int, unit as int);
        assert(q >= 1) by (nonlinear_arith)
            requires
                n == unit * q + n % unit,
                0 <= n % unit < unit,
                unit <= n,
        ;
        assert(m * unit <= 2 * n && m * unit > 0) by (nonlinear_arith)
            requires
                1 <= q <= m <= q + 1,
                q * unit <= n,
                0 < unit <= n,
        ;
    }
    m * unit
}

// ---------------------------------------------------------------------------
// Spans of time
// ---------------------------------------------------------------------------

/// A span of nanoseconds in seconds, as the double that
/// `Duration::as_secs_f64` gives: the double nearest to the sum of the whole
/// seconds and of the double nearest to the rest.
pub open spec fn seconds_double(nanos: nat) -> (nat, nat) {
    let whole = nanos / 1_000_000_000;
    let part = nearest_double(nanos % 1_000_000_000, 1_000_000_000);
    nearest_double(whole * part.1 + part.0, part.1)
}

proof fn lemma_down_bound(n: nat, d: nat, m: nat)
    requires
        n > 0,
        d <= n * pow2(m),
    ensures
        doublings_down(n, d) <= m,
    decreases m,
{
    if n < d {
        lemma_big_powers();
        assert(n * pow2(0) == n) by (nonlinear_arith)
            requires
                pow2(0) == 1,
        ;
        lemma_pow2_unfold(m);
        assert(n * (2 * pow2((m - 1) as nat)) == (2 * n) * pow2((m - 1) as nat))
            by (nonlinear_arith);
        lemma_down_bound(2 * n, d, (m - 1) as nat);
    }
}

/// A span of at least one second, in seconds.
pub fn seconds(nanos: u64) -> (r: (u128, u128))
    requires
        nanos >= 1_000_000_000,
    ensures
        (r.0 as nat, r.1 as nat) == seconds_double(nanos as nat),
        0 < r.0 < 0x400_0000_0000_0000_0000,
        0 < r.1 <= 0x10_0000_0000_0000,
{
    let whole: u128 = (nanos / 1_000_000_000) as u128;
    let rest: u128 = (nanos % 1_000_000_000) as u128;
    let part = divide(rest, 1_000_000_000);
    proof {
        lemma_big_powers();
    }
    if rest == 0 {
        proof {
            lemma_up_bounds(whole as nat, 1);
            if doublings_up(whole as nat, 1) > 52 {
                lemma_pow2_strictly_increases(52, doublings_up(whole as nat, 1));
            }
        }
        let r = divide(whole, 1);
        proof {
            let k = doublings_up(whole as nat, 1);
            if k > 0 {
                lemma_pow2_strictly_increases((52 - k) as nat, 52);
            }
        }
        return r;
    }
    let ghost j = 52 + doublings_down(rest as nat, 1_000_000_000);
    proof {
        assert(part.1 == pow2(j as nat));
        vstd::arithmetic::power2::lemma2_to64();
        assert(1_000_000_000 <= rest * pow2(30)) by (nonlinear_arith)
            requires
                rest >= 1,
                pow2(30) == 0x4000_0000,
        ;
        lemma_down_bound(rest as nat, 1_000_000_000, 30);
        assert(rest * part.1 <= 1_000_000_000 * part.1) by (nonlinear_arith)
            requires
                rest <= 1_000_000_000,
        ;
        lemma_nearest_integer_bound((rest * part.1) as nat, 1_000_000_000, part.1 as nat);
        if j < 82 {
            lemma_pow2_strictly_increases(j as nat, 82);
        }
        lemma_pow2_adds(64, 18);
        vstd::arithmetic::power2::lemma2_to64();
        assert(whole * part.1 <= 18_446_744_073 * pow2(82)) by (nonlinear_arith)
            requires
                whole <= 18_446_744_073,
                part.1 <= pow2(82),
        ;
    }
    let num: u128 = whole * part.1 + part.0;
    proof {
        assert(whole * part.1 >= part.1) by (nonlinear_arith)
            requires
                whole >= 1,
        ;
    }
    let k = scale_down(num, part.1);
    proof {
        assert(num < part.1 * pow2(53)) by (nonlinear_arith)
            requires
                num == whole * part.1 + part.0,
                whole <= 18_446_744_073,
                0 < part.1,
                part.0 <= part.1,
                pow2(53) == 0x20_0000_0000_0000,
        ;
        if k > 52 {
            if k > 53 {
                lemma_pow2_strictly_increases(53, k as nat);
            }
            assert(part.1 * pow2(k as nat) >= part.1 * pow2(53)) by (nonlinear_arith)
                requires
                    pow2(k as nat) >= pow2(53),
            ;
        }
        lemma_pow2_adds((52 - k) as nat, (j - (52 - k)) as nat);
        lemma_pow2_subtracts((52 - k) as nat, j as nat);
    }
    let one = power_of_two(52 - k);
    let unit: u128 = part.1 / one;
    proof {
        assert(part.1 == unit * one) by (nonlinear_arith)
            requires
                part.1 == one * pow2((j - (52 - k)) as nat),
                unit == pow2((j - (52 - k)) as nat),
        ;
        lemma_pow2_pos((j - (52 - k)) as nat);
        lemma_nearest_integer_scales(num as nat, unit as nat, one as nat);
        lemma_scaled_bound(num as nat, part.1 as nat, k as nat);
        lemma_scaled_floor(num as nat, part.1 as nat, k as nat);
        lemma_nearest_integer_bound((num * one) as nat, part.1 as nat, pow2(53));
        lemma_nearest_integer_at_least((num * one) as nat, part.1 as nat, pow2(52));
        if k > 0 {
            lemma_pow2_strictly_increases((52 - k) as nat, 52);
        }
    }
    (round_quotient(num, unit), one)
}

// ---------------------------------------------------------------------------
// Laws
// ---------------------------------------------------------------------------

/// The nearest integer is no further than a half from the quotient, and of two
/// that are just as near it is the even one.
pub proof fn law_nearest_integer_is_near(n: nat, d: nat)
    requires
        d > 0,
    ensures
        2 * n <= 2 * (d * nearest_integer(n, d)) + d,
        2 * (d * nearest_integer(n, d)) <= 2 * n + d,
        2 * n == 2 * (d * nearest_integer(n, d)) + d || 2 * (d * nearest_integer(n, d)) == 2 * n + d
            ==> nearest_integer(n, d) % 2 == 0,
{
    let q = n / d;
    vstd::arithmetic::div_mod::lemma_fundamental_div_mod(n as int, d as int);
    assert(d * (q + 1) == d * q + d) by (nonlinear_arith);
}

proof fn lemma_smaller_powers(a: nat, b: nat)
    ensures
        pow2(a) < pow2(b) ==> a < b,
{
    if a > b {
        lemma_pow2_strictly_increases(b, a);
    }
}

/// Every integer below two to the power of 53 is a double.
pub proof fn law_small_integers_are_doubles(n: nat)
    requires
        n < 0x20_0000_0000_0000,
    ensures
        integer_double(n) == n,
{
    lemma_big_powers();
    if n > 0 {
        let k = doublings_up(n, 1);
        lemma_up_bounds(n, 1);
        assert(1 * pow2(k) == pow2(k));
        lemma_smaller_powers(k, 53);
    }
}

proof fn lemma_down_reaches(n: nat, d: nat)
    requires
        0 < n < d,
    ensures
        d <= n * pow2(doublings_down(n, d)),
    decreases d - n,
{
    lemma_big_powers();
    let k = doublings_down(2 * n, d);
    lemma_pow2_unfold((k + 1) as nat);
    assert(n * (2 * pow2(k)) == (2 * n) * pow2(k)) by (nonlinear_arith);
    if 2 * n < d {
        lemma_down_reaches(2 * n, d);
    } else {
        assert(k == 0);
        assert((2 * n) * 1 == 2 * n);
    }
}

/// A numerator that was rounded after scaling is off by at most one part in two
/// to the power of 53.
proof fn lemma_scaled_is_near(n: nat, d: nat, p: nat)
    requires
        d > 0,
        n * p >= d * 0x10_0000_0000_0000,
    ensures
        ({
            let m = nearest_integer(n * p, d);
            &&& 0x20_0000_0000_0000 * (n * p - d * m) <= n * p
            &&& 0x20_0000_0000_0000 * (d * m - n * p) <= n * p
        }),
{
    law_nearest_integer_is_near(n * p, d);
}

/// The double nearest to a quotient is off by at most one part in two to the
/// power of 53.
pub proof fn law_nearest_double_is_near(n: nat, d: nat)
    requires
        d > 0,
    ensures
        ({
            let q = nearest_double(n, d);
            &&& q.1 > 0
            &&& 0x20_0000_0000_0000 * (n * q.1 - d * q.0) <= n * q.1
            &&& 0x20_0000_0000_0000 * (d * q.0 - n * q.1) <= n * q.1
        }),
{
    lemma_big_powers();
    let q = nearest_double(n, d);
    if n == 0 {
        assert(n * q.1 == 0 && d * q.0 == 0) by (nonlinear_arith)
            requires
                n == 0,
                q.0 == 0,
        ;
    } else if n < d {
        let k = doublings_down(n, d);
        let p = pow2(52 + k);
        lemma_down_reaches(n, d);
        lemma_pow2_adds(k, 52);
        lemma_pow2_pos(52 + k);
        assert(n * p >= d * pow2(52)) by (nonlinear_arith)
            requires
                p == pow2(k) * pow2(52),
                d <= n * pow2(k),
        ;
        lemma_scaled_is_near(n, d, p);
    } else {
        let k = doublings_up(n, d);
        lemma_up_bounds(n, d);
        if k <= 52 {
            let p = pow2((52 - k) as nat);
            lemma_pow2_pos((52 - k) as nat);
            lemma_scaled_floor(n, d, k);
            lemma_scaled_is_near(n, d, p);
        } else {
            let s = pow2((k - 52) as nat);
            lemma_pow2_pos((k - 52) as nat);
            lemma_pow2_adds((k - 52) as nat, 52);
            let e = d * s;
            assert(e > 0) by (nonlinear_arith)
                requires
                    d > 0,
                    s > 0,
                    e == d * s,
            ;
            assert(n * 1 >= e * pow2(52)) by (nonlinear_arith)
                requires
                    d * pow2(k) <= n,
                    pow2(k) == s * pow2(52),
                    e == d * s,
            ;
            lemma_scaled_is_near(n, e, 1);
            let m = nearest_integer(n, e);
            assert(n * 1 == n);
            assert(d * (m * s) == e * m) by (nonlinear_arith)
                requires
                    e == d * s,
            ;
        }
    }
}

/// A quotient is not rounded below an integer that it reaches, if that is below
/// two to the power of 53.
pub proof fn law_rounding_keeps_integers(n: nat, d: nat, m: nat)
    requires
        d > 0,
        n >= d * m,
        n < d * 0x20_0000_0000_0000,
    ensures
        nearest_double(n, d).0 >= m * nearest_double(n, d).1,
        n == d * m ==> nearest_double(n, d).0 == m * nearest_double(n, d).1,
{
    lemma_big_powers();
    if n == 0 {
        assert(m == 0) by (nonlinear_arith)
            requires
                d * m <= 0,
                d > 0,
        ;
    } else if n < d {
        assert(m == 0) by (nonlinear_arith)
            requires
                d * m <= n,
                n < d,
        ;
        assert(m * nearest_double(n, d).1 == 0) by (nonlinear_arith)
            requires
                m == 0,
        ;
        assert(d * m == 0) by (nonlinear_arith)
            requires
                m == 0,
        ;
    } else {
        let k = doublings_up(n, d);
        lemma_up_bounds(n, d);
        assert(pow2(k) < pow2(53)) by (nonlinear_arith)
            requires
                d * pow2(k) <= n,
                n < d * pow2(53),
        ;
        lemma_smaller_powers(k, 53);
        let p = pow2((52 - k) as nat);
        assert(n * p >= d * (m * p)) by (nonlinear_arith)
            requires
                n >= d * m,
        ;
        lemma_nearest_integer_at_least(n * p, d, m * p);
        if n == d * m {
            assert(n * p == d * (m * p)) by (nonlinear_arith)
                requires
                    n == d * m,
            ;
            lemma_nearest_integer_bound(n * p, d, m * p);
        }
    }
}

/// Whole seconds are told exactly.
pub proof fn law_whole_seconds_are_exact(secs: nat)
    requires
        0 < secs < 0x20_0000_0000_0000,
    ensures
        seconds_double(secs * 1_000_000_000).1 > 0,
        seconds_double(secs * 1_000_000_000).0 == secs * seconds_double(secs * 1_000_000_000).1,
{
    let nanos = secs * 1_000_000_000;
    assert(nanos / 1_000_000_000 == secs && nanos % 1_000_000_000 == 0);
    assert(secs * 1 + 0 == secs);
    law_nearest_double_is_near(secs, 1);
    law_rounding_keeps_integers(secs, 1, secs);
}

/// A span in seconds is off by at most three parts in two to the power of 53.
pub proof fn law_seconds_are_near(nanos: nat)
    requires
        nanos > 0,
    ensures
        ({
            let s = seconds_double(nanos);
            &&& s.1 > 0
            &&& 0x20_0000_0000_0000 * (1_000_000_000 * s.0 - nanos * s.1) <= 3 * (nanos * s.1)
            &&& 0x20_0000_0000_0000 * (nanos * s.1 - 1_000_000_000 * s.0) <= 3 * (nanos * s.1)
        }),
{
    let w = nanos / 1_000_000_000;
    let r = nanos % 1_000_000_000;
    let p = nearest_double(r, 1_000_000_000);
    law_nearest_double_is_near(r, 1_000_000_000);
    let x = w * p.1 + p.0;
    let s = nearest_double(x, p.1);
    law_nearest_double_is_near(x, p.1);
    let (np, rp) = (nanos * p.1, r * p.1);
    assert(np == 1_000_000_000 * (w * p.1) + rp) by (nonlinear_arith)
        requires
            nanos == 1_000_000_000 * w + r,
            np == nanos * p.1,
            rp == r * p.1,
    ;
    assert(rp <= np) by (nonlinear_arith)
        requires
            r <= nanos,
            np == nanos * p.1,
            rp == r * p.1,
    ;
    assert(0x20_0000_0000_0000 * (1_000_000_000 * x - np) <= np);
    assert(0x20_0000_0000_0000 * (np - 1_000_000_000 * x) <= np);
    let (xs, ps, ns) = (x * s.1, p.1 * s.0, np * s.1);
    assert(0x20_0000_0000_0000 * (1_000_000_000 * xs - ns) <= ns && 0x20_0000_0000_0000 * (ns
        - 1_000_000_000 * xs) <= ns) by (nonlinear_arith)
        requires
            0x20_0000_0000_0000 * (1_000_000_000 * x - np) <= np,
            0x20_0000_0000_0000 * (np - 1_000_000_000 * x) <= np,
            xs == x * s.1,
            ns == np * s.1,
    ;
    assert(0x20_0000_0000_0000 * (1_000_000_000 * ps - ns) <= 3 * ns);
    assert(0x20_0000_0000_0000 * (ns - 1_000_000_000 * ps) <= 3 * ns);
    let t = nanos * s.1;
    assert(ns == p.1 * t) by (nonlinear_arith)
        requires
            ns == np * s.1,
            np == nanos * p.1,
            t == nanos * s.1,
    ;
    assert(0x20_0000_0000_0000 * (1_000_000_000 * s.0 - t) <= 3 * t) by (nonlinear_arith)
        requires
            0x20_0000_0000_0000 * (1_000_000_000 * ps - ns) <= 3 * ns,
            ps == p.1 * s.0,
            ns == p.1 * t,
            p.1 > 0,
    ;
    assert(0x20_0000_0000_0000 * (t - 1_000_000_000 * s.0) <= 3 * t) by (nonlinear_arith)
        requires
            0x20_0000_0000_0000 * (ns - 1_000_000_000 * ps) <= 3 * ns,
            ps == p.1 * s.0,
            ns == p.1 * t,
            p.1 > 0,
    ;
}

} // verus!
