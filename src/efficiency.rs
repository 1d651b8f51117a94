//! Sleep efficiency, rounded to two significant figures in exact decimal
//! arithmetic.
use vstd::prelude::*;

verus! {

/// The decimal `mantissa` times ten to the power `exponent`.
#[derive(PartialEq, Eq, Structural, Clone, Copy, Debug)]
pub struct Decimal {
    pub mantissa: i64,
    pub exponent: i32,
}

pub open spec fn pow10(n: nat) -> nat
    decreases n,
{
    if n == 0 {
        1
    } else {
        10 * pow10((n - 1) as nat)
    }
}

pub open spec fn abs(x: int) -> nat {
    if x < 0 {
        (-x) as nat
    } else {
        x as nat
    }
}

/// Numerator of `a / b` times ten to the power `j`.
pub open spec fn shifted_num(a: nat, j: int) -> nat {
    if j >= 0 {
        a * pow10(j as nat)
    } else {
        a
    }
}

/// Denominator of `a / b` times ten to the power `j`.
pub open spec fn shifted_den(b: nat, j: int) -> nat {
    if j >= 0 {
        b
    } else {
        b * pow10((-j) as nat)
    }
}

/// `a / b` times ten to the power `j` lies in [10, 100): its integer part has
/// exactly two digits, so `1 - j` is the floor of the base-ten logarithm of `a / b`.
pub open spec fn two_digits_at(a: nat, b: nat, j: int) -> bool {
    10 * shifted_den(b, j) <= shifted_num(a, j) < 100 * shifted_den(b, j)
}

/// `n / d` rounded to the nearest integer, halves away from zero.
pub open spec fn round_half_up(n: nat, d: nat) -> nat
    recommends
        d > 0,
{
    ((2 * n + d) / (2 * d)) as nat
}

/// `r` is `num / den` rounded to two significant figures: the quotient is
/// scaled by the power of ten that brings its magnitude into [10, 100),
/// rounded to an integer (halves away from zero), and scaled back. Zero
/// stays zero, written with exponent 0.
pub open spec fn is_two_sig_fig_rounding(num: int, den: int, r: Decimal) -> bool {
    if num == 0 {
        r.mantissa == 0 && r.exponent == 0
    } else {
        let a = abs(num);
        let b = abs(den);
        let j = -r.exponent;
        let m = round_half_up(shifted_num(a, j), shifted_den(b, j));
        &&& two_digits_at(a, b, j)
        &&& r.mantissa == (if (num < 0) != (den < 0) {
            -m
        } else {
            m as int
        })
    }
}

/// `num / den` rounded to two significant figures (`den` must not be 0).
pub open spec fn two_sig_figs(num: int, den: int) -> Decimal {
    choose|r: Decimal| is_two_sig_fig_rounding(num, den, r)
}

pub proof fn lemma_pow10_positive(n: nat)
    ensures
        pow10(n) >= 1,
    decreases n,
{
    if n > 0 {
        lemma_pow10_positive((n - 1) as nat);
    }
}

pub proof fn lemma_pow10_add(x: nat, y: nat)
    ensures
        pow10(x + y) == pow10(x) * pow10(y),
    decreases y,
{
    if y == 0 {
        assert(pow10(0) == 1);
        assert(x + y == x);
    } else {
        let y1 = (y - 1) as nat;
        lemma_pow10_add(x, y1);
        assert(pow10(x + y) == 10 * pow10(x + y1));
        assert(pow10(y) == 10 * pow10(y1));
        let (px, py1) = (pow10(x), pow10(y1));
        assert(10 * (px * py1) == px * (10 * py1)) by (nonlinear_arith);
    }
}

pub proof fn lemma_pow10_monotone(x: nat, y: nat)
    requires
        x <= y,
    ensures
        pow10(x) <= pow10(y),
    decreases y,
{
    if x < y {
        lemma_pow10_monotone(x, (y - 1) as nat);
        lemma_pow10_positive((y - 1) as nat);
    }
}

/// Cross-multiplied, a larger shift scales `a / b` up by the difference.
proof fn lemma_shift_ratio(a: nat, b: nat, i: int, j: int)
    requires
        i < j,
    ensures
        shifted_num(a, j) * shifted_den(b, i) == shifted_num(a, i) * shifted_den(b, j) * pow10(
            (j - i) as nat,
        ),
{
    let k = (j - i) as nat;
    if i >= 0 {
        lemma_pow10_add(i as nat, k);
        assert(j as nat == i as nat + k);
        let (pi, pk) = (pow10(i as nat), pow10(k));
        assert(a * (pi * pk) * b == a * pi * b * pk) by (nonlinear_arith);
    } else if j >= 0 {
        lemma_pow10_add(j as nat, (-i) as nat);
        assert(k == j as nat + (-i) as nat);
        let (pj, pi) = (pow10(j as nat), pow10((-i) as nat));
        assert(a * pj * (b * pi) == a * b * (pj * pi)) by (nonlinear_arith);
    } else {
        lemma_pow10_add((-j) as nat, k);
        assert((-i) as nat == (-j) as nat + k);
        let (pj, pk) = (pow10((-j) as nat), pow10(k));
        assert(a * (b * (pj * pk)) == a * (b * pj) * pk) by (nonlinear_arith);
    }
}

proof fn lemma_shifted_den_positive(b: nat, j: int)
    requires
        b > 0,
    ensures
        shifted_den(b, j) > 0,
{
    if j < 0 {
        lemma_pow10_positive((-j) as nat);
        let p = pow10((-j) as nat);
        assert(b * p > 0) by (nonlinear_arith)
            requires
                b > 0,
                p >= 1,
        ;
    }
}

/// At most one power of ten brings a quotient into [10, 100).
pub proof fn lemma_two_digits_unique(a: nat, b: nat, i: int, j: int)
    requires
        b > 0,
        two_digits_at(a, b, i),
        two_digits_at(a, b, j),
    ensures
        i == j,
{
    if i != j {
        let (lo, hi) = if i < j {
            (i, j)
        } else {
            (j, i)
        };
        lemma_shift_ratio(a, b, lo, hi);
        lemma_pow10_monotone(1, (hi - lo) as nat);
        let nl = shifted_num(a, lo);
        let dl = shifted_den(b, lo);
        let nh = shifted_num(a, hi);
        let dh = shifted_den(b, hi);
        let p = pow10((hi - lo) as nat);
        assert(pow10(1) == 10) by {
            reveal_with_fuel(pow10, 2);
        }
        lemma_shifted_den_positive(b, lo);
        lemma_shifted_den_positive(b, hi);
        assert(nl * dh * p >= 100 * dl * dh) by (nonlinear_arith)
            requires
                p >= 10,
                10 * dl <= nl,
                dl > 0,
                dh > 0,
        ;
        assert(nh * dl < 100 * dh * dl) by (nonlinear_arith)
            requires
                nh < 100 * dh,
                dl > 0,
        ;
        assert(false) by (nonlinear_arith)
            requires
                nh * dl == nl * dh * p,
                nl * dh * p >= 100 * dl * dh,
                nh * dl < 100 * dh * dl,
        ;
    }
}

/// Two-significant-figure rounding has one result: the same quotient always
/// rounds to the same decimal.
pub proof fn lemma_rounding_unique(num: int, den: int, r1: Decimal, r2: Decimal)
    requires
        den != 0,
        is_two_sig_fig_rounding(num, den, r1),
        is_two_sig_fig_rounding(num, den, r2),
    ensures
        r1 == r2,
{
    if num != 0 {
        lemma_two_digits_unique(abs(num), abs(den), -r1.exponent, -r2.exponent);
    }
}

/// A power of ten below another has the smaller exponent.
pub proof fn lemma_pow10_below(k: nat, e: nat)
    requires
        pow10(k) < pow10(e),
    ensures
        k < e,
{
    if k >= e {
        lemma_pow10_monotone(e, k);
    }
}

proof fn lemma_pow10_table()
    ensures
        pow10(10) == 10_000_000_000,
        pow10(11) == 100_000_000_000,
        pow10(18) == 1_000_000_000_000_000_000,
        pow10(20) == 100_000_000_000_000_000_000,
{
    reveal_with_fuel(pow10, 21);
}

/// Rounds `num / den` to two significant figures, as described at
/// `is_two_sig_fig_rounding`.
pub fn round_to_2_sig_figs(num: i64, den: i64) -> (r: Decimal)
    requires
        den != 0,
    ensures
        is_two_sig_fig_rounding(num as int, den as int, r),
        r == two_sig_figs(num as int, den as int),
        -100 <= r.mantissa <= 100,
{
    if num == 0 {
        let r = Decimal { mantissa: 0, exponent: 0 };
        proof {
            assert(is_two_sig_fig_rounding(num as int, den as int, r));
            lemma_rounding_unique(num as int, den as int, r, two_sig_figs(num as int, den as int));
        }
        return r;
    }
    let negative = (num < 0) != (den < 0);
    let a: i128 = if num < 0 {
        -(num as i128)
    } else {
        num as i128
    };
    let b: i128 = if den < 0 {
        -(den as i128)
    } else {
        den as i128
    };
    let ghost (ga, gb) = (a as nat, b as nat);
    proof {
        lemma_pow10_table();
    }
    let mut n: i128 = a;
    let mut d: i128 = b;
    let mut j: i32 = 0;
    proof {
        assert(pow10(0) == 1);
        assert(ga * pow10(0) == ga) by (nonlinear_arith)
            requires
                pow10(0) == 1,
        ;
        assert(shifted_den(gb, 0) == gb);
    }
    while n >= 100 * d
        invariant
            ga == a,
            gb == b,
            n == a,
            1 <= a <= 0x8000_0000_0000_0000,
            1 <= b <= 0x8000_0000_0000_0000,
            -18 <= j <= 0,
            n == shifted_num(ga, j as int),
            d == shifted_den(gb, j as int),
            d >= 1,
            d <= 0x8000_0000_0000_0000,
            j < 0 ==> n >= 10 * d,
            pow10(18) == 1_000_000_000_000_000_000,
        decreases n - d,
    {
        proof {
            let p = pow10((-j) as nat);
            assert(p <= d) by (nonlinear_arith)
                requires
                    d == gb * p,
                    gb >= 1,
            ;
            if j == -18 {
                assert(false);
            }
            let k = (-j) as nat;
            assert(pow10(k + 1) == 10 * pow10(k));
            assert(gb * pow10(k + 1) == d * 10) by (nonlinear_arith)
                requires
                    pow10(k + 1) == 10 * pow10(k),
                    d == gb * pow10(k),
            ;
        }
        d = d * 10;
        j = j - 1;
    }
    proof {
        lemma_pow10_table();
    }
    while n < 10 * d
        invariant
            ga == a,
            gb == b,
            1 <= a <= 0x8000_0000_0000_0000,
            1 <= b <= 0x8000_0000_0000_0000,
            -18 <= j <= 20,
            n == shifted_num(ga, j as int),
            d == shifted_den(gb, j as int),
            d >= 1,
            n < 100 * d,
            d <= 0x8000_0000_0000_0000,
            j < 0 ==> n >= 10 * d,
            pow10(20) == 100_000_000_000_000_000_000,
        decreases 20 - j,
    {
        proof {
            let p = pow10(j as nat);
            assert(p <= n) by (nonlinear_arith)
                requires
                    n == ga * p,
                    ga >= 1,
            ;
            lemma_pow10_below(j as nat, 20);
            lemma_pow10_positive(j as nat);
            assert(n >= 1);
            assert(pow10((j + 1) as nat) == 10 * pow10(j as nat));
            assert(ga * pow10((j + 1) as nat) == n * 10) by (nonlinear_arith)
                requires
                    pow10((j + 1) as nat) == 10 * pow10(j as nat),
                    n == ga * pow10(j as nat),
            ;
        }
        n = n * 10;
        j = j + 1;
    }
    let m: i128 = (2 * n + d) / (2 * d);
    assert(m <= 100) by (nonlinear_arith)
        requires
            m == (2 * n + d) / (2 * d),
            n < 100 * d,
            d >= 1,
    ;
    assert(m >= 0) by (nonlinear_arith)
        requires
            m == (2 * n + d) / (2 * d),
            n >= 0,
            d >= 1,
    ;
    let mantissa: i64 = if negative {
        -(m as i64)
    } else {
        m as i64
    };
    let r = Decimal { mantissa, exponent: -j };
    proof {
        assert(two_digits_at(ga, gb, j as int));
        assert(ga == abs(num as int) && gb == abs(den as int));
        assert(is_two_sig_fig_rounding(num as int, den as int, r));
        lemma_rounding_unique(num as int, den as int, r, two_sig_figs(num as int, den as int));
    }
    r
}

/// Minutes in bed: asleep, awake, and falling asleep.
pub open spec fn time_in_bed(sleep: int, awake: int, latency: int) -> int {
    sleep + awake + latency
}

/// Sleep efficiency in percent: minutes asleep over minutes in bed, times
/// 100, rounded to two significant figures; 0 where no time was spent in bed.
pub open spec fn efficiency_of(sleep: int, awake: int, latency: int) -> Decimal {
    if time_in_bed(sleep, awake, latency) == 0 {
        Decimal { mantissa: 0, exponent: 0 }
    } else {
        two_sig_figs(100 * sleep, time_in_bed(sleep, awake, latency))
    }
}

/// The exponent of a rounded efficiency stays within [-9, 10] for `i32`
/// inputs: the quotient lies between 100 / (3 * 2^31) and 100 * 2^31.
proof fn lemma_efficiency_exponent_range(sleep: int, tib: int, r: Decimal)
    requires
        sleep != 0,
        -0x8000_0000 <= sleep < 0x8000_0000,
        tib != 0,
        -0x1_8000_0000 <= tib < 0x1_8000_0000,
        is_two_sig_fig_rounding(100 * sleep, tib, r),
    ensures
        -9 <= r.exponent <= 10,
{
    let a = abs(100 * sleep);
    let b = abs(tib);
    let j = -r.exponent;
    lemma_pow10_table();
    if j >= 0 {
        let p = pow10(j as nat);
        assert(100 * p < 100 * b) by (nonlinear_arith)
            requires
                a * p < 100 * b,
                a >= 100,
                p >= 0,
        ;
        lemma_pow10_below(j as nat, 10);
    } else {
        let p = pow10((-j) as nat);
        assert(10 * p <= a) by (nonlinear_arith)
            requires
                10 * (b * p) <= a,
                b >= 1,
                p >= 0,
        ;
        lemma_pow10_below((-j) as nat, 11);
    }
}

/// Sleep efficiency in percent of the minutes in bed, to two significant
/// figures; 0 where the minutes in bed sum to 0.
pub fn calc_efficiency(sleep: i32, awake: i32, latency: i32) -> (r: Decimal)
    ensures
        r == efficiency_of(sleep as int, awake as int, latency as int),
        -9 <= r.exponent <= 10,
        -100 <= r.mantissa <= 100,
{
    let tib: i64 = sleep as i64 + awake as i64 + latency as i64;
    if tib == 0 {
        return Decimal { mantissa: 0, exponent: 0 };
    }
    let r = round_to_2_sig_figs(100 * sleep as i64, tib);
    proof {
        if sleep != 0 {
            lemma_efficiency_exponent_range(sleep as int, tib as int, r);
        }
    }
    r
}

} // verus!
