//! Ordering decimals by value.

use vstd::prelude::*;

use crate::decimal::Decimal;

verus! {

/// `10^n`.
pub open spec fn pow10(n: nat) -> nat
    decreases n,
{
    if n == 0 {
        1
    } else {
        10 * pow10((n - 1) as nat)
    }
}

/// The value of `d` times `10^255`: an integer for every decimal, since its
/// scale is at most 255. Two decimals compare by value as their keys compare.
pub open spec fn value_key(d: Decimal) -> int {
    d.mantissa * pow10((255 - d.scale) as nat)
}

proof fn lemma_pow10_positive(n: nat)
    ensures
        pow10(n) >= 1,
    decreases n,
{
    if n > 0 {
        lemma_pow10_positive((n - 1) as nat);
    }
}

proof fn lemma_pow10_add(a: nat, b: nat)
    ensures
        pow10(a + b) == pow10(a) * pow10(b),
    decreases a,
{
    if a > 0 {
        lemma_pow10_add((a - 1) as nat, b);
        assert(pow10(a + b) == 10 * pow10((a - 1 + b) as nat));
        assert(10 * (pow10((a - 1) as nat) * pow10(b)) == (10 * pow10((a - 1) as nat)) * pow10(b))
            by (nonlinear_arith);
    } else {
        assert(pow10(0) == 1);
        assert(a + b == b);
    }
}

/// The sign of `x * 10^k - y`: negative, zero or positive.
fn scaled_compare(x: u128, k: u8, y: u128) -> (r: i8)
    ensures
        (r < 0) == (x * pow10(k as nat) < y),
        (r == 0) == (x * pow10(k as nat) == y),
        (r > 0) == (x * pow10(k as nat) > y),
{
    let mut v: u128 = x;
    let mut j: u8 = 0;
    assert(pow10(0) == 1);
    while j < k
        invariant
            j <= k,
            v == x * pow10(j as nat),
        decreases k - j,
    {
        let ghost rest = (k - j) as nat;
        proof {
            lemma_pow10_add(j as nat, rest);
            lemma_pow10_positive(rest);
            assert(j + rest == k);
            assert(x * pow10(k as nat) == v * pow10(rest)) by (nonlinear_arith)
                requires
                    pow10(k as nat) == pow10(j as nat) * pow10(rest),
                    v == x * pow10(j as nat),
            ;
        }
        if v > y {
            assert(v * pow10(rest) >= v) by (nonlinear_arith)
                requires
                    pow10(rest) >= 1,
                    v >= 0,
            ;
            return 1;
        }
        if v > u128::MAX / 10 {
            proof {
                lemma_pow10_add(1, (rest - 1) as nat);
                lemma_pow10_positive((rest - 1) as nat);
                assert(pow10(1) == 10) by {
                    reveal_with_fuel(pow10, 2);
                }
                assert(v * pow10(rest) >= v * 10) by (nonlinear_arith)
                    requires
                        pow10(rest) == 10 * pow10((rest - 1) as nat),
                        pow10((rest - 1) as nat) >= 1,
                        v >= 0,
                ;
            }
            return 1;
        }
        v = v * 10;
        proof {
            assert(pow10((j + 1) as nat) == 10 * pow10(j as nat));
            assert(v == x * pow10((j + 1) as nat)) by (nonlinear_arith)
                requires
                    v == 10 * (x * pow10(j as nat)),
                    pow10((j + 1) as nat) == 10 * pow10(j as nat),
            ;
        }
        j = j + 1;
    }
    if v < y {
        -1
    } else if v == y {
        0
    } else {
        1
    }
}

proof fn lemma_key_scaled(a: Decimal, b: Decimal)
    requires
        a.scale <= b.scale,
    ensures
        ({
            let k = (b.scale - a.scale) as nat;
            let p = pow10((255 - b.scale) as nat);
            &&& p >= 1
            &&& value_key(a) == (a.mantissa * pow10(k)) * p
            &&& value_key(b) == b.mantissa * p
        }),
{
    let k = (b.scale - a.scale) as nat;
    let p = pow10((255 - b.scale) as nat);
    lemma_pow10_add(k, (255 - b.scale) as nat);
    lemma_pow10_positive((255 - b.scale) as nat);
    assert(k + (255 - b.scale) == 255 - a.scale);
    assert(a.mantissa * (pow10(k) * p) == (a.mantissa * pow10(k)) * p) by (nonlinear_arith);
}

proof fn lemma_scale_sign(u: int, v: int, p: int)
    requires
        p >= 1,
    ensures
        (u < v) == (u * p < v * p),
        (u == v) == (u * p == v * p),
{
    if u < v {
        assert(u * p < v * p) by (nonlinear_arith)
            requires
                u < v,
                p >= 1,
        ;
    } else if u > v {
        assert(u * p > v * p) by (nonlinear_arith)
            requires
                u > v,
                p >= 1,
        ;
    }
}

/// Compares two decimals by value: negative, zero or positive as `a` is
/// below, equal to or above `b`.
pub fn compare_decimal(a: Decimal, b: Decimal) -> (r: i8)
    ensures
        (r < 0) == (value_key(a) < value_key(b)),
        (r == 0) == (value_key(a) == value_key(b)),
        (r > 0) == (value_key(a) > value_key(b)),
{
    if a.scale <= b.scale {
        let r = scaled_compare(a.mantissa, b.scale - a.scale, b.mantissa);
        proof {
            lemma_key_scaled(a, b);
            let k = (b.scale - a.scale) as nat;
            lemma_scale_sign(a.mantissa * pow10(k), b.mantissa as int, pow10((255 - b.scale) as nat) as int);
        }
        r
    } else {
        let r = scaled_compare(b.mantissa, a.scale - b.scale, a.mantissa);
        proof {
            lemma_key_scaled(b, a);
            let k = (a.scale - b.scale) as nat;
            lemma_scale_sign(b.mantissa * pow10(k), a.mantissa as int, pow10((255 - a.scale) as nat) as int);
        }
        if r < 0 {
            1
        } else if r == 0 {
            0
        } else {
            -1
        }
    }
}

} // verus!
