use vstd::prelude::*;
use crate::decimal::{
    add_checked, lemma_power_positive, max_value, mul_checked, power, GRID_RATE_DENOMINATOR,
};
use crate::wide::{add_power, limbs_ok, limbs_value, mul_small, shift_down, to_u128, LIMB_BASE};
use crate::errors::GridError;

verus! {

/// Sum of the `n` terms `a, a + d, ..., a + d * (n - 1)`, term by term.
pub open spec fn arithmetic_terms(a: int, d: int, n: nat) -> int
    decreases n,
{
    if n == 0 {
        0
    } else {
        arithmetic_terms(a, d, (n - 1) as nat) + (a + d * (n - 1))
    }
}

/// Closed form of the arithmetic series: `n * a + d * n * (n - 1) / 2`.
pub open spec fn arithmetic_sum_spec(a: int, d: int, n: nat) -> int {
    n * a + d * ((n * (n - 1)) / 2)
}

/// Numerator of the scaled geometric series: `sum over k < n of R^k * S^(n-1-k)`,
/// with `R = S + g` and `S` the rate denominator.
pub open spec fn geometric_numerator(g: int, n: nat) -> int
    decreases n,
{
    if n == 0 {
        0
    } else {
        power(GRID_RATE_DENOMINATOR as int, (n - 1) as nat) + (GRID_RATE_DENOMINATOR + g)
            * geometric_numerator(g, (n - 1) as nat)
    }
}

/// `S * sum over k < n of ((S + g) / S)^k`, rounded down.
pub open spec fn geometric_sum_spec(g: int, n: nat) -> int {
    if n == 0 {
        0
    } else {
        (GRID_RATE_DENOMINATOR * geometric_numerator(g, n)) / power(
            GRID_RATE_DENOMINATOR as int,
            (n - 1) as nat,
        )
    }
}

/// The term-by-term sum of an arithmetic series equals its closed form.
pub proof fn lemma_arithmetic_closed_form(a: int, d: int, n: nat)
    ensures
        arithmetic_terms(a, d, n) == arithmetic_sum_spec(a, d, n),
    decreases n,
{
    if n > 0 {
        let m = (n - 1) as nat;
        lemma_arithmetic_closed_form(a, d, m);
        let x = m * (m - 1);
        assert(n * (n - 1) == x + 2 * m) by (nonlinear_arith)
            requires
                n == m + 1,
                x == m * (m - 1),
        ;
        assert((x + 2 * m) / 2 == x / 2 + m);
        let t = x / 2;
        assert((n * (n - 1)) / 2 == t + m);
        assert(arithmetic_sum_spec(a, d, n) == n * a + d * (t + m));
        assert(arithmetic_sum_spec(a, d, m) == m * a + d * t);
        assert(arithmetic_terms(a, d, n) == arithmetic_terms(a, d, m) + (a + d * m));
        assert(n * a + d * (t + m) == m * a + d * t + (a + d * m)) by (nonlinear_arith)
            requires
                n == m + 1,
        ;
    } else {
        assert(n * a + d * ((n * (n - 1)) / 2) == 0) by (nonlinear_arith)
            requires
                n == 0,
        ;
    }
}

/// `g` times the geometric numerator telescopes to `(S + g)^n - S^n`.
pub proof fn lemma_geometric_telescopes(g: int, n: nat)
    ensures
        g * geometric_numerator(g, n) == power(GRID_RATE_DENOMINATOR + g, n) - power(
            GRID_RATE_DENOMINATOR as int,
            n,
        ),
    decreases n,
{
    if n > 0 {
        let m = (n - 1) as nat;
        let s = GRID_RATE_DENOMINATOR as int;
        let r = s + g;
        lemma_geometric_telescopes(g, m);
        let nm = geometric_numerator(g, m);
        let pr = power(r, m);
        let ps = power(s, m);
        assert(g * (ps + r * nm) == r * pr - s * ps) by (nonlinear_arith)
            requires
                g * nm == pr - ps,
                r == s + g,
        ;
    }
}

/// The scaled geometric series in the closed form
/// `S * ((S + g)^n - S^n) / (S^(n-1) * g)`.
pub proof fn lemma_geometric_closed_form(g: int, n: nat)
    requires
        g > 0,
        n > 0,
    ensures
        geometric_sum_spec(g, n) == (GRID_RATE_DENOMINATOR * (power(GRID_RATE_DENOMINATOR + g, n)
            - power(GRID_RATE_DENOMINATOR as int, n))) / (power(
            GRID_RATE_DENOMINATOR as int,
            (n - 1) as nat,
        ) * g),
{
    let s = GRID_RATE_DENOMINATOR as int;
    let nm = geometric_numerator(g, n);
    let diff = power(s + g, n) - power(s, n);
    let p = power(s, (n - 1) as nat);
    lemma_geometric_telescopes(g, n);
    lemma_power_positive(s, (n - 1) as nat);
    lemma_geometric_numerator_nonneg(g, n);
    assert(g * (s * nm) == s * diff) by (nonlinear_arith)
        requires
            g * nm == diff,
    ;
    assert(g * p == p * g) by (nonlinear_arith);
    assert(s * nm >= 0) by (nonlinear_arith)
        requires
            nm >= 0,
            s > 0,
    ;
    vstd::arithmetic::div_mod::lemma_div_multiples_vanish_quotient(g, s * nm, p);
}

proof fn lemma_geometric_numerator_nonneg(g: int, n: nat)
    requires
        g >= 0,
    ensures
        geometric_numerator(g, n) >= 0,
    decreases n,
{
    if n > 0 {
        lemma_geometric_numerator_nonneg(g, (n - 1) as nat);
        lemma_power_positive(GRID_RATE_DENOMINATOR as int, (n - 1) as nat);
        let nm = geometric_numerator(g, (n - 1) as nat);
        assert((GRID_RATE_DENOMINATOR + g) * nm >= 0) by (nonlinear_arith)
            requires
                nm >= 0,
                g >= 0,
        ;
    }
}

/// Arithmetic series `n * a + d * n * (n - 1) / 2` in the working width; fails
/// exactly when the sum does not fit.
pub fn arithmetic_series_sum(a: u128, d: u128, n: u16) -> (r: Result<u128, GridError>)
    ensures
        match r {
            Ok(v) => v == arithmetic_sum_spec(a as int, d as int, n as nat),
            Err(e) => e == GridError::Overflow && arithmetic_sum_spec(a as int, d as int, n as nat)
                > max_value(),
        },
{
    let nn: u128 = n as u128;
    let pairs: u128 = if n == 0 {
        0
    } else {
        assert(nn * (nn - 1) <= 65535 * 65535) by (nonlinear_arith)
            requires
                1 <= nn <= 65535,
        ;
        let p = nn * (nn - 1);
        assert(p == n as nat * (n as nat - 1)) by (nonlinear_arith)
            requires
                nn == n,
                p == nn * (nn - 1),
        ;
        p / 2
    };
    assert(d * pairs >= 0 && nn * a >= 0) by (nonlinear_arith);
    assert(a * nn == n as nat * a) by (nonlinear_arith)
        requires
            nn == n,
    ;
    let flat = mul_checked(a, nn)?;
    let step = mul_checked(d, pairs)?;
    add_checked(flat, step)
}

/// `S * sum over k < n of ((S + delta_r) / S)^k`, rounded down, exact for every
/// `n`: the scaled numerator `S * sum over k < n of R^k * S^(n-1-k)` is built in
/// wide limbs by `T(j + 1) = R * T(j) + S^(j + 1)` and then divided by
/// `S^(n-1)`. A zero rate has no geometric closed form and is a division by
/// zero; otherwise the call fails exactly when the sum exceeds `u128::MAX`.
pub fn geometric_series_sum(n: u16, delta_r: u16) -> (r: Result<u128, GridError>)
    ensures
        match r {
            Ok(v) => v == geometric_sum_spec(delta_r as int, n as nat) && (n > 0 ==> delta_r > 0),
            Err(e) => n > 0 && ((e == GridError::DivisionByZero && delta_r == 0) || (e
                == GridError::Overflow && delta_r > 0 && geometric_sum_spec(delta_r as int, n as nat)
                > max_value())),
        },
        n == 0 ==> r == Ok::<u128, GridError>(0),
        n > 0 && delta_r > 0 ==> geometric_sum_spec(delta_r as int, n as nat) == (GRID_RATE_DENOMINATOR
            * (power(GRID_RATE_DENOMINATOR + delta_r, n as nat) - power(
            GRID_RATE_DENOMINATOR as int,
            n as nat,
        ))) / (power(GRID_RATE_DENOMINATOR as int, (n - 1) as nat) * delta_r),
{
    if n == 0 {
        return Ok(0);
    }
    proof {
        if delta_r > 0 {
            lemma_geometric_closed_form(delta_r as int, n as nat);
        }
    }
    if delta_r == 0 {
        return Err(GridError::DivisionByZero);
    }
    let ghost s = GRID_RATE_DENOMINATOR as int;
    let ghost g = delta_r as int;
    let ratio: u64 = LIMB_BASE + delta_r as u64;
    let mut t: Vec<u64> = Vec::new();
    let mut j: u16 = 0;
    while j < n
        invariant
            j <= n,
            limbs_ok(t@),
            s == 10000,
            g == delta_r,
            ratio == s + g,
            limbs_value(t@) == s * geometric_numerator(g, j as nat),
        decreases n - j,
    {
        let ghost before = limbs_value(t@);
        t = mul_small(&t, ratio);
        t = add_power(&t, (j + 1) as usize);
        proof {
            let nm = geometric_numerator(g, j as nat);
            assert(geometric_numerator(g, (j + 1) as nat) == power(s, j as nat) + (s + g) * nm);
            assert(power(s, (j + 1) as nat) == s * power(s, j as nat));
            assert(ratio * (s * nm) + s * power(s, j as nat) == s * (power(s, j as nat) + (s + g)
                * nm)) by (nonlinear_arith)
                requires
                    ratio == s + g,
            ;
        }
        j = j + 1;
    }
    let y = shift_down(&t, (n - 1) as usize);
    match to_u128(&y) {
        Some(v) => Ok(v),
        None => Err(GridError::Overflow),
    }
}

} // verus!
