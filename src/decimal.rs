use vstd::prelude::*;
use crate::errors::GridError;

verus! {

/// Fixed-point scale shared by grid rates: one unit is a basis point.
pub const GRID_RATE_DENOMINATOR: u128 = 10000;

/// Denominator of slippage tolerances, in basis points.
pub const SLIPPAGE_DENOMINATOR: u128 = 10000;

/// Largest value of the engine's working width.
pub open spec fn max_value() -> int {
    u128::MAX as int
}

/// `b` raised to the natural power `e`.
pub open spec fn power(b: int, e: nat) -> int
    decreases e,
{
    if e == 0 {
        1
    } else {
        b * power(b, (e - 1) as nat)
    }
}

pub proof fn lemma_power_positive(b: int, e: nat)
    requires
        b > 0,
    ensures
        power(b, e) > 0,
    decreases e,
{
    if e > 0 {
        lemma_power_positive(b, (e - 1) as nat);
        assert(b * power(b, (e - 1) as nat) > 0) by (nonlinear_arith)
            requires
                b > 0,
                power(b, (e - 1) as nat) > 0,
        ;
    }
}

pub proof fn lemma_power_nonneg(b: int, e: nat)
    requires
        b >= 0,
    ensures
        power(b, e) >= 0,
    decreases e,
{
    if e > 0 {
        lemma_power_nonneg(b, (e - 1) as nat);
        assert(b * power(b, (e - 1) as nat) >= 0) by (nonlinear_arith)
            requires
                b >= 0,
                power(b, (e - 1) as nat) >= 0,
        ;
    }
}

/// For a base of at least one, powers grow with the exponent.
pub proof fn lemma_power_grows(b: int, e1: nat, e2: nat)
    requires
        b >= 1,
        e1 <= e2,
    ensures
        power(b, e1) <= power(b, e2),
    decreases e2,
{
    if e1 < e2 {
        lemma_power_grows(b, e1, (e2 - 1) as nat);
        lemma_power_positive(b, (e2 - 1) as nat);
        let p = power(b, (e2 - 1) as nat);
        assert(p <= b * p) by (nonlinear_arith)
            requires
                b >= 1,
                p > 0,
        ;
    }
}

/// Adds two amounts; fails when the sum leaves the working width.
pub fn add_checked(a: u128, b: u128) -> (r: Result<u128, GridError>)
    ensures
        match r {
            Ok(v) => v == a + b,
            Err(e) => e == GridError::Overflow && a + b > max_value(),
        },
{
    match a.checked_add(b) {
        Some(v) => Ok(v),
        None => Err(GridError::Overflow),
    }
}

/// Subtracts `b` from `a`; fails when the difference is negative.
pub fn sub_checked(a: u128, b: u128) -> (r: Result<u128, GridError>)
    ensures
        match r {
            Ok(v) => v == a - b,
            Err(e) => e == GridError::Overflow && a < b,
        },
{
    if a < b {
        Err(GridError::Overflow)
    } else {
        Ok(a - b)
    }
}

/// Multiplies two amounts; fails when the product leaves the working width.
pub fn mul_checked(a: u128, b: u128) -> (r: Result<u128, GridError>)
    ensures
        match r {
            Ok(v) => v == a * b,
            Err(e) => e == GridError::Overflow && a * b > max_value(),
        },
{
    match a.checked_mul(b) {
        Some(v) => Ok(v),
        None => Err(GridError::Overflow),
    }
}

/// Floor of `a / b`; fails when `b` is zero.
pub fn div_floor(a: u128, b: u128) -> (r: Result<u128, GridError>)
    ensures
        match r {
            Ok(v) => b != 0 && v == a / b,
            Err(e) => e == GridError::DivisionByZero && b == 0,
        },
{
    if b == 0 {
        Err(GridError::DivisionByZero)
    } else {
        Ok(a / b)
    }
}

/// `b` raised to `e` by iterated multiplication; fails exactly when the power
/// leaves the working width.
pub fn pow_checked(b: u128, e: u64) -> (r: Result<u128, GridError>)
    ensures
        match r {
            Ok(v) => v == power(b as int, e as nat),
            Err(err) => err == GridError::Overflow && power(b as int, e as nat) > max_value(),
        },
{
    let mut acc: u128 = 1;
    let mut i: u64 = 0;
    while i < e
        invariant
            i <= e,
            acc == power(b as int, i as nat),
        decreases e - i,
    {
        match acc.checked_mul(b) {
            Some(v) => {
                acc = v;
                i = i + 1;
                assert(acc == power(b as int, i as nat));
            },
            None => {
                proof {
                    assert(power(b as int, (i + 1) as nat) == b * power(b as int, i as nat));
                    if b >= 1 {
                        lemma_power_grows(b as int, (i + 1) as nat, e as nat);
                    } else {
                        assert(false) by (nonlinear_arith)
                            requires
                                b == 0,
                                acc * b > u128::MAX,
                        ;
                    }
                }
                return Err(GridError::Overflow);
            },
        }
    }
    Ok(acc)
}

/// Halvings of `y` down to its leading bit: `[y, y / 2, y / 4, ..., 1]`, empty
/// for zero.
fn halvings(y: u128) -> (h: Vec<u128>)
    ensures
        y == 0 <==> h.len() == 0,
        h.len() > 0 ==> h@[0] == y && h@[h.len() - 1] == 1,
        forall|i: int| 0 <= i < h.len() - 1 ==> #[trigger] h@[i + 1] == h@[i] / 2,
{
    let mut h: Vec<u128> = Vec::new();
    let mut p: u128 = y;
    while p > 0
        invariant
            h.len() == 0 ==> p == y,
            h.len() > 0 ==> y > 0 && h@[0] == y && p == h@[h.len() - 1] / 2 && h@[h.len() - 1] > 0,
            forall|i: int| 0 <= i < h.len() - 1 ==> #[trigger] h@[i + 1] == h@[i] / 2,
        decreases p,
    {
        let ghost before = h@;
        h.push(p);
        assert(forall|i: int| 0 <= i < before.len() ==> h@[i] == before[i]);
        p = p / 2;
    }
    h
}

/// Floor of `a * b / c`. The product is never formed: the quotient and the
/// remainder by `c` are carried bit by bit, so the call succeeds whenever the
/// quotient itself fits, even where `a * b` does not.
pub fn mul_div_floor(a: u128, b: u128, c: u128) -> (r: Result<u128, GridError>)
    ensures
        match r {
            Ok(v) => c != 0 && v == (a * b) / (c as int),
            Err(e) => (e == GridError::DivisionByZero && c == 0) || (e == GridError::Overflow && c
                != 0 && (a * b) / (c as int) > max_value()),
        },
{
    if c == 0 {
        return Err(GridError::DivisionByZero);
    }
    let whole: u128 = a / c;
    let part: u128 = a % c;
    let ghost ci = c as int;
    let ghost bi = b as int;
    // a * b == whole * b * c + part * b, with part < c
    let h = halvings(b);
    let mut q: u128 = 0;
    let mut rem: u128 = 0;
    let mut j: usize = h.len();
    let ghost mut cur: int = 0;
    while j > 0
        invariant
            ci == c,
            0 < c,
            part < c,
            j <= h.len(),
            j == h.len() ==> cur == 0,
            j < h.len() ==> cur == h@[j as int],
            forall|i: int| 0 <= i < h.len() - 1 ==> #[trigger] h@[i + 1] == h@[i] / 2,
            h.len() > 0 ==> h@[h.len() - 1] == 1,
            q * ci + rem == part * cur,
            rem < c,
            q <= cur,
        decreases j,
    {
        let next: u128 = h[j - 1];
        proof {
            if j < h.len() {
                assert(h@[(j - 1) + 1] == h@[j - 1] / 2);
            }
            assert(next == 2 * cur + next % 2);
        }
        let ghost q0 = q as int;
        let ghost r0 = rem as int;
        // double
        if rem >= c - rem {
            rem = rem - (c - rem);
            proof {
                assert((2 * q0 + 1) * ci + rem == 2 * (q0 * ci + r0)) by (nonlinear_arith)
                    requires
                        rem == 2 * r0 - ci,
                ;
                assert(2 * q0 + 1 <= 2 * cur + 1);
                assert((2 * q0 + 1) * ci <= part * (2 * cur)) by (nonlinear_arith)
                    requires
                        (2 * q0 + 1) * ci + rem == 2 * (q0 * ci + r0),
                        q0 * ci + r0 == part * cur,
                        rem >= 0,
                ;
                assert(2 * q0 + 1 <= 2 * cur) by (nonlinear_arith)
                    requires
                        (2 * q0 + 1) * ci <= part * (2 * cur),
                        0 <= part < ci,
                        cur >= 0,
                ;
            }
            q = 2 * q + 1;
            assert(q * ci + rem == 2 * (q0 * ci + r0)) by (nonlinear_arith)
                requires
                    q == 2 * q0 + 1,
                    rem == 2 * r0 - ci,
            ;
        } else {
            rem = 2 * rem;
            q = 2 * q;
            assert(q * ci + rem == 2 * (q0 * ci + r0)) by (nonlinear_arith)
                requires
                    q == 2 * q0,
                    rem == 2 * r0,
            ;
        }
        let ghost q1 = q as int;
        let ghost r1 = rem as int;
        assert(q1 * ci + r1 == part * (2 * cur)) by (nonlinear_arith)
            requires
                q1 * ci + r1 == 2 * (q0 * ci + r0),
                q0 * ci + r0 == part * cur,
        ;
        // add the bit
        if next % 2 == 1 {
            if rem >= c - part {
                rem = rem - (c - part);
                q = q + 1;
                assert(q * ci + rem == q1 * ci + r1 + part) by (nonlinear_arith)
                    requires
                        q == q1 + 1,
                        rem == r1 - (ci - part),
                ;
            } else {
                rem = rem + part;
            }
        }
        proof {
            assert(q * ci + rem == part * next) by (nonlinear_arith)
                requires
                    q1 * ci + r1 == part * (2 * cur),
                    next == 2 * cur + next % 2,
                    next % 2 == 1 ==> q * ci + rem == q1 * ci + r1 + part,
                    next % 2 != 1 ==> q * ci + rem == q1 * ci + r1,
            ;
            assert(q <= next) by (nonlinear_arith)
                requires
                    q * ci + rem == part * next,
                    rem >= 0,
                    0 <= part < ci,
                    next >= 0,
            ;
            cur = next as int;
        }
        j = j - 1;
    }
    proof {
        assert(cur == b);
        vstd::arithmetic::div_mod::lemma_fundamental_div_mod(a as int, ci);
        assert(a * b == ci * (whole * b) + (q * ci + rem)) by (nonlinear_arith)
            requires
                a == ci * whole + part,
                q * ci + rem == part * b,
        ;
        assert(whole * b >= 0) by (nonlinear_arith);
        assert(ci * (whole * b + q) + rem == a * b) by (nonlinear_arith)
            requires
                a * b == ci * (whole * b) + (q * ci + rem),
        ;
        vstd::arithmetic::div_mod::lemma_div_multiples_vanish_fancy(whole * b + q, rem as int, ci);
    }
    let scaled = mul_checked(whole, b)?;
    add_checked(scaled, q)
}

} // verus!
