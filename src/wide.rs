use vstd::prelude::*;
use crate::decimal::{lemma_power_grows, max_value, power};
use crate::errors::GridError;

verus! {

/// Limb base of wide numbers. It equals the rate denominator, so dividing by a
/// power of the denominator drops limbs.
pub const LIMB_BASE: u64 = 10000;

/// `10000^k`.
pub open spec fn base_pow(k: nat) -> int {
    power(10000, k)
}

/// Value of little-endian base-10000 limbs.
pub open spec fn limbs_value(s: Seq<u64>) -> int
    decreases s.len(),
{
    if s.len() == 0 {
        0
    } else {
        s[0] + 10000 * limbs_value(s.drop_first())
    }
}

/// Every limb is a base-10000 digit.
pub open spec fn limbs_ok(s: Seq<u64>) -> bool {
    forall|i: int| 0 <= i < s.len() ==> #[trigger] s[i] < 10000
}

proof fn lemma_base_pow_step(k: nat)
    ensures
        base_pow(k + 1) == 10000 * base_pow(k),
        base_pow(0) == 1,
        base_pow(k) >= 1,
{
    assert(power(10000, k + 1) == 10000 * power(10000, k));
    assert(power(10000, 0) == 1);
    lemma_power_grows(10000, 0, k);
}

proof fn lemma_value_push(s: Seq<u64>, d: u64)
    ensures
        limbs_value(s.push(d)) == limbs_value(s) + d * base_pow(s.len()),
    decreases s.len(),
{
    let t = s.push(d);
    lemma_base_pow_step(s.len());
    if s.len() == 0 {
        assert(t.drop_first() =~= Seq::<u64>::empty());
        assert(limbs_value(t) == d + 10000 * limbs_value(t.drop_first()));
    } else {
        let rest = s.drop_first();
        assert(t.drop_first() =~= rest.push(d));
        lemma_value_push(rest, d);
        lemma_base_pow_step(rest.len());
        let p = base_pow(rest.len());
        let v = limbs_value(rest);
        assert(10000 * (v + d * p) == 10000 * v + d * (10000 * p)) by (nonlinear_arith);
    }
}

proof fn lemma_value_bound(s: Seq<u64>)
    requires
        limbs_ok(s),
    ensures
        0 <= limbs_value(s) < base_pow(s.len()),
    decreases s.len(),
{
    lemma_base_pow_step(s.len());
    if s.len() > 0 {
        let rest = s.drop_first();
        assert(limbs_ok(rest)) by {
            assert forall|i: int| 0 <= i < rest.len() implies #[trigger] rest[i] < 10000 by {
                assert(rest[i] == s[i + 1]);
            }
        }
        lemma_value_bound(rest);
        lemma_base_pow_step(rest.len());
        let v = limbs_value(rest);
        let p = base_pow(rest.len());
        let d = s[0] as int;
        assert(0 <= d + 10000 * v < 10000 * p) by (nonlinear_arith)
            requires
                0 <= d < 10000,
                0 <= v < p,
        ;
    }
}

proof fn lemma_limbs_ok_subrange(s: Seq<u64>, lo: int, hi: int)
    requires
        limbs_ok(s),
        0 <= lo <= hi <= s.len(),
    ensures
        limbs_ok(s.subrange(lo, hi)),
{
    assert forall|i: int| 0 <= i < hi - lo implies #[trigger] s.subrange(lo, hi)[i] < 10000 by {
        assert(s.subrange(lo, hi)[i] == s[lo + i]);
    }
}

/// Limbs below `k` and limbs from `k` on.
proof fn lemma_value_split(s: Seq<u64>, k: int)
    requires
        0 <= k <= s.len(),
    ensures
        limbs_value(s) == limbs_value(s.subrange(0, k)) + base_pow(k as nat) * limbs_value(
            s.subrange(k, s.len() as int),
        ),
    decreases k,
{
    lemma_base_pow_step(k as nat);
    if k == 0 {
        assert(s.subrange(0, 0) =~= Seq::<u64>::empty());
        assert(s.subrange(0, s.len() as int) =~= s);
    } else {
        lemma_value_split(s, k - 1);
        let hi = s.subrange(k - 1, s.len() as int);
        assert(hi.drop_first() =~= s.subrange(k, s.len() as int));
        assert(limbs_value(hi) == s[k - 1] + 10000 * limbs_value(s.subrange(k, s.len() as int)));
        assert(s.subrange(0, k) =~= s.subrange(0, k - 1).push(s[k - 1]));
        lemma_value_push(s.subrange(0, k - 1), s[k - 1]);
        lemma_base_pow_step((k - 1) as nat);
        let p = base_pow((k - 1) as nat);
        let d = s[k - 1] as int;
        let h = limbs_value(s.subrange(k, s.len() as int));
        assert(p * (d + 10000 * h) == d * p + (10000 * p) * h) by (nonlinear_arith);
    }
}

/// A suffix of the limbs is worth at most the whole.
proof fn lemma_suffix_le(s: Seq<u64>, j: int)
    requires
        limbs_ok(s),
        0 <= j <= s.len(),
    ensures
        0 <= limbs_value(s.subrange(j, s.len() as int)) <= limbs_value(s),
{
    lemma_value_split(s, j);
    lemma_limbs_ok_subrange(s, 0, j);
    lemma_limbs_ok_subrange(s, j, s.len() as int);
    lemma_value_bound(s.subrange(0, j));
    lemma_value_bound(s.subrange(j, s.len() as int));
    lemma_base_pow_step(j as nat);
    let h = limbs_value(s.subrange(j, s.len() as int));
    let p = base_pow(j as nat);
    assert(h <= p * h) by (nonlinear_arith)
        requires
            p >= 1,
            h >= 0,
    ;
}

/// Appends the base-10000 digits of `v` above the limbs already there.
fn append_digits(out: &mut Vec<u64>, v: u128)
    requires
        limbs_ok(old(out)@),
    ensures
        limbs_ok(final(out)@),
        final(out)@.len() >= old(out)@.len(),
        limbs_value(final(out)@) == limbs_value(old(out)@) + v * base_pow(old(out)@.len()),
{
    let ghost orig = out@;
    let mut rest: u128 = v;
    while rest > 0
        invariant
            limbs_ok(out@),
            out@.len() >= orig.len(),
            limbs_value(out@) + rest * base_pow(out@.len()) == limbs_value(orig) + v * base_pow(
                orig.len(),
            ),
        decreases rest,
    {
        let d: u64 = (rest % 10000) as u64;
        let ghost before = out@;
        proof {
            lemma_value_push(before, d);
            lemma_base_pow_step(before.len());
        }
        out.push(d);
        let ghost r0 = rest as int;
        rest = rest / 10000;
        proof {
            assert(out@ == before.push(d));
            let p = base_pow(before.len());
            assert(r0 == 10000 * rest + d);
            assert(d * p + rest * (10000 * p) == r0 * p) by (nonlinear_arith)
                requires
                    r0 == 10000 * rest + d,
            ;
        }
    }
    proof {
        assert(rest * base_pow(out@.len()) == 0) by (nonlinear_arith)
            requires
                rest == 0,
        ;
    }
}

/// `m` times a wide number.
pub(crate) fn mul_small(x: &Vec<u64>, m: u64) -> (r: Vec<u64>)
    requires
        limbs_ok(x@),
        m <= 0xFFFF_FFFF,
    ensures
        limbs_ok(r@),
        limbs_value(r@) == m * limbs_value(x@),
{
    let mut out: Vec<u64> = Vec::new();
    let mut carry: u64 = 0;
    let mut i: usize = 0;
    while i < x.len()
        invariant
            i <= x.len(),
            out@.len() == i,
            limbs_ok(out@),
            limbs_ok(x@),
            carry <= m,
            m <= 0xFFFF_FFFF,
            limbs_value(out@) + carry * base_pow(i as nat) == m * limbs_value(
                x@.subrange(0, i as int),
            ),
        decreases x.len() - i,
    {
        let xi = x[i];
        assert(xi < 10000);
        assert(xi * m + carry <= 10000 * m) by (nonlinear_arith)
            requires
                xi < 10000,
                carry <= m,
        ;
        let t: u64 = xi * m + carry;
        let d: u64 = t % 10000;
        let ghost before = out@;
        let ghost c0 = carry as int;
        proof {
            lemma_value_push(before, d);
            assert(x@.subrange(0, i + 1) =~= x@.subrange(0, i as int).push(xi));
            lemma_value_push(x@.subrange(0, i as int), xi);
            lemma_base_pow_step(i as nat);
        }
        out.push(d);
        carry = t / 10000;
        proof {
            let p = base_pow(i as nat);
            let vx = limbs_value(x@.subrange(0, i as int));
            assert(t == 10000 * carry + d);
            assert(limbs_value(before) + d * p + carry * (10000 * p) == m * (vx + xi * p))
                by (nonlinear_arith)
                requires
                    limbs_value(before) + c0 * p == m * vx,
                    t == xi * m + c0,
                    t == 10000 * carry + d,
            ;
        }
        i = i + 1;
    }
    assert(x@.subrange(0, x@.len() as int) =~= x@);
    append_digits(&mut out, carry as u128);
    out
}

/// A wide number plus `10000^k`.
pub(crate) fn add_power(x: &Vec<u64>, k: usize) -> (r: Vec<u64>)
    requires
        limbs_ok(x@),
        k < 0xFFFF_FFFF,
    ensures
        limbs_ok(r@),
        limbs_value(r@) == limbs_value(x@) + base_pow(k as nat),
{
    let end: usize = if x.len() > k {
        x.len()
    } else {
        k + 1
    };
    let mut out: Vec<u64> = Vec::new();
    let mut carry: u64 = 0;
    let mut i: usize = 0;
    while i < end
        invariant
            i <= end,
            end >= x.len(),
            end > k,
            out@.len() == i,
            limbs_ok(out@),
            limbs_ok(x@),
            carry <= 1,
            i <= k ==> carry == 0,
            limbs_value(out@) + carry * base_pow(i as nat) == limbs_value(
                x@.subrange(0, if i < x.len() { i as int } else { x.len() as int }),
            ) + if i > k { base_pow(k as nat) } else { 0 },
        decreases end - i,
    {
        let xi: u64 = if i < x.len() {
            x[i]
        } else {
            0
        };
        let add: u64 = if i == k {
            1
        } else {
            0
        };
        let t: u64 = xi + carry + add;
        let d: u64 = t % 10000;
        let ghost before = out@;
        let ghost c0 = carry as int;
        let ghost lo = if i < x.len() { i as int } else { x.len() as int };
        let ghost lo1 = if i + 1 < x.len() { i + 1 } else { x.len() as int };
        proof {
            lemma_value_push(before, d);
            lemma_base_pow_step(i as nat);
            if i < x.len() {
                assert(x@.subrange(0, i + 1) =~= x@.subrange(0, i as int).push(xi));
                lemma_value_push(x@.subrange(0, i as int), xi);
            }
            assert(limbs_value(x@.subrange(0, lo1)) == limbs_value(x@.subrange(0, lo)) + xi
                * base_pow(i as nat));
        }
        out.push(d);
        carry = t / 10000;
        proof {
            let p = base_pow(i as nat);
            assert(t == 10000 * carry + d);
            assert(d * p + carry * (10000 * p) == t * p) by (nonlinear_arith)
                requires
                    t == 10000 * carry + d,
            ;
            assert(t * p == xi * p + c0 * p + add * p) by (nonlinear_arith)
                requires
                    t == xi + c0 + add,
            ;
        }
        i = i + 1;
    }
    assert(x@.subrange(0, x@.len() as int) =~= x@);
    append_digits(&mut out, carry as u128);
    out
}

/// The limbs from `k` on: the wide number divided by `10000^k`, rounded down.
pub(crate) fn shift_down(x: &Vec<u64>, k: usize) -> (r: Vec<u64>)
    requires
        limbs_ok(x@),
    ensures
        limbs_ok(r@),
        limbs_value(r@) == limbs_value(x@) / base_pow(k as nat),
{
    let mut out: Vec<u64> = Vec::new();
    proof {
        lemma_base_pow_step(k as nat);
        lemma_value_bound(x@);
    }
    if k >= x.len() {
        proof {
            lemma_power_grows(10000, x@.len(), k as nat);
            vstd::arithmetic::div_mod::lemma_div_multiples_vanish_fancy(
                0,
                limbs_value(x@),
                base_pow(k as nat),
            );
        }
        return out;
    }
    let mut i: usize = k;
    while i < x.len()
        invariant
            k <= i <= x.len(),
            out@ == x@.subrange(k as int, i as int),
        decreases x.len() - i,
    {
        out.push(x[i]);
        i = i + 1;
        assert(out@ =~= x@.subrange(k as int, i as int));
    }
    proof {
        lemma_value_split(x@, k as int);
        lemma_limbs_ok_subrange(x@, 0, k as int);
        lemma_limbs_ok_subrange(x@, k as int, x@.len() as int);
        lemma_value_bound(x@.subrange(0, k as int));
        let lo = limbs_value(x@.subrange(0, k as int));
        let h = limbs_value(out@);
        let p = base_pow(k as nat);
        assert(limbs_value(x@) == p * h + lo);
        vstd::arithmetic::div_mod::lemma_div_multiples_vanish_fancy(h, lo, p);
    }
    out
}

/// The wide number as a `u128`, or `None` when it exceeds `u128::MAX`.
pub(crate) fn to_u128(x: &Vec<u64>) -> (r: Option<u128>)
    requires
        limbs_ok(x@),
    ensures
        match r {
            Some(v) => v == limbs_value(x@),
            None => limbs_value(x@) > max_value(),
        },
{
    let mut acc: u128 = 0;
    let mut j: usize = x.len();
    assert(x@.subrange(x@.len() as int, x@.len() as int) =~= Seq::<u64>::empty());
    while j > 0
        invariant
            j <= x.len(),
            limbs_ok(x@),
            acc == limbs_value(x@.subrange(j as int, x@.len() as int)),
        decreases j,
    {
        let d: u64 = x[j - 1];
        proof {
            let s = x@.subrange(j - 1, x@.len() as int);
            assert(s.drop_first() =~= x@.subrange(j as int, x@.len() as int));
            assert(limbs_value(s) == d + 10000 * acc);
            lemma_suffix_le(x@, j - 1);
        }
        match acc.checked_mul(10000) {
            None => {
                return None;
            },
            Some(p) => match p.checked_add(d as u128) {
                None => {
                    return None;
                },
                Some(v) => {
                    acc = v;
                },
            },
        }
        j = j - 1;
    }
    assert(x@.subrange(0, x@.len() as int) =~= x@);
    Some(acc)
}

/// `floor(a * ratio^k / 10000^k)`, exact for every exponent; fails exactly when
/// the result exceeds `u128::MAX`.
pub fn scaled_power(a: u128, ratio: u64, k: u16) -> (r: Result<u128, GridError>)
    requires
        ratio <= 0xFFFF_FFFF,
    ensures
        match r {
            Ok(v) => v == (a * power(ratio as int, k as nat)) / base_pow(k as nat),
            Err(e) => e == GridError::Overflow && (a * power(ratio as int, k as nat)) / base_pow(
                k as nat,
            ) > max_value(),
        },
{
    let mut x: Vec<u64> = Vec::new();
    append_digits(&mut x, a);
    proof {
        lemma_base_pow_step(0);
        assert(x@.len() >= 0);
    }
    let mut i: u16 = 0;
    while i < k
        invariant
            i <= k,
            limbs_ok(x@),
            ratio <= 0xFFFF_FFFF,
            limbs_value(x@) == a * power(ratio as int, i as nat),
        decreases k - i,
    {
        x = mul_small(&x, ratio);
        proof {
            let q = power(ratio as int, i as nat);
            assert(power(ratio as int, (i + 1) as nat) == ratio * q);
            assert(ratio * (a * q) == a * (ratio * q)) by (nonlinear_arith);
        }
        i = i + 1;
    }
    let y = shift_down(&x, k as usize);
    match to_u128(&y) {
        Some(v) => Ok(v),
        None => Err(GridError::Overflow),
    }
}

} // verus!
