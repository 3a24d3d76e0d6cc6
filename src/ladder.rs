use vstd::prelude::*;
use crate::decimal::{
    add_checked, lemma_power_positive, max_value, mul_checked, power, sub_checked,
    GRID_RATE_DENOMINATOR,
};
use crate::wide::{scaled_power, LIMB_BASE};
use crate::entity::{FillMode, GridBot, GridType, Order, Pair};
use crate::errors::GridError;

verus! {

/// The decimal digit `d` as a character.
pub open spec fn digit_char(d: nat) -> char {
    seq!['0', '1', '2', '3', '4', '5', '6', '7', '8', '9'][d as int]
}

/// Decimal representation of `n`, most significant digit first.
pub open spec fn decimal_digits(n: nat) -> Seq<char>
    decreases n,
{
    if n < 10 {
        seq![digit_char(n)]
    } else {
        decimal_digits(n / 10).push(digit_char(n % 10))
    }
}

/// Relies on `ToString` for `u32`, which writes the integer in decimal.
#[verifier::external_body]
fn level_id(level: u32) -> (r: String)
    ensures
        r@ == decimal_digits(level as nat),
{
    level.to_string()
}

pub open spec fn is_buy_level(bot: GridBot, level: int) -> bool {
    level < bot.grid_buy_count
}

pub open spec fn level_in_range(bot: GridBot, level: int) -> bool {
    0 <= level < bot.grid_buy_count + bot.grid_sell_count
}

/// Distance of a sell rung from the innermost sell rung.
pub open spec fn sell_coefficient(bot: GridBot, level: int) -> int {
    bot.grid_buy_count + bot.grid_sell_count - 1 - level
}

pub open spec fn fixed_base(bot: GridBot) -> bool {
    bot.fill_mode == FillMode::FixedBase
}

/// Whether the varying amount of the rung grows outward (it is then the amount
/// sold, else the amount bought).
pub open spec fn floating_grows(bot: GridBot, level: int) -> bool {
    is_buy_level(bot, level) == fixed_base(bot)
}

/// Exponent (or multiplier) of the rung's varying amount.
pub open spec fn floating_step(bot: GridBot, level: int) -> nat {
    if is_buy_level(bot, level) {
        level as nat
    } else {
        sell_coefficient(bot, level) as nat
    }
}

/// Varying amount at the innermost rung of the level's side.
pub open spec fn floating_start(bot: GridBot, level: int) -> int {
    if is_buy_level(bot, level) {
        if fixed_base(bot) {
            bot.first_quote_amount as int
        } else {
            bot.first_base_amount as int
        }
    } else {
        if fixed_base(bot) {
            bot.last_quote_amount as int
        } else {
            bot.last_base_amount as int
        }
    }
}

/// Constant amount of every rung of the level's side.
pub open spec fn flat_amount(bot: GridBot, level: int) -> int {
    if is_buy_level(bot, level) {
        if fixed_base(bot) {
            bot.first_base_amount as int
        } else {
            bot.first_quote_amount as int
        }
    } else {
        if fixed_base(bot) {
            bot.last_base_amount as int
        } else {
            bot.last_quote_amount as int
        }
    }
}

/// `a * ratio^k / S^k`, rounded down.
pub open spec fn rate_amount(a: int, ratio: int, k: nat) -> int {
    (a * power(ratio, k)) / power(GRID_RATE_DENOMINATOR as int, k)
}

/// `a` moved `k` steps outward on a growing side.
pub open spec fn grown_amount(bot: GridBot, a: int, k: nat) -> int {
    match bot.grid_type {
        GridType::ArithmeticOffset => a + bot.grid_offset * k,
        GridType::GeometricRate => rate_amount(a, GRID_RATE_DENOMINATOR + bot.grid_rate, k),
    }
}

/// `a` moved `k` steps outward on a shrinking side.
pub open spec fn shrunk_amount(bot: GridBot, a: int, k: nat) -> int {
    match bot.grid_type {
        GridType::ArithmeticOffset => a - bot.grid_offset * k,
        GridType::GeometricRate => rate_amount(a, GRID_RATE_DENOMINATOR - bot.grid_rate, k),
    }
}

/// Whether `grown_amount` is computed: an arithmetic step whose sum fits in
/// `u128`, or a geometric amount that itself fits (its powers are held wide).
pub open spec fn grown_fits(bot: GridBot, a: int, k: nat) -> bool {
    match bot.grid_type {
        GridType::ArithmeticOffset => a + bot.grid_offset * k <= max_value(),
        GridType::GeometricRate => rate_amount(a, GRID_RATE_DENOMINATOR + bot.grid_rate, k)
            <= max_value(),
    }
}

/// Whether `shrunk_amount` is computed: an arithmetic step that leaves it not
/// negative, or a geometric amount that fits in `u128` (its powers are held wide).
pub open spec fn shrunk_fits(bot: GridBot, a: int, k: nat) -> bool {
    match bot.grid_type {
        GridType::ArithmeticOffset => bot.grid_offset * k <= a,
        GridType::GeometricRate => rate_amount(a, GRID_RATE_DENOMINATOR - bot.grid_rate, k)
            <= max_value(),
    }
}

/// The rung's varying amount.
pub open spec fn floating_amount(bot: GridBot, level: int) -> int {
    let a = floating_start(bot, level);
    let k = floating_step(bot, level);
    if floating_grows(bot, level) {
        grown_amount(bot, a, k)
    } else {
        shrunk_amount(bot, a, k)
    }
}

/// The level names a rung, and a shrinking geometric rung has a positive ratio.
pub open spec fn rung_config_valid(bot: GridBot, level: int) -> bool {
    &&& level_in_range(bot, level)
    &&& (bot.grid_type == GridType::GeometricRate && !floating_grows(bot, level)
        ==> bot.grid_rate < GRID_RATE_DENOMINATOR)
}

pub open spec fn rung_fits(bot: GridBot, level: int) -> bool {
    let a = floating_start(bot, level);
    let k = floating_step(bot, level);
    if floating_grows(bot, level) {
        grown_fits(bot, a, k)
    } else {
        shrunk_fits(bot, a, k)
    }
}

/// Amount sold at the rung.
pub open spec fn rung_amount_sell(bot: GridBot, level: int) -> int {
    if floating_grows(bot, level) {
        floating_amount(bot, level)
    } else {
        flat_amount(bot, level)
    }
}

/// Amount bought at the rung.
pub open spec fn rung_amount_buy(bot: GridBot, level: int) -> int {
    if floating_grows(bot, level) {
        flat_amount(bot, level)
    } else {
        floating_amount(bot, level)
    }
}

/// Whether the rung at `level` is produced without error.
#[verifier::opaque]
pub open spec fn rung_ok(bot: GridBot, level: int) -> bool {
    rung_config_valid(bot, level) && rung_fits(bot, level)
}

/// Whether `o` is the order that the ladder of `bot` places at `level`.
#[verifier::opaque]
pub open spec fn is_rung_order(bot: GridBot, pair: Pair, level: int, o: Order) -> bool {
    &&& o.order_id@ == decimal_digits(level as nat)
    &&& o.amount_sell == rung_amount_sell(bot, level)
    &&& o.amount_buy == rung_amount_buy(bot, level)
    &&& o.fill_buy_or_sell == floating_grows(bot, level)
    &&& o.filled == 0
    &&& is_buy_level(bot, level) ==> o.token_sell == pair.quote_token && o.token_buy
        == pair.base_token
    &&& !is_buy_level(bot, level) ==> o.token_sell == pair.base_token && o.token_buy
        == pair.quote_token
}

fn grown(bot: &GridBot, a: u128, k: u16) -> (r: Result<u128, GridError>)
    ensures
        match r {
            Ok(v) => grown_fits(*bot, a as int, k as nat) && v == grown_amount(*bot, a as int, k as nat),
            Err(e) => e == GridError::Overflow && !grown_fits(*bot, a as int, k as nat),
        },
{
    match bot.grid_type {
        GridType::ArithmeticOffset => {
            let step = mul_checked(bot.grid_offset, k as u128)?;
            add_checked(a, step)
        },
        GridType::GeometricRate => {
            let ratio: u64 = LIMB_BASE + bot.grid_rate as u64;
            scaled_power(a, ratio, k)
        },
    }
}

fn shrunk(bot: &GridBot, a: u128, k: u16) -> (r: Result<u128, GridError>)
    requires
        bot.grid_type == GridType::GeometricRate ==> bot.grid_rate < GRID_RATE_DENOMINATOR,
    ensures
        match r {
            Ok(v) => shrunk_fits(*bot, a as int, k as nat) && v == shrunk_amount(*bot, a as int, k as nat),
            Err(e) => e == GridError::Overflow && !shrunk_fits(*bot, a as int, k as nat),
        },
{
    match bot.grid_type {
        GridType::ArithmeticOffset => {
            assert(bot.grid_offset * k >= 0) by (nonlinear_arith);
            let step = mul_checked(bot.grid_offset, k as u128)?;
            sub_checked(a, step)
        },
        GridType::GeometricRate => {
            let ratio: u64 = LIMB_BASE - bot.grid_rate as u64;
            scaled_power(a, ratio, k)
        },
    }
}

/// The order at rung `level` of the ladder: buy rungs (below `grid_buy_count`)
/// sell quote for base, sell rungs sell base for quote. The flat side of the
/// fill mode keeps its innermost amount; the other side moves outward from it by
/// the grid's offset or rate.
pub fn internal_get_first_forward_order(grid_bot: &GridBot, pair: &Pair, level: u32) -> (r: Result<
    Order,
    GridError,
>)
    ensures
        match r {
            Ok(o) => rung_ok(*grid_bot, level as int) && is_rung_order(*grid_bot, *pair, level as int, o),
            Err(e) => {
                ||| e == GridError::InvalidConfig && !rung_config_valid(*grid_bot, level as int)
                ||| e == GridError::Overflow && rung_config_valid(*grid_bot, level as int)
                    && !rung_fits(*grid_bot, level as int)
            },
        },
{
    proof {
        reveal(rung_ok);
        reveal(is_rung_order);
    }
    let buy = grid_bot.grid_buy_count;
    let sell = grid_bot.grid_sell_count;
    if level >= buy as u32 + sell as u32 {
        return Err(GridError::InvalidConfig);
    }
    let is_fixed_base = grid_bot.fill_mode == FillMode::FixedBase;
    if level < buy as u32 {
        if !is_fixed_base && grid_bot.grid_type == GridType::GeometricRate && grid_bot.grid_rate
            as u128 >= GRID_RATE_DENOMINATOR {
            return Err(GridError::InvalidConfig);
        }
        let (amount_sell, amount_buy) = if is_fixed_base {
            (grown(grid_bot, grid_bot.first_quote_amount, level as u16)?, grid_bot.first_base_amount)
        } else {
            (grid_bot.first_quote_amount, shrunk(grid_bot, grid_bot.first_base_amount, level as u16)?)
        };
        Ok(
            Order {
                order_id: level_id(level),
                token_sell: pair.quote_token.clone(),
                token_buy: pair.base_token.clone(),
                amount_sell,
                amount_buy,
                fill_buy_or_sell: is_fixed_base,
                filled: 0,
            },
        )
    } else {
        if is_fixed_base && grid_bot.grid_type == GridType::GeometricRate && grid_bot.grid_rate
            as u128 >= GRID_RATE_DENOMINATOR {
            return Err(GridError::InvalidConfig);
        }
        let coefficient: u16 = (buy as u32 + sell as u32 - 1 - level) as u16;
        let (amount_sell, amount_buy) = if is_fixed_base {
            (grid_bot.last_base_amount, shrunk(grid_bot, grid_bot.last_quote_amount, coefficient)?)
        } else {
            (grown(grid_bot, grid_bot.last_base_amount, coefficient)?, grid_bot.last_quote_amount)
        };
        Ok(
            Order {
                order_id: level_id(level),
                token_sell: pair.base_token.clone(),
                token_buy: pair.quote_token.clone(),
                amount_sell,
                amount_buy,
                fill_buy_or_sell: !is_fixed_base,
                filled: 0,
            },
        )
    }
}

/// Every order of the ladder, rung by rung from level zero. Fails with the
/// error of the lowest rung that cannot be produced.
pub fn internal_get_ladder_orders(grid_bot: &GridBot, pair: &Pair) -> (r: Result<
    Vec<Order>,
    GridError,
>)
    ensures
        match r {
            Ok(orders) => {
                &&& orders.len() == grid_bot.grid_buy_count + grid_bot.grid_sell_count
                &&& forall|i: int|
                    0 <= i < orders.len() ==> rung_ok(*grid_bot, i) && is_rung_order(
                        *grid_bot,
                        *pair,
                        i,
                        #[trigger] orders@[i],
                    )
            },
            Err(e) => exists|l: int|
                level_in_range(*grid_bot, l) && !rung_ok(*grid_bot, l) && (forall|i: int|
                    0 <= i < l ==> #[trigger] rung_ok(*grid_bot, i)) && (e == GridError::InvalidConfig
                    <==> !rung_config_valid(*grid_bot, l)) && (e == GridError::Overflow
                    <==> rung_config_valid(*grid_bot, l)),
        },
{
    let total: u32 = grid_bot.grid_buy_count as u32 + grid_bot.grid_sell_count as u32;
    let mut orders: Vec<Order> = Vec::new();
    let mut level: u32 = 0;
    while level < total
        invariant
            total == grid_bot.grid_buy_count + grid_bot.grid_sell_count,
            level <= total,
            orders.len() == level,
            forall|i: int| 0 <= i < level ==> #[trigger] rung_ok(*grid_bot, i),
            forall|i: int| 0 <= i < level ==> is_rung_order(*grid_bot, *pair, i, #[trigger] orders@[i]),
        decreases total - level,
    {
        match internal_get_first_forward_order(grid_bot, pair, level) {
            Ok(o) => {
                orders.push(o);
                level = level + 1;
            },
            Err(e) => {
                proof {
                    reveal(rung_ok);
                }
                assert(level_in_range(*grid_bot, level as int));
                assert(forall|i: int| 0 <= i < level ==> #[trigger] rung_ok(*grid_bot, i));
                return Err(e);
            },
        }
    }
    Ok(orders)
}

/// A quotient is at least every `q` with `q * d <= z`.
proof fn lemma_floor_at_least(q: int, d: int, z: int)
    requires
        d > 0,
        q * d <= z,
    ensures
        q <= z / d,
{
    vstd::arithmetic::div_mod::lemma_fundamental_div_mod(z, d);
    let t = z / d;
    assert(q <= t) by (nonlinear_arith)
        requires
            d > 0,
            q * d <= z,
            z == d * t + z % d,
            z % d < d,
    ;
}

/// One step outward with a ratio of at least `S` does not lower the amount;
/// with a ratio of at most `S` it does not raise it.
proof fn lemma_rate_amount_step(a: int, ratio: int, k: nat)
    requires
        a >= 0,
        ratio >= 0,
    ensures
        ratio >= GRID_RATE_DENOMINATOR ==> rate_amount(a, ratio, k) <= rate_amount(a, ratio, k + 1),
        ratio <= GRID_RATE_DENOMINATOR ==> rate_amount(a, ratio, k + 1) <= rate_amount(a, ratio, k),
{
    let s = GRID_RATE_DENOMINATOR as int;
    let pr = power(ratio, k);
    let ps = power(s, k);
    crate::decimal::lemma_power_nonneg(ratio, k);
    lemma_power_positive(s, k);
    assert(power(ratio, k + 1) == ratio * pr);
    assert(power(s, k + 1) == s * ps);
    let x = a * pr;
    assert(a * (ratio * pr) == ratio * x) by (nonlinear_arith)
        requires
            x == a * pr,
    ;
    assert(x >= 0 && s * ps > 0) by (nonlinear_arith)
        requires
            x == a * pr,
            a >= 0,
            pr >= 0,
            ps > 0,
            s > 0,
    ;
    if ratio >= s {
        let q = x / ps;
        vstd::arithmetic::div_mod::lemma_fundamental_div_mod(x, ps);
        assert(q * (s * ps) <= ratio * x) by (nonlinear_arith)
            requires
                x == ps * q + x % ps,
                x % ps >= 0,
                ratio >= s,
                s > 0,
                x >= 0,
        ;
        lemma_floor_at_least(q, s * ps, ratio * x);
    }
    if ratio <= s {
        let q = (ratio * x) / (s * ps);
        vstd::arithmetic::div_mod::lemma_fundamental_div_mod(ratio * x, s * ps);
        assert(q * ps <= x) by (nonlinear_arith)
            requires
                ratio * x == (s * ps) * q + (ratio * x) % (s * ps),
                (ratio * x) % (s * ps) >= 0,
                0 <= ratio <= s,
                s > 0,
                ps > 0,
                x >= 0,
        ;
        lemma_floor_at_least(q, ps, x);
    }
}

proof fn lemma_rate_amount_order(a: int, ratio: int, k1: nat, k2: nat)
    requires
        a >= 0,
        ratio >= 0,
        k1 <= k2,
    ensures
        ratio >= GRID_RATE_DENOMINATOR ==> rate_amount(a, ratio, k1) <= rate_amount(a, ratio, k2),
        ratio <= GRID_RATE_DENOMINATOR ==> rate_amount(a, ratio, k2) <= rate_amount(a, ratio, k1),
    decreases k2,
{
    if k1 < k2 {
        let k = (k2 - 1) as nat;
        lemma_rate_amount_order(a, ratio, k1, k);
        lemma_rate_amount_step(a, ratio, k);
    }
}

/// Moving outward from the innermost rung of a side, the varying amount never
/// decreases where it grows (the quote sold on buy rungs with a fixed base, the
/// base sold on sell rungs with a fixed quote) and never increases where it
/// shrinks (the other two), for any offset and any rate below the scale.
pub proof fn lemma_floating_amount_monotone(bot: GridBot, l1: int, l2: int)
    requires
        level_in_range(bot, l1),
        level_in_range(bot, l2),
        is_buy_level(bot, l1) == is_buy_level(bot, l2),
        floating_step(bot, l1) <= floating_step(bot, l2),
        rung_config_valid(bot, l1),
    ensures
        floating_grows(bot, l1) ==> floating_amount(bot, l1) <= floating_amount(bot, l2),
        !floating_grows(bot, l1) ==> floating_amount(bot, l2) <= floating_amount(bot, l1),
{
    let a = floating_start(bot, l1);
    let k1 = floating_step(bot, l1);
    let k2 = floating_step(bot, l2);
    let off = bot.grid_offset as int;
    match bot.grid_type {
        GridType::ArithmeticOffset => {
            assert(off * k1 <= off * k2) by (nonlinear_arith)
                requires
                    off >= 0,
                    k1 <= k2,
            ;
        },
        GridType::GeometricRate => {
            if floating_grows(bot, l1) {
                lemma_rate_amount_order(a, GRID_RATE_DENOMINATOR + bot.grid_rate, k1, k2);
            } else {
                lemma_rate_amount_order(a, GRID_RATE_DENOMINATOR - bot.grid_rate, k1, k2);
            }
        },
    }
}

} // verus!
