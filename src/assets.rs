use vstd::prelude::*;
use crate::decimal::{max_value, mul_checked, mul_div_floor, power, GRID_RATE_DENOMINATOR};
use crate::entity::{FillMode, GridBot, GridType};
use crate::errors::GridError;
use crate::ladder::{
    fixed_base, floating_grows, floating_step, is_buy_level, level_in_range, rung_amount_sell,
    rung_ok,
};
use crate::series::{
    arithmetic_series_sum, arithmetic_sum_spec, arithmetic_terms, geometric_series_sum,
    geometric_numerator, geometric_sum_spec, lemma_arithmetic_closed_form,
};

verus! {

/// Total of one side of the ladder: `n` rungs starting at `a`, flat or moving
/// outward by the grid's offset or rate.
pub open spec fn side_total_spec(
    a: int,
    n: nat,
    floating: bool,
    grid_type: GridType,
    grid_rate: int,
    grid_offset: int,
) -> int {
    if n == 0 {
        0
    } else if !floating {
        a * n
    } else {
        match grid_type {
            GridType::ArithmeticOffset => arithmetic_sum_spec(a, grid_offset, n),
            GridType::GeometricRate => (a * geometric_sum_spec(grid_rate, n))
                / GRID_RATE_DENOMINATOR as int,
        }
    }
}

/// Whether the side total is computed without error.
pub open spec fn side_total_ok(
    a: int,
    n: nat,
    floating: bool,
    grid_type: GridType,
    grid_rate: int,
    grid_offset: int,
) -> bool {
    if n == 0 {
        true
    } else if !floating {
        a * n <= max_value()
    } else {
        match grid_type {
            GridType::ArithmeticOffset => arithmetic_sum_spec(a, grid_offset, n) <= max_value(),
            GridType::GeometricRate => {
                &&& grid_rate > 0
                &&& geometric_sum_spec(grid_rate, n) <= max_value()
                &&& (a * geometric_sum_spec(grid_rate, n)) / GRID_RATE_DENOMINATOR as int
                    <= max_value()
            },
        }
    }
}

/// The error of a side total that is not computed: a zero rate on a varying
/// geometric side has no closed form; anything else leaves the working width.
pub open spec fn side_total_error(n: nat, floating: bool, grid_type: GridType, grid_rate: int) -> GridError {
    if n > 0 && floating && grid_type == GridType::GeometricRate && grid_rate == 0 {
        GridError::DivisionByZero
    } else {
        GridError::Overflow
    }
}

fn side_total(
    a: u128,
    n: u16,
    floating: bool,
    grid_type: GridType,
    grid_rate: u16,
    grid_offset: u128,
) -> (r: Result<u128, GridError>)
    ensures
        match r {
            Ok(v) => side_total_ok(a as int, n as nat, floating, grid_type, grid_rate as int, grid_offset as int)
                && v == side_total_spec(a as int, n as nat, floating, grid_type, grid_rate as int, grid_offset as int),
            Err(e) => !side_total_ok(a as int, n as nat, floating, grid_type, grid_rate as int, grid_offset as int)
                && e == side_total_error(n as nat, floating, grid_type, grid_rate as int),
        },
{
    if n == 0 {
        Ok(0)
    } else if !floating {
        let nn: u128 = n as u128;
        assert(a * nn == a * (n as nat));
        mul_checked(a, nn)
    } else {
        match grid_type {
            GridType::ArithmeticOffset => arithmetic_series_sum(a, grid_offset, n),
            GridType::GeometricRate => {
                let sum = geometric_series_sum(n, grid_rate)?;
                mul_div_floor(a, sum, GRID_RATE_DENOMINATOR)
            },
        }
    }
}

/// Funding that a whole ladder needs, as `(base for the sell rungs, quote for
/// the buy rungs)`, in closed form. With a fixed base the buy side's quote
/// grows outward and each sell rung sells `last_base_amount`; with a fixed quote
/// each buy rung sells `first_quote_amount` and the sell side's base grows
/// outward. The quote side is computed first, so its error wins.
pub fn internal_calculate_bot_assets(
    first_quote_amount: u128,
    last_base_amount: u128,
    grid_sell_count: u16,
    grid_buy_count: u16,
    grid_type: GridType,
    grid_rate: u16,
    grid_offset: u128,
    fill_mode: FillMode,
) -> (r: Result<(u128, u128), GridError>)
    ensures
        ({
            let fb = fill_mode == FillMode::FixedBase;
            let quote_ok = side_total_ok(first_quote_amount as int, grid_buy_count as nat, fb, grid_type, grid_rate as int, grid_offset as int);
            let base_ok = side_total_ok(last_base_amount as int, grid_sell_count as nat, !fb, grid_type, grid_rate as int, grid_offset as int);
            match r {
                Ok((base, quote)) => quote_ok && base_ok
                    && quote == side_total_spec(first_quote_amount as int, grid_buy_count as nat, fb, grid_type, grid_rate as int, grid_offset as int)
                    && base == side_total_spec(last_base_amount as int, grid_sell_count as nat, !fb, grid_type, grid_rate as int, grid_offset as int),
                Err(e) => if !quote_ok {
                    e == side_total_error(grid_buy_count as nat, fb, grid_type, grid_rate as int)
                } else {
                    !base_ok && e == side_total_error(grid_sell_count as nat, !fb, grid_type, grid_rate as int)
                },
            }
        }),
{
    let fixed_base = fill_mode == FillMode::FixedBase;
    let quote_amount_buy = side_total(
        first_quote_amount,
        grid_buy_count,
        fixed_base,
        grid_type,
        grid_rate,
        grid_offset,
    )?;
    let base_amount_sell = side_total(
        last_base_amount,
        grid_sell_count,
        !fixed_base,
        grid_type,
        grid_rate,
        grid_offset,
    )?;
    Ok((base_amount_sell, quote_amount_buy))
}

/// Funding that the ladder of `bot` needs, as `(base, quote)`: the totals of
/// `internal_calculate_bot_assets` over the bot's own configuration.
pub fn calculate_bot_assets(bot: &GridBot) -> (r: Result<(u128, u128), GridError>)
    ensures
        ({
            let quote_ok = side_total_ok(bot.first_quote_amount as int, bot.grid_buy_count as nat, fixed_base(*bot), bot.grid_type, bot.grid_rate as int, bot.grid_offset as int);
            let base_ok = side_total_ok(bot.last_base_amount as int, bot.grid_sell_count as nat, !fixed_base(*bot), bot.grid_type, bot.grid_rate as int, bot.grid_offset as int);
            match r {
                Ok((base, quote)) => quote_ok && base_ok && base == bot_base_total(*bot) && quote
                    == bot_quote_total(*bot),
                Err(e) => if !quote_ok {
                    e == side_total_error(bot.grid_buy_count as nat, fixed_base(*bot), bot.grid_type, bot.grid_rate as int)
                } else {
                    !base_ok && e == side_total_error(bot.grid_sell_count as nat, !fixed_base(*bot), bot.grid_type, bot.grid_rate as int)
                },
            }
        }),
{
    internal_calculate_bot_assets(
        bot.first_quote_amount,
        bot.last_base_amount,
        bot.grid_sell_count,
        bot.grid_buy_count,
        bot.grid_type,
        bot.grid_rate,
        bot.grid_offset,
        bot.fill_mode,
    )
}

/// Literal sum of the amounts sold on buy rungs `0 .. n`.
pub open spec fn buy_rungs_sold(bot: GridBot, n: nat) -> int
    decreases n,
{
    if n == 0 {
        0
    } else {
        buy_rungs_sold(bot, (n - 1) as nat) + rung_amount_sell(bot, n - 1)
    }
}

/// Literal sum of the amounts sold on the `n` innermost sell rungs (sell
/// coefficients `0 .. n`).
pub open spec fn sell_rungs_sold(bot: GridBot, n: nat) -> int
    decreases n,
{
    if n == 0 {
        0
    } else {
        sell_rungs_sold(bot, (n - 1) as nat) + rung_amount_sell(
            bot,
            bot.grid_buy_count + bot.grid_sell_count - n,
        )
    }
}

/// Quote that the buy side of `bot` needs, as the totalizer computes it.
pub open spec fn bot_quote_total(bot: GridBot) -> int {
    side_total_spec(
        bot.first_quote_amount as int,
        bot.grid_buy_count as nat,
        fixed_base(bot),
        bot.grid_type,
        bot.grid_rate as int,
        bot.grid_offset as int,
    )
}

/// Base that the sell side of `bot` needs, as the totalizer computes it.
pub open spec fn bot_base_total(bot: GridBot) -> int {
    side_total_spec(
        bot.last_base_amount as int,
        bot.grid_sell_count as nat,
        !fixed_base(bot),
        bot.grid_type,
        bot.grid_rate as int,
        bot.grid_offset as int,
    )
}

proof fn lemma_buy_rungs(bot: GridBot, n: nat)
    requires
        n <= bot.grid_buy_count,
    ensures
        fixed_base(bot) && bot.grid_type == GridType::ArithmeticOffset ==> buy_rungs_sold(bot, n)
            == arithmetic_terms(bot.first_quote_amount as int, bot.grid_offset as int, n),
        !fixed_base(bot) ==> buy_rungs_sold(bot, n) == bot.first_quote_amount * n,
    decreases n,
{
    if n > 0 {
        let m = (n - 1) as nat;
        lemma_buy_rungs(bot, m);
        let a = bot.first_quote_amount as int;
        assert(a * m + a == a * n) by (nonlinear_arith)
            requires
                n == m + 1,
        ;
    } else {
        assert(bot.first_quote_amount * n == 0) by (nonlinear_arith)
            requires
                n == 0,
        ;
    }
}

proof fn lemma_sell_rungs(bot: GridBot, n: nat)
    requires
        n <= bot.grid_sell_count,
    ensures
        !fixed_base(bot) && bot.grid_type == GridType::ArithmeticOffset ==> sell_rungs_sold(bot, n)
            == arithmetic_terms(bot.last_base_amount as int, bot.grid_offset as int, n),
        fixed_base(bot) ==> sell_rungs_sold(bot, n) == bot.last_base_amount * n,
    decreases n,
{
    if n > 0 {
        let m = (n - 1) as nat;
        lemma_sell_rungs(bot, m);
        let a = bot.last_base_amount as int;
        assert(a * m + a == a * n) by (nonlinear_arith)
            requires
                n == m + 1,
        ;
    } else {
        assert(bot.last_base_amount * n == 0) by (nonlinear_arith)
            requires
                n == 0,
        ;
    }
}

/// With at most two rungs the closed-form geometric total rounds exactly as the
/// rungs do: `a` and `a + floor(a * R / S)`.
proof fn lemma_geometric_short_side(a: int, g: int, n: nat)
    requires
        a >= 0,
        g >= 0,
        n <= 2,
    ensures
        n == 1 ==> (a * geometric_sum_spec(g, n)) / GRID_RATE_DENOMINATOR as int == a,
        n == 2 ==> (a * geometric_sum_spec(g, n)) / GRID_RATE_DENOMINATOR as int == a + (a * (
        GRID_RATE_DENOMINATOR + g)) / GRID_RATE_DENOMINATOR as int,
{
    let s = GRID_RATE_DENOMINATOR as int;
    let r = s + g;
    if n >= 1 {
        assert(power(s, 0) == 1);
        assert(power(s, 1) == s * power(s, 0));
        assert(geometric_numerator(g, 0) == 0);
        assert(geometric_numerator(g, 1) == power(s, 0) + r * geometric_numerator(g, 0));
        assert(geometric_numerator(g, 1) == 1) by (nonlinear_arith)
            requires
                geometric_numerator(g, 1) == 1 + r * 0,
        ;
        if n == 1 {
            assert(geometric_sum_spec(g, 1) == (s * 1) / 1);
            assert((a * s) / s == a) by (nonlinear_arith)
                requires
                    s == 10000,
            ;
        } else {
            assert(geometric_numerator(g, 2) == power(s, 1) + r * geometric_numerator(g, 1));
            assert(geometric_sum_spec(g, 2) == (s * (s + r)) / s);
            assert((s * (s + r)) / s == s + r) by (nonlinear_arith)
                requires
                    s == 10000,
            ;
            vstd::arithmetic::div_mod::lemma_fundamental_div_mod(a * r, s);
            let q = (a * r) / s;
            assert(a * (s + r) == s * (a + q) + (a * r) % s) by (nonlinear_arith)
                requires
                    a * r == s * q + (a * r) % s,
            ;
            vstd::arithmetic::div_mod::lemma_div_multiples_vanish_fancy(a + q, (a * r) % s, s);
        }
    }
}

/// The first one or two buy rungs of a geometric grid with a fixed base sell
/// `a` and `floor(a * R / S)`.
proof fn lemma_geometric_buy_rungs(bot: GridBot, n: nat)
    requires
        n <= bot.grid_buy_count,
        n <= 2,
        bot.grid_type == GridType::GeometricRate,
        fixed_base(bot),
    ensures
        buy_rungs_sold(bot, n) == (if n >= 1 { bot.first_quote_amount as int } else { 0 }) + (if n == 2 {
            (bot.first_quote_amount * (GRID_RATE_DENOMINATOR + bot.grid_rate)) / GRID_RATE_DENOMINATOR as int
        } else {
            0
        }),
    decreases n,
{
    let a = bot.first_quote_amount as int;
    let r = GRID_RATE_DENOMINATOR + bot.grid_rate;
    if n > 0 {
        lemma_geometric_buy_rungs(bot, (n - 1) as nat);
        assert(power(r, 0) == 1);
        assert(power(GRID_RATE_DENOMINATOR as int, 0) == 1);
        assert(power(r, 1) == r * power(r, 0));
        assert(power(GRID_RATE_DENOMINATOR as int, 1) == GRID_RATE_DENOMINATOR * power(
            GRID_RATE_DENOMINATOR as int,
            0,
        ));
        assert((a * 1) / 1 == a);
        assert(a * r == a * (r * 1));
    }
}

/// The one or two innermost sell rungs of a geometric grid with a fixed quote
/// sell `a` and `floor(a * R / S)`.
proof fn lemma_geometric_sell_rungs(bot: GridBot, n: nat)
    requires
        n <= bot.grid_sell_count,
        n <= 2,
        bot.grid_type == GridType::GeometricRate,
        !fixed_base(bot),
    ensures
        sell_rungs_sold(bot, n) == (if n >= 1 { bot.last_base_amount as int } else { 0 }) + (if n == 2 {
            (bot.last_base_amount * (GRID_RATE_DENOMINATOR + bot.grid_rate)) / GRID_RATE_DENOMINATOR as int
        } else {
            0
        }),
    decreases n,
{
    let a = bot.last_base_amount as int;
    let r = GRID_RATE_DENOMINATOR + bot.grid_rate;
    if n > 0 {
        lemma_geometric_sell_rungs(bot, (n - 1) as nat);
        assert(power(r, 0) == 1);
        assert(power(GRID_RATE_DENOMINATOR as int, 0) == 1);
        assert(power(r, 1) == r * power(r, 0));
        assert(power(GRID_RATE_DENOMINATOR as int, 1) == GRID_RATE_DENOMINATOR * power(
            GRID_RATE_DENOMINATOR as int,
            0,
        ));
        assert((a * 1) / 1 == a);
        assert(a * r == a * (r * 1));
    }
}

/// The closed-form totals equal the literal sums over the rungs of each side:
/// the quote for the buy side is the sum of what every buy rung sells, the base
/// for the sell side the sum of what every sell rung sells. This holds for every
/// side whose rungs carry a flat amount, for every side of an arithmetic grid,
/// and for a varying geometric side of at most two rungs. On a longer varying
/// geometric side each rung is rounded down on its own while the closed form
/// rounds the scaled series once, so the two may differ.
pub proof fn lemma_totals_match_rungs(bot: GridBot)
    ensures
        bot.grid_type == GridType::ArithmeticOffset || !fixed_base(bot) || bot.grid_buy_count <= 2
            ==> bot_quote_total(bot) == buy_rungs_sold(bot, bot.grid_buy_count as nat),
        bot.grid_type == GridType::ArithmeticOffset || fixed_base(bot) || bot.grid_sell_count <= 2
            ==> bot_base_total(bot) == sell_rungs_sold(bot, bot.grid_sell_count as nat),
{
    if bot.grid_type == GridType::GeometricRate {
        if fixed_base(bot) && bot.grid_buy_count <= 2 {
            lemma_geometric_buy_rungs(bot, bot.grid_buy_count as nat);
            lemma_geometric_short_side(
                bot.first_quote_amount as int,
                bot.grid_rate as int,
                bot.grid_buy_count as nat,
            );
        }
        if !fixed_base(bot) && bot.grid_sell_count <= 2 {
            lemma_geometric_sell_rungs(bot, bot.grid_sell_count as nat);
            lemma_geometric_short_side(
                bot.last_base_amount as int,
                bot.grid_rate as int,
                bot.grid_sell_count as nat,
            );
        }
    }
    lemma_buy_rungs(bot, bot.grid_buy_count as nat);
    lemma_sell_rungs(bot, bot.grid_sell_count as nat);
    lemma_arithmetic_closed_form(
        bot.first_quote_amount as int,
        bot.grid_offset as int,
        bot.grid_buy_count as nat,
    );
    lemma_arithmetic_closed_form(
        bot.last_base_amount as int,
        bot.grid_offset as int,
        bot.grid_sell_count as nat,
    );
}

/// Each term of an arithmetic series with non-negative start and step is at
/// most the sum.
proof fn lemma_term_within_sum(a: int, d: int, n: nat, k: int)
    requires
        a >= 0,
        d >= 0,
        0 <= k < n,
    ensures
        0 <= a + d * k <= arithmetic_terms(a, d, n),
    decreases n,
{
    let m = (n - 1) as nat;
    assert(d * k >= 0 && d * m >= 0) by (nonlinear_arith)
        requires
            d >= 0,
            k >= 0,
    ;
    assert(arithmetic_terms(a, d, n) == arithmetic_terms(a, d, m) + (a + d * m));
    if k < m {
        lemma_term_within_sum(a, d, m, k);
    } else if m > 0 {
        lemma_term_within_sum(a, d, m, 0);
    }
}

/// On an arithmetic grid, when the totalizer computes the total of a side whose
/// amount sold grows outward, every rung of that side is produced as well.
pub proof fn lemma_arithmetic_totals_cover_rungs(bot: GridBot, level: int)
    requires
        bot.grid_type == GridType::ArithmeticOffset,
        level_in_range(bot, level),
        floating_grows(bot, level),
        is_buy_level(bot, level) ==> side_total_ok(
            bot.first_quote_amount as int,
            bot.grid_buy_count as nat,
            fixed_base(bot),
            bot.grid_type,
            bot.grid_rate as int,
            bot.grid_offset as int,
        ),
        !is_buy_level(bot, level) ==> side_total_ok(
            bot.last_base_amount as int,
            bot.grid_sell_count as nat,
            !fixed_base(bot),
            bot.grid_type,
            bot.grid_rate as int,
            bot.grid_offset as int,
        ),
    ensures
        rung_ok(bot, level),
{
    reveal(rung_ok);
    let k = floating_step(bot, level) as int;
    if is_buy_level(bot, level) {
        let n = bot.grid_buy_count as nat;
        lemma_term_within_sum(bot.first_quote_amount as int, bot.grid_offset as int, n, k);
        lemma_arithmetic_closed_form(bot.first_quote_amount as int, bot.grid_offset as int, n);
    } else {
        let n = bot.grid_sell_count as nat;
        lemma_term_within_sum(bot.last_base_amount as int, bot.grid_offset as int, n, k);
        lemma_arithmetic_closed_form(bot.last_base_amount as int, bot.grid_offset as int, n);
    }
}

} // verus!
