use vstd::prelude::*;
use crate::decimal::SLIPPAGE_DENOMINATOR;
use crate::entity::{GridBot, OraclePrice};

verus! {

/// `|x - y|`.
pub open spec fn abs_diff(x: int, y: int) -> int {
    if x >= y {
        x - y
    } else {
        y - x
    }
}

/// The quoted price deviates from the entry price by at most `slippage` basis
/// points of the entry price, boundary included. The deviation is relative to
/// the entry price, never to the quoted one; a zero entry price has no relative
/// deviation and never passes.
pub open spec fn within_slippage(entry_price: int, quoted_price: int, slippage: int) -> bool {
    entry_price > 0 && abs_diff(entry_price, quoted_price) * SLIPPAGE_DENOMINATOR <= slippage
        * entry_price
}

/// Sets the activation state of a new bot. Without a trigger price the bot is
/// active at once and its direction is left as it was; with one it starts
/// inactive, waiting for the price to fall below the trigger when it entered at
/// or above it (`false`), or to rise above it otherwise (`true`).
pub fn internal_init_bot_status(bot: &mut GridBot, entry_price: u128)
    ensures
        old(bot).trigger_price == 0 ==> *final(bot) == (GridBot { active: true, ..*old(bot) }),
        old(bot).trigger_price != 0 ==> *final(bot) == (GridBot {
            active: false,
            trigger_price_above_or_below: entry_price < old(bot).trigger_price,
            ..*old(bot)
        }),
{
    if bot.trigger_price == 0 {
        bot.active = true;
        return ;
    }
    bot.active = false;
    if entry_price >= bot.trigger_price {
        bot.trigger_price_above_or_below = false;
    } else {
        bot.trigger_price_above_or_below = true;
    }
}

/// Whether the entry price is close enough to the oracle's price for the pair.
/// `price_info` is the oracle's entry for the pair, if any, and `now` the current
/// time. Fails closed: no entry, or an entry whose validity ended before `now`,
/// gives `false` whatever the prices.
pub fn internal_check_oracle_price(
    entry_price: u128,
    price_info: Option<OraclePrice>,
    now: u64,
    slippage: u16,
) -> (r: bool)
    ensures
        r == match price_info {
            None => false,
            Some(p) => now <= p.valid_timestamp && within_slippage(
                entry_price as int,
                p.price as int,
                slippage as int,
            ),
        },
{
    let info = match price_info {
        None => {
            return false;
        },
        Some(p) => p,
    };
    if info.valid_timestamp < now {
        return false;
    }
    if entry_price == 0 {
        return false;
    }
    let recorded_price = info.price;
    let deviation: u128 = if entry_price >= recorded_price {
        entry_price - recorded_price
    } else {
        recorded_price - entry_price
    };
    // deviation * D <= slippage * entry  <=>  deviation <= floor(slippage * entry / D),
    // and with entry = D * whole + part that floor is slippage * whole + floor(slippage * part / D).
    let whole: u128 = entry_price / SLIPPAGE_DENOMINATOR;
    let part: u128 = entry_price % SLIPPAGE_DENOMINATOR;
    let slip: u128 = slippage as u128;
    assert(slip * part <= 65535 * 9999) by (nonlinear_arith)
        requires
            slip <= 65535,
            part < 10000,
    ;
    let part_bound: u128 = slip * part / SLIPPAGE_DENOMINATOR;
    let ghost e = entry_price as int;
    let ghost dv = deviation as int;
    let ghost sl = slip as int;
    let ghost w = whole as int;
    let ghost pt = part as int;
    let ghost pb = part_bound as int;
    proof {
        vstd::arithmetic::div_mod::lemma_fundamental_div_mod(sl * pt, 10000);
        assert(e == 10000 * w + pt);
        assert(sl * e == 10000 * (sl * w) + sl * pt) by (nonlinear_arith)
            requires
                e == 10000 * w + pt,
        ;
        assert(sl * w >= 0) by (nonlinear_arith)
            requires
                sl >= 0,
                w >= 0,
        ;
        // the comparison is the same as dv <= sl * w + pb
        assert(dv * 10000 <= sl * e <==> dv <= sl * w + pb) by (nonlinear_arith)
            requires
                sl * e == 10000 * (sl * w) + sl * pt,
                sl * pt == 10000 * pb + (sl * pt) % 10000,
                0 <= (sl * pt) % 10000 < 10000,
        ;
    }
    match slip.checked_mul(whole) {
        None => true,
        Some(scaled) => match scaled.checked_add(part_bound) {
            None => true,
            Some(bound) => deviation <= bound,
        },
    }
}

/// Whether `user` may close `bot` when the oracle quotes `oracle_price`: the
/// owner always may; anyone else only once the price has reached the take-profit
/// price or fallen to the stop-loss price.
pub fn internal_check_bot_close_permission(user: &String, bot: &GridBot, oracle_price: u128) -> (r:
    bool)
    ensures
        r == (user@ == bot.user@ || oracle_price >= bot.take_profit_price || oracle_price
            <= bot.stop_loss_price),
{
    if *user == bot.user {
        return true;
    }
    if oracle_price >= bot.take_profit_price {
        return true;
    }
    if oracle_price <= bot.stop_loss_price {
        return true;
    }
    false
}

} // verus!
