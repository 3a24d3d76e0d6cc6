use grid::contract::GridBotContract;
use grid::entity::{FillMode, GridBot, GridType, OraclePrice};
use grid::errors::GridError;
use grid::guard::{internal_check_bot_close_permission, internal_check_oracle_price, internal_init_bot_status};

fn bot_with_prices(trigger: u128, take_profit: u128, stop_loss: u128) -> GridBot {
    GridBot {
        user: "owner.near".to_string(),
        pair_id: "p".to_string(),
        grid_type: GridType::ArithmeticOffset,
        fill_mode: FillMode::FixedBase,
        grid_sell_count: 1,
        grid_buy_count: 1,
        grid_rate: 0,
        grid_offset: 0,
        first_base_amount: 1,
        first_quote_amount: 1,
        last_base_amount: 1,
        last_quote_amount: 1,
        trigger_price: trigger,
        take_profit_price: take_profit,
        stop_loss_price: stop_loss,
        active: false,
        trigger_price_above_or_below: false,
    }
}

fn quote(price: u128, valid_timestamp: u64) -> Option<OraclePrice> {
    Some(OraclePrice { price, valid_timestamp })
}

#[test]
fn slippage_boundary_is_inclusive() {
    assert!(internal_check_oracle_price(1_000_000, quote(1_010_000, 50), 10, 100));
    assert!(!internal_check_oracle_price(1_000_000, quote(1_010_001, 50), 10, 100));
    assert!(internal_check_oracle_price(1_000_000, quote(990_000, 50), 10, 100));
    assert!(!internal_check_oracle_price(1_000_000, quote(989_999, 50), 10, 100));
    assert!(internal_check_oracle_price(1_000_000, quote(1_000_000, 50), 10, 0));
    assert!(!internal_check_oracle_price(1_000_000, quote(1_000_001, 50), 10, 0));
}

#[test]
fn slippage_is_relative_to_entry_price() {
    // 50 away from 100 is 5000 bp of the entry; from the quote it would be 3333 bp
    assert!(internal_check_oracle_price(100, quote(150, 1), 1, 5000));
    assert!(!internal_check_oracle_price(100, quote(150, 1), 1, 4999));
}

#[test]
fn slippage_on_large_prices() {
    assert!(internal_check_oracle_price(u128::MAX, quote(u128::MAX - 1, 1), 1, 1));
    assert!(internal_check_oracle_price(u128::MAX, quote(0, 1), 1, 10000));
    assert!(!internal_check_oracle_price(1, quote(u128::MAX, 1), 1, 65535));
}

#[test]
fn stale_or_missing_quote_fails() {
    assert!(!internal_check_oracle_price(1_000_000, quote(1_000_000, 99), 100, 10000));
    assert!(internal_check_oracle_price(1_000_000, quote(1_000_000, 100), 100, 0));
    assert!(!internal_check_oracle_price(1_000_000, None, 100, 10000));
    assert!(!internal_check_oracle_price(0, quote(0, 100), 100, 10000));
}

#[test]
fn close_permission() {
    let bot = bot_with_prices(0, 200, 100);
    let owner = "owner.near".to_string();
    let keeper = "keeper.near".to_string();
    assert!(internal_check_bot_close_permission(&owner, &bot, 150));
    assert!(!internal_check_bot_close_permission(&keeper, &bot, 150));
    assert!(internal_check_bot_close_permission(&keeper, &bot, 200));
    assert!(internal_check_bot_close_permission(&keeper, &bot, 250));
    assert!(internal_check_bot_close_permission(&keeper, &bot, 100));
    assert!(internal_check_bot_close_permission(&keeper, &bot, 0));
    assert!(!internal_check_bot_close_permission(&keeper, &bot, 101));
    assert!(!internal_check_bot_close_permission(&keeper, &bot, 199));
}

#[test]
fn init_status() {
    let mut b = bot_with_prices(0, 0, 0);
    internal_init_bot_status(&mut b, 500);
    assert!(b.active);
    assert!(!b.trigger_price_above_or_below);

    let mut b = bot_with_prices(100, 0, 0);
    b.active = true;
    internal_init_bot_status(&mut b, 150);
    assert!(!b.active);
    assert!(!b.trigger_price_above_or_below);

    let mut b = bot_with_prices(100, 0, 0);
    internal_init_bot_status(&mut b, 100);
    assert!(!b.trigger_price_above_or_below);

    let mut b = bot_with_prices(100, 0, 0);
    internal_init_bot_status(&mut b, 50);
    assert!(!b.active);
    assert!(b.trigger_price_above_or_below);
}

#[test]
fn allocator_issues_consecutive_ids() {
    let mut c = GridBotContract::new("owner.near".to_string());
    assert_eq!(c.internal_get_and_use_next_bot_id(), Ok(0));
    assert_eq!(c.internal_get_and_use_next_bot_id(), Ok(1));
    assert_eq!(c.internal_get_and_use_next_bot_id(), Ok(2));
    assert_eq!(c.next_bot_id, 3);
}

#[test]
fn allocator_overflow() {
    let mut c = GridBotContract::new("owner.near".to_string());
    c.next_bot_id = u128::MAX - 1;
    assert_eq!(c.internal_get_and_use_next_bot_id(), Ok(u128::MAX - 1));
    assert_eq!(c.internal_get_and_use_next_bot_id(), Err(GridError::Overflow));
    assert_eq!(c.next_bot_id, u128::MAX);
}
