use grid::assets::{calculate_bot_assets, internal_calculate_bot_assets};
use grid::entity::{FillMode, GridBot, GridType, Pair};
use grid::errors::GridError;
use grid::ladder::{internal_get_first_forward_order, internal_get_ladder_orders};

fn bot(grid_type: GridType, fill_mode: FillMode, buy: u16, sell: u16) -> GridBot {
    GridBot {
        user: "alice.near".to_string(),
        pair_id: "base.near:quote.near".to_string(),
        grid_type,
        fill_mode,
        grid_sell_count: sell,
        grid_buy_count: buy,
        grid_rate: 0,
        grid_offset: 0,
        first_base_amount: 0,
        first_quote_amount: 0,
        last_base_amount: 0,
        last_quote_amount: 0,
        trigger_price: 0,
        take_profit_price: 0,
        stop_loss_price: 0,
        active: false,
        trigger_price_above_or_below: false,
    }
}

fn pair() -> Pair {
    Pair { base_token: "base.near".to_string(), quote_token: "quote.near".to_string() }
}

#[test]
fn arithmetic_fixed_base_buy_scenario() {
    let mut b = bot(GridType::ArithmeticOffset, FillMode::FixedBase, 3, 0);
    b.first_base_amount = 100;
    b.first_quote_amount = 1000;
    b.grid_offset = 50;
    let expected = [1000u128, 1050, 1100];
    for level in 0..3u32 {
        let o = internal_get_first_forward_order(&b, &pair(), level).unwrap();
        assert_eq!(o.amount_sell, expected[level as usize]);
        assert_eq!(o.amount_buy, 100);
        assert_eq!(o.token_sell, "quote.near");
        assert_eq!(o.token_buy, "base.near");
        assert!(o.fill_buy_or_sell);
        assert_eq!(o.filled, 0);
    }
    assert_eq!(calculate_bot_assets(&b), Ok((0, 3150)));
    assert_eq!(
        internal_calculate_bot_assets(1000, 0, 0, 3, GridType::ArithmeticOffset, 0, 50, FillMode::FixedBase),
        Ok((0, 3150))
    );
}

#[test]
fn geometric_fixed_base_buy_scenario() {
    let mut b = bot(GridType::GeometricRate, FillMode::FixedBase, 2, 0);
    b.first_base_amount = 7;
    b.first_quote_amount = 1000;
    b.grid_rate = 1000;
    let o0 = internal_get_first_forward_order(&b, &pair(), 0).unwrap();
    let o1 = internal_get_first_forward_order(&b, &pair(), 1).unwrap();
    assert_eq!(o0.amount_sell, 1000);
    assert_eq!(o1.amount_sell, 1100);
    assert_eq!(o1.amount_buy, 7);
    assert_eq!(calculate_bot_assets(&b), Ok((0, 2100)));
}

#[test]
fn fixed_quote_buy_rungs_shrink() {
    let mut b = bot(GridType::ArithmeticOffset, FillMode::FixedQuote, 3, 0);
    b.first_base_amount = 1000;
    b.first_quote_amount = 500;
    b.grid_offset = 100;
    let expected = [1000u128, 900, 800];
    for level in 0..3u32 {
        let o = internal_get_first_forward_order(&b, &pair(), level).unwrap();
        assert_eq!(o.amount_buy, expected[level as usize]);
        assert_eq!(o.amount_sell, 500);
        assert!(!o.fill_buy_or_sell);
    }
    assert_eq!(calculate_bot_assets(&b), Ok((0, 1500)));

    b.grid_type = GridType::GeometricRate;
    b.grid_rate = 1000;
    let expected = [1000u128, 900, 810];
    for level in 0..3u32 {
        let o = internal_get_first_forward_order(&b, &pair(), level).unwrap();
        assert_eq!(o.amount_buy, expected[level as usize]);
    }
}

#[test]
fn sell_rungs_fixed_base() {
    let mut b = bot(GridType::ArithmeticOffset, FillMode::FixedBase, 1, 3);
    b.last_base_amount = 10;
    b.last_quote_amount = 2000;
    b.grid_offset = 100;
    let expected = [1800u128, 1900, 2000];
    for level in 1..4u32 {
        let o = internal_get_first_forward_order(&b, &pair(), level).unwrap();
        assert_eq!(o.amount_buy, expected[(level - 1) as usize]);
        assert_eq!(o.amount_sell, 10);
        assert_eq!(o.token_sell, "base.near");
        assert_eq!(o.token_buy, "quote.near");
        assert!(!o.fill_buy_or_sell);
    }
    assert_eq!(calculate_bot_assets(&b), Ok((30, 0)));
}

#[test]
fn sell_rungs_fixed_quote() {
    let mut b = bot(GridType::ArithmeticOffset, FillMode::FixedQuote, 1, 3);
    b.last_base_amount = 10;
    b.last_quote_amount = 2000;
    b.grid_offset = 5;
    let expected = [20u128, 15, 10];
    for level in 1..4u32 {
        let o = internal_get_first_forward_order(&b, &pair(), level).unwrap();
        assert_eq!(o.amount_sell, expected[(level - 1) as usize]);
        assert_eq!(o.amount_buy, 2000);
        assert!(o.fill_buy_or_sell);
    }
    assert_eq!(calculate_bot_assets(&b), Ok((45, 0)));

    b.grid_type = GridType::GeometricRate;
    b.grid_rate = 1000;
    b.last_base_amount = 1000;
    let expected = [1210u128, 1100, 1000];
    for level in 1..4u32 {
        let o = internal_get_first_forward_order(&b, &pair(), level).unwrap();
        assert_eq!(o.amount_sell, expected[(level - 1) as usize]);
    }
    assert_eq!(calculate_bot_assets(&b), Ok((3310, 0)));
}

#[test]
fn order_id_is_decimal_level() {
    let mut b = bot(GridType::ArithmeticOffset, FillMode::FixedBase, 20, 0);
    b.first_quote_amount = 1;
    assert_eq!(internal_get_first_forward_order(&b, &pair(), 0).unwrap().order_id, "0");
    assert_eq!(internal_get_first_forward_order(&b, &pair(), 12).unwrap().order_id, "12");
}

#[test]
fn rung_errors() {
    let mut b = bot(GridType::ArithmeticOffset, FillMode::FixedQuote, 3, 2);
    b.first_base_amount = 100;
    b.grid_offset = 60;
    assert_eq!(internal_get_first_forward_order(&b, &pair(), 5), Err(GridError::InvalidConfig));
    assert_eq!(internal_get_first_forward_order(&b, &pair(), 2), Err(GridError::Overflow));
    assert!(internal_get_first_forward_order(&b, &pair(), 1).is_ok());

    let mut g = bot(GridType::GeometricRate, FillMode::FixedQuote, 3, 0);
    g.grid_rate = 10000;
    assert_eq!(internal_get_first_forward_order(&g, &pair(), 1), Err(GridError::InvalidConfig));

    let mut h = bot(GridType::GeometricRate, FillMode::FixedBase, 30, 0);
    h.grid_rate = 1000;
    h.first_quote_amount = 1000;
    assert_eq!(internal_get_first_forward_order(&h, &pair(), 20).unwrap().amount_sell, 6727);
    h.first_quote_amount = u128::MAX;
    assert_eq!(internal_get_first_forward_order(&h, &pair(), 1), Err(GridError::Overflow));
}

#[test]
fn totals_errors() {
    assert_eq!(
        internal_calculate_bot_assets(1000, 0, 0, 3, GridType::GeometricRate, 0, 0, FillMode::FixedBase),
        Err(GridError::DivisionByZero)
    );
    assert_eq!(
        internal_calculate_bot_assets(u128::MAX, 0, 0, 2, GridType::ArithmeticOffset, 0, 0, FillMode::FixedQuote),
        Err(GridError::Overflow)
    );
    assert_eq!(
        internal_calculate_bot_assets(1, u128::MAX, 2, 0, GridType::ArithmeticOffset, 0, 0, FillMode::FixedBase),
        Err(GridError::Overflow)
    );
    assert_eq!(
        internal_calculate_bot_assets(1, 1, 0, 0, GridType::GeometricRate, 0, 0, FillMode::FixedBase),
        Ok((0, 0))
    );
}

#[test]
fn totals_equal_rung_sums_arithmetic() {
    for fill in [FillMode::FixedBase, FillMode::FixedQuote] {
        for (buy, sell) in [(0u16, 0u16), (1, 0), (0, 1), (7, 5), (100, 100), (101, 3)] {
            let mut b = bot(GridType::ArithmeticOffset, fill, buy, sell);
            b.first_base_amount = 1_000_000;
            b.first_quote_amount = 5_000;
            b.last_base_amount = 2_000;
            b.last_quote_amount = 9_000_000;
            b.grid_offset = 37;
            let mut quote_sum: u128 = 0;
            let mut base_sum: u128 = 0;
            for level in 0..(buy as u32 + sell as u32) {
                let o = internal_get_first_forward_order(&b, &pair(), level).unwrap();
                if level < buy as u32 {
                    quote_sum += o.amount_sell;
                } else {
                    base_sum += o.amount_sell;
                }
            }
            assert_eq!(calculate_bot_assets(&b), Ok((base_sum, quote_sum)));
        }
    }
}

#[test]
fn totals_equal_rung_sums_geometric_flat_sides() {
    let mut b = bot(GridType::GeometricRate, FillMode::FixedQuote, 6, 0);
    b.first_quote_amount = 4_321;
    b.first_base_amount = 10_000;
    b.grid_rate = 250;
    let mut quote_sum: u128 = 0;
    for level in 0..6u32 {
        quote_sum += internal_get_first_forward_order(&b, &pair(), level).unwrap().amount_sell;
    }
    assert_eq!(calculate_bot_assets(&b), Ok((0, quote_sum)));

    let mut s = bot(GridType::GeometricRate, FillMode::FixedBase, 0, 6);
    s.last_base_amount = 777;
    s.last_quote_amount = 10_000;
    s.grid_rate = 250;
    let mut base_sum: u128 = 0;
    for level in 0..6u32 {
        base_sum += internal_get_first_forward_order(&s, &pair(), level).unwrap().amount_sell;
    }
    assert_eq!(calculate_bot_assets(&s), Ok((base_sum, 0)));
}

#[test]
fn floating_amounts_move_outward_monotonically() {
    let mut b = bot(GridType::GeometricRate, FillMode::FixedBase, 8, 8);
    b.first_quote_amount = 12_345;
    b.last_quote_amount = 12_345;
    b.grid_rate = 300;
    let mut prev_buy_side: u128 = 0;
    for level in 0..8u32 {
        let o = internal_get_first_forward_order(&b, &pair(), level).unwrap();
        assert!(o.amount_sell >= prev_buy_side);
        prev_buy_side = o.amount_sell;
    }
    // sell rungs: moving outward is moving to lower levels
    let mut prev_sell_side: u128 = u128::MAX;
    for level in (8..16u32).rev() {
        let o = internal_get_first_forward_order(&b, &pair(), level).unwrap();
        assert!(o.amount_buy <= prev_sell_side);
        prev_sell_side = o.amount_buy;
    }
}

#[test]
fn ladder_orders_cover_every_rung() {
    let mut b = bot(GridType::ArithmeticOffset, FillMode::FixedBase, 3, 2);
    b.first_base_amount = 100;
    b.first_quote_amount = 1000;
    b.last_base_amount = 10;
    b.last_quote_amount = 2000;
    b.grid_offset = 50;
    let orders = internal_get_ladder_orders(&b, &pair()).unwrap();
    assert_eq!(orders.len(), 5);
    for (i, o) in orders.iter().enumerate() {
        assert_eq!(*o, internal_get_first_forward_order(&b, &pair(), i as u32).unwrap());
    }
    assert_eq!(orders[4].order_id, "4");
    assert_eq!(orders[3].amount_buy, 1950);
    assert_eq!(orders[4].amount_buy, 2000);

    let empty = bot(GridType::ArithmeticOffset, FillMode::FixedBase, 0, 0);
    assert_eq!(internal_get_ladder_orders(&empty, &pair()), Ok(vec![]));
}

#[test]
fn ladder_orders_report_first_failing_rung() {
    let mut b = bot(GridType::ArithmeticOffset, FillMode::FixedQuote, 4, 0);
    b.first_base_amount = 100;
    b.grid_offset = 40;
    assert_eq!(internal_get_ladder_orders(&b, &pair()), Err(GridError::Overflow));

    let mut g = bot(GridType::GeometricRate, FillMode::FixedBase, 0, 2);
    g.grid_rate = 20000;
    assert_eq!(internal_get_ladder_orders(&g, &pair()), Err(GridError::InvalidConfig));
}

#[test]
fn geometric_rung_with_wide_intermediate() {
    let mut b = bot(GridType::GeometricRate, FillMode::FixedBase, 3, 0);
    b.first_quote_amount = 10u128.pow(37);
    b.grid_rate = 1000;
    // 10^37 * 11000^2 does not fit in u128, the rung amount does
    let o = internal_get_first_forward_order(&b, &pair(), 2).unwrap();
    assert_eq!(o.amount_sell, 121 * 10u128.pow(35));
}

#[test]
fn totals_equal_rung_sums_short_geometric_side() {
    let mut b = bot(GridType::GeometricRate, FillMode::FixedBase, 2, 0);
    b.first_quote_amount = 3;
    b.grid_rate = 5000;
    let o0 = internal_get_first_forward_order(&b, &pair(), 0).unwrap();
    let o1 = internal_get_first_forward_order(&b, &pair(), 1).unwrap();
    assert_eq!((o0.amount_sell, o1.amount_sell), (3, 4));
    assert_eq!(calculate_bot_assets(&b), Ok((0, 7)));
}

#[test]
fn geometric_rungs_at_high_exponents() {
    let mut b = bot(GridType::GeometricRate, FillMode::FixedQuote, 11, 0);
    b.first_base_amount = 100;
    b.grid_rate = 100;
    assert_eq!(internal_get_first_forward_order(&b, &pair(), 10).unwrap().amount_buy, 90);

    let mut s = bot(GridType::GeometricRate, FillMode::FixedBase, 0, 11);
    s.last_quote_amount = 100;
    s.grid_rate = 100;
    // level 0 is the outermost sell rung, at coefficient 10
    assert_eq!(internal_get_first_forward_order(&s, &pair(), 0).unwrap().amount_buy, 90);

    let mut d = bot(GridType::GeometricRate, FillMode::FixedQuote, 151, 0);
    d.first_base_amount = 1_000_000;
    d.grid_rate = 100;
    assert_eq!(internal_get_first_forward_order(&d, &pair(), 150).unwrap().amount_buy, 221_451);

    let mut u = bot(GridType::GeometricRate, FillMode::FixedQuote, 0, 301);
    u.last_base_amount = 12_345;
    u.grid_rate = 100;
    assert_eq!(internal_get_first_forward_order(&u, &pair(), 0).unwrap().amount_sell, 244_288);
}

#[test]
fn geometric_totals_over_long_ladders() {
    let mut b = bot(GridType::GeometricRate, FillMode::FixedBase, 100, 0);
    b.first_quote_amount = 1000;
    b.first_base_amount = 1;
    b.grid_rate = 250;
    assert_eq!(calculate_bot_assets(&b), Ok((0, 432_548)));
}
