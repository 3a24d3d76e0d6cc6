use vstd::prelude::*;

verus! {

/// Step policy between adjacent rungs.
#[derive(Debug, Clone, Copy, PartialEq, Eq, Structural)]
pub enum GridType {
    /// Adjacent rungs differ by a fixed amount (`grid_offset`).
    ArithmeticOffset,
    /// Adjacent rungs differ by a fixed rate in basis points (`grid_rate`).
    GeometricRate,
}

/// Which asset has a flat quantity on every rung.
#[derive(Debug, Clone, Copy, PartialEq, Eq, Structural)]
pub enum FillMode {
    FixedBase,
    FixedQuote,
}

/// A grid strategy: its configuration and its activation state.
#[derive(Debug, Clone)]
pub struct GridBot {
    /// Owning account.
    pub user: String,
    pub pair_id: String,
    pub grid_type: GridType,
    pub fill_mode: FillMode,
    pub grid_sell_count: u16,
    pub grid_buy_count: u16,
    /// Rate between rungs in basis points (geometric grids).
    pub grid_rate: u16,
    /// Offset between rungs (arithmetic grids).
    pub grid_offset: u128,
    /// Amounts at the innermost buy rung.
    pub first_base_amount: u128,
    pub first_quote_amount: u128,
    /// Amounts at the innermost sell rung.
    pub last_base_amount: u128,
    pub last_quote_amount: u128,
    /// Zero when the bot is active from creation.
    pub trigger_price: u128,
    pub take_profit_price: u128,
    pub stop_loss_price: u128,
    pub active: bool,
    /// `true`: activates when the price rises above the trigger;
    /// `false`: activates when it falls below.
    pub trigger_price_above_or_below: bool,
}

/// The two tokens of a trading pair.
#[derive(Debug, Clone)]
pub struct Pair {
    pub base_token: String,
    pub quote_token: String,
}

/// The order placed at one rung of the ladder.
#[derive(Debug, Clone, PartialEq, Eq)]
pub struct Order {
    /// Decimal form of the rung index.
    pub order_id: String,
    pub token_sell: String,
    pub token_buy: String,
    pub amount_sell: u128,
    pub amount_buy: u128,
    /// Side against which the rung counts as filled.
    pub fill_buy_or_sell: bool,
    pub filled: u128,
}

/// A price reported by the oracle feed for a pair.
#[derive(Debug, Clone, Copy, PartialEq, Eq, Structural)]
pub struct OraclePrice {
    pub price: u128,
    /// Last instant (inclusive) at which the price may be used.
    pub valid_timestamp: u64,
}

} // verus!
