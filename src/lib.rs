//! Pricing and ladder engine of a grid-trading strategy: per-rung order
//! amounts, closed-form ladder totals, oracle guards and bot identifiers.

pub mod errors;
pub mod decimal;
pub mod series;
pub mod entity;
pub mod ladder;
pub mod assets;
pub mod guard;
pub mod contract;
pub mod wide;
