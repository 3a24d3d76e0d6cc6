use vstd::prelude::*;

verus! {

/// Failures of the pricing engine.
#[derive(Debug, Clone, Copy, PartialEq, Eq, Structural)]
pub enum GridError {
    /// A value left the engine's working range (above `u128::MAX` or below zero),
    /// or the bot identifier counter is exhausted.
    Overflow,
    /// A division by zero, such as a geometric series with a zero rate.
    DivisionByZero,
    /// The configuration does not describe a valid ladder or rung.
    InvalidConfig,
}

} // verus!
