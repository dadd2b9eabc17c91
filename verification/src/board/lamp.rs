use vstd::prelude::*;

verus! {

/// Which LED slot an LED occupies and which zone it belongs to.
#[derive(Debug, Clone, Copy, PartialEq, Eq, Structural)]
pub struct LedInfo {
    pub id: usize,
    pub zone_id: usize,
}

/// Where an LED lies along the board, as the exact fraction
/// `x_numerator / x_denominator` (0 at the first slot, 1 at the last).
#[derive(Debug, Clone, Copy, PartialEq, Eq, Structural)]
pub struct Position {
    pub x_numerator: usize,
    pub x_denominator: usize,
}

} // verus!
