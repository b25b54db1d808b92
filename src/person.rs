use vstd::prelude::*;

verus! {

/// Denominator of every fixed-point fraction in this crate: a value `x`
/// stands for `x / UNIT`, so `UNIT` itself is one.
pub const UNIT: u32 = 1_000_000;

/// Descriptive record of a member of the population.
#[derive(Debug, Clone, PartialEq)]
pub struct Person {
    pub id: usize,
    pub age: u8,
    pub health_status: String,
}

/// Weight of a contact edge.
///
/// `frequency` is a positive contact rate; `strength` is the interaction
/// intensity in millionths, so it lies strictly between `0` and `UNIT`.
#[derive(Debug, Clone, Copy, PartialEq, Eq, Structural)]
pub struct Interaction {
    pub frequency: u8,
    pub strength: u32,
}

/// Shortest-path cost of an edge: its strength scaled to hundredths and
/// truncated, so a stronger contact never costs less than a weaker one. A
/// strength at or above one counts as just below one.
pub open spec fn cost_of(strength: u32) -> nat {
    if strength < UNIT {
        (strength / 10_000) as nat
    } else {
        99
    }
}

pub fn edge_cost(w: &Interaction) -> (r: u32)
    ensures
        r as nat == cost_of(w.strength),
        r < 100,
{
    if w.strength < UNIT {
        w.strength / 10_000
    } else {
        99
    }
}

} // verus!
