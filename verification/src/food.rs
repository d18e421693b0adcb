use vstd::prelude::*;

verus! {

/// A piece of food lying in the world.
#[derive(Clone, Copy, Debug, PartialEq, Eq, Structural)]
pub enum Food {
    /// Restores health when eaten; boids are drawn to it.
    Apple,
    /// Costs health when eaten.
    Poison,
}

} // verus!
