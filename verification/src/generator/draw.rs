//! Seeds drawn from the operating system's random source. A `DrawnSeed` can only be made by
//! drawing one, so a seed that a contract says was drawn came from the source.

use vstd::prelude::*;

use crate::generator::random_seed;

verus! {

/// A seed that the operating system's random source gave.
pub struct DrawnSeed {
    seed: u64,
}

impl DrawnSeed {
    /// The seed that was drawn.
    pub closed spec fn value(&self) -> u64 {
        self.seed
    }

    /// Draws a fresh seed, or gives `None` where the source reports an error.
    pub fn draw() -> (r: Option<DrawnSeed>) {
        match random_seed() {
            Some(seed) => Some(DrawnSeed { seed }),
            None => None,
        }
    }

    /// The seed that was drawn.
    pub fn get(&self) -> (r: u64)
        ensures
            r == self.value(),
    {
        self.seed
    }
}

} // verus!
