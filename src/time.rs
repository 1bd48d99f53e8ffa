//! Timestamps.

use vstd::prelude::*;

verus! {

/// A point in time as whole microseconds since the Unix epoch.
#[derive(Clone, Copy, Debug, PartialEq, Eq, Structural)]
pub struct Seconds {
    pub micros: u64,
}

impl Seconds {
    /// The time `micros` microseconds after the epoch.
    pub fn from_micros(micros: u64) -> (r: Seconds)
        ensures
            r.micros == micros,
    {
        Seconds { micros }
    }
}

} // verus!
