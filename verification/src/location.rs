//! Source positions.
use vstd::prelude::*;

verus! {

/// A position in the source text of a program. The checking pass never looks
/// inside a location; it only copies it into the errors it reports.
#[derive(Clone, Copy, Debug, PartialEq, Eq, Structural)]
pub struct Location {
    pub row: usize,
    pub column: usize,
}

impl Location {
    /// The position at `row` and `column`, both counted from zero.
    pub fn new(row: usize, column: usize) -> (location: Location)
        ensures
            location == (Location { row, column }),
    {
        Location { row, column }
    }
}

} // verus!
