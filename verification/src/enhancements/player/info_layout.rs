//! Where the lines of information about a player are stacked.

use vstd::prelude::*;

verus! {

/// The side of a player's box on which the information is stacked.
#[derive(Clone, Copy, Debug, PartialEq, Eq, Structural)]
pub enum LayoutAlignment {
    Right,
    Bottom,
}

} // verus!
