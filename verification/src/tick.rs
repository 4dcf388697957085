//! Simulation ticks.

use vstd::prelude::*;

verus! {

/// A simulation tick. Its width and its order, which is that of the numbers and does not wrap
/// around, are this library's choice.
#[derive(Debug, Clone, Copy, PartialEq, Eq, Structural)]
pub struct Tick(pub u32);

} // verus!
