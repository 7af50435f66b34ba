use vstd::prelude::*;

verus! {

/// Whether the turtle draws while it moves.
#[derive(Debug, Clone, Copy, PartialEq, Eq, Structural)]
pub enum Mode {
    PenUp,
    PenDown,
}

} // verus!
