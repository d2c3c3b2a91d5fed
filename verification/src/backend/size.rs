use vstd::prelude::*;

verus! {

/// The width of an operand.
#[derive(Clone, Copy, Debug, PartialEq, Eq, PartialOrd, Ord, Structural)]
pub enum Size {
    S8,
    S16,
    S32,
    S64,
    S128,
}

} // verus!
