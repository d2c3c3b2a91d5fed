use vstd::prelude::*;

verus! {

#[derive(Clone, Copy, Debug, PartialEq, Eq, Structural)]
pub enum CallConv {
    /// Standard eye calling convention
    Eye,
    /// Used for the `Fn` trait call method where the arguments are passed as a single tuple
    FnTrait,
}

impl Default for CallConv {
    fn default() -> (c: Self)
        ensures
            c == CallConv::Eye,
    {
        CallConv::Eye
    }
}

} // verus!
