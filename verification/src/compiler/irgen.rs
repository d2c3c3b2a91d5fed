//! Functions from checked programs.
use vstd::prelude::*;

use crate::ir::ids::{ModuleId, Ref};

pub mod call;
pub mod intrinsics;
pub mod meaning;

verus! {

/// The value of an expression, or where it is stored.
#[derive(Clone, Copy, Debug, PartialEq, Eq, Structural)]
pub enum ValueOrPlace {
    Value(Ref),
    Place(Ref),
}

/// Why the code behind an expression is not reached.
#[derive(Clone, Copy, Debug, PartialEq, Eq, Structural)]
pub enum Stop {
    NoReturn,
    /// The function that is called could not be compiled. The program stops here.
    CrashPoint,
}

/// The modules of the instructions that programs are made from.
#[derive(Clone, Copy, Debug, PartialEq, Eq, Structural)]
pub struct Dialects {
    pub arith: ModuleId,
    pub tuple: ModuleId,
    pub mem: ModuleId,
    pub cf: ModuleId,
}

} // verus!
