//! What is known of the functions that instructions refer to.
use vstd::prelude::*;

use crate::ir::ids::FunctionId;
use crate::ir::inst::Parameter;

verus! {

/// The signature of an instruction or a function.
#[derive(Debug)]
pub struct FunctionDef {
    pub params: Vec<Parameter>,
    pub varargs: Option<Parameter>,
    pub terminator: bool,
    /// The result depends on the arguments alone and nothing else happens.
    pub pure_: bool,
}

#[derive(Debug)]
pub struct Environment {
    pub modules: Vec<Vec<FunctionDef>>,
    /// The instruction that goes on with another block, where the program has it.
    pub goto: Option<FunctionId>,
}

impl Environment {
    pub open spec fn has(&self, f: FunctionId) -> bool {
        f.module.0 < self.modules@.len() && f.function.0 < self.modules@[f.module.0 as int]@.len()
    }

    pub open spec fn def(&self, f: FunctionId) -> FunctionDef {
        self.modules@[f.module.0 as int]@[f.function.0 as int]
    }

    pub fn contains(&self, f: FunctionId) -> (b: bool)
        ensures
            b == self.has(f),
    {
        (f.module.0 as usize) < self.modules.len() && (f.function.0 as usize)
            < self.modules[f.module.0 as usize].len()
    }

    pub fn get(&self, f: FunctionId) -> (def: &FunctionDef)
        requires
            self.has(f),
        ensures
            *def == self.def(f),
    {
        &self.modules[f.module.0 as usize][f.function.0 as usize]
    }
}

} // verus!
