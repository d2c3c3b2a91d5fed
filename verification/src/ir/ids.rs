//! Numbers that name the parts of a program.
use vstd::prelude::*;

verus! {

/// An instruction of a function, or one of a few constant values.
#[derive(Clone, Copy, Debug, PartialEq, Eq, Hash, Structural)]
pub struct Ref(pub u32);

impl Ref {
    #[verifier::allow_in_spec]
    pub fn unit() -> Ref
        returns
            Ref(0xffff_ffff),
    {
        Ref(0xffff_ffff)
    }

    #[verifier::allow_in_spec]
    pub fn true_() -> Ref
        returns
            Ref(0xffff_fffe),
    {
        Ref(0xffff_fffe)
    }

    #[verifier::allow_in_spec]
    pub fn false_() -> Ref
        returns
            Ref(0xffff_fffd),
    {
        Ref(0xffff_fffd)
    }

    /// The value comes from an instruction.
    pub open spec fn spec_is_ref(self) -> bool {
        self.0 < 0xffff_fffd
    }

    pub fn is_ref(self) -> (is: bool)
        ensures
            is == self.spec_is_ref(),
    {
        self.0 < 0xffff_fffd
    }

    pub fn index(i: u32) -> (r: Ref)
        ensures
            r.0 == i,
    {
        Ref(i)
    }

    pub fn idx(self) -> (i: usize)
        ensures
            i == self.0,
    {
        self.0 as usize
    }
}

/// Consecutive instructions.
#[derive(Clone, Copy, Debug, PartialEq, Eq, Structural)]
pub struct Refs {
    pub idx: u32,
    pub count: u32,
}

impl Refs {
    pub fn count(self) -> (n: u32)
        ensures
            n == self.count,
    {
        self.count
    }

    /// The `i`-th of the instructions.
    pub fn nth(self, i: u32) -> (r: Ref)
        requires
            i < self.count,
            self.idx + self.count <= u32::MAX,
        ensures
            r.0 == self.idx + i,
    {
        Ref(self.idx + i)
    }
}

#[derive(Clone, Copy, Debug, PartialEq, Eq, Hash, Structural)]
pub struct BlockId(pub u32);

impl BlockId {
    #[verifier::allow_in_spec]
    pub fn entry() -> BlockId
        returns
            BlockId(0),
    {
        BlockId(0)
    }

    pub fn idx(self) -> (i: usize)
        ensures
            i == self.0,
    {
        self.0 as usize
    }
}

#[derive(Clone, Copy, Debug, PartialEq, Eq, Hash, Structural)]
pub struct TypeId(pub u32);

impl TypeId {
    #[verifier::allow_in_spec]
    pub fn unit() -> TypeId
        returns
            TypeId(0),
    {
        TypeId(0)
    }

    #[verifier::allow_in_spec]
    pub fn i1() -> TypeId
        returns
            TypeId(1),
    {
        TypeId(1)
    }
}

#[derive(Clone, Copy, Debug, PartialEq, Eq, Hash, Structural)]
pub struct ModuleId(pub u32);

impl ModuleId {
    #[verifier::allow_in_spec]
    pub fn builtins() -> ModuleId
        returns
            ModuleId(0),
    {
        ModuleId(0)
    }
}

#[derive(Clone, Copy, Debug, PartialEq, Eq, Hash, Structural)]
pub struct LocalFunctionId(pub u32);

#[derive(Clone, Copy, Debug, PartialEq, Eq, Hash, Structural)]
pub struct FunctionId {
    pub module: ModuleId,
    pub function: LocalFunctionId,
}

#[derive(Clone, Copy, Debug, PartialEq, Eq, Hash, Structural)]
pub struct GlobalId {
    pub module: ModuleId,
    pub idx: u32,
}

/// A place in the stack frame.
#[derive(Clone, Copy, Debug, PartialEq, Eq, Hash, Structural)]
pub struct StackSlot(pub u32);

} // verus!
