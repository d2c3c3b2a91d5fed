//! Which registers instructions and calls change.
use vstd::prelude::*;

use crate::backend::arm::abi::ArmAbi;
use crate::backend::arm::decode;
use crate::backend::arm::decode::Operation;
use crate::backend::arm::isa::Arm;
use crate::ir::dialect::Dialect;
use crate::ir::inst::{Imm, Parameter, Usage};
use crate::ir::mc::inst::Abi;

verus! {

/// How many of the first operands take results.
pub open spec fn results(operation: Operation) -> int {
    match operation {
        Operation::Store | Operation::StorePair | Operation::Call | Operation::Return => 0,
        Operation::LoadPair => 2,
        _ => 1,
    }
}

/// Registers that take results are marked as defined, and all others as used. Addresses are
/// used, and their distances are counted in the units that are accessed.
pub proof fn operands_are_marked_by_their_effect(op: Arm, i: int)
    requires
        0 <= i < op.spec_params().len(),
    ensures
        match op.spec_params()[i] {
            Parameter::MCReg(usage) => usage == (if i < results(decode::named(op).0) {
                Usage::Def
            } else {
                Usage::Use
            }),
            Parameter::MCRegOffset(usage, imm) => {
                let (operation, size) = decode::named(op);
                &&& usage == Usage::Use
                &&& i >= results(operation)
                &&& match operation {
                    Operation::Load | Operation::Store => imm matches Imm::Unsigned12(unit) && unit
                        == size,
                    _ => imm matches Imm::Signed7(unit) && unit == size,
                }
            },
            _ => true,
        },
{
}

/// A call may change the registers with the first eighteen numbers. It leaves the ten from
/// number nineteen on as they were. Both halves of a result come back in registers that it
/// may change.
pub proof fn calls_keep_some_registers(abi: ArmAbi, n: int, count: u32)
    requires
        0 <= n < 31,
    ensures
        ({
            let index = decode::register(n, true, true).spec_index();
            &&& index == decode::register(n, false, true).spec_index()
            &&& abi.clobbers(index) <==> n < 18
            &&& abi.keeps(index) <==> 19 <= n < 29
            &&& abi.returns_in(count, index) <==> n < count
        }),
{
    reveal(decode::register);
}

} // verus!
