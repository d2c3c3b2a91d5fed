//! Which registers instructions and calls change.
use vstd::prelude::*;

use crate::backend::size::Size;
use crate::backend::x86::abi::systemv::SystemV;
use crate::backend::x86::decode;
use crate::backend::x86::decode::Operation;
use crate::backend::x86::isa::X86;
use crate::ir::dialect::Dialect;
use crate::ir::inst::Usage;
use crate::ir::mc::inst::{Abi, McInst};

verus! {

/// The operation puts its result into its first operand.
pub open spec fn writes_first(operation: Operation) -> bool {
    match operation {
        Operation::Cmp
        | Operation::Test
        | Operation::Push
        | Operation::Mul
        | Operation::Div
        | Operation::Idiv
        | Operation::Call
        | Operation::Return
        | Operation::Jump
        | Operation::JumpIf(_) => false,
        _ => true,
    }
}

/// The result depends on what the first operand held. A product of two other operands does
/// not.
pub open spec fn reads_first(operation: Operation, operands: nat) -> bool {
    match operation {
        Operation::Mov
        | Operation::Lea
        | Operation::Pop
        | Operation::SetIf(_)
        | Operation::Movsx
        | Operation::Movzx => false,
        Operation::Imul => operands < 3,
        _ => true,
    }
}

/// A register that is changed is marked as defined, and one whose value matters is marked as
/// used. Disjunctions and conjunctions mark their first operand only as used. So do stores and
/// the product with the accumulator, whose results go elsewhere.
pub proof fn operands_are_marked_by_their_effect(op: X86)
    requires
        decode::operation_named(op) is Some,
        decode::operation_named(op)->Some_0 != Operation::Or,
        decode::operation_named(op)->Some_0 != Operation::And,
    ensures
        ({
            let operation = decode::operation_named(op)->Some_0;
            let params = op.spec_params();
            let stores = operation == Operation::Mov && params.len() == 5 && params[1] is Int32;
            let one = operation == Operation::Imul && params.len() == 1;
            &&& params.len() > 0 && params[0] is MCReg ==> match params[0]->MCReg_0 {
                Usage::Def => writes_first(operation) && !reads_first(operation, params.len())
                    && !stores && !one,
                Usage::DefUse => writes_first(operation) && reads_first(operation, params.len())
                    && !stores && !one,
                Usage::Use => !writes_first(operation) || stores || one,
            }
            &&& forall|i: int|
                0 < i < params.len() && (#[trigger] params[i]) is MCReg ==> params[i]->MCReg_0
                    == Usage::Use
        }),
{
}

/// A call leaves seven registers as they were and may change the nine others. The seven are
/// the fourth to sixth in the order in which instructions number the registers, and the last
/// four.
pub proof fn calls_keep_some_registers(abi: SystemV, n: int)
    requires
        0 <= n < 16,
    ensures
        ({
            let index = decode::register(n, Size::S64, false).spec_index();
            &&& abi.keeps(index) <==> 3 <= n <= 5 || n >= 12
            &&& abi.clobbers(index) <==> !abi.keeps(index)
            &&& forall|count: u32| abi.returns_in(count, index) ==> abi.clobbers(index)
            &&& X86::call_function.defines(abi, index) <==> !abi.keeps(index)
            &&& X86::call_r64.defines(abi, index) <==> !abi.keeps(index)
        }),
{
    reveal(decode::register);
}

/// Results are returned in the first registers in the order in which instructions number
/// them, without the second: one for each value, two at most. A return reads them.
pub proof fn results_are_returned_in_registers(abi: SystemV, n: int, count: u32)
    requires
        0 <= n < 16,
    ensures
        ({
            let index = decode::register(n, Size::S64, false).spec_index();
            &&& abi.returns_in(count, index) <==> (n == 0 && count >= 1) || (n == 2 && count >= 2)
            &&& X86::ret0.reads(abi, index) <==> false
            &&& X86::ret64.reads(abi, index) <==> n == 0
            &&& X86::ret128.reads(abi, index) <==> n == 0 || n == 2
        }),
{
    reveal(decode::register);
}

} // verus!
