//! Registers that instructions use though they are no operands.
use vstd::prelude::*;

use crate::backend::x86::abi::systemv::SystemV;
use crate::backend::x86::isa::{Reg, RegBits, X86};
use crate::ir::mc::inst::{Abi, McInst};
use crate::ir::mc::register::Register;

verus! {

/// The instruction only changes the flags besides its operands.
pub open spec fn sets_flags(op: X86) -> bool {
    matches!(
        op,
        X86::cmp_rr32
            | X86::add_rr8
            | X86::add_rr16
            | X86::add_rr32
            | X86::add_rr64
            | X86::add_ri8
            | X86::add_ri16
            | X86::add_ri32
            | X86::add_ri64
            | X86::sub_rr8
            | X86::sub_rr16
            | X86::sub_rr32
            | X86::sub_rr64
            | X86::sub_ri8
            | X86::sub_ri16
            | X86::sub_ri32
            | X86::sub_ri64
            | X86::imul_r8
            | X86::imul_rr16
            | X86::imul_rr32
            | X86::imul_rr64
            | X86::imul_rri16
            | X86::imul_rri64
    )
}

/// The instruction divides the pair of the accumulator and the data register.
pub open spec fn divides_pair(op: X86) -> bool {
    matches!(
        op,
        X86::div_r16
            | X86::div_r32
            | X86::div_r64
            | X86::idiv_r16
            | X86::idiv_r32
            | X86::idiv_r64
    )
}

impl McInst for X86 {
    type Reg = Reg;

    type Convention = SystemV;

    open spec fn defines(self, abi: SystemV, index: u8) -> bool {
        match self {
            X86::push_r64 | X86::pop_r64 => index == Reg::rsp.spec_index(),
            X86::div_r8 | X86::idiv_r8 => index == Reg::ax.spec_index() || index
                == Reg::eflags.spec_index(),
            X86::cbw => index == Reg::al.spec_index(),
            X86::cwd | X86::cdq | X86::cqo => index == Reg::rdx.spec_index() || index
                == Reg::rax.spec_index(),
            X86::call_function | X86::call_r64 => abi.clobbers(index),
            _ => if sets_flags(self) {
                index == Reg::eflags.spec_index()
            } else if divides_pair(self) {
                index == Reg::rax.spec_index() || index == Reg::rdx.spec_index() || index
                    == Reg::eflags.spec_index()
            } else {
                false
            },
        }
    }

    open spec fn reads(self, abi: SystemV, index: u8) -> bool {
        match self {
            X86::push_r64 | X86::pop_r64 => index == Reg::rsp.spec_index(),
            X86::jl => index == Reg::eflags.spec_index(),
            X86::ret64 => abi.returns_in(1, index),
            X86::ret128 => abi.returns_in(2, index),
            X86::div_r8 | X86::idiv_r8 => index == Reg::ax.spec_index() || index
                == Reg::eflags.spec_index(),
            X86::cbw => index == Reg::al.spec_index(),
            X86::cwd => index == Reg::ax.spec_index(),
            X86::cdq | X86::cqo => index == Reg::rax.spec_index(),
            _ => if divides_pair(self) {
                index == Reg::rax.spec_index() || index == Reg::rdx.spec_index() || index
                    == Reg::eflags.spec_index()
            } else {
                false
            },
        }
    }

    fn implicit_def(self, abi: &SystemV) -> RegBits {
        match self {
            X86::push_r64 | X86::pop_r64 => Reg::rsp.bit(),
            X86::cmp_rr32 => Reg::eflags.bit(),
            X86::add_rr8
            | X86::add_rr16
            | X86::add_rr32
            | X86::add_rr64
            | X86::add_ri8
            | X86::add_ri16
            | X86::add_ri32
            | X86::add_ri64
            | X86::sub_rr8
            | X86::sub_rr16
            | X86::sub_rr32
            | X86::sub_rr64
            | X86::sub_ri8
            | X86::sub_ri16
            | X86::sub_ri32
            | X86::sub_ri64
            | X86::imul_r8
            | X86::imul_rr16
            | X86::imul_rr32
            | X86::imul_rr64
            | X86::imul_rri16
            | X86::imul_rri64 => Reg::eflags.bit(),
            X86::div_r8 | X86::idiv_r8 => Reg::ax.bit().bitor(Reg::eflags.bit()),
            X86::div_r16
            | X86::div_r32
            | X86::div_r64
            | X86::idiv_r16
            | X86::idiv_r32
            | X86::idiv_r64 => Reg::rax.bit().bitor(Reg::rdx.bit()).bitor(Reg::eflags.bit()),
            X86::cbw => Reg::al.bit(),
            X86::cwd => Reg::dx.bit().bitor(Reg::ax.bit()),
            X86::cdq | X86::cqo => Reg::rdx.bit().bitor(Reg::rax.bit()),
            X86::call_function | X86::call_r64 => {
                let bits: RegBits = abi.caller_saved();
                proof {
                    assert forall|i: u8| #[trigger] Reg::spec_has(bits, i) <==> self.defines(
                        *abi,
                        i,
                    ) by {
                        assert(SystemV::spec_has(bits, i) <==> abi.clobbers(i));
                    }
                }
                bits
            },
            _ => RegBits::new(),
        }
    }

    fn implicit_use(self, abi: &SystemV) -> RegBits {
        match self {
            X86::push_r64 | X86::pop_r64 => Reg::rsp.bit(),
            X86::jl => Reg::eflags.bit(),
            X86::ret64 => {
                let bits: RegBits = abi.return_regs(1);
                proof {
                    assert forall|i: u8| #[trigger] Reg::spec_has(bits, i) <==> self.reads(
                        *abi,
                        i,
                    ) by {
                        assert(SystemV::spec_has(bits, i) <==> abi.returns_in(1, i));
                    }
                }
                bits
            },
            X86::ret128 => {
                let bits: RegBits = abi.return_regs(2);
                proof {
                    assert forall|i: u8| #[trigger] Reg::spec_has(bits, i) <==> self.reads(
                        *abi,
                        i,
                    ) by {
                        assert(SystemV::spec_has(bits, i) <==> abi.returns_in(2, i));
                    }
                }
                bits
            },
            X86::div_r8 | X86::idiv_r8 => Reg::ax.bit().bitor(Reg::eflags.bit()),
            X86::div_r16
            | X86::div_r32
            | X86::div_r64
            | X86::idiv_r16
            | X86::idiv_r32
            | X86::idiv_r64 => Reg::rax.bit().bitor(Reg::rdx.bit()).bitor(Reg::eflags.bit()),
            X86::cbw => Reg::al.bit(),
            X86::cwd => Reg::ax.bit(),
            X86::cdq | X86::cqo => Reg::rax.bit(),
            _ => RegBits::new(),
        }
    }
}

} // verus!
