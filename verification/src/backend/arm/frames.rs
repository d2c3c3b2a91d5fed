//! What functions find on the stack, and that their callers find their registers again.
use vstd::prelude::*;

use crate::backend::arm::abi;
use crate::backend::arm::decode;
use crate::backend::arm::decode::Operation;
use crate::backend::arm::isa::{Arm, Reg};
use crate::backend::arm::stack;
use crate::backend::state;
use crate::ir::dialect;
use crate::ir::dialect::Dialect;
use crate::ir::edit::{EditView, PlanView};
use crate::ir::ids::{FunctionId, ModuleId, Ref};
use crate::ir::inst::{ArgumentView, MCReg, Usage};
use crate::ir::mc::register::Register;
use crate::ir::modify::Insert;
use crate::ir::types::Layout;

verus! {

/// The registers, and the words in memory by their addresses.
pub struct Stack {
    pub regs: Map<MCReg, int>,
    pub words: Map<int, int>,
}

pub open spec fn sp() -> MCReg {
    abi::phys(Reg::sp)
}

/// The frame pointer.
pub open spec fn fp() -> MCReg {
    abi::phys(Reg::x29)
}

/// The register that holds where a function returns to.
pub open spec fn link() -> MCReg {
    abi::phys(Reg::x30)
}

impl Stack {
    pub open spec fn top(self) -> int {
        self.regs[sp()]
    }

    pub open spec fn set(self, r: MCReg, v: int) -> Stack {
        Stack { regs: self.regs.insert(r, v), ..self }
    }

    /// What an instruction does. The distance of a pair is counted in words, and its second
    /// register lies one word above the first.
    pub open spec fn step(self, arm: ModuleId, function: FunctionId, args: Seq<ArgumentView>) -> Stack {
        let a = args[0]->MCReg_1;
        let b = args[1]->MCReg_1;
        let place = self.regs[args[2]->MCRegOffset_2] + 8 * args[2]->MCRegOffset_3;
        match Arm::spec_of_id(function.function.0) {
            Some(op) => if function.module != arm {
                self
            } else {
                match decode::named(op).0 {
                    Operation::Add => self.set(a, self.regs[b] + args[2]->Int32_0),
                    Operation::Sub => self.set(a, self.regs[b] - args[2]->Int32_0),
                    Operation::StorePair => Stack {
                        words: self.words.insert(place, self.regs[a]).insert(
                            place + 8,
                            self.regs[b],
                        ),
                        ..self
                    },
                    Operation::LoadPair => self.set(a, self.words[place]).set(
                        b,
                        self.words[place + 8],
                    ),
                    _ => self,
                }
            },
            None => self,
        }
    }

    /// What was put before an instruction does.
    pub open spec fn run(self, arm: ModuleId, edits: Seq<EditView>, r: Ref) -> Stack
        decreases edits.len(),
    {
        if edits.len() == 0 {
            self
        } else {
            let m = self.run(arm, edits.drop_last(), r);
            match edits.last() {
                EditView::Add { at, position, function, args, .. } => if at == r && position
                    == Insert::Before {
                    m.step(arm, function, args)
                } else {
                    m
                },
                _ => m,
            }
        }
    }

    /// What was added to a plan does.
    pub open spec fn after(self, arm: ModuleId, from: PlanView, to: PlanView, r: Ref) -> Stack {
        self.run(arm, to.edits.skip(from.edits.len() as int), r)
    }
}

proof fn lemma_phys()
    ensures
        sp() != fp(),
        sp() != link(),
        fp() != link(),
{
}

proof fn lemma_inserted(
    m: Stack,
    arm: ModuleId,
    from: PlanView,
    to: PlanView,
    at: Ref,
    op: Arm,
    args: Seq<ArgumentView>,
)
    requires
        from.edits.len() <= to.edits.len(),
    ensures
        from.edits.len() <= stack::inserted(to, arm, at, op, args).edits.len(),
        m.after(arm, from, stack::inserted(to, arm, at, op, args), at) == m.after(
            arm,
            from,
            to,
            at,
        ).step(arm, dialect::spec_function(arm, op), args),
        Arm::spec_of_id(op.spec_id()) == Some(op),
{
    op.ids_are_unique();
    let n = from.edits.len() as int;
    assert(stack::inserted(to, arm, at, op, args).edits.skip(n).drop_last() =~= to.edits.skip(n));
}

/// The stack pointer is lowered by enough for all places and for what has to be saved, and
/// stays aligned.
pub proof fn frames_have_room(slots: Seq<Layout>, leaf: bool)
    requires
        stack::slots_fit(slots),
    ensures
        stack::sp_decrement(slots, leaf) % 16 == 0,
        leaf ==> stack::sp_decrement(slots, leaf) >= stack::frame_size(slots, slots.len() as int),
        !leaf ==> stack::sp_decrement(slots, leaf) - 16 >= stack::frame_size(
            slots,
            slots.len() as int,
        ),
        stack::sp_decrement(slots, leaf) < stack::frame_size(slots, slots.len() as int) + 32,
        stack::frame_size(slots, slots.len() as int) >= 0,
{
    let n = slots.len() as int;
    if n > 0 {
        stack::places_are_apart(slots, n - 1, n - 1);
    }
    state::rounding_up(stack::frame_size(slots, n), 16);
}

/// Where the frame pointer and the return address are saved. Without a frame it is right below
/// what the caller left; with one it is as many words away as the frame has bytes.
pub open spec fn saved_at(m: Stack, decrement: int) -> int {
    m.top() - decrement + 8 * (decrement - 16)
}

/// What a function finds when it has begun: its frame above the stack pointer, and apart from
/// the two words that it saved registers in, the memory as its caller left it. Where it calls
/// others, the frame pointer leads to the end of the frame.
pub open spec fn is_entered(m: Stack, entered: Stack, decrement: int, leaf: bool) -> bool {
    let saved = saved_at(m, decrement);
    &&& entered.top() == m.top() - decrement
    &&& !leaf ==> entered.regs[fp()] == m.top() - 16
    &&& leaf ==> entered.regs[fp()] == m.regs[fp()]
    &&& forall|a: int|
        leaf || (a != saved && a != saved + 8) ==> #[trigger] entered.words[a] == m.words[a]
    &&& forall|q: MCReg| q != sp() && q != fp() ==> #[trigger] entered.regs[q] == m.regs[q]
    &&& !leaf ==> entered.words[saved] == m.regs[fp()] && entered.words[saved + 8]
        == m.regs[link()]
}

/// A function may change its frame, but not what it saved.
pub open spec fn keeps_saved(m: Stack, entered: Stack, end: Stack, decrement: int) -> bool {
    let saved = saved_at(m, decrement);
    &&& end.top() == entered.top()
    &&& end.words[saved] == entered.words[saved]
    &&& end.words[saved + 8] == entered.words[saved + 8]
}

/// A function that has begun has its frame.
#[verifier::spinoff_prover]
#[verifier::rlimit(50)]
pub proof fn functions_have_their_frame(
    m: Stack,
    arm: ModuleId,
    plan: PlanView,
    at: Ref,
    decrement: int,
    leaf: bool,
)
    requires
        0 <= decrement <= u32::MAX,
        !leaf ==> decrement >= 16,
    ensures
        ({
            let e = m.after(arm, plan, stack::prologue(plan, arm, at, decrement, leaf), at);
            &&& is_entered(m, e, decrement, leaf)
            &&& decrement == 16 ==> saved_at(m, decrement) == m.top() - 16
        }),
{
    lemma_phys();
    assert(plan.edits.skip(plan.edits.len() as int) =~= Seq::empty());
    assert(m.after(arm, plan, plan, at) == m);
    if decrement != 0 {
        let args = stack::add_sub_args(Reg::sp, Reg::sp, decrement);
        let lowered = stack::inserted(plan, arm, at, Arm::sub_i64, args);
        lemma_inserted(m, arm, plan, plan, at, Arm::sub_i64, args);
        assert(args[0]->MCReg_1 == sp() && args[1]->MCReg_1 == sp());
        assert(args[2]->Int32_0 == decrement);
        assert(m.after(arm, plan, lowered, at).top() == m.top() - decrement);
        if !leaf {
            let pair = stack::pair_args(Usage::Use, decrement - 16);
            let stored = stack::inserted(lowered, arm, at, Arm::stp64, pair);
            lemma_inserted(m, arm, plan, lowered, at, Arm::stp64, pair);
            assert(pair[0]->MCReg_1 == fp() && pair[1]->MCReg_1 == link());
            assert(pair[2]->MCRegOffset_2 == sp() && pair[2]->MCRegOffset_3 == decrement - 16);
            let last = stack::add_sub_args(Reg::x29, Reg::sp, decrement - 16);
            lemma_inserted(m, arm, plan, stored, at, Arm::add_i64, last);
            assert(last[0]->MCReg_1 == fp() && last[1]->MCReg_1 == sp());
            assert(last[2]->Int32_0 == decrement - 16);
        }
    }
}

/// When a function returns, the stack pointer, the frame pointer and the return address are
/// what they were when it was called. What the function left in the other registers stays.
#[verifier::spinoff_prover]
#[verifier::rlimit(50)]
pub proof fn callers_find_their_registers(
    m: Stack,
    arm: ModuleId,
    plan: PlanView,
    at: Ref,
    end: Stack,
    later: PlanView,
    ret: Ref,
    decrement: int,
    leaf: bool,
)
    requires
        0 <= decrement <= u32::MAX,
        !leaf ==> decrement >= 16,
        keeps_saved(
            m,
            m.after(arm, plan, stack::prologue(plan, arm, at, decrement, leaf), at),
            end,
            decrement,
        ),
    ensures
        ({
            let left = end.after(
                arm,
                later,
                stack::epilogue(later, arm, ret, decrement, leaf),
                ret,
            );
            &&& left.top() == m.top()
            &&& !leaf ==> left.regs[fp()] == m.regs[fp()] && left.regs[link()] == m.regs[link()]
            &&& leaf ==> left.regs[fp()] == end.regs[fp()] && left.regs[link()]
                == end.regs[link()]
            &&& forall|q: MCReg|
                q != sp() && q != fp() && q != link() ==> #[trigger] left.regs[q] == end.regs[q]
            &&& left.words == end.words
        }),
{
    lemma_phys();
    functions_have_their_frame(m, arm, plan, at, decrement, leaf);
    assert(later.edits.skip(later.edits.len() as int) =~= Seq::empty());
    assert(end.after(arm, later, later, ret) == end);
    if decrement != 0 {
        let args = stack::add_sub_args(Reg::sp, Reg::sp, decrement);
        assert(args[0]->MCReg_1 == sp() && args[1]->MCReg_1 == sp());
        assert(args[2]->Int32_0 == decrement);
        if leaf {
            lemma_inserted(end, arm, later, later, ret, Arm::add_i64, args);
        } else {
            let pair = stack::pair_args(Usage::Def, decrement - 16);
            let restored = stack::inserted(later, arm, ret, Arm::ldp64, pair);
            lemma_inserted(end, arm, later, later, ret, Arm::ldp64, pair);
            assert(pair[0]->MCReg_1 == fp() && pair[1]->MCReg_1 == link());
            assert(pair[2]->MCRegOffset_2 == sp() && pair[2]->MCRegOffset_3 == decrement - 16);
            lemma_inserted(end, arm, later, restored, ret, Arm::add_i64, args);
        }
    }
}

} // verus!
