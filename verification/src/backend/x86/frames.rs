//! What functions find on the stack, and that their callers find their registers again.
use vstd::prelude::*;

use crate::backend::bytes;
use crate::backend::x86::abi::systemv;
use crate::backend::x86::abi::systemv::SystemV;
use crate::backend::x86::decode;
use crate::backend::x86::decode::Operation;
use crate::backend::x86::isa;
use crate::backend::x86::isa::{Reg, X86};
use crate::backend::x86::prologue_epilogue;
use crate::ir::dialect;
use crate::ir::dialect::Dialect;
use crate::ir::edit;
use crate::ir::edit::{EditView, PlanView};
use crate::ir::env::Environment;
use crate::ir::function::FunctionView;
use crate::ir::ids::{FunctionId, ModuleId, Ref};
use crate::ir::inst::{ArgumentView, MCReg, Usage};
use crate::ir::mc::inst as machine;
use crate::ir::mc::inst::Abi;
use crate::ir::mc::register::Register;
use crate::ir::modify::Insert;

verus! {

/// The registers, and the words in memory by their addresses.
pub struct Stack {
    pub regs: Map<MCReg, int>,
    pub words: Map<int, int>,
}

pub open spec fn sp() -> MCReg {
    systemv::phys(Reg::rsp)
}

pub open spec fn bp() -> MCReg {
    systemv::phys(Reg::rbp)
}

impl Stack {
    pub open spec fn top(self) -> int {
        self.regs[sp()]
    }

    pub open spec fn set(self, r: MCReg, v: int) -> Stack {
        Stack { regs: self.regs.insert(r, v), ..self }
    }

    /// What an instruction does. The stack grows down.
    pub open spec fn step(self, x86: ModuleId, function: FunctionId, args: Seq<ArgumentView>) -> Stack {
        let r = args[0]->MCReg_1;
        match X86::spec_of_id(function.function.0) {
            Some(op) => if function.module != x86 {
                self
            } else {
                match decode::operation_named(op) {
                    Some(Operation::Push) => Stack {
                        words: self.words.insert(self.top() - 8, self.regs[r]),
                        ..self.set(sp(), self.top() - 8)
                    },
                    Some(Operation::Pop) => self.set(sp(), self.top() + 8).set(
                        r,
                        self.words[self.top()],
                    ),
                    Some(Operation::Add) => self.set(
                        r,
                        self.regs[r] + bytes::signed_32(args[1]->Int32_0),
                    ),
                    Some(Operation::Sub) => self.set(
                        r,
                        self.regs[r] - bytes::signed_32(args[1]->Int32_0),
                    ),
                    Some(Operation::Mov) => self.set(r, self.regs[args[1]->MCReg_1]),
                    _ => self,
                }
            },
            None => self,
        }
    }

    /// What was put before an instruction does.
    pub open spec fn run(self, x86: ModuleId, edits: Seq<EditView>, r: Ref) -> Stack
        decreases edits.len(),
    {
        if edits.len() == 0 {
            self
        } else {
            let m = self.run(x86, edits.drop_last(), r);
            match edits.last() {
                EditView::Add { at, position, function, args, .. } => if at == r && position
                    == Insert::Before {
                    m.step(x86, function, args)
                } else {
                    m
                },
                _ => m,
            }
        }
    }

    /// What was added to a plan does.
    pub open spec fn after(self, x86: ModuleId, from: PlanView, to: PlanView, r: Ref) -> Stack {
        self.run(x86, to.edits.skip(from.edits.len() as int), r)
    }
}

/// The registers differ, and none is the stack pointer or the frame pointer.
pub open spec fn are_apart(regs: Seq<Reg>) -> bool {
    &&& forall|i: int, j: int| 0 <= i < j < regs.len() ==> regs[i] != regs[j]
    &&& forall|i: int|
        0 <= i < regs.len() ==> (#[trigger] regs[i]) != Reg::rsp && regs[i] != Reg::rbp
}

pub open spec fn is_one_of(q: MCReg, regs: Seq<Reg>) -> bool {
    exists|i: int| 0 <= i < regs.len() && q == systemv::phys(#[trigger] regs[i])
}

proof fn lemma_phys(a: Reg, b: Reg)
    ensures
        systemv::phys(a) == systemv::phys(b) <==> a == b,
{
    a.codes_are_unique();
    b.codes_are_unique();
    isa::register_code_round_trip(a, a.spec_code());
    isa::register_code_round_trip(b, b.spec_code());
}

proof fn lemma_with(
    m: Stack,
    x86: ModuleId,
    from: PlanView,
    to: PlanView,
    at: Ref,
    op: X86,
    e: EditView,
)
    requires
        from.edits.len() <= to.edits.len(),
        e matches EditView::Add { at: a, position, function, .. } && a == at && position
            == Insert::Before && function == dialect::spec_function(x86, op),
    ensures
        from.edits.len() <= to.with(e).edits.len(),
        m.after(x86, from, to.with(e), at) == m.after(x86, from, to, at).step(
            x86,
            dialect::spec_function(x86, op),
            e->Add_args,
        ),
{
    let n = from.edits.len() as int;
    assert(to.with(e).edits.skip(n).drop_last() =~= to.edits.skip(n));
}

/// Registers are put on the stack one below the other.
#[verifier::spinoff_prover]
#[verifier::rlimit(50)]
proof fn lemma_pushed(
    m: Stack,
    x86: ModuleId,
    from: PlanView,
    to: PlanView,
    at: Ref,
    regs: Seq<Reg>,
    n: int,
)
    requires
        from.edits.len() <= to.edits.len(),
        0 <= n <= regs.len(),
        are_apart(regs),
    ensures
        from.edits.len() <= prologue_epilogue::pushed(to, at, x86, regs, n).edits.len(),
        ({
            let s = m.after(x86, from, to, at);
            let e = m.after(x86, from, prologue_epilogue::pushed(to, at, x86, regs, n), at);
            &&& e.top() == s.top() - 8 * n
            &&& forall|i: int|
                0 <= i < n ==> e.words[s.top() - 8 * (i + 1)] == s.regs[systemv::phys(
                    #[trigger] regs[i],
                )]
            &&& forall|a: int| a >= s.top() ==> #[trigger] e.words[a] == s.words[a]
            &&& forall|q: MCReg| q != sp() ==> #[trigger] e.regs[q] == s.regs[q]
        }),
    decreases n,
{
    if n > 0 {
        lemma_pushed(m, x86, from, to, at, regs, n - 1);
        let before = prologue_epilogue::pushed(to, at, x86, regs, n - 1);
        let after = prologue_epilogue::pushed(to, at, x86, regs, n);
        let args = seq![ArgumentView::MCReg(Usage::Use, systemv::phys(regs[n - 1]))];
        lemma_with(m, x86, from, before, at, X86::push_r64, after.edits.last());
        assert(after.edits.last()->Add_args == args);
        assert(args[0]->MCReg_1 == systemv::phys(regs[n - 1]));
        lemma_phys(regs[n - 1], Reg::rsp);
        assert(X86::spec_of_id(X86::push_r64.spec_id()) == Some(X86::push_r64));
    }
}

/// Registers are taken from the stack, the last one first.
#[verifier::spinoff_prover]
#[verifier::rlimit(50)]
proof fn lemma_popped(
    m: Stack,
    x86: ModuleId,
    from: PlanView,
    to: PlanView,
    at: Ref,
    regs: Seq<Reg>,
    n: int,
)
    requires
        from.edits.len() <= to.edits.len(),
        0 <= n <= regs.len(),
        are_apart(regs),
    ensures
        from.edits.len() <= prologue_epilogue::popped(to, at, x86, regs, n).edits.len(),
        ({
            let s = m.after(x86, from, to, at);
            let e = m.after(x86, from, prologue_epilogue::popped(to, at, x86, regs, n), at);
            &&& e.top() == s.top() + 8 * n
            &&& e.words == s.words
            &&& forall|i: int|
                regs.len() - n <= i < regs.len() ==> e.regs[systemv::phys(#[trigger] regs[i])]
                    == s.words[s.top() + 8 * (regs.len() - 1 - i)]
            &&& forall|q: MCReg|
                q != sp() && !is_one_of(q, regs) ==> #[trigger] e.regs[q] == s.regs[q]
        }),
    decreases n,
{
    if n > 0 {
        lemma_popped(m, x86, from, to, at, regs, n - 1);
        let before = prologue_epilogue::popped(to, at, x86, regs, n - 1);
        let after = prologue_epilogue::popped(to, at, x86, regs, n);
        let r = regs[regs.len() - n];
        let args = seq![ArgumentView::MCReg(Usage::Def, systemv::phys(r))];
        lemma_with(m, x86, from, before, at, X86::pop_r64, after.edits.last());
        assert(after.edits.last()->Add_args == args);
        assert(args[0]->MCReg_1 == systemv::phys(r));
        lemma_phys(r, Reg::rsp);
        assert(X86::spec_of_id(X86::pop_r64.spec_id()) == Some(X86::pop_r64));
        assert(is_one_of(systemv::phys(r), regs));
        assert forall|i: int| regs.len() - n < i < regs.len() implies systemv::phys(
            #[trigger] regs[i],
        ) != systemv::phys(r) && systemv::phys(regs[i]) != sp() by {
            lemma_phys(regs[i], r);
            lemma_phys(regs[i], Reg::rsp);
        }
    }
}

/// What a function finds when it has begun: its frame below the frame pointer, below it the
/// saved registers, and above it what its caller left.
pub open spec fn is_entered(m: Stack, entered: Stack, size: int, regs: Seq<Reg>) -> bool {
    let saved = 8 * regs.len();
    &&& entered.top() + saved + size == (if size > 0 {
        m.top() - 8
    } else {
        m.top()
    })
    &&& size > 0 ==> entered.regs[bp()] == m.top() - 8
    &&& forall|a: int| a >= m.top() ==> #[trigger] entered.words[a] == m.words[a]
    &&& forall|q: MCReg| q != sp() && q != bp() ==> #[trigger] entered.regs[q] == m.regs[q]
}

/// A function may change its frame, and what lies below the saved registers.
pub open spec fn keeps_saved(entered: Stack, end: Stack, size: int, regs: Seq<Reg>) -> bool {
    let frame = entered.top() + 8 * regs.len();
    &&& end.top() == entered.top()
    &&& forall|a: int|
        a >= entered.top() && !(frame <= a < frame + size) ==> #[trigger] end.words[a]
            == entered.words[a]
}

/// A function that has begun has room for its frame between the frame pointer and the
/// registers that it saved.
#[verifier::spinoff_prover]
#[verifier::rlimit(50)]
pub proof fn functions_have_their_frame(
    m: Stack,
    x86: ModuleId,
    plan: PlanView,
    at: Ref,
    size: int,
    regs: Seq<Reg>,
)
    requires
        0 <= size < 0x8000_0000,
        are_apart(regs),
    ensures
        is_entered(
            m,
            m.after(x86, plan, prologue_epilogue::prologue(plan, at, x86, size, regs), at),
            size,
            regs,
        ),
{
    lemma_entered(m, x86, plan, at, size, regs);
}

#[verifier::spinoff_prover]
#[verifier::rlimit(80)]
proof fn lemma_entered(
    m: Stack,
    x86: ModuleId,
    plan: PlanView,
    at: Ref,
    size: int,
    regs: Seq<Reg>,
)
    requires
        0 <= size < 0x8000_0000,
        are_apart(regs),
    ensures
        ({
            let e = m.after(x86, plan, prologue_epilogue::prologue(plan, at, x86, size, regs), at);
            &&& is_entered(m, e, size, regs)
            &&& size > 0 ==> e.words[m.top() - 8] == m.regs[bp()]
            &&& forall|i: int|
                0 <= i < regs.len() ==> e.words[e.top() + 8 * (regs.len() - 1 - i)]
                    == m.regs[systemv::phys(#[trigger] regs[i])]
        }),
{
    let n = regs.len() as int;
    assert(plan.edits.skip(plan.edits.len() as int) =~= Seq::empty());
    assert(m.after(x86, plan, plan, at) == m);
    assert forall|i: int| 0 <= i < n implies systemv::phys(#[trigger] regs[i]) != bp()
        && systemv::phys(regs[i]) != sp() by {
        lemma_phys(regs[i], Reg::rbp);
        lemma_phys(regs[i], Reg::rsp);
    }
    lemma_phys(Reg::rbp, Reg::rsp);
    if size > 0 {
        let a = prologue_epilogue::added_r(plan, at, x86, X86::push_r64, Usage::Use, Reg::rbp);
        let b = systemv::added_rr(
            a,
            at,
            Insert::Before,
            x86,
            X86::mov_rr64,
            Usage::Def,
            bp(),
            sp(),
        );
        let c = systemv::added_ri(b, at, Insert::Before, x86, X86::sub_ri64, sp(), size as u32);
        lemma_with(m, x86, plan, plan, at, X86::push_r64, a.edits.last());
        lemma_with(m, x86, plan, a, at, X86::mov_rr64, b.edits.last());
        lemma_with(m, x86, plan, b, at, X86::sub_ri64, c.edits.last());
        assert(a.edits.last()->Add_args[0]->MCReg_1 == bp());
        assert(b.edits.last()->Add_args[0]->MCReg_1 == bp());
        assert(b.edits.last()->Add_args[1]->MCReg_1 == sp());
        assert(c.edits.last()->Add_args[0]->MCReg_1 == sp());
        assert(c.edits.last()->Add_args[1]->Int32_0 == size as u32);
        assert(bytes::signed_32(size as u32) == size);
        assert(X86::spec_of_id(X86::push_r64.spec_id()) == Some(X86::push_r64));
        assert(X86::spec_of_id(X86::mov_rr64.spec_id()) == Some(X86::mov_rr64));
        assert(X86::spec_of_id(X86::sub_ri64.spec_id()) == Some(X86::sub_ri64));
        let s = m.after(x86, plan, c, at);
        assert(s.top() == m.top() - 8 - size);
        assert(s.words[m.top() - 8] == m.regs[bp()]);
        lemma_pushed(m, x86, plan, c, at, regs, n);
        let e = m.after(x86, plan, prologue_epilogue::pushed(c, at, x86, regs, n), at);
        assert(e.regs[bp()] == s.regs[bp()]);
        assert forall|i: int| 0 <= i < n implies e.words[e.top() + 8 * (n - 1 - i)]
            == m.regs[systemv::phys(#[trigger] regs[i])] by {
            assert(e.top() + 8 * (n - 1 - i) == s.top() - 8 * (i + 1));
        }
    } else {
        lemma_pushed(m, x86, plan, plan, at, regs, n);
        let e = m.after(x86, plan, prologue_epilogue::pushed(plan, at, x86, regs, n), at);
        assert forall|i: int| 0 <= i < n implies e.words[e.top() + 8 * (n - 1 - i)]
            == m.regs[systemv::phys(#[trigger] regs[i])] by {
            assert(e.top() + 8 * (n - 1 - i) == m.top() - 8 * (i + 1));
        }
    }
}

/// When a function returns, the stack is as high as it was when it was called. The registers
/// that it saved, and the frame pointer, hold what they held then. What the function left in
/// the others stays.
#[verifier::spinoff_prover]
#[verifier::rlimit(80)]
pub proof fn callers_find_their_registers(
    m: Stack,
    x86: ModuleId,
    plan: PlanView,
    at: Ref,
    end: Stack,
    later: PlanView,
    ret: Ref,
    size: int,
    regs: Seq<Reg>,
)
    requires
        0 <= size < 0x8000_0000,
        are_apart(regs),
        keeps_saved(
            m.after(x86, plan, prologue_epilogue::prologue(plan, at, x86, size, regs), at),
            end,
            size,
            regs,
        ),
    ensures
        ({
            let left = end.after(
                x86,
                later,
                prologue_epilogue::epilogue(later, ret, x86, size, regs),
                ret,
            );
            &&& left.top() == m.top()
            &&& forall|i: int|
                0 <= i < regs.len() ==> left.regs[systemv::phys(#[trigger] regs[i])]
                    == m.regs[systemv::phys(regs[i])]
            &&& left.regs[bp()] == (if size > 0 {
                m.regs[bp()]
            } else {
                end.regs[bp()]
            })
            &&& forall|q: MCReg|
                q != sp() && q != bp() && !is_one_of(q, regs) ==> #[trigger] left.regs[q]
                    == end.regs[q]
            &&& left.words == end.words
        }),
{
    let n = regs.len() as int;
    let e = m.after(x86, plan, prologue_epilogue::prologue(plan, at, x86, size, regs), at);
    lemma_entered(m, x86, plan, at, size, regs);
    assert(later.edits.skip(later.edits.len() as int) =~= Seq::empty());
    assert(end.after(x86, later, later, ret) == end);
    lemma_popped(end, x86, later, later, ret, regs, n);
    assert forall|i: int| 0 <= i < n implies systemv::phys(#[trigger] regs[i]) != bp()
        && systemv::phys(regs[i]) != sp() by {
        lemma_phys(regs[i], Reg::rbp);
        lemma_phys(regs[i], Reg::rsp);
    }
    lemma_phys(Reg::rbp, Reg::rsp);
    assert(!is_one_of(bp(), regs));
    let a = prologue_epilogue::popped(later, ret, x86, regs, n);
    let s = end.after(x86, later, a, ret);
    assert forall|i: int| 0 <= i < n implies s.regs[systemv::phys(#[trigger] regs[i])]
        == m.regs[systemv::phys(regs[i])] by {
        let slot = e.top() + 8 * (n - 1 - i);
        assert(end.words[slot] == e.words[slot]);
    }
    if size != 0 {
        let b = systemv::added_ri(a, ret, Insert::Before, x86, X86::add_ri64, sp(), size as u32);
        let c = prologue_epilogue::added_r(b, ret, x86, X86::pop_r64, Usage::Def, Reg::rbp);
        lemma_with(end, x86, later, a, ret, X86::add_ri64, b.edits.last());
        lemma_with(end, x86, later, b, ret, X86::pop_r64, c.edits.last());
        assert(b.edits.last()->Add_args[0]->MCReg_1 == sp());
        assert(b.edits.last()->Add_args[1]->Int32_0 == size as u32);
        assert(c.edits.last()->Add_args[0]->MCReg_1 == bp());
        assert(bytes::signed_32(size as u32) == size);
        assert(X86::spec_of_id(X86::add_ri64.spec_id()) == Some(X86::add_ri64));
        assert(X86::spec_of_id(X86::pop_r64.spec_id()) == Some(X86::pop_r64));
        assert(end.words[m.top() - 8] == e.words[m.top() - 8]);
    }
}

proof fn lemma_saved(f: FunctionView, env: &Environment, abi: SystemV, n: int)
    requires
        0 <= n <= 18,
    ensures
        are_apart(prologue_epilogue::saved(f, env, abi, n)),
        forall|r: Reg|
            prologue_epilogue::saved(f, env, abi, n).contains(r) ==> exists|k: int|
                0 <= k < n && #[trigger] Reg::spec_unique_bits()[k] == r,
        forall|k: int|
            0 <= k < n && prologue_epilogue::is_saved(
                f,
                env,
                abi,
                (#[trigger] Reg::spec_unique_bits()[k]).spec_index(),
            ) <==> 0 <= k < n && prologue_epilogue::saved(f, env, abi, n).contains(
                Reg::spec_unique_bits()[k],
            ),
    decreases n,
{
    if n > 0 {
        lemma_saved(f, env, abi, n - 1);
        let before = prologue_epilogue::saved(f, env, abi, n - 1);
        let after = prologue_epilogue::saved(f, env, abi, n);
        let r = Reg::spec_unique_bits()[n - 1];
        assert forall|k: int| 0 <= k < n - 1 implies #[trigger] Reg::spec_unique_bits()[k] != r by {
            isa::unique_bits_are_unique(k, n - 1, r);
        }
        if before.contains(r) {
            let k = choose|k: int| 0 <= k < n - 1 && #[trigger] Reg::spec_unique_bits()[k] == r;
            assert(false);
        }
        assert forall|q: Reg| #![auto] after.contains(q) <==> before.contains(q) || (q == r
            && after.len() > before.len()) by {
            if after.len() > before.len() {
                assert(after =~= before.push(r));
                assert(after.last() == r);
                if before.contains(q) {
                    let i = choose|i: int| 0 <= i < before.len() && before[i] == q;
                    assert(after[i] == q);
                }
            }
        }
        assert forall|i: int| 0 <= i < before.len() implies before.contains(#[trigger] before[i]) by {}
    }
}

/// A function saves exactly the registers that it writes and that its caller wants kept, each
/// once. The stack pointer and the frame pointer are not among them.
pub proof fn written_registers_are_saved(f: FunctionView, env: &Environment, abi: SystemV, r: Reg)
    requires
        r != Reg::none,
    ensures
        are_apart(prologue_epilogue::all_saved(f, env, abi)),
        prologue_epilogue::all_saved(f, env, abi).contains(r.spec_to_64_bits())
            <==> machine::used_before::<Reg>(
            edit::unchanged(f),
            env,
            f.insts.len() as int,
            r.spec_index(),
        ) && abi.keeps(r.spec_index()) && r.spec_to_64_bits() != Reg::rsp && r.spec_to_64_bits()
            != Reg::rbp,
{
    lemma_saved(f, env, abi, 18);
    let k = r.spec_index() as int;
    assert(Reg::spec_unique_bits()[k] == r.spec_to_64_bits());
    isa::index_is_overlap(r, Reg::rsp);
    isa::index_is_overlap(r, Reg::rbp);
}

} // verus!
