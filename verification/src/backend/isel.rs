//! What is shared while instructions of a machine are selected.
use vstd::prelude::*;

use crate::backend::size::Size;
use crate::backend::state::BackendState;
use crate::ir::dialect;
use crate::ir::dialect::Mc;
use crate::ir::edit::{EditView, Plan, PlanView};
use crate::ir::ids::{BlockId, FunctionId, ModuleId, Ref, TypeId};
use crate::ir::inst;
use crate::ir::inst::{decode_args, Argument, ArgumentView, MCReg, Usage};
use crate::ir::mc::inst as machine;
use crate::ir::mc::inst::{parallel_copy, parallel_copy_args, Context};
use crate::ir::modify::Insert;
use crate::ir::slots;
use crate::ir::types;
use crate::ir::types::{Layout, Primitive};

verus! {

#[derive(Clone, Copy, Debug, PartialEq, Eq, Structural)]
pub enum ArithClass {
    Signed,
    Unsigned,
    Float,
}

/// How numbers of the kind are calculated with. Pointers are not.
pub open spec fn class_of(p: Primitive) -> Option<(ArithClass, Size)> {
    match p {
        Primitive::I1 | Primitive::I8 => Some((ArithClass::Signed, Size::S8)),
        Primitive::I16 => Some((ArithClass::Signed, Size::S16)),
        Primitive::I32 => Some((ArithClass::Signed, Size::S32)),
        Primitive::I64 => Some((ArithClass::Signed, Size::S64)),
        Primitive::I128 => Some((ArithClass::Signed, Size::S128)),
        Primitive::U8 => Some((ArithClass::Unsigned, Size::S8)),
        Primitive::U16 => Some((ArithClass::Unsigned, Size::S16)),
        Primitive::U32 => Some((ArithClass::Unsigned, Size::S32)),
        Primitive::U64 => Some((ArithClass::Unsigned, Size::S64)),
        Primitive::U128 => Some((ArithClass::Unsigned, Size::S128)),
        Primitive::F32 => Some((ArithClass::Float, Size::S32)),
        Primitive::F64 => Some((ArithClass::Float, Size::S64)),
        Primitive::Ptr => None,
    }
}

/// The primitive value that a value is.
pub open spec fn primitive_in(c: Context, r: Ref) -> Option<Primitive> {
    types::primitive_of(c.types@, c.type_of(r))
}

/// How the value is calculated with.
pub open spec fn class_in(c: Context, r: Ref) -> Option<(ArithClass, Size)> {
    match primitive_in(c, r) {
        Some(p) => class_of(p),
        None => None,
    }
}

pub fn primitive_of_ref(c: &Context, r: Ref) -> (p: Primitive)
    requires
        c.knows(r),
        primitive_in(*c, r) is Some,
    ensures
        Some(p) == primitive_in(*c, r),
{
    c.types.primitive(c.get_type(r)).unwrap()
}

/// How a value is calculated with, and its size.
pub fn arith_class(c: &Context, r: Ref) -> (class: (ArithClass, Size))
    requires
        c.knows(r),
        class_in(*c, r) is Some,
    ensures
        Some(class) == class_in(*c, r),
{
    match primitive_of_ref(c, r) {
        Primitive::I1 | Primitive::I8 => (ArithClass::Signed, Size::S8),
        Primitive::I16 => (ArithClass::Signed, Size::S16),
        Primitive::I32 => (ArithClass::Signed, Size::S32),
        Primitive::I64 => (ArithClass::Signed, Size::S64),
        Primitive::I128 => (ArithClass::Signed, Size::S128),
        Primitive::U8 => (ArithClass::Unsigned, Size::S8),
        Primitive::U16 => (ArithClass::Unsigned, Size::S16),
        Primitive::U32 => (ArithClass::Unsigned, Size::S32),
        Primitive::U64 => (ArithClass::Unsigned, Size::S64),
        Primitive::U128 => (ArithClass::Unsigned, Size::S128),
        Primitive::F32 => (ArithClass::Float, Size::S32),
        Primitive::F64 => (ArithClass::Float, Size::S64),
        Primitive::Ptr => (ArithClass::Unsigned, Size::S64),
    }
}

pub fn int_size_of_ref(c: &Context, r: Ref) -> (size: Size)
    requires
        c.knows(r),
        class_in(*c, r) is Some,
    ensures
        Some(size) == match class_in(*c, r) {
            Some((_, size)) => Some(size),
            None => None,
        },
{
    arith_class(c, r).1
}

/// The only register of a value.
pub open spec fn reg(c: Context, r: Ref) -> MCReg {
    c.slots@.reg(r, 0)
}

pub open spec fn has_reg(c: Context, r: Ref) -> bool {
    r.spec_is_ref() && c.knows(r) && c.slots@.holds(r, 1)
}

/// The size of a number.
pub open spec fn size_in(c: Context, r: Ref) -> Size {
    match class_in(c, r) {
        Some((_, size)) => size,
        None => Size::S64,
    }
}

pub open spec fn arith_class_in(c: Context, r: Ref) -> ArithClass {
    match class_in(c, r) {
        Some((class, _)) => class,
        None => ArithClass::Unsigned,
    }
}

/// The value is a whole number that one register holds.
pub open spec fn is_number(c: Context, r: Ref) -> bool {
    &&& has_reg(c, r)
    &&& class_in(c, r) is Some
    &&& !(arith_class_in(c, r) is Float)
    &&& !(size_in(c, r) is S128)
}

/// All values that the arguments name.
pub open spec fn named_values(args: Seq<ArgumentView>) -> Seq<Ref>
    decreases args.len(),
{
    if args.len() == 0 {
        Seq::empty()
    } else {
        let before = named_values(args.drop_last());
        match args.last() {
            ArgumentView::Ref(r) => before.push(r),
            ArgumentView::BlockTarget(_, refs) => before + refs,
            _ => before,
        }
    }
}

/// How often a value occurs.
pub open spec fn occurrences(refs: Seq<Ref>, r: Ref) -> int
    decreases refs.len(),
{
    if refs.len() == 0 {
        0
    } else {
        occurrences(refs.drop_last(), r) + if refs.last() == r {
            1int
        } else {
            0
        }
    }
}

/// How often the first `n` instructions use a value.
pub open spec fn uses_before(c: Context, r: Ref, n: int) -> int
    decreases n,
{
    if n <= 0 {
        0
    } else {
        uses_before(c, r, n - 1) + occurrences(named_values(c.args(Ref((n - 1) as u32))), r)
    }
}

/// How often a value is used.
pub open spec fn uses(c: Context, r: Ref) -> int {
    uses_before(c, r, c.ir@.insts.len() as int)
}

/// The instructions are known and their uses can be counted.
pub open spec fn countable(c: Context) -> bool {
    &&& c.ir@.insts.len() < 0xffff_fffd
    &&& forall|r: Ref| r.0 < c.ir@.insts.len() ==> #[trigger] c.has_call(r)
    &&& forall|r: Ref| r.0 < c.ir@.insts.len() ==> #[trigger] uses(c, r) <= u32::MAX
}

proof fn lemma_occurrences(refs: Seq<Ref>, r: Ref, n: int)
    requires
        0 <= n <= refs.len(),
    ensures
        0 <= occurrences(refs.take(n), r) <= occurrences(refs, r),
    decreases refs.len(),
{
    if n == refs.len() {
        assert(refs.take(n) =~= refs);
        if n > 0 {
            lemma_occurrences(refs.drop_last(), r, n - 1);
        }
    } else {
        lemma_occurrences(refs.drop_last(), r, n);
        assert(refs.drop_last().take(n) =~= refs.take(n));
    }
}

proof fn lemma_uses_before(c: Context, r: Ref, n: int, m: int)
    requires
        0 <= n <= m,
    ensures
        0 <= uses_before(c, r, n) <= uses_before(c, r, m),
    decreases m,
{
    if m > 0 {
        let refs = named_values(c.args(Ref((m - 1) as u32)));
        lemma_occurrences(refs, r, 0);
        if n < m {
            lemma_uses_before(c, r, n, m - 1);
        } else {
            lemma_uses_before(c, r, n - 1, m - 1);
        }
    }
}

/// The arguments of an instruction of the function.
pub fn args_of(c: &Context, r: Ref) -> (args: Vec<Argument>)
    requires
        c.has_call(r),
    ensures
        inst::views(args@) == c.args(r),
{
    let called = &c.ir.insts[r.idx()];
    let def = c.env.get(called.function);
    decode_args(&def.params, def.varargs, called.args, &c.ir.extra, &c.ir.blocks)
}

fn all_named_values(args: &Vec<Argument>) -> (refs: Vec<Ref>)
    ensures
        refs@ == named_values(inst::views(args@)),
{
    let ghost views = inst::views(args@);
    let mut refs: Vec<Ref> = Vec::new();
    let mut i: usize = 0;
    assert(views.take(0) =~= Seq::empty());
    while i < args.len()
        invariant
            i <= args@.len(),
            views == inst::views(args@),
            refs@ == named_values(views.take(i as int)),
        decreases args.len() - i,
    {
        let ghost before = refs@;
        assert(views.take(i + 1).drop_last() =~= views.take(i as int));
        assert(views.take(i + 1).last() == args@[i as int]@);
        match &args[i] {
            Argument::Ref(r) => {
                refs.push(*r);
            },
            Argument::BlockTarget(_, values) => {
                let mut j: usize = 0;
                assert(values@.take(0) =~= Seq::empty());
                while j < values.len()
                    invariant
                        j <= values@.len(),
                        refs@ =~= before + values@.take(j as int),
                    decreases values.len() - j,
                {
                    refs.push(values[j]);
                    j += 1;
                }
                assert(values@.take(j as int) =~= values@);
            },
            _ => {},
        }
        i += 1;
    }
    assert(views.take(i as int) =~= views);
    refs
}

/// Counts how often each value is used.
pub fn compute_uses(c: &Context) -> (counts: Vec<u32>)
    requires
        countable(*c),
    ensures
        counts@.len() == c.ir@.insts.len(),
        forall|i: int|
            0 <= i < counts@.len() ==> #[trigger] counts@[i] == uses(*c, Ref(i as u32)),
{
    let n: u32 = c.ir.insts.len() as u32;
    let mut counts: Vec<u32> = Vec::new();
    let mut i: u32 = 0;
    while i < n
        invariant
            i <= n,
            counts@.len() == i,
            forall|k: int| 0 <= k < i ==> #[trigger] counts@[k] == 0,
        decreases n - i,
    {
        counts.push(0);
        i += 1;
    }
    i = 0;
    while i < n
        invariant
            i <= n,
            n == c.ir@.insts.len(),
            countable(*c),
            counts@.len() == n,
            forall|k: int|
                0 <= k < n ==> #[trigger] counts@[k] == uses_before(
                    *c,
                    Ref(k as u32),
                    i as int,
                ),
        decreases n - i,
    {
        let at: Ref = Ref(i);
        assert(c.has_call(at));
        let refs: Vec<Ref> = all_named_values(&args_of(c, at));
        assert(refs@ == named_values(c.args(Ref(((i + 1) - 1) as u32))));
        let mut j: usize = 0;
        proof {
            assert(refs@.take(0) =~= Seq::empty());
        }
        while j < refs.len()
            invariant
                j <= refs@.len(),
                i < n,
                n == c.ir@.insts.len(),
                countable(*c),
                counts@.len() == n,
                refs@ == named_values(c.args(Ref(((i + 1) - 1) as u32))),
                forall|k: int|
                    0 <= k < n ==> #[trigger] counts@[k] == uses_before(
                        *c,
                        Ref(k as u32),
                        i as int,
                    ) + occurrences(refs@.take(j as int), Ref(k as u32)),
            decreases refs.len() - j,
        {
            let r: Ref = refs[j];
            let ghost before = counts@;
            proof {
                assert(refs@.take(j + 1).drop_last() =~= refs@.take(j as int));
                assert(refs@.take(j + 1).last() == r);
            }
            if r.0 < n {
                proof {
                    lemma_occurrences(refs@, r, j + 1);
                    lemma_uses_before(*c, r, i + 1, n as int);
                    assert(uses(*c, r) <= u32::MAX);
                    assert(before[r.0 as int] == uses_before(*c, Ref(r.0 as int as u32), i as int)
                        + occurrences(refs@.take(j as int), Ref(r.0 as int as u32)));
                }
                counts.set(r.idx(), counts[r.idx()] + 1);
            }
            j += 1;
        }
        assert(refs@.take(j as int) =~= refs@);
        i += 1;
    }
    counts
}

/// The block that follows each of the blocks when they are laid out in reverse postorder.
pub open spec fn nexts(order: Seq<BlockId>, n: int, count: nat) -> Seq<Option<BlockId>>
    decreases n,
{
    if n <= 1 {
        Seq::new(count, |i: int| None)
    } else {
        nexts(order, n - 1, count).update(order[n - 1].0 as int, Some(order[n - 2]))
    }
}

proof fn lemma_nexts_len(order: Seq<BlockId>, n: int, count: nat)
    requires
        n <= order.len(),
        forall|i: int| 0 <= i < order.len() ==> (#[trigger] order[i]).0 < count,
    ensures
        nexts(order, n, count).len() == count,
    decreases n,
{
    if n > 1 {
        assert(order[n - 1].0 < count);
        lemma_nexts_len(order, n - 1, count);
    }
}

/// In an order without repetitions each block but the last is followed by the one that it was
/// left behind.
pub proof fn blocks_follow_each_other(order: Seq<BlockId>, n: int, count: nat, k: int)
    requires
        order.no_duplicates(),
        0 < k < n <= order.len(),
        forall|i: int| 0 <= i < order.len() ==> (#[trigger] order[i]).0 < count,
    ensures
        nexts(order, n, count)[order[k].0 as int] == Some(order[k - 1]),
    decreases n,
{
    lemma_nexts_len(order, n - 1, count);
    assert(order[k].0 < count && order[n - 1].0 < count);
    if k < n - 1 {
        blocks_follow_each_other(order, n - 1, count, k);
        assert(order[k] != order[n - 1]);
    }
}

/// What is known and decided while instructions are selected.
#[derive(Debug)]
pub struct IselCtx {
    /// The module of the functions that are compiled.
    pub main_module: ModuleId,
    pub state: BackendState,
    pub plan: Plan,
    pub use_counts: Vec<u32>,
    /// The instructions that are not needed any more.
    pub gone: Vec<bool>,
    pub next_blocks: Vec<Option<BlockId>>,
}

/// The mathematical content of an [`IselCtx`].
#[verifier::ext_equal]
pub struct IselView {
    pub main_module: ModuleId,
    pub stack_size: u32,
    pub stack_slots: Seq<Layout>,
    pub plan: PlanView,
    pub counts: Seq<u32>,
    pub gone: Seq<bool>,
    pub next_blocks: Seq<Option<BlockId>>,
}

impl View for IselCtx {
    type V = IselView;

    open spec fn view(&self) -> IselView {
        IselView {
            main_module: self.main_module,
            stack_size: self.state.stack_size,
            stack_slots: self.state.stack_slots@,
            plan: self.plan@,
            counts: self.use_counts@,
            gone: self.gone@,
            next_blocks: self.next_blocks@,
        }
    }
}

impl IselView {
    /// The selection is about this function.
    pub open spec fn fits(self, c: Context) -> bool {
        &&& countable(c)
        &&& self.counts.len() == c.ir@.insts.len()
        &&& self.gone.len() == c.ir@.insts.len()
        &&& self.next_blocks.len() == c.ir@.blocks.len()
    }

    pub open spec fn planned(self, plan: PlanView) -> IselView {
        IselView { plan, ..self }
    }

    /// An instruction is put before another.
    pub open spec fn put(self, at: Ref, function: FunctionId, args: Seq<ArgumentView>) -> IselView {
        self.planned(self.plan.before(at, function, args, TypeId::unit()))
    }

    /// An instruction is put behind another.
    pub open spec fn put_after(
        self,
        at: Ref,
        function: FunctionId,
        args: Seq<ArgumentView>,
    ) -> IselView {
        self.planned(
            self.plan.with(
                EditView::Add { at, position: Insert::After, function, args, ty: TypeId::unit() },
            ),
        )
    }

    pub open spec fn replaced(
        self,
        at: Ref,
        function: FunctionId,
        args: Seq<ArgumentView>,
    ) -> IselView {
        self.planned(
            self.plan.with(EditView::Replace { at, function, args, ty: TypeId::unit() }),
        )
    }

    /// The instruction has no result any more.
    pub open spec fn renamed(self, at: Ref) -> IselView {
        self.planned(self.plan.with(EditView::ReplaceWith { at, new: Ref::unit() }))
    }

    pub open spec fn deleted(self, at: Ref) -> IselView {
        self.planned(self.plan.with(EditView::Delete { at }))
    }

    /// Registers are copied at once before an instruction.
    pub open spec fn copied(self, c: Context, at: Ref, to: MCReg, from: MCReg) -> IselView {
        self.put(
            at,
            dialect::spec_function(c.mc, Mc::Copy),
            machine::read_regs(seq![to, from]),
        )
    }

    /// A use of a value is gone. A value that is not used any more is not needed where nothing
    /// else happens when it is calculated. No chain of such values is longer than `depth`.
    pub open spec fn use_removed(self, c: Context, r: Ref, depth: nat) -> IselView
        decreases depth, 0nat,
    {
        if depth == 0 || r.0 >= self.counts.len() || self.counts[r.0 as int] == 0 {
            self
        } else {
            let count = (self.counts[r.0 as int] - 1) as u32;
            let s = IselView { counts: self.counts.update(r.0 as int, count), ..self };
            if count == 0 && c.env.def(c.ir@.insts[r.0 as int].function).pure_ {
                let t = s.uses_removed(
                    c,
                    machine::passed(c.args(r), false),
                    (depth - 1) as nat,
                );
                IselView { gone: t.gone.update(r.0 as int, true), ..t.renamed(r) }
            } else {
                s
            }
        }
    }

    pub open spec fn uses_removed(self, c: Context, refs: Seq<Ref>, depth: nat) -> IselView
        decreases depth, refs.len() + 1,
    {
        if refs.len() == 0 {
            self
        } else {
            self.uses_removed(c, refs.drop_last(), depth).use_removed(c, refs.last(), depth)
        }
    }

    /// A use of a value of the function is gone.
    pub open spec fn without_use(self, c: Context, r: Ref) -> IselView {
        self.use_removed(c, r, c.ir@.insts.len())
    }

    pub open spec fn use_count(self, r: Ref) -> u32 {
        if r.spec_is_ref() {
            self.counts[r.0 as int]
        } else {
            0
        }
    }
}

/// Values come from earlier instructions.
pub open spec fn values_are_earlier(c: Context) -> bool {
    forall|r: Ref, i: int|
        r.0 < c.ir@.insts.len() && 0 <= i < machine::passed(c.args(r), false).len() ==> {
            let value = #[trigger] machine::passed(c.args(r), false)[i];
            value.0 < r.0 || value.0 >= c.ir@.insts.len()
        }
}

proof fn lemma_same_reach(s: IselView, c: Context, r: Ref, d: nat, e: nat)
    requires
        values_are_earlier(c),
        s.counts.len() == c.ir@.insts.len(),
        r.0 < d || r.0 >= s.counts.len(),
        r.0 < e || r.0 >= s.counts.len(),
    ensures
        s.use_removed(c, r, d) == s.use_removed(c, r, e),
        s.use_removed(c, r, d).counts.len() == s.counts.len(),
    decreases d, 0nat,
{
    if r.0 < s.counts.len() && s.counts[r.0 as int] != 0 {
        let count = (s.counts[r.0 as int] - 1) as u32;
        let t = IselView { counts: s.counts.update(r.0 as int, count), ..s };
        let refs = machine::passed(c.args(r), false);
        assert forall|i: int| 0 <= i < refs.len() implies (#[trigger] refs[i]).0 < d - 1
            || refs[i].0 >= t.counts.len() by {}
        assert forall|i: int| 0 <= i < refs.len() implies (#[trigger] refs[i]).0 < e - 1
            || refs[i].0 >= t.counts.len() by {}
        lemma_same_reach_all(t, c, refs, (d - 1) as nat, (e - 1) as nat);
    }
}

proof fn lemma_same_reach_all(s: IselView, c: Context, refs: Seq<Ref>, d: nat, e: nat)
    requires
        values_are_earlier(c),
        s.counts.len() == c.ir@.insts.len(),
        forall|i: int|
            0 <= i < refs.len() ==> (#[trigger] refs[i]).0 < d || refs[i].0 >= s.counts.len(),
        forall|i: int|
            0 <= i < refs.len() ==> (#[trigger] refs[i]).0 < e || refs[i].0 >= s.counts.len(),
    ensures
        s.uses_removed(c, refs, d) == s.uses_removed(c, refs, e),
        s.uses_removed(c, refs, d).counts.len() == s.counts.len(),
    decreases d, refs.len() + 1,
{
    if refs.len() > 0 {
        let rest = refs.drop_last();
        assert(forall|i: int| 0 <= i < rest.len() ==> rest[i] == refs[i]);
        lemma_same_reach_all(s, c, rest, d, e);
        let last = refs[refs.len() - 1];
        lemma_same_reach(s.uses_removed(c, rest, d), c, last, d, e);
    }
}

/// Where values come from earlier instructions, removing a use reaches everything that is not
/// needed any more: no limit of the depth beyond the number of instructions changes anything.
pub proof fn removing_uses_reaches_all(s: IselView, c: Context, r: Ref, depth: nat)
    requires
        values_are_earlier(c),
        s.counts.len() == c.ir@.insts.len(),
        depth >= c.ir@.insts.len(),
    ensures
        s.use_removed(c, r, depth) == s.without_use(c, r),
{
    lemma_same_reach(s, c, r, depth, c.ir@.insts.len());
}

impl IselCtx {
    /// Begins the selection for a function whose blocks are left in the given order.
    pub fn new(
        c: &Context,
        main_module: ModuleId,
        state: BackendState,
        plan: Plan,
        order: &Vec<BlockId>,
    ) -> (ctx: IselCtx)
        requires
            countable(*c),
            forall|i: int| 0 <= i < order@.len() ==> (#[trigger] order@[i]).0 < c.ir@.blocks.len(),
        ensures
            ctx@.fits(*c),
            ctx@.main_module == main_module,
            ctx@.stack_size == state.stack_size,
            ctx@.stack_slots == state.stack_slots@,
            ctx@.plan == plan@,
            forall|i: int|
                0 <= i < ctx@.counts.len() ==> #[trigger] ctx@.counts[i] == uses(*c, Ref(i as u32)),
            forall|i: int| 0 <= i < ctx@.gone.len() ==> !(#[trigger] ctx@.gone[i]),
            ctx@.next_blocks == nexts(order@, order@.len() as int, c.ir@.blocks.len()),
    {
        let use_counts: Vec<u32> = compute_uses(c);
        let mut gone: Vec<bool> = Vec::new();
        let n: usize = c.ir.insts.len();
        let mut i: usize = 0;
        while i < n
            invariant
                i <= n,
                gone@.len() == i,
                forall|k: int| 0 <= k < i ==> !(#[trigger] gone@[k]),
            decreases n - i,
        {
            gone.push(false);
            i += 1;
        }
        let mut next_blocks: Vec<Option<BlockId>> = Vec::new();
        let count: usize = c.ir.blocks.len();
        i = 0;
        while i < count
            invariant
                i <= count,
                next_blocks@ =~= Seq::new(i as nat, |k: int| None),
            decreases count - i,
        {
            next_blocks.push(None);
            i += 1;
        }
        i = 1;
        while i < order.len()
            invariant
                1 <= i,
                i <= order@.len() || i == 1,
                next_blocks@.len() == count,
                count == c.ir@.blocks.len(),
                forall|i: int|
                    0 <= i < order@.len() ==> (#[trigger] order@[i]).0 < c.ir@.blocks.len(),
                next_blocks@ == nexts(order@, i as int, count as nat),
            decreases order.len() - i,
        {
            // after comes first since we actually care about rpo
            let after: BlockId = order[i - 1];
            let block: BlockId = order[i];
            assert(order@[i as int].0 < c.ir@.blocks.len());
            next_blocks.set(block.idx(), Some(after));
            i += 1;
        }
        let ctx = IselCtx { main_module, state, plan, use_counts, gone, next_blocks };
        assert(order@.len() <= 1 ==> nexts(order@, order@.len() as int, count as nat) == nexts(
            order@,
            1,
            count as nat,
        ));
        ctx
    }

    /// Removes a use of a value, and with the last one the value itself.
    pub fn remove_use(&mut self, c: &Context, r: Ref)
        requires
            old(self)@.fits(*c),
        ensures
            final(self)@ == old(self)@.without_use(*c, r),
            final(self)@.fits(*c),
    {
        let depth: usize = c.ir.insts.len();
        self.remove_use_within(c, r, depth);
    }

    fn remove_use_within(&mut self, c: &Context, r: Ref, depth: usize)
        requires
            old(self)@.fits(*c),
        ensures
            final(self)@ == old(self)@.use_removed(*c, r, depth as nat),
            final(self)@.fits(*c),
        decreases depth,
    {
        if depth == 0 || r.idx() >= self.use_counts.len() || self.use_counts[r.idx()] == 0 {
            return;
        }
        let ghost before = self@;
        let count: u32 = self.use_counts[r.idx()] - 1;
        self.use_counts.set(r.idx(), count);
        assert(c.has_call(r));
        if count == 0 && c.env.get(c.ir.insts[r.idx()].function).pure_ {
            // last use of pure instruction was removed, remove uses from it's inputs and delete it
            let refs: Vec<Ref> = c.call_args(r, false);
            let ghost start = self@;
            let mut i: usize = 0;
            assert(refs@.take(0) =~= Seq::empty());
            while i < refs.len()
                invariant
                    i <= refs@.len(),
                    depth > 0,
                    self@.fits(*c),
                    self@ == start.uses_removed(*c, refs@.take(i as int), (depth - 1) as nat),
                decreases refs.len() - i,
            {
                assert(refs@.take(i + 1).drop_last() =~= refs@.take(i as int));
                self.remove_use_within(c, refs[i], depth - 1);
                i += 1;
            }
            assert(refs@.take(i as int) =~= refs@);
            let ghost removed = self@;
            self.plan.replace_with(r, Ref::unit());
            self.gone.set(r.idx(), true);
            assert(self@ =~= before.use_removed(*c, r, depth as nat));
        } else {
            assert(self@ =~= before.use_removed(*c, r, depth as nat));
        }
    }

    pub fn add_use(&mut self, r: Ref)
        requires
            r.0 < old(self)@.counts.len(),
            old(self)@.counts[r.0 as int] < u32::MAX,
        ensures
            final(self)@ == (IselView {
                counts: old(self)@.counts.update(
                    r.0 as int,
                    (old(self)@.counts[r.0 as int] + 1) as u32,
                ),
                ..old(self)@
            }),
    {
        let count: u32 = self.use_counts[r.idx()];
        self.use_counts.set(r.idx(), count + 1);
    }

    pub fn next_block(&self, block: BlockId) -> (next: Option<BlockId>)
        requires
            block.0 < self@.next_blocks.len(),
        ensures
            next == self@.next_blocks[block.0 as int],
    {
        self.next_blocks[block.idx()]
    }

    pub fn use_count(&self, r: Ref) -> (count: u32)
        requires
            r.spec_is_ref() ==> r.0 < self@.counts.len(),
        ensures
            count == self@.use_count(r),
    {
        if r.is_ref() {
            self.use_counts[r.idx()]
        } else {
            0
        }
    }

    pub fn single_use(&self, r: Ref) -> (single: bool)
        requires
            r.0 < self@.counts.len(),
        ensures
            single == (self@.counts[r.0 as int] == 1),
    {
        self.use_counts[r.idx()] == 1
    }

    pub fn unused(&self, r: Ref) -> (unused: bool)
        requires
            r.0 < self@.counts.len(),
        ensures
            unused == (self@.counts[r.0 as int] == 0),
    {
        self.use_counts[r.idx()] == 0
    }

    /// Puts an instruction before another.
    pub fn put(&mut self, at: Ref, function: FunctionId, args: Vec<Argument>)
        ensures
            final(self)@ == old(self)@.put(at, function, inst::views(args@)),
    {
        self.plan.add_before(at, function, args, TypeId::unit());
    }

    /// Puts an instruction behind another.
    pub fn put_after(&mut self, at: Ref, function: FunctionId, args: Vec<Argument>)
        ensures
            final(self)@ == old(self)@.put_after(at, function, inst::views(args@)),
    {
        self.plan.add(at, Insert::After, function, args, TypeId::unit());
    }

    pub fn replace(&mut self, at: Ref, function: FunctionId, args: Vec<Argument>)
        ensures
            final(self)@ == old(self)@.replaced(at, function, inst::views(args@)),
    {
        self.plan.replace(at, function, args, TypeId::unit());
    }

    pub fn rename(&mut self, at: Ref)
        ensures
            final(self)@ == old(self)@.renamed(at),
    {
        self.plan.replace_with(at, Ref::unit());
    }

    pub fn delete(&mut self, at: Ref)
        ensures
            final(self)@ == old(self)@.deleted(at),
    {
        self.plan.delete(at);
    }

    /// Copies a register before an instruction.
    pub fn copy(&mut self, c: &Context, before: Ref, to: MCReg, from: MCReg)
        ensures
            final(self)@ == old(self)@.copied(*c, before, to, from),
    {
        let regs: Vec<MCReg> = vec![to, from];
        assert(regs@ =~= seq![to, from]);
        let (function, args, _) = parallel_copy(c.mc, &regs);
        self.put(before, function, args);
    }
}

/// The registers of two lists in turn.
pub open spec fn in_turn(a: Seq<MCReg>, b: Seq<MCReg>) -> Seq<MCReg>
    decreases a.len(),
{
    if a.len() == 0 || a.len() != b.len() {
        Seq::empty()
    } else {
        in_turn(a.drop_last(), b.drop_last()).push(a.last()).push(b.last())
    }
}

/// All registers of a value.
pub open spec fn registers(c: Context, r: Ref) -> Seq<MCReg> {
    c.slots@.regs(r, slots::slot_count(c.leaves(r)) as nat)
}

/// The argument of a block at this position.
pub open spec fn block_arg(c: Context, target: BlockId, i: int) -> Ref {
    Ref((c.ir@.blocks[target.0 as int].args_idx + i) as u32)
}

/// What is set and what is left to copy when a block is gone to.
#[verifier::ext_equal]
pub struct Passing {
    pub s: IselView,
    pub regs: Seq<MCReg>,
}

/// The first `n` arguments of a block get their values. The instruction sets a register to a
/// number.
pub open spec fn passing(
    s: IselView,
    c: Context,
    before: Ref,
    target: BlockId,
    args: Seq<Ref>,
    set: FunctionId,
    n: int,
) -> Passing
    decreases n,
{
    if n <= 0 {
        Passing { s, regs: Seq::empty() }
    } else {
        let p = passing(s, c, before, target, args, set, n - 1);
        let to = block_arg(c, target, n - 1);
        let from = args[n - 1];
        if from.spec_is_ref() {
            Passing { regs: p.regs + in_turn(registers(c, to), registers(c, from)), ..p }
        } else if from == Ref::unit() {
            p
        } else {
            Passing {
                s: p.s.put(
                    before,
                    set,
                    seq![
                        ArgumentView::MCReg(Usage::Def, c.slots@.reg(to, 0)),
                        ArgumentView::Int32(
                            if from == Ref::true_() {
                                1
                            } else {
                                0
                            },
                        ),
                    ],
                ),
                ..p
            }
        }
    }
}

/// The arguments of a block get their values.
pub open spec fn args_passed(
    s: IselView,
    c: Context,
    before: Ref,
    target: BlockId,
    args: Seq<Ref>,
    set: FunctionId,
) -> IselView {
    let p = passing(s, c, before, target, args, set, args.len() as int);
    if p.regs.len() == 0 {
        p.s
    } else {
        p.s.put(
            before,
            dialect::spec_function(c.mc, Mc::AssignBlockArgs),
            machine::read_regs(p.regs),
        )
    }
}

/// The block takes as many values, and they have registers of the same number.
pub open spec fn can_pass(c: Context, target: BlockId, args: Seq<Ref>) -> bool {
    &&& target.0 < c.ir@.blocks.len()
    &&& args.len() == c.ir@.blocks[target.0 as int].arg_count
    &&& c.ir@.blocks[target.0 as int].args_idx + args.len() <= c.ir@.insts.len()
    &&& c.ir@.insts.len() < 0xffff_fffd
    &&& forall|i: int|
        0 <= i < args.len() ==> {
            let from = #[trigger] args[i];
            let to = block_arg(c, target, i);
            &&& from.spec_is_ref() ==> c.holds(from) && c.holds(to) && registers(c, from).len()
                == registers(c, to).len()
            &&& !from.spec_is_ref() && from != Ref::unit() ==> c.slots@.holds(to, 1)
        }
}

/// The registers of a value of the function.
pub fn get_registers(c: &Context, r: Ref) -> (regs: Vec<MCReg>)
    requires
        c.holds(r),
    ensures
        regs@ == registers(*c, r),
{
    let ty: TypeId = c.get_type(r);
    assert(c.types@[ty.0 as int] == c.types.types@[ty.0 as int]@);
    c.slots.get_all(r, &c.types.types[ty.0 as usize].leaves)
}

fn push_in_turn(regs: &mut Vec<MCReg>, a: &Vec<MCReg>, b: &Vec<MCReg>)
    requires
        a@.len() == b@.len(),
    ensures
        final(regs)@ == old(regs)@ + in_turn(a@, b@),
{
    let ghost before = regs@;
    let mut i: usize = 0;
    while i < a.len()
        invariant
            i <= a@.len(),
            a@.len() == b@.len(),
            regs@ =~= before + in_turn(a@.take(i as int), b@.take(i as int)),
        decreases a.len() - i,
    {
        assert(a@.take(i + 1).drop_last() =~= a@.take(i as int));
        assert(b@.take(i + 1).drop_last() =~= b@.take(i as int));
        regs.push(a[i]);
        regs.push(b[i]);
        i += 1;
    }
    assert(a@.take(i as int) =~= a@);
    assert(b@.take(i as int) =~= b@);
}

impl IselCtx {
    /// Copies values into the registers of the arguments of a block.
    pub fn create_args_copy(
        &mut self,
        c: &Context,
        before: Ref,
        target: BlockId,
        args: &Vec<Ref>,
        set: FunctionId,
    )
        requires
            can_pass(*c, target, args@),
        ensures
            final(self)@ == args_passed(old(self)@, *c, before, target, args@, set),
            final(self)@ == old(self)@.planned(final(self)@.plan),
    {
        let ghost start = self@;
        let first: u32 = c.ir.blocks[target.idx()].args_idx;
        let ghost info = c.ir@.blocks[target.0 as int];
        assert(info == c.ir.blocks@[target.0 as int]@);
        let mut copied: Vec<MCReg> = Vec::new();
        let mut i: usize = 0;
        while i < args.len()
            invariant
                i <= args@.len(),
                can_pass(*c, target, args@),
                first == c.ir@.blocks[target.0 as int].args_idx,
                self@ == start.planned(self@.plan),
                (Passing { s: self@, regs: copied@ }) == passing(
                    start,
                    *c,
                    before,
                    target,
                    args@,
                    set,
                    i as int,
                ),
            decreases args.len() - i,
        {
            let from: Ref = args[i];
            let to: Ref = Ref(first + i as u32);
            assert(args@[i as int] == from);
            assert(to == block_arg(*c, target, i as int));
            if from.is_ref() {
                let to_regs: Vec<MCReg> = get_registers(c, to);
                let from_regs: Vec<MCReg> = get_registers(c, from);
                push_in_turn(&mut copied, &to_regs, &from_regs);
            } else if from != Ref::unit() {
                let reg: MCReg = c.slots.get_one(to);
                let value: u32 = if from == Ref::true_() {
                    1
                } else {
                    0
                };
                let operands: Vec<Argument> = vec![
                    Argument::MCReg(Usage::Def, reg),
                    Argument::Int32(value),
                ];
                assert(inst::views(operands@) =~= seq![
                    ArgumentView::MCReg(Usage::Def, reg),
                    ArgumentView::Int32(value),
                ]);
                self.put(before, set, operands);
            }
            i += 1;
        }
        if copied.len() != 0 {
            let (function, operands, _) = parallel_copy_args(c.mc, &copied, TypeId::unit());
            self.put(before, function, operands);
        }
    }
}

/// The registers of the first `n` arguments of a block.
pub open spec fn arg_registers(c: Context, block: BlockId, n: int) -> Seq<MCReg>
    decreases n,
{
    if n <= 0 {
        Seq::empty()
    } else {
        arg_registers(c, block, n - 1) + registers(c, block_arg(c, block, n - 1))
    }
}

/// Registers as operands that are both written and read.
pub open spec fn changed_regs(regs: Seq<MCReg>) -> Seq<ArgumentView> {
    regs.map_values(|r: MCReg| ArgumentView::MCReg(Usage::DefUse, r))
}

/// A block other than the first begins with what was passed to it.
pub open spec fn block_begun(s: IselView, c: Context, block: BlockId) -> IselView {
    let info = c.ir@.blocks[block.0 as int];
    if block == BlockId::entry() {
        s
    } else {
        s.put(
            Ref(info.body_idx),
            dialect::spec_function(c.mc, Mc::IncomingBlockArgs),
            changed_regs(arg_registers(c, block, info.arg_count as int)),
        )
    }
}

/// The arguments of the block have registers.
pub open spec fn can_begin(c: Context, block: BlockId) -> bool {
    let info = c.ir@.blocks[block.0 as int];
    &&& block.0 < c.ir@.blocks.len()
    &&& info.args_idx + info.arg_count <= c.ir@.insts.len()
    &&& c.ir@.insts.len() < 0xffff_fffd
    &&& forall|i: int| 0 <= i < info.arg_count ==> c.holds(#[trigger] block_arg(c, block, i))
}

impl IselCtx {
    pub fn begin_block(&mut self, c: &Context, block: BlockId)
        requires
            can_begin(*c, block),
        ensures
            final(self)@ == block_begun(old(self)@, *c, block),
    {
        if block == BlockId::entry() {
            return;
        }
        let info = &c.ir.blocks[block.idx()];
        let ghost view = c.ir@.blocks[block.0 as int];
        assert(view == c.ir.blocks@[block.0 as int]@);
        let mut args: Vec<Argument> = Vec::new();
        let mut i: u32 = 0;
        assert(inst::views(args@) =~= changed_regs(Seq::empty()));
        while i < info.arg_count
            invariant
                i <= info.arg_count,
                info@ == c.ir@.blocks[block.0 as int],
                can_begin(*c, block),
                inst::views(args@) == changed_regs(arg_registers(*c, block, i as int)),
            decreases info.arg_count - i,
        {
            let arg: Ref = Ref(info.args_idx + i);
            assert(arg == block_arg(*c, block, i as int));
            let regs: Vec<MCReg> = get_registers(c, arg);
            let ghost before = inst::views(args@);
            let mut j: usize = 0;
            assert(before =~= before + changed_regs(regs@.take(0)));
            while j < regs.len()
                invariant
                    j <= regs@.len(),
                    inst::views(args@) == before + changed_regs(regs@.take(j as int)),
                decreases regs.len() - j,
            {
                let ghost held = args@;
                args.push(Argument::MCReg(Usage::DefUse, regs[j]));
                assert(inst::views(args@) =~= inst::views(held).push(
                    ArgumentView::MCReg(Usage::DefUse, regs@[j as int]),
                ));
                assert(inst::views(args@) =~= before + changed_regs(regs@.take(j + 1)));
                j += 1;
            }
            assert(regs@.take(j as int) =~= regs@);
            assert(before + changed_regs(regs@) =~= changed_regs(
                arg_registers(*c, block, i + 1),
            ));
            i += 1;
        }
        self.put(Ref(info.body_idx), dialect::function(c.mc, Mc::IncomingBlockArgs), args);
    }
}

} // verus!
