//! Running the scalar replacement of aggregates on a function.
use vstd::prelude::*;

use crate::ir::dialect;
use crate::ir::dialect::{Arith, Dialect, Mem, Tuple};
use crate::ir::edit;
use crate::ir::edit::{apply_all, EditView, Plan, PlanView};
use crate::ir::env::Environment;
use crate::ir::finish;
use crate::ir::finish::compute_postorder;
use crate::ir::function::{FunctionIr, FunctionView};
use crate::ir::ids::{BlockId, ModuleId, Ref, TypeId};
use crate::ir::inst;
use crate::ir::inst::{ArgumentView, Builtin};
use crate::ir::layout;
use crate::ir::modify::{Insert, IrModify};
use crate::ir::optimize::partition;
use crate::ir::optimize::partition::{Access, AccessType, Subrange};
use crate::ir::optimize::scan;
use crate::ir::optimize::scan::{EntryView, Part, Scan, ScanView};
use crate::ir::optimize::sroa;
use crate::ir::optimize::sroa::{Out, Output, Work, SROA};
use crate::ir::types;
use crate::ir::types::{Element, Primitive, ShapeView, TypeView, Types};

verus! {

/// The program knows the instructions that the pass deals with.
pub open spec fn dialects_known(m: SROA, env: &Environment) -> bool {
    &&& dialect::registered::<Arith>(env, m.arith)
    &&& dialect::registered::<Mem>(env, m.mem)
    &&& dialect::registered::<Tuple>(env, m.tuple)
    &&& env.has(Builtin::Undef.spec_function())
    &&& env.def(Builtin::Undef.spec_function()).params@.len() == 0
    &&& env.def(Builtin::Undef.spec_function()).varargs is None
}

/// The function can be worked on: its blocks lie within it, its instructions are
/// known, and variables are declared in the bodies of blocks.
pub open spec fn can_run(m: SROA, f: FunctionView, env: &Environment) -> bool {
    &&& edit::editable(edit::unchanged(f), env)
    &&& finish::layout_fits(edit::unchanged(f))
    &&& dialects_known(m, env)
    &&& forall|i: int|
        0 <= i < f.blocks.len() ==> (#[trigger] f.blocks[i]).body_idx + f.blocks[i].len
            <= f.insts.len()
    &&& forall|i: int|
        0 <= i < f.insts.len() && dialect::spec_as_module::<Mem>(#[trigger] f.insts[i], m.mem)
            == Some(Mem::Decl) ==> edit::placed(f, Ref(i as u32))
}

pub open spec fn entry_placed(f: FunctionView, e: EntryView) -> bool {
    &&& edit::placed(f, e.decl)
    &&& forall|i: int| 0 <= i < e.accesses.len() ==> edit::placed(f, (#[trigger] e.accesses[i]).location)
    &&& forall|i: int| 0 <= i < e.uses.len() ==> edit::placed(f, #[trigger] e.uses[i])
    &&& partition::all_fit(e.accesses)
}

pub open spec fn scan_placed(f: FunctionView, s: ScanView) -> bool {
    &&& forall|i: int| 0 <= i < s.entries.len() ==> entry_placed(f, #[trigger] s.entries[i])
    &&& forall|i: int| 0 <= i < s.zero_sized.len() ==> edit::placed(f, #[trigger] s.zero_sized[i])
}

proof fn lemma_set_entry(f: FunctionView, s: ScanView, decl: Ref, e: EntryView)
    requires
        scan_placed(f, s),
        entry_placed(f, e),
    ensures
        scan_placed(f, s.set_entry(decl, e)),
{
    scan::lemma_entry_index(s.entries, decl);
    let new = s.set_entry(decl, e);
    let k = scan::entry_index(s.entries, decl);
    assert forall|i: int| 0 <= i < new.entries.len() implies entry_placed(
        f,
        #[trigger] new.entries[i],
    ) by {
        if i != k {
            assert(new.entries[i] == s.entries[i]);
        }
    }
}

proof fn lemma_entry(f: FunctionView, s: ScanView, decl: Ref)
    requires
        scan_placed(f, s),
        edit::placed(f, decl),
    ensures
        entry_placed(f, s.entry(decl)),
{
    scan::lemma_entry_index(s.entries, decl);
    let k = scan::entry_index(s.entries, decl);
    if k < s.entries.len() {
        assert(entry_placed(f, s.entries[k]));
    }
}

proof fn lemma_decl_is_placed(
    m: SROA,
    f: FunctionView,
    env: &Environment,
    types: Seq<TypeView>,
    r: Ref,
)
    requires
        can_run(m, f, env),
        scan::measurable(f, types, m.mem),
    ensures
        scan::decl_offset(f, types, m.mem, r) matches Some((d, offset)) ==> {
            &&& edit::placed(f, d)
            &&& 0 <= offset <= u64::MAX
        },
{
    assert(scan::offset_fits(f, types, m.mem, r));
    scan::lemma_offset_bound(f, types, m.mem, r);
    if let Some((d, offset)) = scan::decl_offset(f, types, m.mem, r) {
        let i = d.0 as int;
        assert(dialect::spec_as_module::<Mem>(f.insts[i], m.mem) == Some(Mem::Decl));
        assert(Ref(i as u32) == d);
    }
}

proof fn lemma_disqualify(
    m: SROA,
    f: FunctionView,
    env: &Environment,
    types: Seq<TypeView>,
    s: ScanView,
    r: Ref,
)
    requires
        can_run(m, f, env),
        scan::measurable(f, types, m.mem),
        scan_placed(f, s),
    ensures
        scan_placed(f, s.disqualify_value(f, types, m.mem, r)),
{
    lemma_decl_is_placed(m, f, env, types, r);
    if let Some((d, offset)) = scan::decl_offset(f, types, m.mem, r) {
        lemma_entry(f, s, d);
        lemma_set_entry(f, s, d, EntryView { disqualified: true, ..s.entry(d) });
    }
}

proof fn lemma_disqualify_values(
    m: SROA,
    f: FunctionView,
    env: &Environment,
    types: Seq<TypeView>,
    s: ScanView,
    refs: Seq<Ref>,
)
    requires
        can_run(m, f, env),
        scan::measurable(f, types, m.mem),
        scan_placed(f, s),
    ensures
        scan_placed(f, s.disqualify_values(f, types, m.mem, refs)),
    decreases refs.len(),
{
    if refs.len() > 0 {
        lemma_disqualify_values(m, f, env, types, s, refs.drop_last());
        lemma_disqualify(
            m,
            f,
            env,
            types,
            s.disqualify_values(f, types, m.mem, refs.drop_last()),
            refs.last(),
        );
    }
}

proof fn lemma_disqualify_args(
    m: SROA,
    f: FunctionView,
    env: &Environment,
    types: Seq<TypeView>,
    s: ScanView,
    args: Seq<ArgumentView>,
)
    requires
        can_run(m, f, env),
        scan::measurable(f, types, m.mem),
        scan_placed(f, s),
    ensures
        scan_placed(f, s.disqualify_args(f, types, m.mem, args)),
    decreases args.len(),
{
    if args.len() > 0 {
        lemma_disqualify_args(m, f, env, types, s, args.drop_last());
        let before = s.disqualify_args(f, types, m.mem, args.drop_last());
        match args.last() {
            ArgumentView::Ref(r) => lemma_disqualify(m, f, env, types, before, r),
            ArgumentView::BlockTarget(_, refs) => lemma_disqualify_values(
                m,
                f,
                env,
                types,
                before,
                refs,
            ),
            _ => {},
        }
    }
}

/// The parts have sizes and places.
spec fn parts_fit(types: Seq<TypeView>, ps: Seq<Part>) -> bool {
    forall|i: int|
        0 <= i < ps.len() ==> {
            &&& (#[trigger] ps[i]).size > 0
            &&& ps[i].size == scan::size_of(types, ps[i].ty)
            &&& ps[i].offset + ps[i].size <= u64::MAX
        }
}

proof fn lemma_tuple_parts(types: Seq<TypeView>, elements: Seq<Element>, offset: int, n: int)
    requires
        0 <= offset,
        0 <= n <= elements.len(),
        forall|j: int|
            0 <= j < elements.len() && scan::size_of(types, (#[trigger] elements[j]).ty) > 0
                ==> offset + elements[j].offset + scan::size_of(types, elements[j].ty) <= u64::MAX,
    ensures
        parts_fit(types, scan::tuple_parts(types, elements, offset, n)),
    decreases n,
{
    if n > 0 {
        lemma_tuple_parts(types, elements, offset, n - 1);
    }
}

proof fn lemma_parts(types: Seq<TypeView>, ty: TypeId, offset: int)
    requires
        0 <= offset,
        scan::parts_end(types, ty, offset),
    ensures
        parts_fit(types, scan::parts(types, ty, offset)),
{
    if ty.0 < types.len() {
        if let ShapeView::Tuple(elements) = types[ty.0 as int].shape {
            lemma_tuple_parts(types, elements, offset, elements.len() as int);
        }
    }
}

proof fn lemma_accessed(
    f: FunctionView,
    e: EntryView,
    types: Seq<TypeView>,
    access: AccessType,
    location: Ref,
    ps: Seq<Part>,
)
    requires
        types::layouts_fit(types),
        entry_placed(f, e),
        edit::placed(f, location),
        parts_fit(types, ps),
    ensures
        entry_placed(f, scan::accessed(e, types, access, location, ps)),
    decreases ps.len(),
{
    if ps.len() > 0 {
        let rest = ps.drop_last();
        assert(forall|i: int| 0 <= i < rest.len() ==> rest[i] == ps[i]);
        lemma_accessed(f, e, types, access, location, rest);
        let p = ps.last();
        assert(p == ps[ps.len() - 1]);
        if let Some(ty) = types::primitive_of(types, p.ty) {
            let t = types[p.ty.0 as int];
            assert(t.layout.size == ty.byte_size());
        }
    }
}

proof fn lemma_scan_inst(
    m: SROA,
    f: FunctionView,
    env: &Environment,
    types: Seq<TypeView>,
    s: ScanView,
    r: Ref,
)
    requires
        can_run(m, f, env),
        scan::measurable(f, types, m.mem),
        scan_placed(f, s),
        edit::placed(f, r),
    ensures
        scan_placed(f, scan::scan_inst(s, f, env, types, m.mem, r)),
{
    let inst = f.insts[r.0 as int];
    assert(scan::access_ends(f, types, m.mem, Ref(r.0 as int as u32)));
    lemma_disqualify_args(
        m,
        f,
        env,
        types,
        s,
        inst::args_of(
            env.def(inst.function).params@,
            env.def(inst.function).varargs,
            inst.args,
            f.extra,
            f.blocks,
        ),
    );
    match dialect::spec_as_module::<Mem>(inst, m.mem) {
        Some(Mem::Load) => {
            let args = scan::op_args(f, inst, Mem::Load);
            lemma_decl_is_placed(m, f, env, types, scan::ref_arg(args, 0));
            if let Some((decl, offset)) = scan::decl_offset(
                f,
                types,
                m.mem,
                scan::ref_arg(args, 0),
            ) {
                let ps = scan::parts(types, inst.ty, offset);
                lemma_parts(types, inst.ty, offset);
                lemma_entry(f, s, decl);
                lemma_accessed(f, s.entry(decl), types, AccessType::Load, r, ps);
                lemma_set_entry(
                    f,
                    s,
                    decl,
                    scan::accessed(s.entry(decl), types, AccessType::Load, r, ps),
                );
            }
        },
        Some(Mem::Store) => {
            let args = scan::op_args(f, inst, Mem::Store);
            let value = scan::ref_arg(args, 1);
            lemma_decl_is_placed(m, f, env, types, scan::ref_arg(args, 0));
            if let Some((decl, offset)) = scan::decl_offset(
                f,
                types,
                m.mem,
                scan::ref_arg(args, 0),
            ) {
                let ty = scan::value_type(f, value);
                let ps = scan::parts(types, ty, offset);
                lemma_parts(types, ty, offset);
                lemma_entry(f, s, decl);
                lemma_accessed(f, s.entry(decl), types, AccessType::Store, r, ps);
                lemma_set_entry(
                    f,
                    s,
                    decl,
                    scan::accessed(s.entry(decl), types, AccessType::Store, r, ps),
                );
                let after = s.access(types, decl, AccessType::Store, r, ps);
                let after = if scan::no_scalars(types, ps) {
                    ScanView { zero_sized: after.zero_sized.push(r), ..after }
                } else {
                    after
                };
                assert(scan_placed(f, after));
                lemma_disqualify(m, f, env, types, after, value);
            }
        },
        Some(Mem::MemberPtr) => {
            let args = scan::op_args(f, inst, Mem::MemberPtr);
            lemma_decl_is_placed(m, f, env, types, scan::ref_arg(args, 0));
            if let Some((decl, offset)) = scan::decl_offset(
                f,
                types,
                m.mem,
                scan::ref_arg(args, 0),
            ) {
                lemma_entry(f, s, decl);
                lemma_set_entry(
                    f,
                    s,
                    decl,
                    EntryView { uses: s.entry(decl).uses.push(r), ..s.entry(decl) },
                );
            }
        },
        _ => {},
    }
}

proof fn lemma_scan_range(
    m: SROA,
    f: FunctionView,
    env: &Environment,
    types: Seq<TypeView>,
    s: ScanView,
    b: int,
    n: int,
)
    requires
        can_run(m, f, env),
        scan::measurable(f, types, m.mem),
        scan_placed(f, s),
        0 <= b < f.blocks.len(),
        0 <= n <= f.blocks[b].len,
    ensures
        scan_placed(
            f,
            scan::scan_range(s, f, env, types, m.mem, f.blocks[b].body_idx as int, n),
        ),
    decreases n,
{
    if n > 0 {
        lemma_scan_range(m, f, env, types, s, b, n - 1);
        let r = Ref((f.blocks[b].body_idx + n - 1) as u32);
        assert(f.blocks[b].body_idx + f.blocks[b].len <= f.insts.len());
        edit::bodies_are_placed(f, b, r);
        lemma_scan_inst(
            m,
            f,
            env,
            types,
            scan::scan_range(s, f, env, types, m.mem, f.blocks[b].body_idx as int, n - 1),
            r,
        );
    }
}

/// Everything that is known of variables refers to instructions in the bodies of
/// blocks.
pub proof fn scans_are_placed(
    m: SROA,
    f: FunctionView,
    env: &Environment,
    types: Seq<TypeView>,
    order: Seq<BlockId>,
)
    requires
        can_run(m, f, env),
        scan::measurable(f, types, m.mem),
        forall|i: int| 0 <= i < order.len() ==> (#[trigger] order[i]).0 < f.blocks.len(),
    ensures
        scan_placed(f, scan::scan_blocks(f, env, types, m.mem, order)),
    decreases order.len(),
{
    if order.len() > 0 {
        let rest = order.drop_last();
        assert(forall|i: int| 0 <= i < rest.len() ==> rest[i] == order[i]);
        scans_are_placed(m, f, env, types, rest);
        let b = order[order.len() - 1].0 as int;
        lemma_scan_range(
            m,
            f,
            env,
            types,
            scan::scan_blocks(f, env, types, m.mem, rest),
            b,
            f.blocks[b].len as int,
        );
    }
}

/// The number of instructions after the changes can be counted.
spec fn countable(f: FunctionView, p: PlanView) -> bool {
    f.insts.len() + edit::added(p.edits) <= u32::MAX
}

/// As long as instructions can be counted, the changes are well placed. They add no
/// arguments to blocks.
spec fn sound(f: FunctionView, env: &Environment, p: PlanView) -> bool {
    countable(f, p) ==> {
        &&& edit::all_well_placed(edit::unchanged(f), env, p.edits)
        &&& layout::adds_no_arguments(p.edits)
        &&& p.next == f.insts.len() + edit::added(p.edits)
    }
}

/// The value exists after the changes.
spec fn known_value(f: FunctionView, p: PlanView, r: Ref) -> bool {
    countable(f, p) && r.spec_is_ref() ==> r.0 < f.insts.len() + edit::added(p.edits)
}

proof fn lemma_with(f: FunctionView, env: &Environment, p: PlanView, e: EditView, r: Ref)
    requires
        sound(f, env, p),
        layout::is_no_argument(e),
        countable(f, p) ==> edit::well_placed(
            edit::unchanged(f),
            env,
            e,
            edit::unchanged(f).count() + edit::added(p.edits),
        ),
    ensures
        sound(f, env, p.with(e)),
        countable(f, p.with(e)) ==> countable(f, p),
        known_value(f, p, r) ==> known_value(f, p.with(e), r),
        e is Add ==> known_value(f, p.with(e), p.result()),
{
    let q = p.with(e);
    assert(q.edits.drop_last() =~= p.edits);
    if countable(f, q) {
        let v = edit::unchanged(f);
        assert forall|i: int| 0 <= i < q.edits.len() implies edit::well_placed(
            v,
            env,
            #[trigger] q.edits[i],
            v.count() + edit::added(q.edits.take(i)),
        ) by {
            if i < p.edits.len() {
                assert(q.edits[i] == p.edits[i]);
                assert(q.edits.take(i) =~= p.edits.take(i));
                assert(edit::well_placed(
                    v,
                    env,
                    p.edits[i],
                    v.count() + edit::added(p.edits.take(i)),
                ));
            } else {
                assert(q.edits.take(i) =~= p.edits);
            }
        }
        assert forall|i: int| 0 <= i < q.edits.len() implies layout::is_no_argument(
            #[trigger] q.edits[i],
        ) by {
            if i < p.edits.len() {
                assert(q.edits[i] == p.edits[i]);
            }
        }
    }
}

proof fn lemma_known<D: Dialect>(
    f: FunctionView,
    env: &Environment,
    module: ModuleId,
    op: D,
    args: Seq<ArgumentView>,
)
    requires
        dialect::registered::<D>(env, module),
        op.spec_varargs() is None,
        args.len() == op.spec_params().len(),
        forall|i: int|
            0 <= i < args.len() ==> (#[trigger] args[i]).parameter() == op.spec_params()[i]
                && args[i].target() is None,
    ensures
        edit::known_call(edit::unchanged(f), env, dialect::spec_function(module, op), args),
{
    assert(op.spec_id() == op.spec_id());
}

/// An instruction of a dialect is added.
proof fn lemma_op<D: Dialect>(
    f: FunctionView,
    env: &Environment,
    o: Out,
    module: ModuleId,
    op: D,
    at: Ref,
    args: Seq<ArgumentView>,
    ty: TypeId,
    r: Ref,
)
    requires
        sound(f, env, o.plan),
        edit::placed(f, at),
        dialect::registered::<D>(env, module),
        op.spec_varargs() is None,
        args.len() == op.spec_params().len(),
        forall|i: int|
            0 <= i < args.len() ==> (#[trigger] args[i]).parameter() == op.spec_params()[i]
                && args[i].target() is None,
    ensures
        sound(f, env, o.before(at, dialect::spec_function(module, op), args, ty).plan),
        known_value(
            f,
            o.before(at, dialect::spec_function(module, op), args, ty).plan,
            o.result(),
        ),
        known_value(f, o.plan, r) ==> known_value(
            f,
            o.before(at, dialect::spec_function(module, op), args, ty).plan,
            r,
        ),
{
    let function = dialect::spec_function(module, op);
    lemma_known(f, env, module, op, args);
    lemma_with(
        f,
        env,
        o.plan,
        EditView::Add { at, position: Insert::Before, function, args, ty },
        r,
    );
}

proof fn lemma_converted(
    m: SROA,
    f: FunctionView,
    env: &Environment,
    o: Out,
    value: Ref,
    src: Primitive,
    dst: Primitive,
    at: Ref,
    r: Ref,
)
    requires
        sound(f, env, o.plan),
        edit::placed(f, at),
        dialects_known(m, env),
        known_value(f, o.plan, value),
    ensures
        ({
            let (n, v) = sroa::converted(m, o, value, src, dst, at);
            &&& sound(f, env, n.plan)
            &&& known_value(f, n.plan, v)
            &&& known_value(f, o.plan, r) ==> known_value(f, n.plan, r)
        }),
{
    let typed = o.with_type(dst);
    let args = seq![ArgumentView::Ref(value)];
    if src != dst {
        if dst == Primitive::Ptr {
            lemma_op(f, env, typed, m.mem, Mem::IntToPtr, at, args, o.type_result(), r);
        } else if src == Primitive::Ptr {
            lemma_op(f, env, typed, m.mem, Mem::PtrToInt, at, args, o.type_result(), r);
        } else {
            lemma_op(f, env, typed, m.arith, Arith::CastInt, at, args, o.type_result(), r);
        }
    }
}

proof fn lemma_shifted_down(
    m: SROA,
    f: FunctionView,
    env: &Environment,
    o: Out,
    loaded: Ref,
    ty: Primitive,
    offset: int,
    at: Ref,
    r: Ref,
)
    requires
        sound(f, env, o.plan),
        edit::placed(f, at),
        dialects_known(m, env),
        known_value(f, o.plan, loaded),
    ensures
        ({
            let (n, v, now) = sroa::shifted_down(m, o, loaded, ty, offset, at);
            &&& sound(f, env, n.plan)
            &&& known_value(f, n.plan, v)
            &&& known_value(f, o.plan, r) ==> known_value(f, n.plan, r)
        }),
{
    if offset != 0 {
        let typed = o.with_type(ty.into_unsigned());
        let id = o.type_result();
        let args = seq![ArgumentView::Ref(loaded)];
        let (cast, value) = if ty.is_unsigned_int() {
            (typed, loaded)
        } else if ty.is_int() {
            lemma_op(f, env, typed, m.arith, Arith::CastInt, at, args, id, r);
            (
                typed.before(at, dialect::spec_function(m.arith, Arith::CastInt), args, id),
                typed.result(),
            )
        } else {
            lemma_op(f, env, typed, m.mem, Mem::PtrToInt, at, args, id, r);
            (
                typed.before(at, dialect::spec_function(m.mem, Mem::PtrToInt), args, id),
                typed.result(),
            )
        };
        let number = seq![ArgumentView::Int((offset * 8) as u64)];
        lemma_op(f, env, cast, m.arith, Arith::Int, at, number, id, r);
        let distance = cast.before(
            at,
            dialect::spec_function(m.arith, Arith::Int),
            number,
            id,
        );
        let both = seq![ArgumentView::Ref(value), ArgumentView::Ref(cast.result())];
        lemma_op(f, env, distance, m.arith, Arith::Shr, at, both, id, r);
    }
}

proof fn lemma_loaded(
    m: SROA,
    f: FunctionView,
    env: &Environment,
    o: Out,
    ptr: Ref,
    ty: Primitive,
    access: Access,
    offset: int,
    r: Ref,
)
    requires
        sound(f, env, o.plan),
        edit::placed(f, access.location),
        dialects_known(m, env),
    ensures
        ({
            let (n, v) = sroa::loaded(m, o, ptr, ty, access, offset);
            &&& sound(f, env, n.plan)
            &&& v matches Some(v) ==> known_value(f, n.plan, v)
            &&& known_value(f, o.plan, r) ==> known_value(f, n.plan, r)
        }),
{
    if offset < ty.byte_size() {
        let args = seq![ArgumentView::Ref(ptr)];
        let typed = o.with_type(ty);
        lemma_op(f, env, typed, m.mem, Mem::Load, access.location, args, o.type_result(), r);
        let first = typed.before(
            access.location,
            dialect::spec_function(m.mem, Mem::Load),
            args,
            o.type_result(),
        );
        if ty != access.ty {
            lemma_shifted_down(m, f, env, first, o.result(), ty, offset, access.location, r);
            let (moved, value, now) = sroa::shifted_down(
                m,
                first,
                o.result(),
                ty,
                offset,
                access.location,
            );
            lemma_converted(m, f, env, moved, value, now, access.ty, access.location, r);
        }
    }
}

proof fn lemma_combined(
    m: SROA,
    f: FunctionView,
    env: &Environment,
    o: Out,
    ptr: Ref,
    value: Ref,
    ty: Primitive,
    id: TypeId,
    access: Access,
    offset: int,
    r: Ref,
)
    requires
        sound(f, env, o.plan),
        edit::placed(f, access.location),
        dialects_known(m, env),
    ensures
        ({
            let (n, v) = sroa::combined(m, o, ptr, value, ty, id, access, offset);
            &&& sound(f, env, n.plan)
            &&& known_value(f, o.plan, r) ==> known_value(f, n.plan, r)
        }),
{
    let at = access.location;
    let a = seq![ArgumentView::Ref(ptr)];
    lemma_op(f, env, o, m.mem, Mem::Load, at, a, id, r);
    let existing = o.before(at, dialect::spec_function(m.mem, Mem::Load), a, id);
    let b = seq![
        ArgumentView::Int(
            sroa::keep_mask(
                ty.byte_size() as int,
                offset,
                access.ty.byte_size() as int,
            ) as u64,
        ),
    ];
    lemma_op(f, env, existing, m.arith, Arith::Int, at, b, id, r);
    let mask = existing.before(at, dialect::spec_function(m.arith, Arith::Int), b, id);
    let c = seq![ArgumentView::Ref(o.result()), ArgumentView::Ref(existing.result())];
    lemma_op(f, env, mask, m.arith, Arith::And, at, c, id, r);
    let kept = mask.before(at, dialect::spec_function(m.arith, Arith::And), c, id);
    let d = seq![ArgumentView::Ref(mask.result()), ArgumentView::Ref(value)];
    lemma_op(f, env, kept, m.arith, Arith::Or, at, d, id, r);
}

proof fn lemma_shifted_up(
    m: SROA,
    f: FunctionView,
    env: &Environment,
    o: Out,
    value: Ref,
    id: TypeId,
    offset: int,
    at: Ref,
    r: Ref,
)
    requires
        sound(f, env, o.plan),
        edit::placed(f, at),
        dialects_known(m, env),
    ensures
        ({
            let (n, v) = sroa::shifted_up(m, o, value, id, offset, at);
            &&& sound(f, env, n.plan)
            &&& known_value(f, o.plan, r) ==> known_value(f, n.plan, r)
        }),
{
    if offset != 0 {
        let number = seq![ArgumentView::Int((offset * 8) as u64)];
        lemma_op(f, env, o, m.arith, Arith::Int, at, number, id, r);
        let distance = o.before(at, dialect::spec_function(m.arith, Arith::Int), number, id);
        let both = seq![ArgumentView::Ref(value), ArgumentView::Ref(o.result())];
        lemma_op(f, env, distance, m.arith, Arith::Shl, at, both, id, r);
    }
}

proof fn lemma_stored(
    m: SROA,
    f: FunctionView,
    env: &Environment,
    o: Out,
    ptr: Ref,
    ty: Primitive,
    value: Ref,
    access: Access,
    offset: int,
    r: Ref,
)
    requires
        sound(f, env, o.plan),
        edit::placed(f, access.location),
        dialects_known(m, env),
    ensures
        ({
            let n = sroa::stored(m, o, ptr, ty, value, access, offset);
            &&& sound(f, env, n.plan)
            &&& known_value(f, o.plan, r) ==> known_value(f, n.plan, r)
        }),
{
    let at = access.location;
    if ty == access.ty {
        let args = seq![ArgumentView::Ref(ptr), ArgumentView::Ref(value)];
        lemma_op(f, env, o, m.mem, Mem::Store, at, args, TypeId::unit(), r);
    } else {
        let typed = o.with_type(ty);
        let id = o.type_result();
        lemma_converted_sound(m, f, env, typed, value, access.ty, ty, at, r);
        let (a, as_scalar) = sroa::converted(m, typed, value, access.ty, ty, at);
        lemma_shifted_up(m, f, env, a, as_scalar, id, offset, at, r);
        let (b, moved) = sroa::shifted_up(m, a, as_scalar, id, offset, at);
        let partial = offset != 0 || access.ty.byte_size() != ty.byte_size();
        let (c, whole) = if partial {
            lemma_combined(m, f, env, b, ptr, moved, ty, id, access, offset, r);
            sroa::combined(m, b, ptr, moved, ty, id, access, offset)
        } else {
            (b, moved)
        };
        let args = seq![ArgumentView::Ref(ptr), ArgumentView::Ref(whole)];
        lemma_op(f, env, c, m.mem, Mem::Store, at, args, TypeId::unit(), r);
    }
}

proof fn lemma_converted_sound(
    m: SROA,
    f: FunctionView,
    env: &Environment,
    o: Out,
    value: Ref,
    src: Primitive,
    dst: Primitive,
    at: Ref,
    r: Ref,
)
    requires
        sound(f, env, o.plan),
        edit::placed(f, at),
        dialects_known(m, env),
    ensures
        ({
            let (n, v) = sroa::converted(m, o, value, src, dst, at);
            &&& sound(f, env, n.plan)
            &&& known_value(f, o.plan, r) ==> known_value(f, n.plan, r)
        }),
{
    let typed = o.with_type(dst);
    let args = seq![ArgumentView::Ref(value)];
    if src != dst {
        if dst == Primitive::Ptr {
            lemma_op(f, env, typed, m.mem, Mem::IntToPtr, at, args, o.type_result(), r);
        } else if src == Primitive::Ptr {
            lemma_op(f, env, typed, m.mem, Mem::PtrToInt, at, args, o.type_result(), r);
        } else {
            lemma_op(f, env, typed, m.arith, Arith::CastInt, at, args, o.type_result(), r);
        }
    }
}

proof fn lemma_element(
    m: SROA,
    f: FunctionView,
    env: &Environment,
    o: Out,
    tuple: Ref,
    idx: u32,
    ty: Primitive,
    at: Ref,
    r: Ref,
)
    requires
        sound(f, env, o.plan),
        edit::placed(f, at),
        dialects_known(m, env),
    ensures
        ({
            let (n, v) = sroa::element(m, f, o, tuple, idx, ty, at);
            &&& sound(f, env, n.plan)
            &&& known_value(f, o.plan, r) ==> known_value(f, n.plan, r)
        }),
{
    let args = seq![ArgumentView::Ref(tuple), ArgumentView::Int32(idx)];
    lemma_op(f, env, o.with_type(ty), m.tuple, Tuple::MemberValue, at, args, o.type_result(), r);
}

proof fn lemma_scalars(
    m: SROA,
    f: FunctionView,
    env: &Environment,
    o: Out,
    decl: Ref,
    ptr_ty: TypeId,
    subs: Seq<Subrange>,
    n: int,
)
    requires
        sound(f, env, o.plan),
        edit::placed(f, decl),
        dialects_known(m, env),
    ensures
        sound(f, env, sroa::scalars(m, o, decl, ptr_ty, subs, n).0.plan),
    decreases n,
{
    if n > 0 {
        lemma_scalars(m, f, env, o, decl, ptr_ty, subs, n - 1);
        let (before, refs) = sroa::scalars(m, o, decl, ptr_ty, subs, n - 1);
        let ty = partition::spec_subdecl_ty(subs[n - 1]);
        let args = seq![ArgumentView::TypeId(before.type_result())];
        lemma_op(f, env, before.with_type(ty), m.mem, Mem::Decl, decl, args, ptr_ty, decl);
    }
}

/// What holds of the work on a variable.
spec fn work_sound(f: FunctionView, env: &Environment, w: Work) -> bool {
    &&& sound(f, env, w.out.plan)
    &&& forall|i: int|
        0 <= i < w.tuples.len() ==> {
            &&& edit::placed(f, (#[trigger] w.tuples[i]).0)
            &&& known_value(f, w.out.plan, w.tuples[i].1)
        }
    &&& forall|i: int| 0 <= i < w.stores.len() ==> edit::placed(f, #[trigger] w.stores[i])
}

proof fn lemma_work_load(
    m: SROA,
    f: FunctionView,
    env: &Environment,
    subs: Seq<Subrange>,
    refs: Seq<Ref>,
    w: Work,
    a: Access,
)
    requires
        work_sound(f, env, w),
        edit::placed(f, a.location),
        dialects_known(m, env),
    ensures
        work_sound(f, env, w.load(m, f, subs, refs, a)),
{
    let ty = scan::value_type(f, a.location);
    let at = a.location;
    let (out, value) = match partition::lookup(subs, a.offset as int) {
        Some(k) => sroa::loaded(
            m,
            w.out,
            refs[k],
            partition::spec_subdecl_ty(subs[k]),
            a,
            a.offset - subs[k].offset,
        ),
        None => (w.out, None),
    };
    if let Some(k) = partition::lookup(subs, a.offset as int) {
        let t = partition::spec_subdecl_ty(subs[k]);
        lemma_loaded(m, f, env, w.out, refs[k], t, a, a.offset - subs[k].offset, at);
        assert forall|i: int| 0 <= i < w.tuples.len() implies known_value(
            f,
            out.plan,
            (#[trigger] w.tuples[i]).1,
        ) by {
            lemma_loaded(
                m,
                f,
                env,
                w.out,
                refs[k],
                t,
                a,
                a.offset - subs[k].offset,
                w.tuples[i].1,
            );
        }
    }
    let x = Work { out, ..w };
    assert(work_sound(f, env, x));
    match a.index {
        Some(index) => {
            lemma_with_tuple(f, env, x, at, ty, m);
            let made = x.with_tuple(at, ty);
            if let Some(value) = value {
                lemma_insert(m, f, env, made, at, ty, index, value);
            }
        },
        None => {
            let e = match value {
                Some(value) => EditView::ReplaceWith { at, new: value },
                None => EditView::Replace {
                    at,
                    function: Builtin::Undef.spec_function(),
                    args: Seq::empty(),
                    ty,
                },
            };
            lemma_with(f, env, out.plan, e, at);
            assert forall|i: int| 0 <= i < w.tuples.len() implies known_value(
                f,
                out.plan.with(e),
                (#[trigger] w.tuples[i]).1,
            ) by {
                lemma_with(f, env, out.plan, e, w.tuples[i].1);
            }
        },
    }
}

proof fn lemma_with_tuple(
    f: FunctionView,
    env: &Environment,
    w: Work,
    at: Ref,
    ty: TypeId,
    m: SROA,
)
    requires
        work_sound(f, env, w),
        edit::placed(f, at),
        dialects_known(m, env),
    ensures
        work_sound(f, env, w.with_tuple(at, ty)),
        sroa::tuple_index(w.with_tuple(at, ty).tuples, at) < w.with_tuple(at, ty).tuples.len(),
{
    if sroa::tuple_index(w.tuples, at) >= w.tuples.len() {
        let n = w.with_tuple(at, ty);
        let e = EditView::Add {
            at,
            position: Insert::Before,
            function: Builtin::Undef.spec_function(),
            args: Seq::empty(),
            ty,
        };
        lemma_with(f, env, w.out.plan, e, at);
        assert forall|i: int| 0 <= i < n.tuples.len() implies {
            &&& edit::placed(f, (#[trigger] n.tuples[i]).0)
            &&& known_value(f, n.out.plan, n.tuples[i].1)
        } by {
            if i < w.tuples.len() {
                assert(n.tuples[i] == w.tuples[i]);
                lemma_with(f, env, w.out.plan, e, w.tuples[i].1);
            }
        }
        sroa::lemma_pushed_index(w.tuples, at, w.out.result());
    }
}

proof fn lemma_insert(
    m: SROA,
    f: FunctionView,
    env: &Environment,
    w: Work,
    at: Ref,
    ty: TypeId,
    index: u32,
    value: Ref,
)
    requires
        work_sound(f, env, w),
        edit::placed(f, at),
        dialects_known(m, env),
        sroa::tuple_index(w.tuples, at) < w.tuples.len(),
    ensures
        work_sound(f, env, w.insert(m, at, ty, index, value)),
{
    let n = w.insert(m, at, ty, index, value);
    let k = sroa::tuple_index(w.tuples, at);
    sroa::lemma_tuple_index(w.tuples, at);
    let args = seq![
        ArgumentView::Ref(w.tuples[k].1),
        ArgumentView::Int32(index),
        ArgumentView::Ref(value),
    ];
    lemma_op(f, env, w.out, m.tuple, Tuple::InsertMember, at, args, ty, at);
    assert forall|i: int| 0 <= i < n.tuples.len() implies {
        &&& edit::placed(f, (#[trigger] n.tuples[i]).0)
        &&& known_value(f, n.out.plan, n.tuples[i].1)
    } by {
        if i != k {
            assert(n.tuples[i] == w.tuples[i]);
            lemma_op(f, env, w.out, m.tuple, Tuple::InsertMember, at, args, ty, w.tuples[i].1);
        }
    }
}

proof fn lemma_work_store(
    m: SROA,
    f: FunctionView,
    env: &Environment,
    subs: Seq<Subrange>,
    refs: Seq<Ref>,
    w: Work,
    a: Access,
)
    requires
        work_sound(f, env, w),
        edit::placed(f, a.location),
        dialects_known(m, env),
    ensures
        work_sound(f, env, w.store(m, f, subs, refs, a)),
{
    let n = w.store(m, f, subs, refs, a);
    let at = a.location;
    lemma_store_out(m, f, env, subs, refs, w, a, at);
    assert forall|i: int| 0 <= i < w.tuples.len() implies known_value(
        f,
        n.out.plan,
        (#[trigger] w.tuples[i]).1,
    ) by {
        lemma_store_out(m, f, env, subs, refs, w, a, w.tuples[i].1);
    }
}

proof fn lemma_store_out(
    m: SROA,
    f: FunctionView,
    env: &Environment,
    subs: Seq<Subrange>,
    refs: Seq<Ref>,
    w: Work,
    a: Access,
    r: Ref,
)
    requires
        sound(f, env, w.out.plan),
        edit::placed(f, a.location),
        dialects_known(m, env),
    ensures
        sound(f, env, w.store(m, f, subs, refs, a).out.plan),
        known_value(f, w.out.plan, r) ==> known_value(
            f,
            w.store(m, f, subs, refs, a).out.plan,
            r,
        ),
{
    let k = partition::lookup(subs, a.offset as int)->Some_0;
    let args = scan::op_args(f, f.insts[a.location.0 as int], Mem::Store);
    let tuple = scan::ref_arg(args, 1);
    let (out, value) = match a.index {
        Some(index) => {
            lemma_element(m, f, env, w.out, tuple, index, a.ty, a.location, r);
            sroa::element(m, f, w.out, tuple, index, a.ty, a.location)
        },
        None => (w.out, tuple),
    };
    lemma_stored(
        m,
        f,
        env,
        out,
        refs[k],
        partition::spec_subdecl_ty(subs[k]),
        value,
        a,
        a.offset - subs[k].offset,
        r,
    );
}

proof fn lemma_work_all(
    m: SROA,
    f: FunctionView,
    env: &Environment,
    subs: Seq<Subrange>,
    refs: Seq<Ref>,
    w: Work,
    accesses: Seq<Access>,
)
    requires
        work_sound(f, env, w),
        dialects_known(m, env),
        forall|i: int| 0 <= i < accesses.len() ==> edit::placed(f, (#[trigger] accesses[i]).location),
    ensures
        work_sound(f, env, w.all(m, f, subs, refs, accesses)),
    decreases accesses.len(),
{
    if accesses.len() > 0 {
        let rest = accesses.drop_last();
        assert(forall|i: int| 0 <= i < rest.len() ==> rest[i] == accesses[i]);
        lemma_work_all(m, f, env, subs, refs, w, rest);
        let x = w.all(m, f, subs, refs, rest);
        let a = accesses.last();
        assert(edit::placed(f, accesses[accesses.len() - 1].location));
        match a.access {
            AccessType::Load => lemma_work_load(m, f, env, subs, refs, x, a),
            AccessType::Store => lemma_work_store(m, f, env, subs, refs, x, a),
        }
    }
}

proof fn lemma_deleted(f: FunctionView, env: &Environment, o: Out, refs: Seq<Ref>, r: Ref)
    requires
        sound(f, env, o.plan),
        forall|i: int| 0 <= i < refs.len() ==> edit::placed(f, #[trigger] refs[i]),
    ensures
        sound(f, env, sroa::deleted(o, refs).plan),
        known_value(f, o.plan, r) ==> known_value(f, sroa::deleted(o, refs).plan, r),
    decreases refs.len(),
{
    if refs.len() > 0 {
        let rest = refs.drop_last();
        assert(forall|i: int| 0 <= i < rest.len() ==> rest[i] == refs[i]);
        lemma_deleted(f, env, o, rest, r);
        assert(edit::placed(f, refs[refs.len() - 1]));
        lemma_with(
            f,
            env,
            sroa::deleted(o, rest).plan,
            EditView::Delete { at: refs.last() },
            r,
        );
    }
}

proof fn lemma_tuples_replaced(
    f: FunctionView,
    env: &Environment,
    o: Out,
    tuples: Seq<(Ref, Ref)>,
    r: Ref,
)
    requires
        sound(f, env, o.plan),
        forall|i: int|
            0 <= i < tuples.len() ==> edit::placed(f, (#[trigger] tuples[i]).0) && known_value(
                f,
                o.plan,
                tuples[i].1,
            ),
    ensures
        sound(f, env, sroa::tuples_replaced(o, tuples).plan),
        known_value(f, o.plan, r) ==> known_value(f, sroa::tuples_replaced(o, tuples).plan, r),
    decreases tuples.len(),
{
    if tuples.len() > 0 {
        let rest = tuples.drop_last();
        assert(forall|i: int| 0 <= i < rest.len() ==> rest[i] == tuples[i]);
        lemma_tuples_replaced(f, env, o, rest, r);
        let last = tuples[tuples.len() - 1];
        lemma_tuples_replaced(f, env, o, rest, last.1);
        lemma_with(
            f,
            env,
            sroa::tuples_replaced(o, rest).plan,
            EditView::ReplaceWith { at: last.0, new: last.1 },
            r,
        );
    }
}

proof fn lemma_replaced(m: SROA, f: FunctionView, env: &Environment, o: Out, e: EntryView)
    requires
        sound(f, env, o.plan),
        entry_placed(f, e),
        dialects_known(m, env),
    ensures
        sound(f, env, sroa::replaced(m, f, o, e).plan),
{
    if !e.disqualified {
        if let Some(subs) = partition::partition(e.accesses) {
            let ptr_ty = scan::value_type(f, e.decl);
            lemma_scalars(m, f, env, o, e.decl, ptr_ty, subs, subs.len() as int);
            let (made, refs) = sroa::scalars(m, o, e.decl, ptr_ty, subs, subs.len() as int);
            let start = Work { out: made, tuples: Seq::empty(), stores: Seq::empty() };
            lemma_work_all(m, f, env, subs, refs, start, e.accesses);
            let w = start.all(m, f, subs, refs, e.accesses);
            lemma_deleted(f, env, w.out, e.uses, e.decl);
            let a = sroa::deleted(w.out, e.uses);
            assert forall|i: int| 0 <= i < w.tuples.len() implies edit::placed(
                f,
                (#[trigger] w.tuples[i]).0,
            ) && known_value(f, a.plan, w.tuples[i].1) by {
                lemma_deleted(f, env, w.out, e.uses, w.tuples[i].1);
            }
            lemma_tuples_replaced(f, env, a, w.tuples, e.decl);
            let b = sroa::tuples_replaced(a, w.tuples);
            lemma_deleted(f, env, b, w.stores, e.decl);
            let c = sroa::deleted(b, w.stores);
            lemma_with(f, env, c.plan, EditView::Delete { at: e.decl }, e.decl);
        }
    }
}

proof fn lemma_all_replaced(
    m: SROA,
    f: FunctionView,
    env: &Environment,
    o: Out,
    entries: Seq<EntryView>,
)
    requires
        sound(f, env, o.plan),
        forall|i: int| 0 <= i < entries.len() ==> entry_placed(f, #[trigger] entries[i]),
        dialects_known(m, env),
    ensures
        sound(f, env, sroa::all_replaced(m, f, o, entries).plan),
    decreases entries.len(),
{
    if entries.len() > 0 {
        let rest = entries.drop_last();
        assert(forall|i: int| 0 <= i < rest.len() ==> rest[i] == entries[i]);
        lemma_all_replaced(m, f, env, o, rest);
        assert(entry_placed(f, entries[entries.len() - 1]));
        lemma_replaced(m, f, env, sroa::all_replaced(m, f, o, rest), entries.last());
    }
}

/// The changes that the pass makes can be made: they concern instructions in the
/// bodies of blocks, and every value that they use exists.
pub proof fn changes_are_well_placed(
    m: SROA,
    f: FunctionView,
    env: &Environment,
    types: Seq<TypeView>,
)
    requires
        can_run(m, f, env),
        scan::measurable(f, types, m.mem),
        edit::within_limits(edit::unchanged(f), sroa::changes(m, f, env, types).plan.edits),
        forall|i: int|
            0 <= i < finish::postorder(f.blocks).len() ==> (#[trigger] finish::postorder(
                f.blocks,
            )[i]).0 < f.blocks.len(),
    ensures
        edit::all_well_placed(
            edit::unchanged(f),
            env,
            sroa::changes(m, f, env, types).plan.edits,
        ),
        layout::adds_no_arguments(sroa::changes(m, f, env, types).plan.edits),
        scan_placed(f, sroa::scanned(m, f, env, types)),
{
    let order = finish::postorder(f.blocks).reverse();
    scans_are_placed(m, f, env, types, order);
    let s = sroa::scanned(m, f, env, types);
    let o = Out { plan: PlanView::none(f.insts.len() as u32), types };
    assert(sound(f, env, o.plan));
    lemma_deleted(f, env, o, s.zero_sized, Ref::unit());
    lemma_all_replaced(m, f, env, sroa::deleted(o, s.zero_sized), s.entries);
}

/// The function that the pass leaves is laid out and can be changed again.
pub proof fn passes_can_follow(m: SROA, f: FunctionView, env: &Environment, types: Seq<TypeView>)
    requires
        can_run(m, f, env),
        scan::measurable(f, types, m.mem),
        edit::within_limits(edit::unchanged(f), sroa::changes(m, f, env, types).plan.edits),
        layout::laid_out(f),
        optimized(m, f, env, types).insts.len() < u32::MAX,
    ensures
        layout::is_ready(optimized(m, f, env, types), env),
{
    layout::orders_name_blocks(f.blocks);
    changes_are_well_placed(m, f, env, types);
    layout::changed_functions_can_be_changed_again(
        f,
        env,
        sroa::changes(m, f, env, types).plan.edits,
        true,
    );
}

/// The function that the pass leaves.
pub open spec fn optimized(
    m: SROA,
    f: FunctionView,
    env: &Environment,
    types: Seq<TypeView>,
) -> FunctionView {
    finish::finished(
        edit::all_applied(
            edit::unchanged(f),
            env,
            sroa::changes(m, f, env, types).plan.edits,
        ),
        env,
        true,
    )
}

impl SROA {
    /// Divides the variables of a function into scalars. The types that the function
    /// uses afterwards are returned with it.
    pub fn run(&self, env: &Environment, types: Types, ir: FunctionIr) -> (r: (FunctionIr, Types))
        requires
            can_run(*self, ir@, env),
            scan::measurable(ir@, types@, self.mem),
            sroa::supported(sroa::scanned(*self, ir@, env, types@).entries),
            edit::within_limits(
                edit::unchanged(ir@),
                sroa::changes(*self, ir@, env, types@).plan.edits,
            ),
        ensures
            r.0@ == optimized(*self, ir@, env, types@),
            r.1@ == sroa::changes(*self, ir@, env, types@).types,
    {
        let order: Vec<BlockId> = compute_postorder(&ir.blocks);
        let mut reversed: Vec<BlockId> = Vec::new();
        let mut i: usize = order.len();
        while i > 0
            invariant
                i <= order@.len(),
                reversed@ =~= order@.reverse().take(order@.len() - i),
            decreases i,
        {
            i -= 1;
            reversed.push(order[i]);
        }
        let ghost f = ir@;
        let ghost types0 = types@;
        proof {
            assert(reversed@ =~= order@.reverse());
            changes_are_well_placed(*self, f, env, types0);
            assert forall|i: int| 0 <= i < reversed@.len() implies (#[trigger] reversed@[i]).0
                < f.blocks.len() by {
                assert(reversed@[i] == order@[order@.len() - 1 - i]);
            }
        }
        let s: Scan = scan::scan(&ir, env, &types, self.mem, &reversed);
        let mut o = Output { plan: Plan::new(ir.insts.len() as u32), types };
        sroa::delete_all(&mut o, &s.zero_sized);
        proof {
            let entries = s@.entries;
            assert forall|i: int| 0 <= i < s.entries@.len() implies sroa::entry_fits(
                f,
                (#[trigger] s.entries@[i])@,
            ) by {
                assert(entries[i] == s.entries@[i]@);
                assert(entry_placed(f, entries[i]));
            }
        }
        self.replace_decls(&ir, &mut o, &s.entries);
        let mut ir = IrModify::new(ir);
        proof {
            assert(ir@ =~= edit::unchanged(f));
            edit::well_placed_changes_apply(ir@, env, o@.plan.edits);
        }
        apply_all(&mut ir, env, &o.plan.edits);
        (ir.finish_and_compress(env), o.types)
    }
}

} // verus!
