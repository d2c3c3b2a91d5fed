//! That a variable is only taken apart where all uses of its memory are known.
use vstd::prelude::*;

use crate::ir::dialect;
use crate::ir::dialect::Mem;
use crate::ir::env::Environment;
use crate::ir::function::FunctionView;
use crate::ir::ids::{ModuleId, Ref, TypeId};
use crate::ir::inst;
use crate::ir::inst::ArgumentView;
use crate::ir::optimize::partition::{Access, AccessType};
use crate::ir::optimize::scan;
use crate::ir::optimize::scan::{EntryView, Part, ScanView};
use crate::ir::types;
use crate::ir::types::{Element, ShapeView, TypeView};

verus! {

/// The memory of the variable is needed.
pub open spec fn is_kept(s: ScanView, decl: Ref) -> bool {
    s.entry(decl).disqualified
}

/// No variable whose memory was needed is given up.
pub open spec fn keeps(s: ScanView, t: ScanView) -> bool {
    forall|d: Ref| is_kept(s, d) ==> #[trigger] is_kept(t, d)
}

/// The value leads into the memory of the variable.
pub open spec fn points_into(
    f: FunctionView,
    types: Seq<TypeView>,
    mem: ModuleId,
    value: Ref,
    decl: Ref,
) -> bool {
    scan::decl_offset(f, types, mem, value) matches Some((d, _)) && d == decl
}

/// The value is handed on by the arguments, to the instruction or to a block.
pub open spec fn is_handed_on(args: Seq<ArgumentView>, value: Ref) -> bool {
    exists|k: int|
        0 <= k < args.len() && match #[trigger] args[k] {
            ArgumentView::Ref(r) => r == value,
            ArgumentView::BlockTarget(_, refs) => refs.contains(value),
            _ => false,
        }
}

proof fn lemma_first(entries: Seq<EntryView>, decl: Ref)
    ensures
        forall|i: int|
            0 <= i < scan::entry_index(entries, decl) ==> (#[trigger] entries[i]).decl != decl,
    decreases entries.len(),
{
    if entries.len() > 0 && entries[0].decl != decl {
        lemma_first(entries.skip(1), decl);
        scan::lemma_entry_index(entries, decl);
        assert forall|i: int| 0 < i < scan::entry_index(entries, decl) implies (
        #[trigger] entries[i]).decl != decl by {
            assert(entries.skip(1)[i - 1] == entries[i]);
        }
    }
}

proof fn lemma_own(s: ScanView, decl: Ref)
    ensures
        s.entry(decl).decl == decl,
{
    scan::lemma_entry_index(s.entries, decl);
}

proof fn lemma_set(s: ScanView, decl: Ref, e: EntryView, other: Ref)
    requires
        e.decl == decl,
    ensures
        s.set_entry(decl, e).entry(decl) == e,
        other != decl ==> s.set_entry(decl, e).entry(other) == s.entry(other),
{
    let idx = scan::entry_index(s.entries, decl);
    let t = s.set_entry(decl, e);
    scan::lemma_entry_index(s.entries, decl);
    lemma_first(s.entries, decl);
    assert forall|i: int| 0 <= i < idx implies (#[trigger] t.entries[i]).decl != decl by {
        assert(t.entries[i] == s.entries[i]);
    }
    scan::lemma_entry_index_is(t.entries, decl, idx);
    if other != decl {
        let j = scan::entry_index(s.entries, other);
        scan::lemma_entry_index(s.entries, other);
        lemma_first(s.entries, other);
        let k = if j < s.entries.len() {
            j
        } else {
            t.entries.len() as int
        };
        assert forall|i: int| 0 <= i < k implies (#[trigger] t.entries[i]).decl != other by {
            if i != idx {
                assert(t.entries[i] == s.entries[i]);
            }
        }
        scan::lemma_entry_index_is(t.entries, other, k);
    }
}

proof fn lemma_disqualified(
    s: ScanView,
    f: FunctionView,
    types: Seq<TypeView>,
    mem: ModuleId,
    r: Ref,
)
    ensures
        keeps(s, s.disqualify_value(f, types, mem, r)),
        forall|decl: Ref|
            points_into(f, types, mem, r, decl) ==> #[trigger] is_kept(
                s.disqualify_value(f, types, mem, r),
                decl,
            ),
{
    if let Some((decl, _)) = scan::decl_offset(f, types, mem, r) {
        let e = EntryView { disqualified: true, ..s.entry(decl) };
        lemma_own(s, decl);
        lemma_set(s, decl, e, decl);
        assert forall|d: Ref| is_kept(s, d) implies #[trigger] is_kept(
            s.disqualify_value(f, types, mem, r),
            d,
        ) by {
            lemma_set(s, decl, e, d);
        }
    }
}

proof fn lemma_values(
    s: ScanView,
    f: FunctionView,
    types: Seq<TypeView>,
    mem: ModuleId,
    refs: Seq<Ref>,
)
    ensures
        keeps(s, s.disqualify_values(f, types, mem, refs)),
        forall|r: Ref, decl: Ref|
            refs.contains(r) && #[trigger] points_into(f, types, mem, r, decl) ==> is_kept(
                s.disqualify_values(f, types, mem, refs),
                decl,
            ),
    decreases refs.len(),
{
    if refs.len() > 0 {
        lemma_values(s, f, types, mem, refs.drop_last());
        let before = s.disqualify_values(f, types, mem, refs.drop_last());
        let after = s.disqualify_values(f, types, mem, refs);
        lemma_disqualified(before, f, types, mem, refs.last());
        assert forall|r: Ref, decl: Ref|
            refs.contains(r) && #[trigger] points_into(f, types, mem, r, decl) implies is_kept(
            after,
            decl,
        ) by {
            let k = choose|k: int| 0 <= k < refs.len() && refs[k] == r;
            if k < refs.len() - 1 {
                assert(refs.drop_last()[k] == r);
                assert(is_kept(before, decl));
            }
        }
    }
}

proof fn lemma_args(
    s: ScanView,
    f: FunctionView,
    types: Seq<TypeView>,
    mem: ModuleId,
    args: Seq<ArgumentView>,
)
    ensures
        keeps(s, s.disqualify_args(f, types, mem, args)),
        forall|r: Ref, decl: Ref|
            is_handed_on(args, r) && #[trigger] points_into(f, types, mem, r, decl) ==> is_kept(
                s.disqualify_args(f, types, mem, args),
                decl,
            ),
    decreases args.len(),
{
    if args.len() > 0 {
        let rest = args.drop_last();
        lemma_args(s, f, types, mem, rest);
        let before = s.disqualify_args(f, types, mem, rest);
        let after = s.disqualify_args(f, types, mem, args);
        match args.last() {
            ArgumentView::Ref(r) => {
                lemma_disqualified(before, f, types, mem, r);
            },
            ArgumentView::BlockTarget(_, refs) => {
                lemma_values(before, f, types, mem, refs);
            },
            _ => {},
        }
        assert(keeps(before, after));
        assert forall|r: Ref, decl: Ref|
            is_handed_on(args, r) && #[trigger] points_into(f, types, mem, r, decl) implies is_kept(
            after,
            decl,
        ) by {
            let k = choose|k: int|
                0 <= k < args.len() && match #[trigger] args[k] {
                    ArgumentView::Ref(x) => x == r,
                    ArgumentView::BlockTarget(_, refs) => refs.contains(r),
                    _ => false,
                };
            if k < args.len() - 1 {
                assert(rest[k] == args[k]);
                assert(is_handed_on(rest, r));
                assert(is_kept(before, decl));
            }
        }
    }
}

proof fn lemma_accessed(
    e: EntryView,
    types: Seq<TypeView>,
    access: AccessType,
    location: Ref,
    ps: Seq<Part>,
)
    ensures
        ({
            let t = scan::accessed(e, types, access, location, ps);
            &&& t.decl == e.decl
            &&& e.disqualified ==> t.disqualified
            &&& forall|k: int| 0 <= k < e.accesses.len() ==> t.accesses.contains(
                #[trigger] e.accesses[k],
            )
            &&& forall|k: int|
                0 <= k < ps.len() ==> match types::primitive_of(types, (#[trigger] ps[k]).ty) {
                    Some(ty) => t.accesses.contains(
                        Access {
                            access,
                            location,
                            size: ps[k].size,
                            offset: ps[k].offset,
                            ty,
                            index: ps[k].index,
                        },
                    ),
                    None => t.disqualified,
                }
        }),
    decreases ps.len(),
{
    let t = scan::accessed(e, types, access, location, ps);
    if ps.len() == 0 {
        assert forall|k: int| 0 <= k < e.accesses.len() implies t.accesses.contains(
            #[trigger] e.accesses[k],
        ) by {}
    } else {
        let rest = ps.drop_last();
        lemma_accessed(e, types, access, location, rest);
        let before = scan::accessed(e, types, access, location, rest);
        assert forall|a: Access| before.accesses.contains(a) implies #[trigger] t.accesses.contains(
            a,
        ) by {
            let i = choose|i: int| 0 <= i < before.accesses.len() && before.accesses[i] == a;
            assert(t.accesses[i] == a);
        }
        if types::primitive_of(types, ps.last().ty) is Some {
            assert(t.accesses[t.accesses.len() - 1] == t.accesses.last());
        }
        assert forall|k: int| 0 <= k < ps.len() implies match types::primitive_of(
            types,
            (#[trigger] ps[k]).ty,
        ) {
            Some(ty) => t.accesses.contains(
                Access {
                    access,
                    location,
                    size: ps[k].size,
                    offset: ps[k].offset,
                    ty,
                    index: ps[k].index,
                },
            ),
            None => t.disqualified,
        } by {
            if k < ps.len() - 1 {
                assert(rest[k] == ps[k]);
            }
        }
    }
}

proof fn lemma_access(
    s: ScanView,
    types: Seq<TypeView>,
    decl: Ref,
    access: AccessType,
    location: Ref,
    ps: Seq<Part>,
)
    ensures
        keeps(s, s.access(types, decl, access, location, ps)),
        s.access(types, decl, access, location, ps).entry(decl) == scan::accessed(
            s.entry(decl),
            types,
            access,
            location,
            ps,
        ),
{
    let e = scan::accessed(s.entry(decl), types, access, location, ps);
    lemma_own(s, decl);
    lemma_accessed(s.entry(decl), types, access, location, ps);
    lemma_set(s, decl, e, decl);
    assert forall|d: Ref| is_kept(s, d) implies #[trigger] is_kept(
        s.access(types, decl, access, location, ps),
        d,
    ) by {
        lemma_set(s, decl, e, d);
    }
}

/// A change of what is listed beside the entries changes no entry.
proof fn lemma_beside(s: ScanView, zero_sized: Seq<Ref>, d: Ref)
    ensures
        (ScanView { zero_sized, ..s }).entry(d) == s.entry(d),
{
}

/// What is handed on by an instruction other than an access, or is itself stored, leads into
/// memory that is needed from there on. What was needed before is still needed.
#[verifier::spinoff_prover]
#[verifier::rlimit(50)]
pub proof fn memory_that_escapes_is_kept(
    s: ScanView,
    f: FunctionView,
    env: &Environment,
    types: Seq<TypeView>,
    mem: ModuleId,
    r: Ref,
    value: Ref,
    decl: Ref,
)
    requires
        r.0 < f.insts.len(),
    ensures
        ({
            let inst = f.insts[r.0 as int];
            let after = scan::scan_inst(s, f, env, types, mem, r);
            let op = dialect::spec_as_module::<Mem>(inst, mem);
            let args = inst::args_of(
                env.def(inst.function).params@,
                env.def(inst.function).varargs,
                inst.args,
                f.extra,
                f.blocks,
            );
            &&& keeps(s, after)
            &&& op != Some(Mem::Load) && op != Some(Mem::Store) && op != Some(Mem::MemberPtr)
                && is_handed_on(args, value) && points_into(f, types, mem, value, decl) ==> is_kept(
                after,
                decl,
            )
            &&& op == Some(Mem::Store) && scan::decl_offset(
                f,
                types,
                mem,
                scan::ref_arg(scan::op_args(f, inst, Mem::Store), 0),
            ) is Some && scan::ref_arg(scan::op_args(f, inst, Mem::Store), 1) == value
                && points_into(f, types, mem, value, decl) ==> is_kept(after, decl)
        }),
{
    let inst = f.insts[r.0 as int];
    let after = scan::scan_inst(s, f, env, types, mem, r);
    let args = inst::args_of(
        env.def(inst.function).params@,
        env.def(inst.function).varargs,
        inst.args,
        f.extra,
        f.blocks,
    );
    lemma_args(s, f, types, mem, args);
    match dialect::spec_as_module::<Mem>(inst, mem) {
        Some(Mem::Load) => {
            let pointer = scan::ref_arg(scan::op_args(f, inst, Mem::Load), 0);
            if let Some((d, offset)) = scan::decl_offset(f, types, mem, pointer) {
                let ps = scan::parts(types, inst.ty, offset);
                lemma_access(s, types, d, AccessType::Load, r, ps);
                let a = s.access(types, d, AccessType::Load, r, ps);
                assert forall|x: Ref| is_kept(s, x) implies #[trigger] is_kept(after, x) by {
                    assert(is_kept(a, x));
                    lemma_beside(a, after.zero_sized, x);
                }
            }
        },
        Some(Mem::Store) => {
            let store_args = scan::op_args(f, inst, Mem::Store);
            let stored = scan::ref_arg(store_args, 1);
            if let Some((d, offset)) = scan::decl_offset(
                f,
                types,
                mem,
                scan::ref_arg(store_args, 0),
            ) {
                let ps = scan::parts(types, scan::value_type(f, stored), offset);
                lemma_access(s, types, d, AccessType::Store, r, ps);
                let a = s.access(types, d, AccessType::Store, r, ps);
                let b = if scan::no_scalars(types, ps) {
                    ScanView { zero_sized: a.zero_sized.push(r), ..a }
                } else {
                    a
                };
                assert forall|x: Ref| is_kept(s, x) implies #[trigger] is_kept(b, x) by {
                    assert(is_kept(a, x));
                    lemma_beside(a, b.zero_sized, x);
                }
                lemma_disqualified(b, f, types, mem, stored);
            }
        },
        Some(Mem::MemberPtr) => {
            let pointer = scan::ref_arg(scan::op_args(f, inst, Mem::MemberPtr), 0);
            if let Some((d, _)) = scan::decl_offset(f, types, mem, pointer) {
                let e = EntryView { uses: s.entry(d).uses.push(r), ..s.entry(d) };
                lemma_own(s, d);
                lemma_set(s, d, e, d);
                assert forall|x: Ref| is_kept(s, x) implies #[trigger] is_kept(after, x) by {
                    lemma_set(s, d, e, x);
                }
            }
        },
        _ => {},
    }
}

proof fn lemma_tuple_parts(
    types: Seq<TypeView>,
    elements: Seq<Element>,
    offset: int,
    n: int,
    j: int,
)
    requires
        0 <= j < n <= elements.len(),
        scan::size_of(types, elements[j].ty) > 0,
    ensures
        exists|k: int|
            0 <= k < scan::tuple_parts(types, elements, offset, n).len()
                && #[trigger] scan::tuple_parts(types, elements, offset, n)[k] == (Part {
                size: scan::size_of(types, elements[j].ty),
                offset: (offset + elements[j].offset) as u64,
                index: Some(j as u32),
                ty: elements[j].ty,
            }),
    decreases n,
{
    let all = scan::tuple_parts(types, elements, offset, n);
    let before = scan::tuple_parts(types, elements, offset, n - 1);
    let part = Part {
        size: scan::size_of(types, elements[j].ty),
        offset: (offset + elements[j].offset) as u64,
        index: Some(j as u32),
        ty: elements[j].ty,
    };
    if j == n - 1 {
        assert(all[before.len() as int] == part);
    } else {
        lemma_tuple_parts(types, elements, offset, n - 1, j);
        let k = choose|k: int| 0 <= k < before.len() && #[trigger] before[k] == part;
        assert(all[k] == part);
    }
}

/// What a load reads of a variable is noted: the whole value, or each element of a tuple that
/// takes room, where it begins and how long it is. Where an element is not primitive the memory
/// is needed.
#[verifier::spinoff_prover]
#[verifier::rlimit(50)]
pub proof fn loads_are_noted(
    s: ScanView,
    f: FunctionView,
    env: &Environment,
    types: Seq<TypeView>,
    mem: ModuleId,
    r: Ref,
    decl: Ref,
    offset: int,
    j: int,
)
    requires
        r.0 < f.insts.len(),
        dialect::spec_as_module::<Mem>(f.insts[r.0 as int], mem) == Some(Mem::Load),
        scan::decl_offset(
            f,
            types,
            mem,
            scan::ref_arg(scan::op_args(f, f.insts[r.0 as int], Mem::Load), 0),
        ) == Some((decl, offset)),
        f.insts[r.0 as int].ty.0 < types.len(),
    ensures
        ({
            let ty = f.insts[r.0 as int].ty;
            let e = scan::scan_inst(s, f, env, types, mem, r).entry(decl);
            match types[ty.0 as int].shape {
                ShapeView::Tuple(elements) => 0 <= j < elements.len() && scan::size_of(
                    types,
                    elements[j].ty,
                ) > 0 ==> is_noted(
                    e,
                    types,
                    AccessType::Load,
                    r,
                    elements[j].ty,
                    offset + elements[j].offset,
                    Some(j as u32),
                ),
                _ => scan::size_of(types, ty) > 0 ==> is_noted(
                    e,
                    types,
                    AccessType::Load,
                    r,
                    ty,
                    offset,
                    None,
                ),
            }
        }),
{
    let ty = f.insts[r.0 as int].ty;
    let ps = scan::parts(types, ty, offset);
    let a = s.access(types, decl, AccessType::Load, r, ps);
    lemma_access(s, types, decl, AccessType::Load, r, ps);
    lemma_accessed(s.entry(decl), types, AccessType::Load, r, ps);
    lemma_beside(a, scan::scan_inst(s, f, env, types, mem, r).zero_sized, decl);
    match types[ty.0 as int].shape {
        ShapeView::Tuple(elements) => {
            if 0 <= j < elements.len() && scan::size_of(types, elements[j].ty) > 0 {
                lemma_tuple_parts(types, elements, offset, elements.len() as int, j);
            }
        },
        _ => {
            if scan::size_of(types, ty) > 0 {
                assert(ps[0].ty == ty);
            }
        },
    }
}

/// The access to a value of the type at the place is noted, or the memory is needed.
pub open spec fn is_noted(
    e: EntryView,
    types: Seq<TypeView>,
    access: AccessType,
    location: Ref,
    ty: TypeId,
    offset: int,
    index: Option<u32>,
) -> bool {
    match types::primitive_of(types, ty) {
        Some(p) => e.accesses.contains(
            Access {
                access,
                location,
                size: scan::size_of(types, ty),
                offset: offset as u64,
                ty: p,
                index,
            },
        ),
        None => e.disqualified,
    }
}

/// What a store writes of a variable is noted like what a load reads.
#[verifier::spinoff_prover]
#[verifier::rlimit(50)]
pub proof fn stores_are_noted(
    s: ScanView,
    f: FunctionView,
    env: &Environment,
    types: Seq<TypeView>,
    mem: ModuleId,
    r: Ref,
    decl: Ref,
    offset: int,
    j: int,
)
    requires
        r.0 < f.insts.len(),
        dialect::spec_as_module::<Mem>(f.insts[r.0 as int], mem) == Some(Mem::Store),
        scan::decl_offset(
            f,
            types,
            mem,
            scan::ref_arg(scan::op_args(f, f.insts[r.0 as int], Mem::Store), 0),
        ) == Some((decl, offset)),
        scan::value_type(
            f,
            scan::ref_arg(scan::op_args(f, f.insts[r.0 as int], Mem::Store), 1),
        ).0 < types.len(),
    ensures
        ({
            let ty = scan::value_type(
                f,
                scan::ref_arg(scan::op_args(f, f.insts[r.0 as int], Mem::Store), 1),
            );
            let e = scan::scan_inst(s, f, env, types, mem, r).entry(decl);
            match types[ty.0 as int].shape {
                ShapeView::Tuple(elements) => 0 <= j < elements.len() && scan::size_of(
                    types,
                    elements[j].ty,
                ) > 0 ==> is_noted(
                    e,
                    types,
                    AccessType::Store,
                    r,
                    elements[j].ty,
                    offset + elements[j].offset,
                    Some(j as u32),
                ),
                _ => scan::size_of(types, ty) > 0 ==> is_noted(
                    e,
                    types,
                    AccessType::Store,
                    r,
                    ty,
                    offset,
                    None,
                ),
            }
        }),
{
    let value = scan::ref_arg(scan::op_args(f, f.insts[r.0 as int], Mem::Store), 1);
    let ty = scan::value_type(f, value);
    let ps = scan::parts(types, ty, offset);
    let a = s.access(types, decl, AccessType::Store, r, ps);
    lemma_access(s, types, decl, AccessType::Store, r, ps);
    lemma_accessed(s.entry(decl), types, AccessType::Store, r, ps);
    let b = if scan::no_scalars(types, ps) {
        ScanView { zero_sized: a.zero_sized.push(r), ..a }
    } else {
        a
    };
    lemma_beside(a, b.zero_sized, decl);
    if let Some((d, _)) = scan::decl_offset(f, types, mem, value) {
        lemma_own(b, d);
        lemma_set(b, d, EntryView { disqualified: true, ..b.entry(d) }, decl);
    }
    match types[ty.0 as int].shape {
        ShapeView::Tuple(elements) => {
            if 0 <= j < elements.len() && scan::size_of(types, elements[j].ty) > 0 {
                lemma_tuple_parts(types, elements, offset, elements.len() as int, j);
            }
        },
        _ => {
            if scan::size_of(types, ty) > 0 {
                assert(ps[0].ty == ty);
            }
        },
    }
}

} // verus!
