//! Finding out how the variables of a function are used.
use vstd::prelude::*;

use crate::ir::dialect;
use crate::ir::dialect::{as_module, Dialect, Mem};
use crate::ir::env::Environment;
use crate::ir::function;
use crate::ir::function::{FunctionIr, FunctionView};
use crate::ir::ids::{BlockId, ModuleId, Ref, TypeId};
use crate::ir::inst;
use crate::ir::inst::{decode_args, Argument, ArgumentView, Instruction};
use crate::ir::optimize::partition::{Access, AccessType};
use crate::ir::types;
use crate::ir::types::{Element, Shape, ShapeView, TypeView, Types};

verus! {

/// The arguments of an instruction of a dialect.
pub open spec fn op_args<D: Dialect>(f: FunctionView, inst: Instruction, op: D) -> Seq<
    ArgumentView,
> {
    inst::args_of(op.spec_params(), op.spec_varargs(), inst.args, f.extra, f.blocks)
}

pub open spec fn ref_arg(args: Seq<ArgumentView>, k: int) -> Ref {
    match args[k] {
        ArgumentView::Ref(r) => r,
        _ => Ref::unit(),
    }
}

pub open spec fn type_arg(args: Seq<ArgumentView>, k: int) -> TypeId {
    match args[k] {
        ArgumentView::TypeId(t) => t,
        _ => TypeId::unit(),
    }
}

pub open spec fn int32_arg(args: Seq<ArgumentView>, k: int) -> u32 {
    match args[k] {
        ArgumentView::Int32(i) => i,
        _ => 0,
    }
}

/// Reads the arguments of an instruction of a dialect.
pub fn typed_args<D: Dialect>(f: &FunctionIr, inst: &Instruction, op: D) -> (args: Vec<Argument>)
    requires
        op.spec_params().len() <= u32::MAX,
        op.spec_varargs() is None,
    ensures
        inst::views(args@) == op_args(f@, *inst, op),
        args@.len() == op.spec_params().len(),
{
    let params = op.params();
    let args: Vec<Argument> = decode_args(&params, op.varargs(), inst.args, &f.extra, &f.blocks);
    proof {
        inst::arguments_have_their_kinds(
            inst::full_params(op.spec_params(), op.spec_varargs(), inst.args),
            0,
            inst::stored_inline(op.spec_params(), op.spec_varargs()),
            inst.args,
            f@.extra,
            f@.blocks,
        );
        assert(inst::views(args@).len() == args@.len());
    }
    args
}

pub fn get_ref(args: &Vec<Argument>, k: usize) -> (r: Ref)
    requires
        k < args@.len(),
    ensures
        r == ref_arg(inst::views(args@), k as int),
{
    match &args[k] {
        Argument::Ref(r) => *r,
        _ => Ref::unit(),
    }
}

pub fn get_type(args: &Vec<Argument>, k: usize) -> (r: TypeId)
    requires
        k < args@.len(),
    ensures
        r == type_arg(inst::views(args@), k as int),
{
    match &args[k] {
        Argument::TypeId(r) => *r,
        _ => TypeId::unit(),
    }
}

pub fn get_int32(args: &Vec<Argument>, k: usize) -> (r: u32)
    requires
        k < args@.len(),
    ensures
        r == int32_arg(inst::views(args@), k as int),
{
    match &args[k] {
        Argument::Int32(r) => *r,
        _ => 0,
    }
}

/// Where an element of a tuple begins.
pub open spec fn member_offset(types: Seq<TypeView>, ty: TypeId, idx: u32) -> Option<u64> {
    if ty.0 < types.len() {
        match types[ty.0 as int].shape {
            ShapeView::Tuple(elements) => if idx == 0 {
                Some(0)
            } else if idx < elements.len() {
                Some(elements[idx as int].offset)
            } else {
                None
            },
            _ => None,
        }
    } else {
        None
    }
}

/// The variable that a pointer leads to through elements of tuples, and how far
/// inside it points. At most `fuel` steps are taken.
pub open spec fn decl_of(
    f: FunctionView,
    types: Seq<TypeView>,
    mem: ModuleId,
    r: Ref,
    fuel: nat,
) -> Option<(Ref, int)>
    decreases fuel,
{
    if fuel == 0 || !r.spec_is_ref() || r.0 >= f.insts.len() {
        None
    } else {
        let inst = f.insts[r.0 as int];
        match dialect::spec_as_module::<Mem>(inst, mem) {
            Some(Mem::Decl) => Some((r, 0)),
            Some(Mem::MemberPtr) => {
                let args = op_args(f, inst, Mem::MemberPtr);
                match member_offset(types, type_arg(args, 1), int32_arg(args, 2)) {
                    None => None,
                    Some(o) => match decl_of(
                        f,
                        types,
                        mem,
                        ref_arg(args, 0),
                        (fuel - 1) as nat,
                    ) {
                        Some((d, offset)) => Some((d, offset + o)),
                        None => None,
                    },
                }
            },
            _ => None,
        }
    }
}

/// The variable that a pointer leads to.
pub open spec fn decl_offset(f: FunctionView, types: Seq<TypeView>, mem: ModuleId, r: Ref) -> Option<
    (Ref, int),
> {
    decl_of(f, types, mem, r, f.insts.len())
}

/// The sum of the offsets of the elements that a pointer leads through, whether it leads to a
/// variable or not.
pub open spec fn summed_offset(
    f: FunctionView,
    types: Seq<TypeView>,
    mem: ModuleId,
    r: Ref,
    fuel: nat,
) -> int
    decreases fuel,
{
    if fuel == 0 || !r.spec_is_ref() || r.0 >= f.insts.len() {
        0
    } else {
        let inst = f.insts[r.0 as int];
        match dialect::spec_as_module::<Mem>(inst, mem) {
            Some(Mem::MemberPtr) => {
                let args = op_args(f, inst, Mem::MemberPtr);
                match member_offset(types, type_arg(args, 1), int32_arg(args, 2)) {
                    None => 0,
                    Some(o) => o + summed_offset(
                        f,
                        types,
                        mem,
                        ref_arg(args, 0),
                        (fuel - 1) as nat,
                    ),
                }
            },
            _ => 0,
        }
    }
}

/// The offset that a pointer adds up to can be counted.
pub open spec fn offset_fits(f: FunctionView, types: Seq<TypeView>, mem: ModuleId, r: Ref) -> bool {
    summed_offset(f, types, mem, r, f.insts.len()) <= u64::MAX
}

proof fn lemma_decl_of(f: FunctionView, types: Seq<TypeView>, mem: ModuleId, r: Ref, fuel: nat)
    ensures
        0 <= summed_offset(f, types, mem, r, fuel),
        decl_of(f, types, mem, r, fuel) matches Some((d, offset)) ==> {
            &&& offset == summed_offset(f, types, mem, r, fuel)
            &&& d.0 < f.insts.len()
            &&& dialect::spec_as_module::<Mem>(f.insts[d.0 as int], mem) == Some(Mem::Decl)
        },
    decreases fuel,
{
    if fuel > 0 && r.spec_is_ref() && r.0 < f.insts.len() {
        let inst = f.insts[r.0 as int];
        if dialect::spec_as_module::<Mem>(inst, mem) == Some(Mem::MemberPtr) {
            let args = op_args(f, inst, Mem::MemberPtr);
            lemma_decl_of(f, types, mem, ref_arg(args, 0), (fuel - 1) as nat);
        }
    }
}

fn find_member_offset(types: &Types, ty: TypeId, idx: u32) -> (o: Option<u64>)
    ensures
        o == member_offset(types@, ty, idx),
{
    if (ty.0 as usize) < types.types.len() {
        assert(types@[ty.0 as int] == types.types@[ty.0 as int]@);
        match &types.types[ty.0 as usize].shape {
            Shape::Tuple(elements) => if idx == 0 {
                Some(0)
            } else if (idx as usize) < elements.len() {
                Some(elements[idx as usize].offset)
            } else {
                None
            },
            _ => None,
        }
    } else {
        None
    }
}

/// Find the Decl location and offset of a ptr Ref
pub fn find_decl_offset_of_ptr(f: &FunctionIr, types: &Types, mem: ModuleId, r: Ref) -> (d: Option<
    (Ref, u64),
>)
    requires
        offset_fits(f@, types@, mem, r),
    ensures
        match d {
            Some((decl, offset)) => decl_offset(f@, types@, mem, r) == Some((decl, offset as int)),
            None => decl_offset(f@, types@, mem, r) is None,
        },
{
    let mut offset: u64 = 0;
    let mut at: Ref = r;
    let mut fuel: usize = f.insts.len();
    let total: usize = f.insts.len();
    while fuel > 0
        invariant
            fuel <= total,
            total == f@.insts.len(),
            offset + summed_offset(f@, types@, mem, at, fuel as nat) <= u64::MAX,
            match decl_of(f@, types@, mem, at, fuel as nat) {
                Some((d, o)) => decl_offset(f@, types@, mem, r) == Some((d, o + offset)),
                None => decl_offset(f@, types@, mem, r) is None,
            },
        decreases fuel,
    {
        if !at.is_ref() || at.idx() >= total {
            return None;
        }
        let inst: &Instruction = &f.insts[at.idx()];
        match as_module::<Mem>(inst, mem) {
            Some(Mem::Decl) => {
                return Some((at, offset));
            },
            Some(Mem::MemberPtr) => {
                let args: Vec<Argument> = typed_args(f, inst, Mem::MemberPtr);
                let ptr: Ref = get_ref(&args, 0);
                let ty: TypeId = get_type(&args, 1);
                let idx: u32 = get_int32(&args, 2);
                match find_member_offset(types, ty, idx) {
                    None => {
                        return None;
                    },
                    Some(o) => {
                        proof {
                            lemma_decl_of(f@, types@, mem, ptr, (fuel - 1) as nat);
                        }
                        offset = offset + o;
                        at = ptr;
                        fuel = fuel - 1;
                    },
                }
            },
            _ => {
                return None;
            },
        }
    }
    None
}

/// A part of a value that is accessed on its own.
#[derive(Clone, Copy, Debug, PartialEq, Eq, Structural)]
pub struct Part {
    pub size: u64,
    pub offset: u64,
    pub index: Option<u32>,
    pub ty: TypeId,
}

pub open spec fn size_of(types: Seq<TypeView>, ty: TypeId) -> u64 {
    if ty.0 < types.len() {
        types[ty.0 as int].layout.size
    } else {
        0
    }
}

/// The first `n` elements that take room.
pub open spec fn tuple_parts(
    types: Seq<TypeView>,
    elements: Seq<Element>,
    offset: int,
    n: int,
) -> Seq<Part>
    decreases n,
{
    if n <= 0 {
        Seq::empty()
    } else {
        let before = tuple_parts(types, elements, offset, n - 1);
        let element = elements[n - 1];
        let size = size_of(types, element.ty);
        if size > 0 {
            before.push(
                Part {
                    size,
                    offset: (offset + element.offset) as u64,
                    index: Some((n - 1) as u32),
                    ty: element.ty,
                },
            )
        } else {
            before
        }
    }
}

/// The parts of a value of the type at `offset` that are accessed: the elements of a
/// tuple, or the whole value. What takes no room is left out.
pub open spec fn parts(types: Seq<TypeView>, ty: TypeId, offset: int) -> Seq<Part> {
    if ty.0 < types.len() {
        match types[ty.0 as int].shape {
            ShapeView::Tuple(elements) => tuple_parts(
                types,
                elements,
                offset,
                elements.len() as int,
            ),
            _ => {
                let size = size_of(types, ty);
                if size > 0 {
                    seq![Part { size, offset: offset as u64, index: None, ty }]
                } else {
                    Seq::empty()
                }
            },
        }
    } else {
        Seq::empty()
    }
}

/// The ends of the parts of a value at `offset` that take room can be counted.
pub open spec fn parts_end(types: Seq<TypeView>, ty: TypeId, offset: int) -> bool {
    ty.0 < types.len() ==> match types[ty.0 as int].shape {
        ShapeView::Tuple(elements) => forall|j: int|
            0 <= j < elements.len() && size_of(types, (#[trigger] elements[j]).ty) > 0 ==> offset
                + elements[j].offset + size_of(types, elements[j].ty) <= u64::MAX,
        _ => offset + size_of(types, ty) <= u64::MAX,
    }
}

fn type_size(types: &Types, ty: TypeId) -> (size: u64)
    ensures
        size == size_of(types@, ty),
{
    if (ty.0 as usize) < types.types.len() {
        assert(types@[ty.0 as int] == types.types@[ty.0 as int]@);
        types.types[ty.0 as usize].layout.size
    } else {
        0
    }
}

fn split_accesses(types: &Types, ty: TypeId, offset: u64) -> (ps: Vec<Part>)
    requires
        parts_end(types@, ty, offset as int),
    ensures
        ps@ == parts(types@, ty, offset as int),
{
    let mut ps: Vec<Part> = Vec::new();
    if (ty.0 as usize) < types.types.len() {
        assert(types@[ty.0 as int] == types.types@[ty.0 as int]@);
        match &types.types[ty.0 as usize].shape {
            Shape::Tuple(elements) => {
                let mut i: usize = 0;
                assert(types@[ty.0 as int].shape == ShapeView::Tuple(elements@));
                assert forall|j: int|
                    0 <= j < elements@.len() && size_of(types@, (#[trigger] elements@[j]).ty)
                        > 0 implies offset + elements@[j].offset + size_of(
                    types@,
                    elements@[j].ty,
                ) <= u64::MAX by {
                    let t = types@[ty.0 as int];
                    assert(t.shape->Tuple_0[j] == elements@[j]);
                }
                assert(tuple_parts(types@, elements@, offset as int, 0) =~= Seq::empty());
                while i < elements.len()
                    invariant
                        i <= elements@.len(),
                        forall|j: int|
                            0 <= j < elements@.len() && size_of(
                                types@,
                                (#[trigger] elements@[j]).ty,
                            ) > 0 ==> offset + elements@[j].offset + size_of(
                                types@,
                                elements@[j].ty,
                            ) <= u64::MAX,
                        ps@ =~= tuple_parts(types@, elements@, offset as int, i as int),
                    decreases elements.len() - i,
                {
                    let element: Element = elements[i];
                    let size: u64 = type_size(types, element.ty);
                    if size > 0 {
                        ps.push(
                            Part {
                                size,
                                offset: offset + element.offset,
                                index: Some(i as u32),
                                ty: element.ty,
                            },
                        );
                    }
                    i += 1;
                }
            },
            _ => {
                let size: u64 = type_size(types, ty);
                if size > 0 {
                    ps.push(Part { size, offset, index: None, ty });
                }
                assert(ps@ =~= parts(types@, ty, offset as int));
            },
        }
    }
    ps
}

/// What is known of a variable.
#[derive(Debug)]
pub struct Entry {
    pub decl: Ref,
    pub accesses: Vec<Access>,
    /// The variable is used in a way that needs its memory.
    pub disqualified: bool,
    /// Pointers to elements of the variable.
    pub uses: Vec<Ref>,
}

/// The mathematical content of an [`Entry`].
#[verifier::ext_equal]
pub struct EntryView {
    pub decl: Ref,
    pub accesses: Seq<Access>,
    pub disqualified: bool,
    pub uses: Seq<Ref>,
}

impl View for Entry {
    type V = EntryView;

    open spec fn view(&self) -> EntryView {
        EntryView {
            decl: self.decl,
            accesses: self.accesses@,
            disqualified: self.disqualified,
            uses: self.uses@,
        }
    }
}

/// What is known of the variables of a function, and the accesses that do nothing.
#[derive(Debug)]
pub struct Scan {
    pub entries: Vec<Entry>,
    pub zero_sized: Vec<Ref>,
}

/// The mathematical content of a [`Scan`].
#[verifier::ext_equal]
pub struct ScanView {
    pub entries: Seq<EntryView>,
    pub zero_sized: Seq<Ref>,
}

pub open spec fn entry_views(entries: Seq<Entry>) -> Seq<EntryView> {
    entries.map_values(|e: Entry| e@)
}

impl View for Scan {
    type V = ScanView;

    open spec fn view(&self) -> ScanView {
        ScanView { entries: entry_views(self.entries@), zero_sized: self.zero_sized@ }
    }
}

/// The index of the entry of a variable, or the number of entries.
pub open spec fn entry_index(entries: Seq<EntryView>, decl: Ref) -> int
    decreases entries.len(),
{
    if entries.len() == 0 {
        0
    } else if entries[0].decl == decl {
        0
    } else {
        1 + entry_index(entries.skip(1), decl)
    }
}

pub proof fn lemma_entry_index(entries: Seq<EntryView>, decl: Ref)
    ensures
        0 <= entry_index(entries, decl) <= entries.len(),
        entry_index(entries, decl) < entries.len() ==> entries[entry_index(entries, decl)].decl
            == decl,
    decreases entries.len(),
{
    if entries.len() > 0 && entries[0].decl != decl {
        lemma_entry_index(entries.skip(1), decl);
    }
}

pub(crate) proof fn lemma_entry_index_is(entries: Seq<EntryView>, decl: Ref, k: int)
    requires
        0 <= k <= entries.len(),
        forall|i: int| 0 <= i < k ==> (#[trigger] entries[i]).decl != decl,
        k < entries.len() ==> entries[k].decl == decl,
    ensures
        entry_index(entries, decl) == k,
    decreases entries.len(),
{
    if k > 0 {
        assert(entries[0].decl != decl);
        assert forall|i: int| 0 <= i < k - 1 implies (#[trigger] entries.skip(1)[i]).decl
            != decl by {
            assert(entries.skip(1)[i] == entries[i + 1]);
        }
        lemma_entry_index_is(entries.skip(1), decl, k - 1);
    }
}

impl ScanView {
    /// The entries with one for the variable.
    pub open spec fn with_entry(self, decl: Ref) -> Seq<EntryView> {
        if entry_index(self.entries, decl) < self.entries.len() {
            self.entries
        } else {
            self.entries.push(
                EntryView {
                    decl,
                    accesses: Seq::empty(),
                    disqualified: false,
                    uses: Seq::empty(),
                },
            )
        }
    }

    /// The entry of the variable.
    pub open spec fn entry(self, decl: Ref) -> EntryView {
        self.with_entry(decl)[entry_index(self.entries, decl)]
    }

    pub open spec fn set_entry(self, decl: Ref, e: EntryView) -> ScanView {
        ScanView {
            entries: self.with_entry(decl).update(entry_index(self.entries, decl), e),
            ..self
        }
    }

    pub open spec fn disqualify(self, decl: Ref) -> ScanView {
        self.set_entry(decl, EntryView { disqualified: true, ..self.entry(decl) })
    }

    /// The memory of the variable behind a value is needed.
    pub open spec fn disqualify_value(
        self,
        f: FunctionView,
        types: Seq<TypeView>,
        mem: ModuleId,
        r: Ref,
    ) -> ScanView {
        match decl_offset(f, types, mem, r) {
            Some((decl, _)) => self.disqualify(decl),
            None => self,
        }
    }

    pub open spec fn disqualify_values(
        self,
        f: FunctionView,
        types: Seq<TypeView>,
        mem: ModuleId,
        refs: Seq<Ref>,
    ) -> ScanView
        decreases refs.len(),
    {
        if refs.len() == 0 {
            self
        } else {
            self.disqualify_values(f, types, mem, refs.drop_last()).disqualify_value(
                f,
                types,
                mem,
                refs.last(),
            )
        }
    }

    /// The memory of all variables that the arguments lead to is needed.
    pub open spec fn disqualify_args(
        self,
        f: FunctionView,
        types: Seq<TypeView>,
        mem: ModuleId,
        args: Seq<ArgumentView>,
    ) -> ScanView
        decreases args.len(),
    {
        if args.len() == 0 {
            self
        } else {
            let before = self.disqualify_args(f, types, mem, args.drop_last());
            match args.last() {
                ArgumentView::Ref(r) => before.disqualify_value(f, types, mem, r),
                ArgumentView::BlockTarget(_, refs) => before.disqualify_values(f, types, mem, refs),
                _ => before,
            }
        }
    }

    /// An instruction accesses parts of the variable.
    pub open spec fn access(
        self,
        types: Seq<TypeView>,
        decl: Ref,
        access: AccessType,
        location: Ref,
        ps: Seq<Part>,
    ) -> ScanView {
        self.set_entry(decl, accessed(self.entry(decl), types, access, location, ps))
    }
}

/// The entry after parts of the variable were accessed. Only primitive parts are
/// handled.
pub open spec fn accessed(
    e: EntryView,
    types: Seq<TypeView>,
    access: AccessType,
    location: Ref,
    ps: Seq<Part>,
) -> EntryView
    decreases ps.len(),
{
    if ps.len() == 0 {
        e
    } else {
        let before = accessed(e, types, access, location, ps.drop_last());
        let p = ps.last();
        match types::primitive_of(types, p.ty) {
            Some(ty) => EntryView {
                accesses: before.accesses.push(
                    Access { access, location, size: p.size, offset: p.offset, ty, index: p.index },
                ),
                ..before
            },
            None => EntryView { disqualified: true, ..before },
        }
    }
}

/// No part is a primitive value.
pub open spec fn no_scalars(types: Seq<TypeView>, ps: Seq<Part>) -> bool {
    forall|i: int| 0 <= i < ps.len() ==> types::primitive_of(types, (#[trigger] ps[i]).ty) is None
}

fn has_scalars(types: &Types, ps: &Vec<Part>) -> (has: bool)
    ensures
        has == !no_scalars(types@, ps@),
{
    let mut i: usize = 0;
    while i < ps.len()
        invariant
            i <= ps@.len(),
            forall|j: int|
                0 <= j < i ==> types::primitive_of(types@, (#[trigger] ps@[j]).ty) is None,
        decreases ps.len() - i,
    {
        if types.primitive(ps[i].ty).is_some() {
            assert(types::primitive_of(types@, ps@[i as int].ty) is Some);
            return true;
        }
        i += 1;
    }
    false
}

/// The type of a value.
pub open spec fn value_type(f: FunctionView, r: Ref) -> TypeId {
    if r.spec_is_ref() && r.0 < f.insts.len() {
        f.insts[r.0 as int].ty
    } else {
        TypeId::i1()
    }
}

/// The ends of what the instruction reads or writes of a variable can be counted.
pub open spec fn access_ends(f: FunctionView, types: Seq<TypeView>, mem: ModuleId, r: Ref) -> bool {
    let inst = f.insts[r.0 as int];
    match dialect::spec_as_module::<Mem>(inst, mem) {
        Some(Mem::Load) => decl_offset(
            f,
            types,
            mem,
            ref_arg(op_args(f, inst, Mem::Load), 0),
        ) matches Some((_, offset)) ==> parts_end(types, inst.ty, offset),
        Some(Mem::Store) => {
            let args = op_args(f, inst, Mem::Store);
            decl_offset(f, types, mem, ref_arg(args, 0)) matches Some((_, offset)) ==> parts_end(
                types,
                value_type(f, ref_arg(args, 1)),
                offset,
            )
        },
        _ => true,
    }
}

/// Primitive types have the size of their values. Offsets that pointers add up to can be
/// counted, and so can the ends of what is read and written there.
pub open spec fn measurable(f: FunctionView, types: Seq<TypeView>, mem: ModuleId) -> bool {
    &&& types::layouts_fit(types)
    &&& forall|r: Ref| #[trigger] offset_fits(f, types, mem, r)
    &&& forall|i: int|
        0 <= i < f.insts.len() && i <= u32::MAX ==> #[trigger] access_ends(
            f,
            types,
            mem,
            Ref(i as u32),
        )
}

/// What an instruction tells of the variables.
pub open spec fn scan_inst(
    s: ScanView,
    f: FunctionView,
    env: &Environment,
    types: Seq<TypeView>,
    mem: ModuleId,
    r: Ref,
) -> ScanView {
    let inst = f.insts[r.0 as int];
    let other = s.disqualify_args(
        f,
        types,
        mem,
        inst::args_of(
            env.def(inst.function).params@,
            env.def(inst.function).varargs,
            inst.args,
            f.extra,
            f.blocks,
        ),
    );
    match dialect::spec_as_module::<Mem>(inst, mem) {
        Some(Mem::Load) => {
            let args = op_args(f, inst, Mem::Load);
            match decl_offset(f, types, mem, ref_arg(args, 0)) {
                Some((decl, offset)) => {
                    let ps = parts(types, inst.ty, offset);
                    let after = s.access(types, decl, AccessType::Load, r, ps);
                    if ps.len() == 0 && !after.entry(decl).disqualified {
                        ScanView { zero_sized: after.zero_sized.push(r), ..after }
                    } else {
                        after
                    }
                },
                None => other,
            }
        },
        Some(Mem::Store) => {
            let args = op_args(f, inst, Mem::Store);
            let value = ref_arg(args, 1);
            match decl_offset(f, types, mem, ref_arg(args, 0)) {
                Some((decl, offset)) => {
                    let ps = parts(types, value_type(f, value), offset);
                    let after = s.access(types, decl, AccessType::Store, r, ps);
                    let after = if no_scalars(types, ps) {
                        ScanView { zero_sized: after.zero_sized.push(r), ..after }
                    } else {
                        after
                    };
                    after.disqualify_value(f, types, mem, value)
                },
                None => other,
            }
        },
        Some(Mem::MemberPtr) => {
            let args = op_args(f, inst, Mem::MemberPtr);
            match decl_offset(f, types, mem, ref_arg(args, 0)) {
                Some((decl, _)) => s.set_entry(
                    decl,
                    EntryView { uses: s.entry(decl).uses.push(r), ..s.entry(decl) },
                ),
                None => other,
            }
        },
        _ => other,
    }
}

/// What `n` instructions from `start` on tell.
pub open spec fn scan_range(
    s: ScanView,
    f: FunctionView,
    env: &Environment,
    types: Seq<TypeView>,
    mem: ModuleId,
    start: int,
    n: int,
) -> ScanView
    decreases n,
{
    if n <= 0 {
        s
    } else {
        scan_inst(
            scan_range(s, f, env, types, mem, start, n - 1),
            f,
            env,
            types,
            mem,
            Ref((start + n - 1) as u32),
        )
    }
}

/// What blocks tell, in the order in which they are listed.
pub open spec fn scan_blocks(
    f: FunctionView,
    env: &Environment,
    types: Seq<TypeView>,
    mem: ModuleId,
    order: Seq<BlockId>,
) -> ScanView
    decreases order.len(),
{
    if order.len() == 0 {
        ScanView { entries: Seq::empty(), zero_sized: Seq::empty() }
    } else {
        let b = f.blocks[order.last().0 as int];
        scan_range(
            scan_blocks(f, env, types, mem, order.drop_last()),
            f,
            env,
            types,
            mem,
            b.body_idx as int,
            b.len as int,
        )
    }
}

impl Scan {
    /// The index of the entry of the variable, which is made where it is missing.
    fn entry(&mut self, decl: Ref) -> (k: usize)
        ensures
            k == entry_index(old(self)@.entries, decl),
            final(self)@.entries == old(self)@.with_entry(decl),
            final(self).zero_sized == old(self).zero_sized,
            k < final(self)@.entries.len(),
    {
        let ghost before = self@.entries;
        let mut k: usize = 0;
        while k < self.entries.len() && self.entries[k].decl != decl
            invariant
                k <= self.entries@.len(),
                self@.entries == before,
                forall|i: int| 0 <= i < k ==> (#[trigger] before[i]).decl != decl,
            decreases self.entries.len() - k,
        {
            assert(before[k as int] == self.entries@[k as int]@);
            k += 1;
        }
        proof {
            if k < self.entries@.len() {
                assert(before[k as int] == self.entries@[k as int]@);
            }
            lemma_entry_index_is(before, decl, k as int);
        }
        if k == self.entries.len() {
            let e = Entry { decl, accesses: Vec::new(), disqualified: false, uses: Vec::new() };
            assert(e@ =~= EntryView {
                decl,
                accesses: Seq::empty(),
                disqualified: false,
                uses: Seq::empty(),
            });
            self.entries.push(e);
            assert(self@.entries =~= before.push(self.entries@[k as int]@));
        }
        k
    }

    fn disqualify_value(&mut self, f: &FunctionIr, types: &Types, mem: ModuleId, r: Ref)
        requires
            measurable(f@, types@, mem),
            f@.insts.len() <= u32::MAX,
        ensures
            final(self)@ == old(self)@.disqualify_value(f@, types@, mem, r),
    {
        let ghost before = self@;
        assert(offset_fits(f@, types@, mem, r));
        if let Some((decl, _)) = find_decl_offset_of_ptr(f, types, mem, r) {
            let k: usize = self.entry(decl);
            let ghost mid = self@.entries;
            self.entries[k].disqualified = true;
            assert(self@.entries =~= mid.update(
                k as int,
                EntryView { disqualified: true, ..mid[k as int] },
            ));
            assert(self@ =~= before.disqualify(decl));
        }
    }

    fn disqualify_values(&mut self, f: &FunctionIr, types: &Types, mem: ModuleId, refs: &Vec<Ref>)
        requires
            measurable(f@, types@, mem),
            f@.insts.len() <= u32::MAX,
        ensures
            final(self)@ == old(self)@.disqualify_values(f@, types@, mem, refs@),
    {
        let ghost before = self@;
        let ghost all = refs@;
        let mut i: usize = 0;
        assert(all.take(0) =~= Seq::empty());
        while i < refs.len()
            invariant
                i <= refs@.len(),
                all == refs@,
                measurable(f@, types@, mem),
                f@.insts.len() <= u32::MAX,
                self@ == before.disqualify_values(f@, types@, mem, all.take(i as int)),
            decreases refs.len() - i,
        {
            assert(all.take(i + 1).drop_last() =~= all.take(i as int));
            self.disqualify_value(f, types, mem, refs[i]);
            i += 1;
        }
        assert(all.take(i as int) =~= all);
    }

    fn disqualify_args(&mut self, f: &FunctionIr, types: &Types, mem: ModuleId, args: &Vec<Argument>)
        requires
            measurable(f@, types@, mem),
            f@.insts.len() <= u32::MAX,
        ensures
            final(self)@ == old(self)@.disqualify_args(f@, types@, mem, inst::views(args@)),
    {
        let ghost before = self@;
        let ghost all = inst::views(args@);
        let mut i: usize = 0;
        assert(all.take(0) =~= Seq::empty());
        while i < args.len()
            invariant
                i <= args@.len(),
                all == inst::views(args@),
                measurable(f@, types@, mem),
                f@.insts.len() <= u32::MAX,
                self@ == before.disqualify_args(f@, types@, mem, all.take(i as int)),
            decreases args.len() - i,
        {
            proof {
                assert(all.take(i + 1).drop_last() =~= all.take(i as int));
                assert(all.take(i + 1).last() == args@[i as int]@);
            }
            match &args[i] {
                Argument::Ref(r) => self.disqualify_value(f, types, mem, *r),
                Argument::BlockTarget(_, refs) => self.disqualify_values(f, types, mem, refs),
                _ => {},
            }
            i += 1;
        }
        assert(all.take(i as int) =~= all);
    }

    fn access(
        &mut self,
        types: &Types,
        decl: Ref,
        access: AccessType,
        location: Ref,
        ps: &Vec<Part>,
    ) -> (k: usize)
        ensures
            final(self)@ == old(self)@.access(types@, decl, access, location, ps@),
            k == entry_index(final(self)@.entries, decl),
            k < final(self)@.entries.len(),
            final(self)@.entries[k as int] == final(self)@.entry(decl),
    {
        let ghost before = self@;
        let k: usize = self.entry(decl);
        let ghost mid = self@.entries;
        let ghost start = mid[k as int];
        let ghost all = ps@;
        let ghost zero0 = self.zero_sized@;
        let mut i: usize = 0;
        proof {
            assert(all.take(0) =~= Seq::empty());
            assert(mid.update(k as int, start) =~= mid);
        }
        while i < ps.len()
            invariant
                i <= ps@.len(),
                all == ps@,
                k < mid.len(),
                self.entries@.len() == mid.len(),
                self.zero_sized@ == zero0,
                self@.entries == mid.update(
                    k as int,
                    accessed(start, types@, access, location, all.take(i as int)),
                ),
            decreases ps.len() - i,
        {
            assert(all.take(i + 1).drop_last() =~= all.take(i as int));
            let p: Part = ps[i];
            let ghost now = self@.entries;
            assert(self.entries@[k as int]@ == now[k as int]);
            match types.primitive(p.ty) {
                Some(ty) => {
                    self.entries[k].accesses.push(
                        Access {
                            access,
                            location,
                            size: p.size,
                            offset: p.offset,
                            ty,
                            index: p.index,
                        },
                    );
                },
                None => {
                    self.entries[k].disqualified = true;
                },
            }
            proof {
                let e = accessed(start, types@, access, location, all.take(i + 1));
                assert(self.entries@[k as int]@ =~= e);
                assert forall|j: int| 0 <= j < mid.len() && j != k implies self@.entries[j]
                    == mid[j] by {
                    assert(now[j] == mid[j]);
                    assert(self@.entries[j] == now[j]);
                }
                assert(self@.entries =~= mid.update(k as int, e));
            }
            i += 1;
        }
        proof {
            assert(all.take(i as int) =~= all);
            assert(self@ =~= before.access(types@, decl, access, location, ps@));
            lemma_accessed_decl(start, types@, access, location, ps@);
            lemma_entry_index(before.entries, decl);
            lemma_index_stays(before, decl, self@.entries[k as int]);
        }
        k
    }

    fn scan_inst(
        &mut self,
        f: &FunctionIr,
        env: &Environment,
        types: &Types,
        mem: ModuleId,
        r: Ref,
    )
        requires
            measurable(f@, types@, mem),
            f@.insts.len() <= u32::MAX,
            r.0 < f@.insts.len(),
            env.has(f@.insts[r.0 as int].function),
            env.def(f@.insts[r.0 as int].function).params@.len() <= u32::MAX,
        ensures
            final(self)@ == scan_inst(old(self)@, f@, env, types@, mem, r),
    {
        let ghost before = self@;
        let inst: &Instruction = &f.insts[r.idx()];
        match as_module::<Mem>(inst, mem) {
            Some(Mem::Load) => {
                let args: Vec<Argument> = typed_args(f, inst, Mem::Load);
                assert(offset_fits(f@, types@, mem, ref_arg(inst::views(args@), 0)));
                if let Some((decl, offset)) = find_decl_offset_of_ptr(
                    f,
                    types,
                    mem,
                    get_ref(&args, 0),
                ) {
                    assert(access_ends(f@, types@, mem, Ref(r.0 as int as u32)));
                    let ps: Vec<Part> = split_accesses(types, inst.ty, offset);
                    let k: usize = self.access(types, decl, AccessType::Load, r, &ps);
                    assert(self.entries@[k as int]@ == self@.entries[k as int]);
                    if ps.len() == 0 && !self.entries[k].disqualified {
                        // zero-sized load
                        self.zero_sized.push(r);
                    }
                    return ;
                }
            },
            Some(Mem::Store) => {
                let args: Vec<Argument> = typed_args(f, inst, Mem::Store);
                assert(offset_fits(f@, types@, mem, ref_arg(inst::views(args@), 0)));
                if let Some((decl, offset)) = find_decl_offset_of_ptr(
                    f,
                    types,
                    mem,
                    get_ref(&args, 0),
                ) {
                    assert(access_ends(f@, types@, mem, Ref(r.0 as int as u32)));
                    let value: Ref = get_ref(&args, 1);
                    let ty: TypeId = if value.is_ref() && value.idx() < f.insts.len() {
                        f.insts[value.idx()].ty
                    } else {
                        TypeId::i1()
                    };
                    let ps: Vec<Part> = split_accesses(types, ty, offset);
                    let k: usize = self.access(types, decl, AccessType::Store, r, &ps);
                    if !has_scalars(types, &ps) {
                        // zero-sized store
                        self.zero_sized.push(r);
                    }
                    // still disqualify Decl used in value
                    self.disqualify_value(f, types, mem, value);
                    return ;
                }
            },
            Some(Mem::MemberPtr) => {
                let args: Vec<Argument> = typed_args(f, inst, Mem::MemberPtr);
                assert(offset_fits(f@, types@, mem, ref_arg(inst::views(args@), 0)));
                if let Some((decl, _)) = find_decl_offset_of_ptr(
                    f,
                    types,
                    mem,
                    get_ref(&args, 0),
                ) {
                    let k: usize = self.entry(decl);
                    let ghost mid = self@.entries;
                    self.entries[k].uses.push(r);
                    proof {
                        let e = EntryView { uses: mid[k as int].uses.push(r), ..mid[k as int] };
                        assert(self.entries@[k as int]@ =~= e);
                        assert(self@.entries =~= mid.update(k as int, e));
                        assert(self@ =~= before.set_entry(decl, e));
                    }
                    return ;
                }
            },
            _ => {},
        }
        // disqualify all Decls referenced (indirectly)
        let def = env.get(inst.function);
        let args: Vec<Argument> = decode_args(
            &def.params,
            def.varargs,
            inst.args,
            &f.extra,
            &f.blocks,
        );
        self.disqualify_args(f, types, mem, &args);
    }
}

proof fn lemma_accessed_decl(
    e: EntryView,
    types: Seq<TypeView>,
    access: AccessType,
    location: Ref,
    ps: Seq<Part>,
)
    ensures
        accessed(e, types, access, location, ps).decl == e.decl,
        accessed(e, types, access, location, ps).uses == e.uses,
    decreases ps.len(),
{
    if ps.len() > 0 {
        lemma_accessed_decl(e, types, access, location, ps.drop_last());
    }
}

proof fn lemma_index_stays(s: ScanView, decl: Ref, e: EntryView)
    requires
        e.decl == decl,
    ensures
        entry_index(s.set_entry(decl, e).entries, decl) == entry_index(s.entries, decl),
        entry_index(s.entries, decl) < s.set_entry(decl, e).entries.len(),
        s.set_entry(decl, e).entry(decl) == e,
{
    let k = entry_index(s.entries, decl);
    lemma_entry_index(s.entries, decl);
    lemma_before_index(s.entries, decl);
    let new = s.set_entry(decl, e).entries;
    assert forall|i: int| 0 <= i < k implies (#[trigger] new[i]).decl != decl by {
        assert(new[i] == s.entries[i]);
    }
    lemma_entry_index_is(new, decl, k);
}

proof fn lemma_before_index(entries: Seq<EntryView>, decl: Ref)
    ensures
        forall|i: int|
            0 <= i < entry_index(entries, decl) ==> (#[trigger] entries[i]).decl != decl,
    decreases entries.len(),
{
    if entries.len() > 0 && entries[0].decl != decl {
        lemma_before_index(entries.skip(1), decl);
        lemma_entry_index(entries.skip(1), decl);
        assert forall|i: int| 0 <= i < entry_index(entries, decl) implies (#[trigger] entries[i]).decl
            != decl by {
            if i > 0 {
                assert(entries.skip(1)[i - 1] == entries[i]);
            }
        }
    }
}

pub proof fn lemma_offset_bound(f: FunctionView, types: Seq<TypeView>, mem: ModuleId, r: Ref)
    requires
        offset_fits(f, types, mem, r),
    ensures
        decl_offset(f, types, mem, r) matches Some((d, offset)) ==> {
            &&& 0 <= offset <= u64::MAX
            &&& d.0 < f.insts.len()
            &&& dialect::spec_as_module::<Mem>(f.insts[d.0 as int], mem) == Some(Mem::Decl)
        },
{
    lemma_decl_of(f, types, mem, r, f.insts.len());
}

/// Looks at the instructions of blocks in the given order.
pub fn scan(
    f: &FunctionIr,
    env: &Environment,
    types: &Types,
    mem: ModuleId,
    order: &Vec<BlockId>,
) -> (s: Scan)
    requires
        measurable(f@, types@, mem),
        f@.insts.len() <= u32::MAX,
        forall|i: int| 0 <= i < order@.len() ==> (#[trigger] order@[i]).0 < f@.blocks.len(),
        forall|i: int|
            0 <= i < f@.blocks.len() ==> (#[trigger] f@.blocks[i]).body_idx + f@.blocks[i].len
                <= f@.insts.len(),
        forall|i: int|
            0 <= i < f@.insts.len() ==> env.has((#[trigger] f@.insts[i]).function) && env.def(
                f@.insts[i].function,
            ).params@.len() <= u32::MAX,
    ensures
        s@ == scan_blocks(f@, env, types@, mem, order@),
{
    let mut s = Scan { entries: Vec::new(), zero_sized: Vec::new() };
    let ghost all = order@;
    let mut i: usize = 0;
    proof {
        assert(all.take(0) =~= Seq::empty());
        assert(s@ =~= scan_blocks(f@, env, types@, mem, all.take(0)));
    }
    while i < order.len()
        invariant
            i <= order@.len(),
            all == order@,
            measurable(f@, types@, mem),
            f@.insts.len() <= u32::MAX,
            forall|i: int| 0 <= i < order@.len() ==> (#[trigger] order@[i]).0 < f@.blocks.len(),
            forall|i: int|
                0 <= i < f@.blocks.len() ==> (#[trigger] f@.blocks[i]).body_idx + f@.blocks[i].len
                    <= f@.insts.len(),
            forall|i: int|
                0 <= i < f@.insts.len() ==> env.has((#[trigger] f@.insts[i]).function) && env.def(
                    f@.insts[i].function,
                ).params@.len() <= u32::MAX,
            s@ == scan_blocks(f@, env, types@, mem, all.take(i as int)),
        decreases order.len() - i,
    {
        let b: BlockId = order[i];
        let ghost start = s@;
        proof {
            assert(all.take(i + 1).drop_last() =~= all.take(i as int));
            assert(f@.blocks[b.0 as int] == f.blocks@[b.0 as int]@);
        }
        let body_idx: u32 = f.blocks[b.idx()].body_idx;
        let len: u32 = f.blocks[b.idx()].len;
        let mut n: u32 = 0;
        while n < len
            invariant
                n <= len,
                body_idx + len <= f@.insts.len(),
                measurable(f@, types@, mem),
                f@.insts.len() <= u32::MAX,
                forall|i: int|
                    0 <= i < f@.insts.len() ==> env.has((#[trigger] f@.insts[i]).function)
                        && env.def(f@.insts[i].function).params@.len() <= u32::MAX,
                s@ == scan_range(start, f@, env, types@, mem, body_idx as int, n as int),
            decreases len - n,
        {
            assert(env.has(f@.insts[body_idx + n].function));
            s.scan_inst(f, env, types, mem, Ref(body_idx + n));
            n += 1;
        }
        i += 1;
    }
    assert(all.take(i as int) =~= all);
    s
}

} // verus!
