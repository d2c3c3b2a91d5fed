//! Unification of what is known of two types.
//!
//! Looking up definitions and unifying the types inside is the work of a caller:
//! [`unify_infos`] says what is to be done, and the functions behind it say what
//! follows from the outcome.
use vstd::prelude::*;

use crate::compiler::types;
use crate::compiler::types::{BaseType, BuiltinType, InvalidTypeError, Type};
use crate::text::str_eq;

verus! {

/// A type that is being inferred.
#[derive(Clone, Copy, Debug, PartialEq, Eq, Structural)]
pub struct LocalTypeId(pub u32);

/// Consecutive types.
#[derive(Clone, Copy, Debug, PartialEq, Eq, Structural)]
pub struct LocalTypeIds {
    pub idx: u32,
    pub count: u32,
}

impl LocalTypeIds {
    #[verifier::allow_in_spec]
    pub fn empty() -> LocalTypeIds
        returns
            (LocalTypeIds { idx: 0, count: 0 }),
    {
        LocalTypeIds { idx: 0, count: 0 }
    }
}

/// Consecutive bounds.
#[derive(Clone, Copy, Debug, PartialEq, Eq, Structural)]
pub struct Bounds {
    pub idx: u32,
    pub count: u32,
}

impl Bounds {
    #[verifier::allow_in_spec]
    pub fn empty() -> Bounds
        returns
            (Bounds { idx: 0, count: 0 }),
    {
        Bounds { idx: 0, count: 0 }
    }
}

/// A trait that a type has to have.
#[derive(Clone, Copy, Debug, PartialEq, Eq, Structural)]
pub struct Bound {
    pub module: u32,
    pub trait_id: u32,
    pub generics: LocalTypeIds,
}

/// Consecutive named members.
#[derive(Clone, Copy, Debug, PartialEq, Eq, Structural)]
pub struct NamedMembers {
    pub idx: u32,
    pub count: u32,
}

#[derive(Debug)]
pub struct NamedMember {
    pub name: String,
    pub ty: LocalTypeId,
}

#[derive(Clone, Copy, Debug, PartialEq, Eq, Structural)]
pub struct InferredEnumId(pub u32);

#[derive(Clone, Copy, Debug, PartialEq, Eq, Structural)]
pub struct VariantId(pub u32);

/// A variant of an enum that is being inferred. The first argument is the type of the
/// ordinal.
#[derive(Debug)]
pub struct InferredVariant {
    pub name: String,
    pub ordinal: u32,
    pub args: LocalTypeIds,
}

/// What is known of a type.
#[derive(Clone, Copy, Debug, PartialEq, Eq, Structural)]
pub enum TypeInfo {
    Unknown(Bounds),
    Known(Type),
    Integer,
    Float,
    Instance(BaseType, LocalTypeIds),
    Enum(InferredEnumId),
    Tuple { members: LocalTypeIds, named_members: NamedMembers },
    BaseTypeItem(BaseType),
    TypeItem(LocalTypeId),
    FunctionItem { module: u32, function: u32, generics: LocalTypeIds },
    MethodItem { module: u32, function: u32, generics: LocalTypeIds },
    ModuleItem(u32),
}

#[derive(Clone, Copy, Debug, PartialEq, Eq, Structural)]
pub enum TypeInfoOrIdx {
    TypeInfo(TypeInfo),
    Idx(LocalTypeId),
}

/// Types that are being inferred.
#[derive(Debug)]
pub struct TypeTable {
    pub types: Vec<TypeInfoOrIdx>,
    pub bounds: Vec<Bound>,
    pub named_members: Vec<NamedMember>,
    /// The variants of each enum.
    pub enums: Vec<Vec<VariantId>>,
    pub variants: Vec<InferredVariant>,
}

#[verifier::allow_in_spec]
pub fn invalid_type() -> Type
    returns
        Type(0),
{
    Type(0)
}

/// The type of types.
#[verifier::allow_in_spec]
pub fn type_type() -> Type
    returns
        Type(14),
{
    Type(14)
}

/// The types are those of the compiler.
pub proof fn known_types()
    ensures
        invalid_type().0 == BuiltinType::Invalid.spec_id(),
        type_type().0 == BuiltinType::Type.spec_id(),
{
}

/// Something that has to be done before the types inside are known to agree.
#[derive(Clone, Copy, Debug, PartialEq, Eq, Structural)]
pub enum Task {
    Unify(LocalTypeId, LocalTypeId),
    /// The types do not agree.
    Fail,
}

/// What has to be done to unify two types.
#[derive(Debug)]
pub enum Step {
    /// The outcome is known.
    Done(Option<TypeInfoOrIdx>),
    /// The type has to be checked against the known one: see [`specified`].
    Specify { info: TypeInfo, ty: Type },
    /// The type has to have the traits: see [`bound_unified`].
    Bounds { info: TypeInfo, bounds: Bounds },
    /// All tasks have to succeed in their order: see [`tasks_done`].
    All { tasks: Vec<Task>, result: TypeInfo },
    /// All tasks are done, whether they succeed or not.
    Any { tasks: Vec<Task>, result: TypeInfo },
    /// The enum has to agree with the definition: see [`local_enum_variant`].
    LocalEnum { enum_id: InferredEnumId, id: BaseType, generics: LocalTypeIds },
    /// The variants of the second enum are merged into the first: see
    /// [`merge_variant`].
    Merge { into: InferredEnumId, from: InferredEnumId, ordinal_type: LocalTypeId },
}

/// The mathematical content of a [`Step`].
#[verifier::ext_equal]
pub enum StepView {
    Done(Option<TypeInfoOrIdx>),
    Specify { info: TypeInfo, ty: Type },
    Bounds { info: TypeInfo, bounds: Bounds },
    All { tasks: Seq<Task>, result: TypeInfo },
    Any { tasks: Seq<Task>, result: TypeInfo },
    LocalEnum { enum_id: InferredEnumId, id: BaseType, generics: LocalTypeIds },
    Merge { into: InferredEnumId, from: InferredEnumId, ordinal_type: LocalTypeId },
}

impl View for Step {
    type V = StepView;

    open spec fn view(&self) -> StepView {
        match *self {
            Step::Done(r) => StepView::Done(r),
            Step::Specify { info, ty } => StepView::Specify { info, ty },
            Step::Bounds { info, bounds } => StepView::Bounds { info, bounds },
            Step::All { tasks, result } => StepView::All { tasks: tasks@, result },
            Step::Any { tasks, result } => StepView::Any { tasks: tasks@, result },
            Step::LocalEnum { enum_id, id, generics } => StepView::LocalEnum {
                enum_id,
                id,
                generics,
            },
            Step::Merge { into, from, ordinal_type } => StepView::Merge {
                into,
                from,
                ordinal_type,
            },
        }
    }
}

pub open spec fn done(info: TypeInfo) -> StepView {
    StepView::Done(Some(TypeInfoOrIdx::TypeInfo(info)))
}

pub open spec fn is_int(t: BaseType) -> bool {
    types::builtin_at(t.0) matches Some(b) && b.spec_as_int() is Some
}

pub open spec fn is_float(t: BaseType) -> bool {
    types::builtin_at(t.0) matches Some(b) && b.spec_as_float() is Some
}

/// The types in the same positions.
pub open spec fn pairs(a: LocalTypeIds, b: LocalTypeIds) -> Seq<Task> {
    Seq::new(
        if a.count < b.count {
            a.count as nat
        } else {
            b.count as nat
        },
        |i: int|
            Task::Unify(LocalTypeId((a.idx + i) as u32), LocalTypeId((b.idx + i) as u32)),
    )
}

/// What has to be done for the first `n` named members.
pub open spec fn named_pairs(
    members: Seq<NamedMember>,
    a: NamedMembers,
    b: NamedMembers,
    n: int,
) -> Seq<Task>
    decreases n,
{
    if n <= 0 {
        Seq::empty()
    } else {
        let before = named_pairs(members, a, b, n - 1);
        let i = a.idx + n - 1;
        let j = b.idx + n - 1;
        if i == j {
            before
        } else if members[i].name@ == members[j].name@ {
            before.push(Task::Unify(members[i].ty, members[j].ty))
        } else {
            before.push(Task::Fail)
        }
    }
}

/// The type was never an invalid instance.
pub open spec fn representable(info: TypeInfo) -> bool {
    info matches TypeInfo::Instance(t, _) ==> t.0 != BuiltinType::Invalid.spec_id()
}

impl TypeTable {
    /// The bounds are in the table.
    pub open spec fn has_bounds(self, b: Bounds) -> bool {
        b.idx + b.count <= self.bounds@.len()
    }

    pub open spec fn has_members(self, m: NamedMembers) -> bool {
        m.idx + m.count <= self.named_members@.len()
    }

    pub open spec fn has_enum(self, e: InferredEnumId) -> bool {
        &&& e.0 < self.enums@.len()
        &&& forall|i: int|
            0 <= i < self.enums@[e.0 as int]@.len() ==> (#[trigger] self.enums@[e.0 as int]@[i]).0
                < self.variants@.len()
    }

    /// What the type refers to is in the table.
    pub open spec fn has_info(self, info: TypeInfo) -> bool {
        match info {
            TypeInfo::Unknown(b) => self.has_bounds(b),
            TypeInfo::Enum(e) => self.has_enum(e),
            TypeInfo::Tuple { members, named_members } => members.idx + members.count
                <= u32::MAX && self.has_members(named_members),
            TypeInfo::Instance(_, g) => g.idx + g.count <= u32::MAX,
            TypeInfo::MethodItem { module, function, generics } => generics.idx + generics.count
                <= u32::MAX,
            _ => true,
        }
    }

    pub open spec fn bounds_of(self, b: Bounds) -> Seq<Bound> {
        self.bounds@.subrange(b.idx as int, b.idx + b.count)
    }

    pub open spec fn variant_count(self, e: InferredEnumId) -> nat {
        self.enums@[e.0 as int]@.len()
    }

    /// The first variant of an enum.
    pub open spec fn variant(self, e: InferredEnumId, i: int) -> InferredVariant {
        self.variants@[self.enums@[e.0 as int]@[i].0 as int]
    }
}

/// What has to be done to unify two types. Bounds of types of which nothing else is
/// known are put together.
pub open spec fn planned(t: TypeTable, a: TypeInfo, b: TypeInfo) -> StepView {
    if a == TypeInfo::Known(invalid_type()) || b == TypeInfo::Known(invalid_type()) {
        done(TypeInfo::Known(invalid_type()))
    } else {
        match (a, b) {
            (TypeInfo::Unknown(x), TypeInfo::Unknown(y)) => if x.count == 0 && y.count == 0 {
                done(TypeInfo::Unknown(Bounds::empty()))
            } else {
                done(
                    TypeInfo::Unknown(
                        Bounds {
                            idx: t.bounds@.len() as u32,
                            count: (x.count + y.count) as u32,
                        },
                    ),
                )
            },
            (info, TypeInfo::Known(ty)) => StepView::Specify { info, ty },
            (TypeInfo::Known(ty), info) => StepView::Specify { info, ty },
            (info, TypeInfo::Unknown(bounds)) => StepView::Bounds { info, bounds },
            (TypeInfo::Unknown(bounds), info) => StepView::Bounds { info, bounds },
            (TypeInfo::Integer, TypeInfo::Integer) => done(TypeInfo::Integer),
            (TypeInfo::Float, TypeInfo::Float) => done(TypeInfo::Float),
            (TypeInfo::Instance(t, _), TypeInfo::Integer) => with_number(t, is_int(t)),
            (TypeInfo::Integer, TypeInfo::Instance(t, _)) => with_number(t, is_int(t)),
            (TypeInfo::Instance(t, _), TypeInfo::Float) => with_number(t, is_float(t)),
            (TypeInfo::Float, TypeInfo::Instance(t, _)) => with_number(t, is_float(t)),
            (TypeInfo::Instance(x, g), TypeInfo::Instance(y, h)) => if x == y && g.count
                == h.count {
                StepView::All { tasks: pairs(g, h), result: a }
            } else {
                StepView::Done(None)
            },
            (TypeInfo::Instance(id, generics), TypeInfo::Enum(enum_id)) => StepView::LocalEnum {
                enum_id,
                id,
                generics,
            },
            (TypeInfo::Enum(enum_id), TypeInfo::Instance(id, generics)) => StepView::LocalEnum {
                enum_id,
                id,
                generics,
            },
            (TypeInfo::Enum(x), TypeInfo::Enum(y)) => {
                // always merge into the longer variant list to try to avoid having to create
                // new variants if one list is a subset of the other
                let (into, from) = if t.variant_count(x) >= t.variant_count(y) {
                    (x, y)
                } else {
                    (y, x)
                };
                if t.variant_count(into) == 0 {
                    done(TypeInfo::Enum(into))
                } else {
                    StepView::Merge {
                        into,
                        from,
                        ordinal_type: LocalTypeId(t.variant(into, 0).args.idx),
                    }
                }
            },
            (
                TypeInfo::Tuple { members: m, named_members: n },
                TypeInfo::Tuple { members: o, named_members: p },
            ) => if m.count == o.count && n.count == p.count {
                StepView::All {
                    tasks: pairs(m, o) + named_pairs(t.named_members@, n, p, n.count as int),
                    result: a,
                }
            } else {
                StepView::Done(None)
            },
            (TypeInfo::BaseTypeItem(x), TypeInfo::BaseTypeItem(y)) => if x == y {
                done(a)
            } else {
                StepView::Done(None)
            },
            (TypeInfo::TypeItem(x), TypeInfo::TypeItem(y)) => if x == y {
                done(a)
            } else {
                done(TypeInfo::Known(type_type()))
            },
            (
                TypeInfo::MethodItem { module: m, function: f, generics: g },
                TypeInfo::MethodItem { module: n, function: h, generics: i },
            ) => if m == n && f == h {
                StepView::Any { tasks: pairs(g, i), result: a }
            } else {
                StepView::Done(None)
            },
            _ => StepView::Done(None),
        }
    }
}

/// A type is unified with a number of which only the kind is known.
pub open spec fn with_number(t: BaseType, fits: bool) -> StepView {
    if fits {
        done(TypeInfo::Instance(t, LocalTypeIds::empty()))
    } else {
        StepView::Done(None)
    }
}

/// The bounds of the table after the step.
pub open spec fn planned_bounds(t: TypeTable, a: TypeInfo, b: TypeInfo) -> Seq<Bound> {
    match (a, b) {
        (TypeInfo::Unknown(x), TypeInfo::Unknown(y)) => if x.count == 0 && y.count == 0 {
            t.bounds@
        } else {
            t.bounds@ + t.bounds_of(x) + t.bounds_of(y)
        },
        _ => t.bounds@,
    }
}

fn make_pairs(a: LocalTypeIds, b: LocalTypeIds) -> (tasks: Vec<Task>)
    requires
        a.idx + a.count <= u32::MAX,
        b.idx + b.count <= u32::MAX,
    ensures
        tasks@ == pairs(a, b),
{
    let mut tasks: Vec<Task> = Vec::new();
    let mut i: u32 = 0;
    while i < a.count && i < b.count
        invariant
            i <= a.count,
            i <= b.count,
            a.idx + a.count <= u32::MAX,
            b.idx + b.count <= u32::MAX,
            tasks@ =~= pairs(a, b).take(i as int),
        decreases a.count - i,
    {
        tasks.push(Task::Unify(LocalTypeId(a.idx + i), LocalTypeId(b.idx + i)));
        i += 1;
    }
    assert(tasks@ =~= pairs(a, b));
    tasks
}

impl TypeTable {
    fn push_bounds(&mut self, b: Bounds)
        requires
            old(self).has_bounds(b),
        ensures
            final(self).bounds@ == old(self).bounds@ + old(self).bounds_of(b),
            final(self).types == old(self).types,
            final(self).named_members == old(self).named_members,
            final(self).enums == old(self).enums,
            final(self).variants == old(self).variants,
    {
        let ghost start = *self;
        let len: usize = self.bounds.len();
        let mut i: u32 = 0;
        while i < b.count
            invariant
                i <= b.count,
                len == start.bounds@.len(),
                start.has_bounds(b),
                self.bounds@ =~= start.bounds@ + start.bounds_of(b).take(i as int),
                self.types == start.types,
                self.named_members == start.named_members,
                self.enums == start.enums,
                self.variants == start.variants,
            decreases b.count - i,
        {
            let at: usize = b.idx as usize + i as usize;
            let bound: Bound = self.bounds[at];
            self.bounds.push(bound);
            i += 1;
        }
        assert(self.bounds@ =~= start.bounds@ + start.bounds_of(b));
    }

    fn make_named_pairs(&self, a: NamedMembers, b: NamedMembers, tasks: &mut Vec<Task>)
        requires
            self.has_members(a),
            self.has_members(b),
            a.count == b.count,
        ensures
            final(tasks)@ == old(tasks)@ + named_pairs(
                self.named_members@,
                a,
                b,
                a.count as int,
            ),
    {
        let ghost start = tasks@;
        let len: usize = self.named_members.len();
        let mut i: u32 = 0;
        assert(start + named_pairs(self.named_members@, a, b, 0) =~= start);
        while i < a.count
            invariant
                i <= a.count,
                len == self.named_members@.len(),
                self.has_members(a),
                self.has_members(b),
                a.count == b.count,
                tasks@ =~= start + named_pairs(self.named_members@, a, b, i as int),
            decreases a.count - i,
        {
            let k: usize = a.idx as usize + i as usize;
            let l: usize = b.idx as usize + i as usize;
            if k != l {
                if str_eq(self.named_members[k].name.as_str(), self.named_members[l].name.as_str()) {
                    tasks.push(Task::Unify(self.named_members[k].ty, self.named_members[l].ty));
                } else {
                    tasks.push(Task::Fail);
                }
            }
            i += 1;
        }
    }

    /// Finds out what has to be done to unify two types.
    pub fn unify_infos(&mut self, a: TypeInfo, b: TypeInfo) -> (step: Step)
        requires
            representable(a),
            representable(b),
            old(self).has_info(a),
            old(self).has_info(b),
            planned_bounds(*old(self), a, b).len() <= u32::MAX,
        ensures
            step@ == planned(*old(self), a, b),
            final(self).bounds@ == planned_bounds(*old(self), a, b),
            final(self).types == old(self).types,
            final(self).named_members == old(self).named_members,
            final(self).enums == old(self).enums,
            final(self).variants == old(self).variants,
    {
        let ghost start = *self;
        let invalid: TypeInfo = TypeInfo::Known(invalid_type());
        if a == invalid || b == invalid {
            return Step::Done(Some(TypeInfoOrIdx::TypeInfo(invalid)));
        }
        let result: Option<TypeInfo> = match (a, b) {
            (TypeInfo::Unknown(x), TypeInfo::Unknown(y)) => {
                if x.count == 0 && y.count == 0 {
                    Some(TypeInfo::Unknown(Bounds::empty()))
                } else {
                    let idx: u32 = self.bounds.len() as u32;
                    self.push_bounds(x);
                    assert(self.bounds_of(y) =~= start.bounds_of(y));
                    self.push_bounds(y);
                    Some(TypeInfo::Unknown(Bounds { idx, count: x.count + y.count }))
                }
            },
            (info, TypeInfo::Known(ty)) => {
                return Step::Specify { info, ty };
            },
            (TypeInfo::Known(ty), info) => {
                return Step::Specify { info, ty };
            },
            (info, TypeInfo::Unknown(bounds)) => {
                return Step::Bounds { info, bounds };
            },
            (TypeInfo::Unknown(bounds), info) => {
                return Step::Bounds { info, bounds };
            },
            (TypeInfo::Integer, TypeInfo::Integer) => Some(TypeInfo::Integer),
            (TypeInfo::Float, TypeInfo::Float) => Some(TypeInfo::Float),
            (TypeInfo::Instance(t, _), TypeInfo::Integer) => if t.is_int() {
                Some(TypeInfo::Instance(t, LocalTypeIds::empty()))
            } else {
                None
            },
            (TypeInfo::Integer, TypeInfo::Instance(t, _)) => if t.is_int() {
                Some(TypeInfo::Instance(t, LocalTypeIds::empty()))
            } else {
                None
            },
            (TypeInfo::Instance(t, _), TypeInfo::Float) => if t.is_float() {
                Some(TypeInfo::Instance(t, LocalTypeIds::empty()))
            } else {
                None
            },
            (TypeInfo::Float, TypeInfo::Instance(t, _)) => if t.is_float() {
                Some(TypeInfo::Instance(t, LocalTypeIds::empty()))
            } else {
                None
            },
            (TypeInfo::Instance(x, g), TypeInfo::Instance(y, h)) => {
                if x == y && g.count == h.count {
                    return Step::All { tasks: make_pairs(g, h), result: a };
                }
                None
            },
            (TypeInfo::Instance(id, generics), TypeInfo::Enum(enum_id)) => {
                return Step::LocalEnum { enum_id, id, generics };
            },
            (TypeInfo::Enum(enum_id), TypeInfo::Instance(id, generics)) => {
                return Step::LocalEnum { enum_id, id, generics };
            },
            (TypeInfo::Enum(x), TypeInfo::Enum(y)) => {
                let first: usize = self.enums[x.0 as usize].len();
                let second: usize = self.enums[y.0 as usize].len();
                let (into, from) = if first >= second {
                    (x, y)
                } else {
                    (y, x)
                };
                if self.enums[into.0 as usize].len() == 0 {
                    // if it is empty, both enums are empty and just returning one is fine
                    Some(TypeInfo::Enum(into))
                } else {
                    let first_variant: VariantId = self.enums[into.0 as usize][0];
                    assert(self.has_enum(into));
                    let ordinal_type: LocalTypeId = LocalTypeId(
                        self.variants[first_variant.0 as usize].args.idx,
                    );
                    return Step::Merge { into, from, ordinal_type };
                }
            },
            (
                TypeInfo::Tuple { members: m, named_members: n },
                TypeInfo::Tuple { members: o, named_members: p },
            ) => {
                if m.count == o.count && n.count == p.count {
                    let mut tasks: Vec<Task> = make_pairs(m, o);
                    self.make_named_pairs(n, p, &mut tasks);
                    return Step::All { tasks, result: a };
                }
                None
            },
            (TypeInfo::BaseTypeItem(x), TypeInfo::BaseTypeItem(y)) => if x == y {
                Some(a)
            } else {
                None
            },
            (TypeInfo::TypeItem(x), TypeInfo::TypeItem(y)) => if x == y {
                Some(a)
            } else {
                Some(TypeInfo::Known(type_type()))
            },
            (
                TypeInfo::MethodItem { module: m, function: f, generics: g },
                TypeInfo::MethodItem { module: n, function: h, generics: i },
            ) => {
                if m == n && f == h {
                    return Step::Any { tasks: make_pairs(g, i), result: a };
                }
                None
            },
            _ => None,
        };
        match result {
            Some(info) => Step::Done(Some(TypeInfoOrIdx::TypeInfo(info))),
            None => Step::Done(None),
        }
    }
}

/// What follows once a type was checked against a known one.
#[verifier::allow_in_spec]
pub fn specified(ty: Type, outcome: Result<bool, InvalidTypeError>) -> Option<TypeInfoOrIdx>
    returns
        (match outcome {
            Ok(true) => Some(TypeInfoOrIdx::TypeInfo(TypeInfo::Known(ty))),
            Ok(false) => None,
            Err(_) => Some(TypeInfoOrIdx::TypeInfo(TypeInfo::Known(invalid_type()))),
        }),
{
    match outcome {
        Ok(agrees) => if agrees {
            Some(TypeInfoOrIdx::TypeInfo(TypeInfo::Known(ty)))
        } else {
            None
        },
        Err(_) => Some(TypeInfoOrIdx::TypeInfo(TypeInfo::Known(invalid_type()))),
    }
}

/// What a type is known to be after bounds were unified with it one by one, in the
/// order of the outcomes. The first that fails decides.
pub open spec fn bounds_outcome(
    start: TypeInfoOrIdx,
    outcomes: Seq<Result<Option<TypeInfoOrIdx>, InvalidTypeError>>,
) -> Option<TypeInfoOrIdx>
    decreases outcomes.len(),
{
    if outcomes.len() == 0 {
        Some(start)
    } else {
        match outcomes[0] {
            Ok(Some(new)) => bounds_outcome(new, outcomes.skip(1)),
            Ok(None) => None,
            Err(_) => Some(TypeInfoOrIdx::TypeInfo(TypeInfo::Known(invalid_type()))),
        }
    }
}

/// Whether to go on with the next bound after one was unified, and with what.
#[derive(Clone, Copy, Debug, PartialEq, Eq, Structural)]
pub enum BoundStep {
    Next(TypeInfoOrIdx),
    Done(Option<TypeInfoOrIdx>),
}

pub fn bound_unified(outcome: Result<Option<TypeInfoOrIdx>, InvalidTypeError>) -> (step: BoundStep)
    ensures
        forall|start: TypeInfoOrIdx, rest: Seq<Result<Option<TypeInfoOrIdx>, InvalidTypeError>>|
            #[trigger] bounds_outcome(start, seq![outcome] + rest) == (match step {
                BoundStep::Next(new) => bounds_outcome(new, rest),
                BoundStep::Done(r) => r,
            }),
{
    proof {
        assert forall|
            start: TypeInfoOrIdx,
            rest: Seq<Result<Option<TypeInfoOrIdx>, InvalidTypeError>>,
        |
            #[trigger] bounds_outcome(start, seq![outcome] + rest) == (match outcome {
                Ok(Some(new)) => bounds_outcome(new, rest),
                Ok(None) => None,
                Err(_) => Some(TypeInfoOrIdx::TypeInfo(TypeInfo::Known(invalid_type()))),
            }) by {
            assert((seq![outcome] + rest).skip(1) =~= rest);
        }
    }
    match outcome {
        Ok(Some(new)) => BoundStep::Next(new),
        Ok(None) => BoundStep::Done(None),
        Err(_) => BoundStep::Done(
            Some(TypeInfoOrIdx::TypeInfo(TypeInfo::Known(invalid_type()))),
        ),
    }
}

/// The result once the tasks up to the first failure were done.
#[verifier::allow_in_spec]
pub fn tasks_done(all_succeeded: bool, result: TypeInfo) -> Option<TypeInfoOrIdx>
    returns
        (if all_succeeded {
            Some(TypeInfoOrIdx::TypeInfo(result))
        } else {
            None
        }),
{
    if all_succeeded {
        Some(TypeInfoOrIdx::TypeInfo(result))
    } else {
        None
    }
}

/// What has to be done to merge a variant into an enum.
#[derive(Debug)]
pub enum VariantStep {
    /// The numbers of arguments differ.
    Mismatch,
    /// The arguments have to be unified; then see [`TypeTable::variant_unified`].
    Unify { tasks: Vec<Task>, variant: VariantId, ordinal: u32 },
    /// The enum does not have the variant yet; once it was added see
    /// [`TypeTable::variant_appended`].
    Append { variant: VariantId },
}

#[verifier::ext_equal]
pub enum VariantStepView {
    Mismatch,
    Unify { tasks: Seq<Task>, variant: VariantId, ordinal: u32 },
    Append { variant: VariantId },
}

impl View for VariantStep {
    type V = VariantStepView;

    open spec fn view(&self) -> VariantStepView {
        match *self {
            VariantStep::Mismatch => VariantStepView::Mismatch,
            VariantStep::Unify { tasks, variant, ordinal } => VariantStepView::Unify {
                tasks: tasks@,
                variant,
                ordinal,
            },
            VariantStep::Append { variant } => VariantStepView::Append { variant },
        }
    }
}

impl TypeTable {
    /// The first variant of the enum with the name, from position `i` on.
    pub open spec fn find_variant(self, e: InferredEnumId, name: Seq<char>, i: nat) -> Option<
        VariantId,
    >
        decreases self.variant_count(e) - i,
    {
        if i >= self.variant_count(e) {
            None
        } else if self.variant(e, i as int).name@ == name {
            Some(self.enums@[e.0 as int]@[i as int])
        } else {
            self.find_variant(e, name, i + 1)
        }
    }

    /// What has to be done to merge the `i`-th variant of one enum into another. The
    /// ordinal argument is not unified.
    pub open spec fn merge_planned(
        self,
        into: InferredEnumId,
        from: InferredEnumId,
        i: int,
    ) -> VariantStepView {
        let b_id = self.enums@[from.0 as int]@[i];
        let b = self.variants@[b_id.0 as int];
        match self.find_variant(into, b.name@, 0) {
            Some(a_id) => {
                let a = self.variants@[a_id.0 as int];
                if a.args.count != b.args.count {
                    VariantStepView::Mismatch
                } else {
                    VariantStepView::Unify {
                        tasks: pairs(a.args, b.args).skip(1),
                        variant: b_id,
                        ordinal: a.ordinal,
                    }
                }
            },
            None => VariantStepView::Append { variant: b_id },
        }
    }

    fn lookup_variant(&self, e: InferredEnumId, name: &str) -> (id: Option<VariantId>)
        requires
            self.has_enum(e),
        ensures
            id == self.find_variant(e, name@, 0),
            id matches Some(v) ==> v.0 < self.variants@.len(),
    {
        let mut i: usize = 0;
        while i < self.enums[e.0 as usize].len()
            invariant
                i <= self.variant_count(e),
                self.has_enum(e),
                self.find_variant(e, name@, 0) == self.find_variant(e, name@, i as nat),
            decreases self.variant_count(e) - i,
        {
            let id: VariantId = self.enums[e.0 as usize][i];
            if str_eq(self.variants[id.0 as usize].name.as_str(), name) {
                return Some(id);
            }
            i += 1;
        }
        None
    }

    /// Finds out what has to be done to merge a variant.
    pub fn merge_variant(&self, into: InferredEnumId, from: InferredEnumId, i: usize) -> (step:
        VariantStep)
        requires
            self.has_enum(into),
            self.has_enum(from),
            i < self.variant_count(from),
            forall|k: int|
                0 <= k < self.variants@.len() ==> (#[trigger] self.variants@[k]).args.idx
                    + self.variants@[k].args.count <= u32::MAX && self.variants@[k].args.count > 0,
        ensures
            step@ == self.merge_planned(into, from, i as int),
    {
        let b_id: VariantId = self.enums[from.0 as usize][i];
        let b: &InferredVariant = &self.variants[b_id.0 as usize];
        match self.lookup_variant(into, b.name.as_str()) {
            Some(a_id) => {
                let a: &InferredVariant = &self.variants[a_id.0 as usize];
                assert(self.variants@[a_id.0 as int].args.count > 0);
                assert(self.variants@[b_id.0 as int].args.count > 0);
                if a.args.count != b.args.count {
                    return VariantStep::Mismatch;
                }
                // skip the ordinal argument
                let x = LocalTypeIds { idx: a.args.idx + 1, count: a.args.count - 1 };
                let y = LocalTypeIds { idx: b.args.idx + 1, count: b.args.count - 1 };
                let tasks: Vec<Task> = make_pairs(x, y);
                assert(pairs(x, y) =~= pairs(a.args, b.args).skip(1));
                VariantStep::Unify { tasks, variant: b_id, ordinal: a.ordinal }
            },
            None => VariantStep::Append { variant: b_id },
        }
    }

    /// A variant got the ordinal of the variant that it was merged with.
    pub open spec fn with_ordinal(self, variant: VariantId, ordinal: u32, new: TypeTable) -> bool {
        let v = variant.0 as int;
        &&& new.variants@.len() == self.variants@.len()
        &&& forall|i: int|
            0 <= i < self.variants@.len() && i != v ==> #[trigger] new.variants@[i]
                == self.variants@[i]
        &&& new.variants@[v].ordinal == ordinal
        &&& new.variants@[v].name == self.variants@[v].name
        &&& new.variants@[v].args == self.variants@[v].args
        &&& new.enums == self.enums
        &&& new.bounds == self.bounds
        &&& new.named_members == self.named_members
    }

    /// The arguments of a variant were unified: it takes over the ordinal and the type
    /// of the ordinal.
    pub fn variant_unified(&mut self, variant: VariantId, ordinal: u32, ordinal_type: LocalTypeId)
        requires
            variant.0 < old(self).variants@.len(),
            old(self).variants@[variant.0 as int].args.idx < old(self).types@.len(),
        ensures
            old(self).with_ordinal(variant, ordinal, *final(self)),
            final(self).types@ == old(self).types@.update(
                old(self).variants@[variant.0 as int].args.idx as int,
                TypeInfoOrIdx::Idx(ordinal_type),
            ),
    {
        self.variants[variant.0 as usize].ordinal = ordinal;
        let at: usize = self.variants[variant.0 as usize].args.idx as usize;
        self.types.set(at, TypeInfoOrIdx::Idx(ordinal_type));
    }

    /// A variant was added to the other enum and takes over its ordinal there.
    pub fn variant_appended(&mut self, variant: VariantId, ordinal: u32)
        requires
            variant.0 < old(self).variants@.len(),
        ensures
            old(self).with_ordinal(variant, ordinal, *final(self)),
            final(self).types == old(self).types,
    {
        self.variants[variant.0 as usize].ordinal = ordinal;
    }
}

/// A variant of an enum as it was declared.
#[derive(Debug)]
pub struct DeclaredVariant {
    pub name: String,
    pub ordinal: u32,
    pub args: Vec<Type>,
}

/// The first declared variant with the name, from position `i` on.
pub open spec fn find_declared(def: Seq<DeclaredVariant>, name: Seq<char>, i: nat) -> Option<int>
    decreases def.len() - i,
{
    if i >= def.len() {
        None
    } else if def[i as int].name@ == name {
        Some(i as int)
    } else {
        find_declared(def, name, i + 1)
    }
}

fn lookup_declared(def: &Vec<DeclaredVariant>, name: &str) -> (k: Option<usize>)
    ensures
        match k {
            Some(k) => k < def@.len() && find_declared(def@, name@, 0) == Some(k as int),
            None => find_declared(def@, name@, 0) is None,
        },
{
    let mut i: usize = 0;
    while i < def.len()
        invariant
            i <= def@.len(),
            find_declared(def@, name@, 0) == find_declared(def@, name@, i as nat),
        decreases def.len() - i,
    {
        if str_eq(def[i].name.as_str(), name) {
            return Some(i);
        }
        i += 1;
    }
    None
}

/// Types that have to be checked against declared ones.
pub open spec fn declared_pairs(args: LocalTypeIds, declared: Seq<Type>) -> Seq<(LocalTypeId, Type)> {
    Seq::new(declared.len(), |i: int| (LocalTypeId((args.idx + 1 + i) as u32), declared[i]))
}

impl TypeTable {
    /// An inferred enum meets a type. Where that is an enum, the type of its ordinals is
    /// given, and the variants are to be compared one by one: their number is returned.
    /// No other type is that of the enum.
    pub fn local_enum_with_instance(
        &mut self,
        enum_id: InferredEnumId,
        ordinal_type: Option<Type>,
    ) -> (variants: Option<usize>)
        requires
            old(self).has_enum(enum_id),
            old(self).variant_count(enum_id) > 0 ==> old(self).variant(enum_id, 0).args.idx
                < old(self).types@.len(),
        ensures
            variants == match ordinal_type {
                Some(_) => Some(old(self).variant_count(enum_id) as usize),
                None => None,
            },
            final(self).types@ == (match ordinal_type {
                Some(ty) if old(self).variant_count(enum_id) > 0 => old(self).types@.update(
                    old(self).variant(enum_id, 0).args.idx as int,
                    TypeInfoOrIdx::TypeInfo(TypeInfo::Known(ty)),
                ),
                _ => old(self).types@,
            }),
            final(self).bounds == old(self).bounds,
            final(self).named_members == old(self).named_members,
            final(self).enums == old(self).enums,
            final(self).variants == old(self).variants,
    {
        let ty: Type = match ordinal_type {
            Some(ty) => ty,
            None => {
                return None;
            },
        };
        let count: usize = self.enums[enum_id.0 as usize].len();
        if count > 0 {
            let first: VariantId = self.enums[enum_id.0 as usize][0];
            let at: usize = self.variants[first.0 as usize].args.idx as usize;
            self.types.set(at, TypeInfoOrIdx::TypeInfo(TypeInfo::Known(ty)));
        }
        Some(count)
    }

    /// Compares a variant of the enum with its declaration. It gets the declared
    /// ordinal. The types that are returned have to be checked one by one. There are
    /// none where the variant was not declared or has other arguments.
    pub fn local_enum_variant(
        &mut self,
        enum_id: InferredEnumId,
        i: usize,
        def: &Vec<DeclaredVariant>,
    ) -> (r: Option<Vec<(LocalTypeId, Type)>>)
        requires
            old(self).has_enum(enum_id),
            i < old(self).variant_count(enum_id),
            old(self).variant(enum_id, i as int).args.idx + old(self).variant(
                enum_id,
                i as int,
            ).args.count <= u32::MAX,
        ensures
            ({
                let id = old(self).enums@[enum_id.0 as int]@[i as int];
                let variant = old(self).variant(enum_id, i as int);
                match find_declared(def@, variant.name@, 0) {
                    None => r is None && *final(self) == *old(self),
                    Some(k) => {
                        &&& old(self).with_ordinal(id, def@[k].ordinal, *final(self))
                        &&& final(self).types == old(self).types
                        // add one because the inferred enum args contain the ordinal type
                        &&& if variant.args.count != def@[k].args@.len() + 1 {
                            r is None
                        } else {
                            r is Some && r->Some_0@ == declared_pairs(variant.args, def@[k].args@)
                        }
                    },
                }
            }),
    {
        let id: VariantId = self.enums[enum_id.0 as usize][i];
        let v: usize = id.0 as usize;
        match lookup_declared(def, self.variants[v].name.as_str()) {
            None => None,
            Some(k) => {
                self.variants[v].ordinal = def[k].ordinal;
                let args: LocalTypeIds = self.variants[v].args;
                if args.count == 0 || (args.count - 1) as usize != def[k].args.len() {
                    return None;
                }
                let mut pairs: Vec<(LocalTypeId, Type)> = Vec::new();
                let mut j: usize = 0;
                while j < def[k].args.len()
                    invariant
                        k < def@.len(),
                        j <= def@[k as int].args@.len(),
                        args.count == def@[k as int].args@.len() + 1,
                        args.idx + args.count <= u32::MAX,
                        pairs@ =~= declared_pairs(args, def@[k as int].args@).take(j as int),
                    decreases def@[k as int].args@.len() - j,
                {
                    pairs.push((LocalTypeId(args.idx + 1 + j as u32), def[k].args[j]));
                    j += 1;
                }
                assert(pairs@ =~= declared_pairs(args, def@[k as int].args@));
                Some(pairs)
            },
        }
    }
}

/// Unification treats both types alike, up to which of them stays.
pub proof fn unification_is_symmetric(t: TypeTable, a: TypeInfo, b: TypeInfo)
    ensures
        planned(t, a, b) is Done == planned(t, b, a) is Done,
        planned(t, a, b) == StepView::Done(None) <==> planned(t, b, a) == StepView::Done(None),
        planned(t, a, b) is LocalEnum ==> planned(t, a, b) == planned(t, b, a),
        planned(t, a, b) is Bounds ==> planned(t, a, b) == planned(t, b, a),
{
}

/// An invalid type stays represented as a known type.
pub proof fn unified_types_are_representable(t: TypeTable, a: TypeInfo, b: TypeInfo)
    requires
        representable(a),
        representable(b),
    ensures
        planned(t, a, b) matches StepView::Done(Some(TypeInfoOrIdx::TypeInfo(info)))
            ==> representable(info),
        planned(t, a, b) matches StepView::All { tasks, result } ==> representable(result),
{
}

} // verus!
