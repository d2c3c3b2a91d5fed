//! What the knowledge of a type means: which types it leaves possible. Unifying two
//! types leaves possible just what both leave possible.
use vstd::prelude::*;

use crate::compiler::types;
use crate::compiler::types::{BaseType, BuiltinType, InvalidTypeError, Type};
use crate::compiler::unify;
use crate::compiler::unify::{
    Bound,
    Bounds,
    DeclaredVariant,
    InferredEnumId,
    InferredVariant,
    LocalTypeId,
    LocalTypeIds,
    NamedMembers,
    StepView,
    Task,
    TypeInfo,
    TypeInfoOrIdx,
    TypeTable,
    VariantStepView,
};

verus! {

/// A type of which everything is known.
pub enum Concrete {
    Instance(BaseType, Seq<Concrete>),
    Tuple(Seq<Concrete>, Seq<(Seq<char>, Concrete)>),
    /// The type of types.
    Types,
    /// The name of a type that still needs its generics.
    BaseTypeName(BaseType),
    /// The name of a type.
    TypeName(LocalTypeId),
    Method(u32, u32, Seq<Concrete>),
    Function(u32, u32, Seq<Concrete>),
    Module(u32),
}

/// What holds of the types: what those that are being inferred turn out to be, what
/// the known ones are, which types have a trait, and which enums have a variant
/// with arguments of which types.
pub struct World {
    pub inferred: spec_fn(LocalTypeId) -> Concrete,
    pub known: spec_fn(Type) -> Concrete,
    pub has: spec_fn(Concrete, Bound) -> bool,
    pub is_enum: spec_fn(Concrete) -> bool,
    pub has_variant: spec_fn(Concrete, Seq<char>, Seq<Concrete>) -> bool,
}

pub open spec fn is_integer_type(t: BaseType) -> bool {
    match types::builtin_at(t.0) {
        Some(b) => b == BuiltinType::I8 || b == BuiltinType::U8 || b == BuiltinType::I16 || b
            == BuiltinType::U16 || b == BuiltinType::I32 || b == BuiltinType::U32 || b
            == BuiltinType::I64 || b == BuiltinType::U64 || b == BuiltinType::I128 || b
            == BuiltinType::U128,
        None => false,
    }
}

pub open spec fn is_float_type(t: BaseType) -> bool {
    match types::builtin_at(t.0) {
        Some(b) => b == BuiltinType::F32 || b == BuiltinType::F64,
        None => false,
    }
}

impl World {
    /// The type of types is what it is known as, and numbers, tuples and names are no
    /// enums.
    pub open spec fn is_sensible(self) -> bool {
        &&& (self.known)(unify::type_type()) == Concrete::Types
        &&& forall|c: Concrete| #[trigger]
            (self.is_enum)(c) ==> (c matches Concrete::Instance(b, _) && !is_integer_type(b)
                && !is_float_type(b))
    }

    pub open spec fn all(self, ids: LocalTypeIds) -> Seq<Concrete> {
        Seq::new(
            ids.count as nat,
            |i: int| (self.inferred)(LocalTypeId((ids.idx + i) as u32)),
        )
    }

    pub open spec fn named(self, t: TypeTable, m: NamedMembers) -> Seq<(Seq<char>, Concrete)> {
        Seq::new(
            m.count as nat,
            |i: int|
                (
                    t.named_members@[m.idx + i].name@,
                    (self.inferred)(t.named_members@[m.idx + i].ty),
                ),
        )
    }

    /// The arguments of a variant without the ordinal.
    pub open spec fn arguments(self, v: InferredVariant) -> Seq<Concrete> {
        self.all(v.args).skip(1)
    }

    pub open spec fn meets(self, t: TypeTable, b: Bounds, c: Concrete) -> bool {
        forall|i: int|
            b.idx <= i < b.idx + b.count ==> (self.has)(c, #[trigger] t.bounds@[i])
    }

    /// The type is an enum with the variants that were seen.
    pub open spec fn has_variants(self, t: TypeTable, e: InferredEnumId, c: Concrete) -> bool {
        &&& (self.is_enum)(c)
        &&& forall|i: int|
            0 <= i < t.variant_count(e) ==> (self.has_variant)(
                c,
                (#[trigger] t.variant(e, i)).name@,
                self.arguments(t.variant(e, i)),
            )
    }

    /// What is known leaves the type possible.
    pub open spec fn possible(self, t: TypeTable, info: TypeInfo, c: Concrete) -> bool {
        match info {
            TypeInfo::Unknown(b) => self.meets(t, b, c),
            TypeInfo::Known(ty) => c == (self.known)(ty),
            TypeInfo::Integer => c matches Concrete::Instance(b, g) && is_integer_type(b)
                && g.len() == 0,
            TypeInfo::Float => c matches Concrete::Instance(b, g) && is_float_type(b) && g.len()
                == 0,
            TypeInfo::Instance(b, g) => c == Concrete::Instance(b, self.all(g)),
            TypeInfo::Enum(e) => self.has_variants(t, e, c),
            TypeInfo::Tuple { members, named_members } => c == Concrete::Tuple(
                self.all(members),
                self.named(t, named_members),
            ),
            TypeInfo::BaseTypeItem(b) => c == Concrete::BaseTypeName(b),
            // the name of a type can be used as a value of the type of types
            TypeInfo::TypeItem(id) => c == Concrete::TypeName(id) || c == Concrete::Types,
            TypeInfo::FunctionItem { module, function, generics } => c == Concrete::Function(
                module,
                function,
                self.all(generics),
            ),
            TypeInfo::MethodItem { module, function, generics } => c == Concrete::Method(
                module,
                function,
                self.all(generics),
            ),
            TypeInfo::ModuleItem(m) => c == Concrete::Module(m),
        }
    }

    /// The types of a task turn out to be the same.
    pub open spec fn agrees(self, task: Task) -> bool {
        match task {
            Task::Unify(x, y) => (self.inferred)(x) == (self.inferred)(y),
            Task::Fail => false,
        }
    }

    pub open spec fn all_agree(self, tasks: Seq<Task>) -> bool {
        forall|i: int| 0 <= i < tasks.len() ==> self.agrees(#[trigger] tasks[i])
    }

    /// Doing what the step asks for leaves the type possible, with the table as it is
    /// after the step.
    pub open spec fn left_possible(self, after: TypeTable, step: StepView, c: Concrete) -> bool {
        match step {
            StepView::Done(None) => false,
            StepView::Done(Some(TypeInfoOrIdx::TypeInfo(info))) => self.possible(after, info, c),
            StepView::Done(Some(TypeInfoOrIdx::Idx(id))) => c == (self.inferred)(id),
            StepView::Specify { info, ty } => c == (self.known)(ty) && self.possible(
                after,
                info,
                c,
            ),
            StepView::Bounds { info, bounds } => self.meets(after, bounds, c) && self.possible(
                after,
                info,
                c,
            ),
            StepView::All { tasks, result } => self.all_agree(tasks) && self.possible(
                after,
                result,
                c,
            ),
            StepView::Any { result, .. } => self.possible(after, result, c),
            StepView::LocalEnum { enum_id, id, generics } => c == Concrete::Instance(
                id,
                self.all(generics),
            ) && self.has_variants(after, enum_id, c),
            StepView::Merge { into, from, .. } => self.has_variants(after, into, c)
                && self.has_variants(after, from, c),
        }
    }
}

/// The table differs from the one before only in added bounds.
pub open spec fn extends(before: TypeTable, after: TypeTable) -> bool {
    &&& after.types == before.types
    &&& after.named_members == before.named_members
    &&& after.enums == before.enums
    &&& after.variants == before.variants
}

/// Functions and modules are never unified, not even with themselves.
pub open spec fn is_fixed_item(info: TypeInfo) -> bool {
    info is FunctionItem || info is ModuleItem
}

/// Numbers have no generics, and the type of types is not written as an instance.
pub open spec fn is_regular(info: TypeInfo) -> bool {
    info matches TypeInfo::Instance(b, g) ==> {
        &&& is_integer_type(b) || is_float_type(b) ==> g.count == 0
        &&& b.0 != unify::type_type().0
    }
}

/// A method has the same number of generics wherever it is used.
pub open spec fn same_generics(a: TypeInfo, b: TypeInfo) -> bool {
    match (a, b) {
        (
            TypeInfo::MethodItem { module: m, function: f, generics: g },
            TypeInfo::MethodItem { module: n, function: h, generics: i },
        ) => m == n && f == h ==> g.count == i.count,
        _ => true,
    }
}

proof fn lemma_pairs(w: World, a: LocalTypeIds, b: LocalTypeIds)
    requires
        a.count == b.count,
        a.idx + a.count <= u32::MAX,
        b.idx + b.count <= u32::MAX,
    ensures
        w.all_agree(unify::pairs(a, b)) <==> w.all(a) == w.all(b),
{
    let tasks = unify::pairs(a, b);
    if w.all_agree(tasks) {
        assert forall|i: int| 0 <= i < a.count implies w.all(a)[i] == w.all(b)[i] by {
            assert(w.agrees(tasks[i]));
        }
        assert(w.all(a) =~= w.all(b));
    }
    if w.all(a) == w.all(b) {
        assert forall|i: int| 0 <= i < tasks.len() implies w.agrees(#[trigger] tasks[i]) by {
            assert(w.all(a)[i] == w.all(b)[i]);
        }
    }
}

proof fn lemma_named_pairs(w: World, t: TypeTable, a: NamedMembers, b: NamedMembers, n: int)
    requires
        a.count == b.count,
        t.has_members(a),
        t.has_members(b),
        0 <= n <= a.count,
    ensures
        w.all_agree(unify::named_pairs(t.named_members@, a, b, n)) <==> forall|i: int|
            0 <= i < n ==> #[trigger] w.named(t, a)[i] == w.named(t, b)[i],
    decreases n,
{
    if n > 0 {
        lemma_named_pairs(w, t, a, b, n - 1);
        let members = t.named_members@;
        let before = unify::named_pairs(members, a, b, n - 1);
        let tasks = unify::named_pairs(members, a, b, n);
        let i = a.idx + n - 1;
        let j = b.idx + n - 1;
        assert(w.named(t, a)[n - 1] == (members[i].name@, (w.inferred)(members[i].ty)));
        assert(w.named(t, b)[n - 1] == (members[j].name@, (w.inferred)(members[j].ty)));
        if i != j {
            let last = tasks.last();
            assert(tasks =~= before.push(last));
            if w.all_agree(tasks) {
                assert forall|k: int| 0 <= k < before.len() implies w.agrees(
                    #[trigger] before[k],
                ) by {
                    assert(w.agrees(tasks[k]));
                }
                assert(w.agrees(tasks[before.len() as int]));
            }
            if w.all_agree(before) && w.agrees(last) {
                assert forall|k: int| 0 <= k < tasks.len() implies w.agrees(
                    #[trigger] tasks[k],
                ) by {
                    if k < before.len() {
                        assert(w.agrees(before[k]));
                    }
                }
            }
            assert(w.all_agree(tasks) <==> w.all_agree(before) && w.agrees(last));
        }
    }
}

proof fn lemma_all_agree_sum(w: World, a: Seq<Task>, b: Seq<Task>)
    ensures
        w.all_agree(a + b) <==> w.all_agree(a) && w.all_agree(b),
{
    let both = a + b;
    if w.all_agree(both) {
        assert forall|i: int| 0 <= i < a.len() implies w.agrees(#[trigger] a[i]) by {
            assert(w.agrees(both[i]));
        }
        assert forall|i: int| 0 <= i < b.len() implies w.agrees(#[trigger] b[i]) by {
            assert(w.agrees(both[a.len() + i]));
        }
    }
}

proof fn lemma_tuples(w: World, t: TypeTable, a: TypeInfo, b: TypeInfo, c: Concrete)
    requires
        a is Tuple,
        b is Tuple,
        t.has_info(a),
        t.has_info(b),
    ensures
        w.left_possible(t, unify::planned(t, a, b), c) <==> w.possible(t, a, c) && w.possible(
            t,
            b,
            c,
        ),
{
    if let TypeInfo::Tuple { members: m, named_members: n } = a {
        if let TypeInfo::Tuple { members: o, named_members: p } = b {
            if m.count == o.count && n.count == p.count {
                lemma_pairs(w, m, o);
                lemma_named_pairs(w, t, n, p, n.count as int);
                lemma_all_agree_sum(
                    w,
                    unify::pairs(m, o),
                    unify::named_pairs(t.named_members@, n, p, n.count as int),
                );
                let (x, y) = (w.named(t, n), w.named(t, p));
                if w.all_agree(unify::named_pairs(t.named_members@, n, p, n.count as int)) {
                    assert(x =~= y);
                }
            } else {
                assert(w.all(m).len() == m.count && w.all(o).len() == o.count);
                assert(w.named(t, n).len() == n.count && w.named(t, p).len() == p.count);
            }
        }
    }
}

proof fn lemma_unknown(
    w: World,
    t: TypeTable,
    after: TypeTable,
    a: TypeInfo,
    b: TypeInfo,
    c: Concrete,
)
    requires
        a is Unknown,
        b is Unknown,
        t.has_info(a),
        t.has_info(b),
        after.bounds@ == unify::planned_bounds(t, a, b),
        after.bounds@.len() <= u32::MAX,
    ensures
        w.left_possible(after, unify::planned(t, a, b), c) <==> w.possible(t, a, c) && w.possible(
            t,
            b,
            c,
        ),
{
    if let TypeInfo::Unknown(x) = a {
        if let TypeInfo::Unknown(y) = b {
            if x.count != 0 || y.count != 0 {
                let start = t.bounds@.len() as int;
                let r = Bounds { idx: start as u32, count: (x.count + y.count) as u32 };
                assert forall|i: int| 0 <= i < x.count implies after.bounds@[start + i]
                    == t.bounds@[#[trigger] (x.idx + i)] by {
                    assert(t.bounds_of(x)[i] == t.bounds@[x.idx + i]);
                }
                assert forall|i: int| 0 <= i < y.count implies after.bounds@[start + x.count + i]
                    == t.bounds@[#[trigger] (y.idx + i)] by {
                    assert(t.bounds_of(y)[i] == t.bounds@[y.idx + i]);
                }
                if w.meets(after, r, c) {
                    assert forall|i: int| x.idx <= i < x.idx + x.count implies (w.has)(
                        c,
                        #[trigger] t.bounds@[i],
                    ) by {
                        let k = i - x.idx;
                        assert(t.bounds@[x.idx + k] == after.bounds@[start + k]);
                    }
                    assert forall|i: int| y.idx <= i < y.idx + y.count implies (w.has)(
                        c,
                        #[trigger] t.bounds@[i],
                    ) by {
                        let k = i - y.idx;
                        assert(t.bounds@[y.idx + k] == after.bounds@[start + x.count + k]);
                    }
                }
                if w.meets(t, x, c) && w.meets(t, y, c) {
                    assert forall|i: int| r.idx <= i < r.idx + r.count implies (w.has)(
                        c,
                        #[trigger] after.bounds@[i],
                    ) by {
                        let k = i - start;
                        if k < x.count {
                            assert(t.bounds@[x.idx + k] == after.bounds@[start + k]);
                        } else {
                            let l = k - x.count;
                            assert(t.bounds@[y.idx + l] == after.bounds@[start + x.count + l]);
                        }
                    }
                }
            }
        }
    }
}

/// Unifying two types leaves possible just what both leave possible, whatever holds
/// of the types: the step succeeds with a result that the type fits if and only if
/// the type fits both. In particular two instances of different types, or tuples
/// with different members, have nothing in common.
pub proof fn unification_keeps_what_both_allow(
    w: World,
    t: TypeTable,
    after: TypeTable,
    a: TypeInfo,
    b: TypeInfo,
    c: Concrete,
)
    requires
        w.is_sensible(),
        t.has_info(a),
        t.has_info(b),
        is_regular(a),
        is_regular(b),
        same_generics(a, b),
        !(is_fixed_item(a) && is_fixed_item(b)),
        a != TypeInfo::Known(unify::invalid_type()),
        b != TypeInfo::Known(unify::invalid_type()),
        extends(t, after),
        after.bounds@ == unify::planned_bounds(t, a, b),
        after.bounds@.len() <= u32::MAX,
    ensures
        match unify::planned(t, a, b) {
            // a method stays the method even if its generics do not agree
            StepView::Any { tasks, result } => w.all_agree(tasks) ==> (w.possible(after, result, c)
                <==> w.possible(t, a, c) && w.possible(t, b, c)),
            step => w.left_possible(after, step, c) <==> w.possible(t, a, c) && w.possible(
                t,
                b,
                c,
            ),
        },
{
    assert(forall|e: InferredEnumId| after.variant_count(e) == t.variant_count(e));
    assert(forall|e: InferredEnumId, i: int| after.variant(e, i) == t.variant(e, i));
    match (a, b) {
        (TypeInfo::Unknown(x), TypeInfo::Unknown(y)) => {
            lemma_unknown(w, t, after, a, b, c);
        },
        (TypeInfo::Tuple { .. }, TypeInfo::Tuple { .. }) => {
            lemma_tuples(w, t, a, b, c);
        },
        (TypeInfo::Instance(x, g), TypeInfo::Instance(y, h)) => {
            if g.count == h.count {
                lemma_pairs(w, g, h);
            } else {
                assert(w.all(g).len() == g.count && w.all(h).len() == h.count);
            }
        },
        (TypeInfo::Instance(x, g), TypeInfo::Integer) | (
            TypeInfo::Integer,
            TypeInfo::Instance(x, g),
        ) | (TypeInfo::Instance(x, g), TypeInfo::Float) | (
            TypeInfo::Float,
            TypeInfo::Instance(x, g),
        ) => {
            assert(w.all(LocalTypeIds::empty()) =~= Seq::empty());
            if g.count == 0 {
                assert(w.all(g) =~= Seq::empty());
            }
        },
        (
            TypeInfo::MethodItem { module: m, function: f, generics: g },
            TypeInfo::MethodItem { module: n, function: h, generics: i },
        ) => {
            if m == n && f == h {
                lemma_pairs(w, g, i);
            }
        },
        _ => {},
    }
}

/// An error is the outcome just where one of the types is one.
pub proof fn errors_absorb(t: TypeTable, a: TypeInfo, b: TypeInfo)
    ensures
        unify::planned(t, a, b) == unify::done(TypeInfo::Known(unify::invalid_type())) <==> a
            == TypeInfo::Known(unify::invalid_type()) || b == TypeInfo::Known(
            unify::invalid_type(),
        ),
{
}

/// Of two enums that are merged the one with more variants stays, and the type of
/// its ordinals is the first argument of its first variant.
pub proof fn the_longer_enum_stays(t: TypeTable, x: InferredEnumId, y: InferredEnumId)
    ensures
        unify::planned(t, TypeInfo::Enum(x), TypeInfo::Enum(y)) matches StepView::Merge {
            into,
            from,
            ordinal_type,
        } ==> {
            &&& (into == x && from == y) || (into == y && from == x)
            &&& t.variant_count(into) >= t.variant_count(from)
            &&& t.variant_count(into) > 0
            &&& ordinal_type.0 == t.variant(into, 0).args.idx
        },
        unify::planned(t, TypeInfo::Enum(x), TypeInfo::Enum(y)) is Merge <==> t.variant_count(x) > 0
            || t.variant_count(y) > 0,
{
}

proof fn lemma_find_variant(t: TypeTable, e: InferredEnumId, name: Seq<char>, i: nat)
    ensures
        match t.find_variant(e, name, i) {
            Some(id) => exists|k: int|
                i <= k < t.variant_count(e) && #[trigger] t.variant(e, k).name@ == name
                    && t.enums@[e.0 as int]@[k] == id && t.variants@[id.0 as int] == t.variant(
                    e,
                    k,
                ),
            None => forall|k: int|
                i <= k < t.variant_count(e) ==> #[trigger] t.variant(e, k).name@ != name,
        },
    decreases t.variant_count(e) - i,
{
    if i < t.variant_count(e) {
        if t.variant(e, i as int).name@ == name {
            assert(t.variant(e, i as int).name@ == name);
        } else {
            lemma_find_variant(t, e, name, i + 1);
        }
    }
}

/// Variants are merged by name: a variant with a name that the other enum does not
/// have is added, and one with a name that it has is unified with that variant,
/// whose ordinal it gets. That succeeds just where the arguments turn out to be the
/// same; it fails at once where their numbers differ.
pub proof fn variants_are_merged_by_name(
    w: World,
    t: TypeTable,
    into: InferredEnumId,
    from: InferredEnumId,
    i: int,
)
    requires
        0 <= i < t.variant_count(from),
        forall|k: int|
            0 <= k < t.variants@.len() ==> (#[trigger] t.variants@[k]).args.idx
                + t.variants@[k].args.count <= u32::MAX && t.variants@[k].args.count > 0,
        t.has_enum(into),
        t.has_enum(from),
    ensures
        match t.merge_planned(into, from, i) {
            VariantStepView::Append { variant } => {
                &&& t.variants@[variant.0 as int] == t.variant(from, i)
                &&& forall|k: int|
                    0 <= k < t.variant_count(into) ==> #[trigger] t.variant(into, k).name@
                        != t.variant(from, i).name@
            },
            VariantStepView::Unify { tasks, variant, ordinal } => {
                &&& t.variants@[variant.0 as int] == t.variant(from, i)
                &&& exists|k: int|
                    {
                        &&& 0 <= k < t.variant_count(into)
                        &&& #[trigger] t.variant(into, k).name@ == t.variant(from, i).name@
                        &&& ordinal == t.variant(into, k).ordinal
                        &&& w.all_agree(tasks) <==> w.arguments(t.variant(into, k))
                            == w.arguments(t.variant(from, i))
                    }
            },
            VariantStepView::Mismatch => exists|k: int|
                {
                    &&& 0 <= k < t.variant_count(into)
                    &&& #[trigger] t.variant(into, k).name@ == t.variant(from, i).name@
                    &&& w.arguments(t.variant(into, k)) != w.arguments(t.variant(from, i))
                },
        },
{
    let b = t.variant(from, i);
    lemma_find_variant(t, into, b.name@, 0);
    if let Some(id) = t.find_variant(into, b.name@, 0) {
        let k = choose|k: int|
            0 <= k < t.variant_count(into) && #[trigger] t.variant(into, k).name@ == b.name@
                && t.enums@[into.0 as int]@[k] == id && t.variants@[id.0 as int] == t.variant(
                into,
                k,
            );
        let a = t.variant(into, k);
        assert(t.enums@[into.0 as int]@[k].0 < t.variants@.len());
        assert(t.enums@[from.0 as int]@[i].0 < t.variants@.len());
        assert(t.variants@[id.0 as int].args.count > 0);
        assert(t.variants@[t.enums@[from.0 as int]@[i].0 as int].args.count > 0);
        assert(w.arguments(a).len() == a.args.count - 1);
        assert(w.arguments(b).len() == b.args.count - 1);
        if a.args.count == b.args.count {
            let x = LocalTypeIds {
                idx: (a.args.idx + 1) as u32,
                count: (a.args.count - 1) as u32,
            };
            let y = LocalTypeIds {
                idx: (b.args.idx + 1) as u32,
                count: (b.args.count - 1) as u32,
            };
            lemma_pairs(w, x, y);
            assert(unify::pairs(x, y) =~= unify::pairs(a.args, b.args).skip(1));
            assert(w.all(x) =~= w.arguments(a));
            assert(w.all(y) =~= w.arguments(b));
        }
    }
}

/// A declared variant is found by its name, and the first of those with the name.
pub proof fn declared_variants_are_found(def: Seq<DeclaredVariant>, name: Seq<char>, i: nat)
    ensures
        match unify::find_declared(def, name, i) {
            Some(k) => i <= k < def.len() && def[k].name@ == name && forall|j: int|
                i <= j < k ==> (#[trigger] def[j]).name@ != name,
            None => forall|j: int| i <= j < def.len() ==> (#[trigger] def[j]).name@ != name,
        },
    decreases def.len() - i,
{
    if i < def.len() && def[i as int].name@ != name {
        declared_variants_are_found(def, name, i + 1);
    }
}

/// The arguments of a variant are compared with the declared ones in their order, the
/// ordinal left out: all comparisons hold just where the arguments turn out to be
/// the declared types.
pub proof fn arguments_are_compared_in_order(w: World, v: InferredVariant, declared: Seq<Type>)
    requires
        v.args.idx + v.args.count <= u32::MAX,
        v.args.count == declared.len() + 1,
    ensures
        ({
            let pairs = unify::declared_pairs(v.args, declared);
            &&& pairs.len() == declared.len()
            &&& (forall|i: int|
                0 <= i < pairs.len() ==> (w.inferred)((#[trigger] pairs[i]).0) == (w.known)(
                    pairs[i].1,
                )) <==> w.arguments(v) =~= declared.map_values(|ty: Type| (w.known)(ty))
        }),
{
    let pairs = unify::declared_pairs(v.args, declared);
    let known = declared.map_values(|ty: Type| (w.known)(ty));
    assert forall|i: int| 0 <= i < pairs.len() implies #[trigger] w.arguments(v)[i] == (w.inferred)(
        pairs[i].0,
    ) && known[i] == (w.known)(pairs[i].1) by {}
    if w.arguments(v) =~= known {
        assert forall|i: int| 0 <= i < pairs.len() implies (w.inferred)((#[trigger] pairs[i]).0)
            == (w.known)(pairs[i].1) by {
            assert(w.arguments(v)[i] == known[i]);
        }
    }
}

/// Bounds that are all met leave the last outcome; otherwise the first bound that is
/// not met decides.
pub proof fn the_first_bound_that_fails_decides(
    start: TypeInfoOrIdx,
    outcomes: Seq<Result<Option<TypeInfoOrIdx>, InvalidTypeError>>,
    n: int,
)
    requires
        0 <= n <= outcomes.len(),
        forall|i: int| 0 <= i < n ==> (#[trigger] outcomes[i]) matches Ok(Some(_)),
    ensures
        n == outcomes.len() ==> unify::bounds_outcome(start, outcomes) == Some(
            if n == 0 {
                start
            } else {
                outcomes[n - 1]->Ok_0->Some_0
            },
        ),
        n < outcomes.len() ==> match outcomes[n] {
            Ok(Some(_)) => true,
            Ok(None) => unify::bounds_outcome(start, outcomes) is None,
            Err(_) => unify::bounds_outcome(start, outcomes) == Some(
                TypeInfoOrIdx::TypeInfo(TypeInfo::Known(unify::invalid_type())),
            ),
        },
    decreases n,
{
    if n > 0 {
        let rest = outcomes.skip(1);
        assert(outcomes[0] matches Ok(Some(_)));
        assert forall|i: int| 0 <= i < n - 1 implies (#[trigger] rest[i]) matches Ok(Some(_)) by {
            assert(rest[i] == outcomes[i + 1]);
        }
        the_first_bound_that_fails_decides(outcomes[0]->Ok_0->Some_0, rest, n - 1);
    }
}

} // verus!
