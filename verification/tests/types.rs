use eye::compiler::types::{
    BaseType, BuiltinType, FloatType, FunctionType, IntType, InvalidTypeError, Primitive, Type,
};
use eye::compiler::unify::{
    bound_unified, invalid_type, specified, tasks_done, type_type, Bound, BoundStep, Bounds,
    DeclaredVariant, InferredEnumId, InferredVariant, LocalTypeId, LocalTypeIds, Step, Task,
    TypeInfo, TypeInfoOrIdx, TypeTable, VariantId, VariantStep,
};

#[test]
fn builtin_types_have_sizes() {
    assert_eq!(BuiltinType::I128.size(), Some(16));
    assert_eq!(BuiltinType::U8.size(), Some(1));
    assert_eq!(BuiltinType::Unit.name(), "()");
    assert_eq!(BuiltinType::F32.name(), "f32");
}

#[test]
fn ranges_of_integers() {
    assert!(IntType::I8.is_signed());
    assert!(!IntType::U128.is_signed());
    assert_eq!(IntType::I8.min(), 128);
    assert_eq!(IntType::I8.max(), 127);
    assert_eq!(IntType::U8.min(), 0);
    assert_eq!(IntType::U64.max(), u64::MAX as u128);
    assert_eq!(IntType::U128.max(), u128::MAX);
}

#[test]
fn numbers_are_recognized() {
    let small = Type::from_primitive(Primitive::I16);
    assert_eq!(small.as_int(), Some(IntType::I16));
    assert!(small.is_int() && !small.is_float());
    let float = Type::from_primitive(Primitive::F64);
    assert_eq!(float.as_float(), Some(FloatType::F64));
    assert!(BaseType::from_primitive(Primitive::U32).is_int());
    assert_eq!(BaseType::builtin(BuiltinType::Array).as_int(), None);
}

#[test]
fn invalid_types_are_the_same_as_none() {
    let small = Type::from_primitive(Primitive::I16);
    assert_eq!(small.is_same_as(small), Ok(true));
    assert_eq!(small.is_same_as(Type::from_primitive(Primitive::I32)), Ok(false));
    assert_eq!(small.is_same_as(invalid_type()), Err(InvalidTypeError));
    let f = FunctionType { params: vec![small], return_type: small };
    let g = FunctionType { params: vec![small, small], return_type: small };
    assert_eq!(f.is_same_as(&f), Ok(true));
    assert_eq!(f.is_same_as(&g), Ok(false));
}

fn table() -> TypeTable {
    TypeTable {
        types: vec![TypeInfoOrIdx::TypeInfo(TypeInfo::Integer); 8],
        bounds: vec![],
        named_members: vec![],
        enums: vec![],
        variants: vec![],
    }
}

fn done(step: Step) -> Option<TypeInfoOrIdx> {
    match step {
        Step::Done(r) => r,
        other => panic!("unexpected {other:?}"),
    }
}

#[test]
fn numbers_unify_with_number_types() {
    let mut t = table();
    let none = LocalTypeIds::empty();
    let word = TypeInfo::Instance(BaseType::from_primitive(Primitive::I32), none);
    let real = TypeInfo::Instance(BaseType::from_primitive(Primitive::F32), none);
    let info = |i| Some(TypeInfoOrIdx::TypeInfo(i));
    assert_eq!(done(t.unify_infos(TypeInfo::Integer, word)), info(word));
    assert_eq!(done(t.unify_infos(word, TypeInfo::Integer)), info(word));
    assert_eq!(done(t.unify_infos(TypeInfo::Float, real)), info(real));
    assert_eq!(done(t.unify_infos(TypeInfo::Float, word)), None);
    assert_eq!(done(t.unify_infos(TypeInfo::Integer, TypeInfo::Float)), None);
    assert_eq!(done(t.unify_infos(TypeInfo::Float, TypeInfo::Float)), info(TypeInfo::Float));
    let invalid = TypeInfo::Known(invalid_type());
    assert_eq!(done(t.unify_infos(word, invalid)), info(invalid));
}

#[test]
fn known_types_are_specified() {
    let mut t = table();
    let ty = Type::from_primitive(Primitive::I32);
    for (a, b) in [
        (TypeInfo::Integer, TypeInfo::Known(ty)),
        (TypeInfo::Known(ty), TypeInfo::Integer),
    ] {
        match t.unify_infos(a, b) {
            Step::Specify { info, ty: found } => {
                assert_eq!(info, TypeInfo::Integer);
                assert_eq!(found, ty);
            }
            other => panic!("unexpected {other:?}"),
        }
    }
}

#[test]
fn tuples_unify_element_by_element() {
    let mut t = table();
    let named = eye::compiler::unify::NamedMembers { idx: 0, count: 0 };
    let a = TypeInfo::Tuple { members: LocalTypeIds { idx: 0, count: 2 }, named_members: named };
    let b = TypeInfo::Tuple { members: LocalTypeIds { idx: 4, count: 2 }, named_members: named };
    match t.unify_infos(a, b) {
        Step::All { tasks, result } => {
            assert_eq!(
                tasks,
                vec![
                    Task::Unify(LocalTypeId(0), LocalTypeId(4)),
                    Task::Unify(LocalTypeId(1), LocalTypeId(5)),
                ],
            );
            assert_eq!(result, a);
        }
        other => panic!("unexpected {other:?}"),
    }
    let c = TypeInfo::Tuple { members: LocalTypeIds { idx: 4, count: 3 }, named_members: named };
    assert_eq!(done(t.unify_infos(a, c)), None);
}

#[test]
fn bounds_are_joined() {
    let mut t = table();
    let bound = |id| Bound { module: 0, trait_id: id, generics: LocalTypeIds::empty() };
    t.bounds = vec![bound(1), bound(2)];
    let a = TypeInfo::Unknown(Bounds { idx: 0, count: 1 });
    let b = TypeInfo::Unknown(Bounds { idx: 1, count: 1 });
    match done(t.unify_infos(a, b)) {
        Some(TypeInfoOrIdx::TypeInfo(TypeInfo::Unknown(bounds))) => {
            let ids: Vec<u32> = (0..bounds.count)
                .map(|i| t.bounds[(bounds.idx + i) as usize].trait_id)
                .collect();
            assert_eq!(ids, vec![1, 2]);
        }
        other => panic!("unexpected {other:?}"),
    }
}

#[test]
fn outcomes_become_types() {
    let ty = Type::from_primitive(Primitive::I32);
    let info = TypeInfo::Known(ty);
    assert_eq!(specified(ty, Ok(true)), Some(TypeInfoOrIdx::TypeInfo(info)));
    assert_eq!(specified(ty, Ok(false)), None);
    assert_eq!(
        specified(ty, Err(InvalidTypeError)),
        Some(TypeInfoOrIdx::TypeInfo(TypeInfo::Known(invalid_type()))),
    );
    assert_eq!(tasks_done(true, info), Some(TypeInfoOrIdx::TypeInfo(info)));
    assert_eq!(tasks_done(false, info), None);
    assert_eq!(bound_unified(Ok(None)), BoundStep::Done(None));
    assert_ne!(type_type(), invalid_type());
}

#[test]
fn variants_of_inferred_enums_are_merged() {
    let mut t = table();
    let variant = |name: &str, idx, count| InferredVariant {
        name: name.to_owned(),
        ordinal: 0,
        args: LocalTypeIds { idx, count },
    };
    t.variants = vec![variant("A", 0, 2), variant("A", 2, 2), variant("B", 4, 1)];
    t.enums = vec![vec![VariantId(0)], vec![VariantId(1), VariantId(2)]];
    match t.merge_variant(InferredEnumId(0), InferredEnumId(1), 0) {
        VariantStep::Unify { tasks, .. } => {
            assert!(tasks.contains(&Task::Unify(LocalTypeId(1), LocalTypeId(3))));
        }
        other => panic!("unexpected {other:?}"),
    }
    match t.merge_variant(InferredEnumId(0), InferredEnumId(1), 1) {
        VariantStep::Append { variant } => assert_eq!(variant, VariantId(2)),
        other => panic!("unexpected {other:?}"),
    }
    t.variants[1].args.count = 1;
    match t.merge_variant(InferredEnumId(0), InferredEnumId(1), 0) {
        VariantStep::Mismatch => {}
        other => panic!("unexpected {other:?}"),
    }
}

#[test]
fn inferred_enums_take_declared_variants() {
    let mut t = table();
    t.variants = vec![InferredVariant {
        name: "B".to_owned(),
        ordinal: 0,
        args: LocalTypeIds { idx: 2, count: 2 },
    }];
    t.enums = vec![vec![VariantId(0)]];
    let word = Type::from_primitive(Primitive::I32);
    let def = vec![
        DeclaredVariant { name: "A".to_owned(), ordinal: 0, args: vec![] },
        DeclaredVariant { name: "B".to_owned(), ordinal: 1, args: vec![word] },
    ];
    assert_eq!(t.local_enum_with_instance(InferredEnumId(0), None), None);
    assert_eq!(t.types[2], TypeInfoOrIdx::TypeInfo(TypeInfo::Integer));
    let ordinal = Some(Type::from_primitive(Primitive::U8));
    assert_eq!(t.local_enum_with_instance(InferredEnumId(0), ordinal), Some(1));
    assert_eq!(
        t.types[2],
        TypeInfoOrIdx::TypeInfo(TypeInfo::Known(Type::from_primitive(Primitive::U8))),
    );
    let tasks = t.local_enum_variant(InferredEnumId(0), 0, &def);
    assert_eq!(tasks, Some(vec![(LocalTypeId(3), word)]));
    assert_eq!(t.variants[0].ordinal, 1);
    t.variants[0].name = "C".to_owned();
    assert_eq!(t.local_enum_variant(InferredEnumId(0), 0, &def), None);
}

#[test]
fn builtin_types_are_numbered() {
    assert_eq!(Type::builtin(BuiltinType::U16).0, BuiltinType::U16.id());
    assert_eq!(BaseType::builtin(BuiltinType::U16).0, BuiltinType::U16.id());
    assert_ne!(BuiltinType::I8.id(), BuiltinType::U8.id());
}

#[test]
fn builtin_types_are_listed_in_order() {
    assert_eq!(BuiltinType::VARIANTS.len(), BuiltinType::COUNT as usize + 2);
    assert_eq!(BuiltinType::VARIANTS[0], BuiltinType::Invalid);
    assert_eq!(BuiltinType::VARIANTS[17], BuiltinType::Function);
    for (i, t) in BuiltinType::VARIANTS.iter().enumerate() {
        assert_eq!(t.id() as usize, i);
    }
}

#[test]
fn some_builtin_types_are_generic() {
    assert_eq!(BuiltinType::Array.generics(), vec!["element", "count"]);
    assert_eq!(BuiltinType::Pointer.generics(), vec!["pointee"]);
    assert_eq!(BuiltinType::Function.generics(), vec!["return_type", "args"]);
    assert!(BuiltinType::I32.generics().is_empty());
}
