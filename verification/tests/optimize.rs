use eye::ir::dialect::{function, Arith, Cf, Dialect, Mem, Tuple};
use eye::ir::edit::{apply_all, Edit};
use eye::ir::env::{Environment, FunctionDef};
use eye::ir::function::{BlockInfo, FunctionIr};
use eye::ir::ids::{BlockId, FunctionId, ModuleId, Ref, TypeId};
use eye::ir::inst::{decode_args, write_args, Argument, Builtin, Instruction, MCReg, Parameter};
use eye::ir::modify::{Insert, IrModify};
use eye::ir::optimize::partition::{make_partition, subdecl_ty, Access, AccessType, SubType, Subrange};
use eye::ir::optimize::scan::find_decl_offset_of_ptr;
use eye::ir::optimize::sroa::SROA;
use eye::ir::slots::Slots;
use eye::ir::types::{Element, Layout, Leaf, Primitive, Shape, TypeInfo, Types};

const ARITH: ModuleId = ModuleId(1);
const CF: ModuleId = ModuleId(2);
const MEM: ModuleId = ModuleId(3);
const TUPLE: ModuleId = ModuleId(4);

const UNIT: TypeId = TypeId(0);
const I32: TypeId = TypeId(1);
const PTR: TypeId = TypeId(2);
const PAIR: TypeId = TypeId(3);

fn defs<D: Dialect>(terminator: bool, pure_: bool) -> Vec<FunctionDef> {
    let mut defs = vec![];
    while let Some(op) = D::of_id(defs.len() as u32) {
        let (params, varargs) = (op.params(), op.varargs());
        defs.push(FunctionDef { params, varargs, terminator, pure_ });
    }
    defs
}

fn env() -> Environment {
    let def = |params, pure_| FunctionDef { params, varargs: None, terminator: false, pure_ };
    let builtins = vec![
        def(vec![], false),
        def(vec![], false),
        def(vec![Parameter::Ref], true),
        def(vec![], true),
    ];
    Environment {
        modules: vec![
            builtins,
            defs::<Arith>(false, true),
            defs::<Cf>(true, false),
            defs::<Mem>(false, false),
            defs::<Tuple>(false, true),
        ],
        goto: Some(function(CF, Cf::Goto)),
    }
}

fn types() -> Types {
    let mut types = Types { types: vec![] };
    types.add_type(TypeInfo {
        shape: Shape::Tuple(vec![]),
        layout: Layout { size: 0, align: 1 },
        leaves: vec![],
    });
    types.add(Primitive::I32);
    types.add(Primitive::Ptr);
    types.add_type(TypeInfo {
        shape: Shape::Tuple(vec![Element { ty: I32, offset: 0 }, Element { ty: I32, offset: 4 }]),
        layout: Layout { size: 8, align: 4 },
        leaves: vec![
            Leaf { primitive: Primitive::I32, offset: 0 },
            Leaf { primitive: Primitive::I32, offset: 4 },
        ],
    });
    types
}

fn build(env: &Environment, body: Vec<(FunctionId, Vec<Argument>, TypeId)>) -> FunctionIr {
    let mut ir = FunctionIr { insts: vec![], blocks: vec![], extra: vec![], reg_classes: vec![] };
    ir.blocks.push(BlockInfo {
        arg_count: 0,
        args_idx: 0,
        body_idx: 1,
        len: body.len() as u32,
        preds: vec![],
        succs: vec![],
    });
    ir.insts.push(Instruction::nothing());
    for (f, args, ty) in body {
        let d = env.get(f);
        let stored =
            write_args(&mut ir.extra, BlockId(0), &mut ir.blocks, &d.params, d.varargs, &args);
        ir.insts.push(Instruction { function: f, args: stored, ty });
    }
    ir
}

fn shown(env: &Environment, ir: &FunctionIr) -> Vec<String> {
    let body = ir.get_block_refs(BlockId(0));
    (0..body.count())
        .map(|i| {
            let inst = &ir.insts[body.nth(i).idx()];
            let id = inst.function.function.0;
            let mut line = match inst.function.module {
                ARITH => format!("{:?}", Arith::of_id(id).unwrap()),
                CF => format!("{:?}", Cf::of_id(id).unwrap()),
                MEM => format!("{:?}", Mem::of_id(id).unwrap()),
                TUPLE => format!("{:?}", Tuple::of_id(id).unwrap()),
                _ => format!("builtin {id}"),
            };
            let d = env.get(inst.function);
            for arg in decode_args(&d.params, d.varargs, inst.args, &ir.extra, &ir.blocks) {
                line.push_str(&match arg {
                    Argument::Ref(r) => format!(" %{}", r.0),
                    Argument::Int(i) => format!(" {i}"),
                    Argument::TypeId(t) => format!(" t{}", t.0),
                    other => format!(" {other:?}"),
                });
            }
            line
        })
        .collect()
}

fn sample(env: &Environment) -> FunctionIr {
    let r = |i| Argument::Ref(Ref(i));
    build(
        env,
        vec![
            (function(MEM, Mem::Decl), vec![Argument::TypeId(PAIR)], PTR),
            (
                function(MEM, Mem::MemberPtr),
                vec![r(1), Argument::TypeId(PAIR), Argument::Int32(1)],
                PTR,
            ),
            (function(ARITH, Arith::Int), vec![Argument::Int(7)], I32),
            (function(MEM, Mem::Store), vec![r(2), r(3)], UNIT),
            (function(MEM, Mem::Load), vec![r(2)], I32),
            (function(CF, Cf::Ret), vec![r(5)], UNIT),
        ],
    )
}

#[test]
fn variables_are_split() {
    let env = env();
    let ir = sample(&env);
    let sroa = SROA::new(ARITH, MEM, TUPLE);
    let (ir, types) = sroa.run(&env, types(), ir);
    assert_eq!(
        shown(&env, &ir),
        vec!["Decl t4", "Int 7", "Store %1 %2", "Load %1", "Ret %4"],
    );
    assert_eq!(types.primitive(TypeId(4)), Some(Primitive::I32));
    assert_eq!(types.primitive(ir.insts[1].ty), Some(Primitive::Ptr));
}

fn access(access: AccessType, offset: u64, ty: Primitive) -> Access {
    Access { access, location: Ref(0), size: ty.byte_size(), offset, ty, index: None }
}

#[test]
fn stores_are_partitioned() {
    let accesses = vec![
        access(AccessType::Store, 4, Primitive::I32),
        access(AccessType::Store, 0, Primitive::F32),
        access(AccessType::Load, 4, Primitive::I32),
    ];
    let parts = make_partition(&accesses).unwrap();
    assert_eq!(parts.len(), 2);
    assert_eq!((parts[0].offset, parts[0].size), (0, 4));
    assert_eq!(parts[0].ty, SubType::Unique(Primitive::F32));
    assert_eq!((parts[1].offset, parts[1].size), (4, 4));
    assert_eq!(parts[1].ty, SubType::Unique(Primitive::I32));
}

#[test]
fn overlapping_stores_share_a_part() {
    let accesses = vec![
        access(AccessType::Store, 0, Primitive::I32),
        access(AccessType::Store, 2, Primitive::I16),
    ];
    let parts = make_partition(&accesses).unwrap();
    assert_eq!(parts.len(), 1);
    assert_eq!(parts[0].ty, SubType::Int);
    assert_eq!(subdecl_ty(Subrange { offset: 0, size: 3, ty: SubType::Int }).byte_size(), 4);
}

#[test]
fn joined_types_are_numbers() {
    let a = SubType::Unique(Primitive::I32);
    let b = SubType::Unique(Primitive::F32);
    assert_eq!(a.join(a), a);
    assert_eq!(a.join(b), SubType::Int);
    assert_eq!(a.join(b), b.join(a));
}

#[test]
fn values_get_slots() {
    let env = env();
    let r = |i| Argument::Ref(Ref(i));
    let ir = build(
        &env,
        vec![
            (function(ARITH, Arith::Int), vec![Argument::Int(7)], I32),
            (
                function(TUPLE, Tuple::MemberValue),
                vec![r(1), Argument::Int32(0)],
                PAIR,
            ),
            (function(CF, Cf::Ret), vec![r(2)], UNIT),
        ],
    );
    let slots = Slots::with_default(&ir, &types(), MCReg(0));
    assert_eq!(slots.slots.len(), 3);
    assert_eq!(slots.slot_map[2], 1);
    assert_eq!(slots.get(Ref(2), 2).len(), 2);
    let pieces = slots.pieces(Ref(2), &types().types[3].leaves);
    assert_eq!((pieces[0].offset, pieces[1].offset), (0, 4));
}

#[test]
fn changes_are_made_in_their_order() {
    let env = env();
    let mut m = IrModify::new(sample(&env));
    let number = |n| Edit::Add {
        at: Ref(5),
        position: Insert::Before,
        function: function(ARITH, Arith::Int),
        args: vec![Argument::Int(n)],
        ty: I32,
    };
    apply_all(
        &mut m,
        &env,
        &vec![
            number(1),
            number(2),
            Edit::ReplaceWith { at: Ref(5), new: Ref(8) },
            Edit::Delete { at: Ref(4) },
        ],
    );
    let ir = m.finish_and_compress(&env);
    let lines = shown(&env, &ir);
    assert_eq!(lines[2..], ["Int 7", "Int 1", "Int 2", "Ret %5"]);
    // a finished function can be finished again
    let again = IrModify::new(ir).finish_and_compress(&env);
    assert_eq!(shown(&env, &again), lines);
}

#[test]
fn stores_without_scalars_are_deleted() {
    let env = env();
    let mut types = types();
    let array = types.add_type(TypeInfo {
        shape: Shape::Array,
        layout: Layout { size: 12, align: 4 },
        leaves: vec![],
    });
    let r = |i| Argument::Ref(Ref(i));
    let ir = build(
        &env,
        vec![
            (function(MEM, Mem::Decl), vec![Argument::TypeId(array)], PTR),
            (Builtin::Undef.function(), vec![], array),
            (function(MEM, Mem::Store), vec![r(1), r(2)], UNIT),
            (function(CF, Cf::Ret), vec![r(2)], UNIT),
        ],
    );
    let (ir, _) = SROA::new(ARITH, MEM, TUPLE).run(&env, types, ir);
    assert_eq!(shown(&env, &ir), vec!["Decl t4", "builtin 3", "Ret %2"]);
}

#[test]
fn offsets_of_large_types_are_summed() {
    let env = env();
    let mut types = types();
    let far = 1u64 << 40;
    let large = types.add_type(TypeInfo {
        shape: Shape::Tuple(vec![Element { ty: I32, offset: 0 }, Element { ty: PAIR, offset: far }]),
        layout: Layout { size: far + 8, align: 4 },
        leaves: vec![],
    });
    let r = |i| Argument::Ref(Ref(i));
    let member = |ptr, ty| {
        (
            function(MEM, Mem::MemberPtr),
            vec![r(ptr), Argument::TypeId(ty), Argument::Int32(1)],
            PTR,
        )
    };
    let ir = build(
        &env,
        vec![
            (function(MEM, Mem::Decl), vec![Argument::TypeId(large)], PTR),
            member(1, large),
            member(2, PAIR),
            (function(CF, Cf::Ret), vec![r(3)], UNIT),
        ],
    );
    assert_eq!(find_decl_offset_of_ptr(&ir, &types, MEM, Ref(1)), Some((Ref(1), 0)));
    assert_eq!(find_decl_offset_of_ptr(&ir, &types, MEM, Ref(3)), Some((Ref(1), far + 4)));
    assert_eq!(find_decl_offset_of_ptr(&ir, &types, MEM, Ref(4)), None);
    assert_eq!(find_decl_offset_of_ptr(&ir, &types, MEM, Ref::unit()), None);
}
