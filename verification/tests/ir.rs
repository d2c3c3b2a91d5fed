use eye::ir::dialect::{function, Arith, Cf, Dialect};
use eye::ir::env::{Environment, FunctionDef};
use eye::ir::function::{BlockInfo, FunctionIr};
use eye::ir::ids::{BlockId, FunctionId, ModuleId, Ref, TypeId};
use eye::ir::inst::{decode_args, write_args, Argument, Builtin, Instruction, Parameter};
use eye::ir::modify::IrModify;
use eye::ir::types::{Primitive, Types};

const ARITH: ModuleId = ModuleId(1);
const CF: ModuleId = ModuleId(2);

fn def(params: Vec<Parameter>, terminator: bool, pure_: bool) -> FunctionDef {
    FunctionDef { params, varargs: None, terminator, pure_ }
}

fn test_env() -> Environment {
    let builtins = vec![
        def(vec![], false, false),
        def(vec![], false, false),
        def(vec![Parameter::Ref], false, true),
        def(vec![], false, true),
    ];
    let mut arith = Vec::new();
    for id in 0..26 {
        let op = Arith::of_id(id).unwrap();
        arith.push(def(op.params(), false, true));
    }
    let mut cf = Vec::new();
    for id in 0..3 {
        let op = Cf::of_id(id).unwrap();
        cf.push(def(op.params(), true, false));
    }
    let goto = Some(function(CF, Cf::Goto));
    Environment { modules: vec![builtins, arith, cf], goto }
}

fn test_types() -> Types {
    let mut types = Types { types: Vec::new() };
    types.add_type(eye::ir::types::TypeInfo {
        shape: eye::ir::types::Shape::Tuple(vec![]),
        layout: eye::ir::types::Layout { size: 0, align: 1 },
        leaves: vec![],
    });
    types.add(Primitive::I1);
    types.add(Primitive::I32);
    types
}

const I1: TypeId = TypeId(1);
const I32: TypeId = TypeId(2);
const UNIT: TypeId = TypeId(0);

/// Blocks without arguments from instructions with their arguments.
fn build(env: &Environment, blocks: Vec<Vec<(FunctionId, Vec<Argument>, TypeId)>>) -> FunctionIr {
    let mut ir = FunctionIr {
        insts: Vec::new(),
        blocks: Vec::new(),
        extra: Vec::new(),
        reg_classes: Vec::new(),
    };
    let mut idx = 0;
    for block in &blocks {
        ir.blocks.push(BlockInfo {
            arg_count: 0,
            args_idx: idx,
            body_idx: idx + 1,
            len: block.len() as u32,
            preds: Vec::new(),
            succs: Vec::new(),
        });
        idx += 1 + block.len() as u32;
    }
    for (i, block) in blocks.into_iter().enumerate() {
        ir.insts.push(Instruction::nothing());
        for (f, args, ty) in block {
            let d = env.get(f);
            let stored = write_args(
                &mut ir.extra,
                BlockId(i as u32),
                &mut ir.blocks,
                &d.params,
                d.varargs,
                &args,
            );
            ir.insts.push(Instruction { function: f, args: stored, ty });
        }
    }
    ir
}

fn args_of(env: &Environment, ir: &FunctionIr, inst: &Instruction) -> Vec<Argument> {
    let d = env.get(inst.function);
    decode_args(&d.params, d.varargs, inst.args, &ir.extra, &ir.blocks)
}

fn value(r: Ref) -> String {
    if r == Ref::unit() {
        "unit".to_owned()
    } else if r == Ref::true_() {
        "true".to_owned()
    } else if r == Ref::false_() {
        "false".to_owned()
    } else {
        format!("%{}", r.0)
    }
}

fn shown_type(types: &Types, ty: TypeId) -> String {
    match types.primitive(ty) {
        Some(p) => format!("{p:?}"),
        None => "()".to_owned(),
    }
}

fn display(env: &Environment, ir: &FunctionIr, types: &Types) -> String {
    let mut s = String::new();
    for b in ir.block_ids() {
        let args = ir.get_block_args(b);
        s.push_str(&format!("b{}", b.0));
        if args.count() > 0 {
            let list: Vec<String> = (0..args.count())
                .map(|i| {
                    let r = args.nth(i);
                    format!("{}: {}", value(r), shown_type(types, ir.insts[r.idx()].ty))
                })
                .collect();
            s.push_str(&format!("({})", list.join(", ")));
        }
        s.push_str(":\n");
        let body = ir.get_block_refs(b);
        for i in 0..body.count() {
            let r = body.nth(i);
            let inst = &ir.insts[r.idx()];
            let (name, is_value) = if inst.function.module == ARITH {
                (format!("arith.{:?}", Arith::of_id(inst.function.function.0).unwrap()), true)
            } else if inst.function.module == CF {
                (format!("cf.{:?}", Cf::of_id(inst.function.function.0).unwrap()), false)
            } else {
                (format!("builtin.{}", inst.function.function.0), false)
            };
            let mut line = if is_value { format!("{} = {name}", value(r)) } else { name };
            for arg in args_of(env, ir, inst) {
                match arg {
                    Argument::Ref(r) => line.push_str(&format!(" {}", value(r))),
                    Argument::Int(i) => line.push_str(&format!(" {i}")),
                    Argument::BlockTarget(t, values) => {
                        line.push_str(&format!(" b{}", t.0));
                        if !values.is_empty() {
                            let list: Vec<String> = values.iter().map(|r| value(*r)).collect();
                            line.push_str(&format!("({})", list.join(", ")));
                        }
                    }
                    other => panic!("unexpected argument {other:?}"),
                }
            }
            if is_value {
                line.push_str(&format!(" :: {}", shown_type(types, inst.ty)));
            }
            s.push_str(&line);
            s.push('\n');
        }
    }
    s
}

fn assert_ir_eq(env: &Environment, ir: &FunctionIr, types: &Types, expected: &str) {
    let actual = display(env, ir, types);
    let actual: Vec<&str> = actual.trim().lines().map(|l| l.trim()).collect();
    let expected: Vec<&str> = expected.trim().lines().map(|l| l.trim()).collect();
    assert_eq!(actual, expected);
}

/// Every predecessor is mentioned by the successors of its block and the other way round, and
/// targets get as many values as their blocks take.
fn verify_function_body(env: &Environment, ir: &FunctionIr) {
    for b in ir.block_ids() {
        let info = &ir.blocks[b.idx()];
        for s in &info.succs {
            assert!(ir.blocks[s.idx()].preds.contains(&b));
        }
        for p in &info.preds {
            assert!(ir.blocks[p.idx()].succs.contains(&b));
        }
        let body = ir.get_block_refs(b);
        assert!(body.count() > 0);
        for i in 0..body.count() {
            let inst = &ir.insts[body.nth(i).idx()];
            assert_eq!(env.get(inst.function).terminator, i + 1 == body.count());
            for arg in args_of(env, ir, inst) {
                match arg {
                    Argument::Ref(r) => assert!(!r.is_ref() || r.idx() < ir.insts.len()),
                    Argument::BlockTarget(t, values) => {
                        assert_eq!(values.len() as u32, ir.get_block_args(t).count());
                        assert!(info.succs.contains(&t));
                    }
                    _ => {}
                }
            }
        }
    }
}

fn number(x: u64) -> (FunctionId, Vec<Argument>, TypeId) {
    (function(ARITH, Arith::Int), vec![Argument::Int(x)], I32)
}

fn binary(op: Arith, a: u32, b: u32, ty: TypeId) -> (FunctionId, Vec<Argument>, TypeId) {
    (function(ARITH, op), vec![Argument::Ref(Ref(a)), Argument::Ref(Ref(b))], ty)
}

fn goto(b: u32) -> (FunctionId, Vec<Argument>, TypeId) {
    (function(CF, Cf::Goto), vec![Argument::BlockTarget(BlockId(b), vec![])], UNIT)
}

fn ret(r: Ref) -> (FunctionId, Vec<Argument>, TypeId) {
    (function(CF, Cf::Ret), vec![Argument::Ref(r)], UNIT)
}

fn branch(cond: u32, a: u32, b: u32) -> (FunctionId, Vec<Argument>, TypeId) {
    (
        function(CF, Cf::Branch),
        vec![
            Argument::Ref(Ref(cond)),
            Argument::BlockTarget(BlockId(a), vec![]),
            Argument::BlockTarget(BlockId(b), vec![]),
        ],
        UNIT,
    )
}

fn counting_loop(env: &Environment) -> FunctionIr {
    build(
        env,
        vec![
            vec![number(0), goto(1)],
            vec![number(10), binary(Arith::LT, 1, 4, I1), branch(5, 2, 3)],
            vec![number(1), binary(Arith::Add, 1, 8, I32), goto(1)],
            vec![ret(Ref::unit())],
        ],
    )
}

#[test]
fn add_block_arg() {
    let env = test_env();
    let mut types = test_types();
    let function = counting_loop(&env);
    verify_function_body(&env, &function);
    let mut ir = IrModify::new(function);
    let i64 = types.add(Primitive::I64);
    let (_, n) = ir.add_block_arg(&env, BlockId(1), i64);
    assert_eq!(n, 0);
    let function = ir.finish_and_compress(&env);
    for block in function.block_ids() {
        let arg_count = function.get_block_args(block).count;
        assert_eq!(arg_count, (block == BlockId(1)) as u32);
    }
    verify_function_body(&env, &function);
    assert_ir_eq(
        &env,
        &function,
        &types,
        "b0:
            %1 = arith.Int 0 :: I32
            cf.Goto b1(unit)
        b1(%3: I64):
            %4 = arith.Int 10 :: I32
            %5 = arith.LT %1 %4 :: I1
            cf.Branch %5 b2 b3
        b2:
            %10 = arith.Int 1 :: I32
            %11 = arith.Add %1 %10 :: I32
            cf.Goto b1(unit)
        b3:
            cf.Ret unit",
    );
}

#[test]
fn split_block() {
    let env = test_env();
    let mut types = test_types();
    let function_ir = build(&env, vec![vec![number(0), ret(Ref(1))]]);
    let mut ir = IrModify::new(function_ir);
    let b0 = BlockId(0);
    let i32 = types.add(Primitive::I32);
    let (new_block, insert_point) = ir.split_block_at(b0, Ref(1));
    ir.add_block_arg(&env, b0, i32);
    ir.add_block_arg(&env, new_block, i32);
    let five = ir.add_after(
        &env,
        insert_point,
        function(ARITH, Arith::Int),
        &vec![Argument::Int(5)],
        i32,
    );
    ir.add_after(
        &env,
        insert_point,
        function(CF, Cf::Goto),
        &vec![Argument::BlockTarget(new_block, vec![five, five])],
        UNIT,
    );
    let ir = ir.finish_and_compress_with_options(&env, false);
    assert_ir_eq(
        &env,
        &ir,
        &types,
        "b0(%0: I32):
            %1 = arith.Int 5 :: I32
            cf.Goto b1(%1, %1)
        b1(%3: I32, %4: I32):
            cf.Ret %3",
    );
    verify_function_body(&env, &ir);
}

#[test]
fn gotos_are_merged() {
    let env = test_env();
    let types = test_types();
    let ir = build(&env, vec![vec![number(7), goto(1)], vec![ret(Ref(1))]]);
    let kept = IrModify::new(ir).finish_and_compress_with_options(&env, false);
    assert_eq!(kept.blocks.len(), 2);
    let merged = IrModify::new(kept).finish_and_compress(&env);
    assert_ir_eq(&env, &merged, &types, "b0:\n %1 = arith.Int 7 :: I32\n cf.Ret %1");
    verify_function_body(&env, &merged);
}

#[test]
fn replaced_values_are_renamed() {
    let env = test_env();
    let types = test_types();
    let ir = build(
        &env,
        vec![vec![number(7), number(8), binary(Arith::Add, 1, 2, I32), ret(Ref(3))]],
    );
    let mut ir = IrModify::new(ir);
    ir.replace_with(&env, Ref(2), Ref(1));
    let two = ir.add_before(
        &env,
        Ref(3),
        function(ARITH, Arith::Int),
        &vec![Argument::Int(2)],
        I32,
    );
    ir.replace(
        &env,
        Ref(3),
        function(ARITH, Arith::Mul),
        &vec![Argument::Ref(Ref(2)), Argument::Ref(two)],
        I32,
    );
    let ir = ir.finish_and_compress(&env);
    assert_ir_eq(
        &env,
        &ir,
        &types,
        "b0:
            %1 = arith.Int 7 :: I32
            %2 = arith.Int 2 :: I32
            %3 = arith.Mul %1 %2 :: I32
            cf.Ret %3",
    );
}

#[test]
fn deleted_instructions_are_left_out() {
    let env = test_env();
    let types = test_types();
    let ir = build(&env, vec![vec![number(7), number(8), ret(Ref::unit())]]);
    let mut ir = IrModify::new(ir);
    ir.delete(&env, Ref(1));
    let ir = ir.finish_and_compress(&env);
    assert_ir_eq(&env, &ir, &types, "b0:\n %1 = arith.Int 8 :: I32\n cf.Ret unit");
}

#[test]
fn stored_arguments_are_read() {
    let env = test_env();
    let ir = counting_loop(&env);
    let inst = ir.insts[6];
    assert_eq!(inst.function, function(CF, Cf::Branch));
    assert_eq!(
        args_of(&env, &ir, &inst),
        vec![
            Argument::Ref(Ref(5)),
            Argument::BlockTarget(BlockId(2), vec![]),
            Argument::BlockTarget(BlockId(3), vec![]),
        ],
    );
    assert_eq!(ir.blocks[1].succs, vec![BlockId(2), BlockId(3)]);
    assert_eq!(ir.blocks[1].preds, vec![BlockId(0), BlockId(2)]);
}

#[test]
fn large_numbers_are_stored() {
    let env = test_env();
    let ir = build(&env, vec![vec![number(0x1234_5678_9abc_def0), ret(Ref(1))]]);
    assert_eq!(
        args_of(&env, &ir, &ir.insts[1]),
        vec![Argument::Int(0x1234_5678_9abc_def0)],
    );
    assert!(ir.insts[0].is(Builtin::Nothing));
}

#[test]
fn blocks_can_be_added() {
    let env = test_env();
    let types = test_types();
    let ir = build(&env, vec![vec![number(7), ret(Ref(1))]]);
    let mut ir = IrModify::new(ir);
    let (block, args, insert) = ir.add_block(&vec![I32]);
    assert_eq!(block, BlockId(1));
    assert_eq!(args.count(), 1);
    ir.add_after(
        &env,
        insert,
        function(CF, Cf::Ret),
        &vec![Argument::Ref(args.nth(0))],
        UNIT,
    );
    ir.replace(
        &env,
        Ref(2),
        function(CF, Cf::Goto),
        &vec![Argument::BlockTarget(block, vec![Ref(1)])],
        UNIT,
    );
    let ir = ir.finish_and_compress_with_options(&env, false);
    assert_ir_eq(
        &env,
        &ir,
        &types,
        "b0:
            %1 = arith.Int 7 :: I32
            cf.Goto b1(%1)
        b1(%3: I32):
            cf.Ret %3",
    );
    verify_function_body(&env, &ir);
}

#[test]
fn values_passed_to_blocks_are_replaced() {
    let env = test_env();
    let goto = function(CF, Cf::Goto);
    let ret = function(CF, Cf::Ret);
    let mut ir = build(
        &env,
        vec![
            vec![(goto, vec![Argument::BlockTarget(BlockId(1), vec![])], UNIT)],
            vec![(ret, vec![Argument::Ref(Ref::unit())], UNIT)],
        ],
    );
    ir.blocks[1].arg_count = 2;
    ir.extra = vec![7, 8, 9];
    ir.insts[1].args = [1, 1];
    let mut m = IrModify::new(ir);
    m.visit_block_targets_mut(Ref(1), &env, |b: BlockId, mut values: Vec<Ref>| {
        assert_eq!(b, BlockId(1));
        assert_eq!(values, vec![Ref(8), Ref(9)]);
        values.swap(0, 1);
        values
    });
    assert_eq!(m.ir.extra, vec![7, 9, 8]);
    m.visit_block_targets_mut(Ref(4), &env, |_: BlockId, values: Vec<Ref>| values);
    assert_eq!(m.ir.extra, vec![7, 9, 8]);
}

#[test]
fn insertions_keep_the_order_of_the_calls() {
    let env = test_env();
    let types = test_types();
    let ir = build(&env, vec![vec![number(1), number(2), ret(Ref(1))]]);
    let mut ir = IrModify::new(ir);
    let int = function(ARITH, Arith::Int);
    ir.add_after(&env, Ref(1), int, &vec![Argument::Int(10)], I32);
    ir.add_before(&env, Ref(2), int, &vec![Argument::Int(20)], I32);
    ir.add_after(&env, Ref(1), int, &vec![Argument::Int(11)], I32);
    ir.add_before(&env, Ref(2), int, &vec![Argument::Int(21)], I32);
    let ir = ir.finish_and_compress(&env);
    assert_ir_eq(
        &env,
        &ir,
        &types,
        "b0:
            %1 = arith.Int 1 :: I32
            %2 = arith.Int 10 :: I32
            %3 = arith.Int 11 :: I32
            %4 = arith.Int 20 :: I32
            %5 = arith.Int 21 :: I32
            %6 = arith.Int 2 :: I32
            cf.Ret %1",
    );
    verify_function_body(&env, &ir);
}

#[test]
fn block_starts_outlive_changes() {
    let env = test_env();
    let ir = build(&env, vec![vec![number(1), number(2), goto(1)], vec![number(3), ret(Ref(1))]]);
    let mut ir = IrModify::new(ir);
    let int = function(ARITH, Arith::Int);
    let starts = |ir: &IrModify| {
        [ir.get_original_block_start(BlockId(0)), ir.get_original_block_start(BlockId(1))]
    };
    let before = starts(&ir);
    assert_eq!(before, [Ref(1), Ref(5)]);
    ir.add_before(&env, Ref(1), int, &vec![Argument::Int(4)], I32);
    assert_eq!(starts(&ir), before);
    ir.add_after(&env, Ref(1), int, &vec![Argument::Int(5)], I32);
    assert_eq!(starts(&ir), before);
    ir.add_block_arg(&env, BlockId(1), I32);
    assert_eq!(starts(&ir), before);
    ir.add_block(&vec![I32]);
    assert_eq!(starts(&ir), before);
    ir.replace(&env, Ref(5), int, &vec![Argument::Int(6)], I32);
    assert_eq!(starts(&ir), before);
    ir.replace_with(&env, Ref(5), Ref(1));
    assert_eq!(starts(&ir), before);
    ir.delete(&env, Ref(5));
    assert_eq!(starts(&ir), before);
    ir.split_block_at(BlockId(0), Ref(2));
    assert_eq!(starts(&ir), before);
}

#[test]
fn blocks_of_added_instructions_are_found_by_number() {
    let env = test_env();
    let ir = build(&env, vec![vec![goto(1)], vec![ret(Ref::unit())]]);
    let mut ir = IrModify::new(ir);
    let int = function(ARITH, Arith::Int);
    for i in 0..4 {
        ir.add_before(&env, Ref(1), int, &vec![Argument::Int(i)], I32);
    }
    let last = ir.add_before(&env, Ref(3), int, &vec![Argument::Int(4)], I32);
    assert_eq!(last, Ref(8));
    assert_eq!(ir.inst_block(Ref(1)), BlockId(0));
    assert_eq!(ir.inst_block(Ref(3)), BlockId(1));
    // the addition with the number of the instruction decides
    assert_eq!(ir.inst_block(Ref(4)), BlockId(1));
}
