use eye::backend::arm::abi::ArmAbi;
use eye::backend::arm::isa::{Arm, Reg as ArmReg};
use eye::backend::module::Dialects;
use eye::backend::state::BackendState;
use eye::backend::function::{emit, Emission};
use eye::backend::x86::abi::systemv::from_phys;
use eye::backend::x86::isa::{Reg, X86};
use eye::backend::{arm, x86};
use eye::ir::dialect::{function, Arith, Cf, Dialect, Mc, Mem, Tuple};
use eye::ir::env::{Environment, FunctionDef};
use eye::ir::function::{BlockInfo, FunctionIr};
use eye::ir::ids::{BlockId, FunctionId, ModuleId, Ref, TypeId};
use eye::ir::inst::{
    decode_args, write_args, Argument, Builtin, Instruction, MCReg, Parameter, Usage,
};
use eye::ir::mc::register::Register;
use eye::ir::types::{Layout, Primitive, Shape, TypeInfo, Types};

const ARITH: ModuleId = ModuleId(1);
const CF: ModuleId = ModuleId(2);
const MEM: ModuleId = ModuleId(3);
const TUPLE: ModuleId = ModuleId(4);
const MC: ModuleId = ModuleId(5);
const ISA: ModuleId = ModuleId(6);
const MAIN: ModuleId = ModuleId(7);

const DIALECTS: Dialects = Dialects { arith: ARITH, cf: CF, mem: MEM, tuple: TUPLE, mc: MC };

fn defs<D: Dialect>(terminator: bool, pure_: bool) -> Vec<FunctionDef> {
    let mut defs = vec![];
    while let Some(op) = D::of_id(defs.len() as u32) {
        let (params, varargs) = (op.params(), op.varargs());
        defs.push(FunctionDef { params, varargs, terminator, pure_ });
    }
    defs
}

fn def(params: Vec<Parameter>, pure_: bool) -> FunctionDef {
    FunctionDef { params, varargs: None, terminator: false, pure_ }
}

fn env<I: Dialect>(is_jump: fn(u32) -> bool) -> Environment {
    let builtins = vec![
        def(vec![], false),
        def(vec![], false),
        def(vec![Parameter::Ref], true),
        def(vec![], true),
    ];
    let mut isa = defs::<I>(false, false);
    for (i, d) in isa.iter_mut().enumerate() {
        d.terminator = is_jump(i as u32);
    }
    Environment {
        modules: vec![
            builtins,
            defs::<Arith>(false, true),
            defs::<Cf>(true, false),
            defs::<Mem>(false, false),
            defs::<Tuple>(false, true),
            defs::<Mc>(false, false),
            isa,
            vec![],
        ],
        goto: Some(function(CF, Cf::Goto)),
    }
}

fn types() -> Types {
    let mut types = Types { types: vec![] };
    types.add_type(TypeInfo {
        shape: Shape::Tuple(vec![]),
        layout: Layout { size: 0, align: 1 },
        leaves: vec![],
    });
    types.add(Primitive::I1);
    types.add(Primitive::I32);
    types.add(Primitive::Ptr);
    types
}

const UNIT: TypeId = TypeId(0);
const I32: TypeId = TypeId(2);
const PTR: TypeId = TypeId(3);

type Body = Vec<(FunctionId, Vec<Argument>, TypeId)>;

/// A function of blocks with numbers as their parameters.
fn build(env: &Environment, blocks: Vec<(u32, Body)>) -> FunctionIr {
    let mut ir = FunctionIr { insts: vec![], blocks: vec![], extra: vec![], reg_classes: vec![] };
    let mut idx = 0;
    for (arg_count, body) in &blocks {
        let len = body.len() as u32;
        ir.blocks.push(BlockInfo {
            arg_count: *arg_count,
            args_idx: idx,
            body_idx: idx + arg_count + 1,
            len,
            preds: vec![],
            succs: vec![],
        });
        idx += arg_count + 1 + len;
    }
    for (i, (arg_count, body)) in blocks.into_iter().enumerate() {
        for _ in 0..arg_count {
            let mut param = Instruction::nothing();
            param.function = Builtin::BlockArg.function();
            param.ty = I32;
            ir.insts.push(param);
        }
        ir.insts.push(Instruction::nothing());
        for (f, args, ty) in body {
            let d = env.get(f);
            let stored = write_args(
                &mut ir.extra,
                BlockId(i as u32),
                &mut ir.blocks,
                &d.params,
                d.varargs,
                &args,
            );
            ir.insts.push(Instruction { function: f, args: stored, ty });
        }
    }
    ir
}

fn shown<I: Dialect + std::fmt::Debug>(
    env: &Environment,
    ir: &FunctionIr,
    name: fn(u32) -> String,
) -> Vec<String> {
    let register = |r: MCReg| match r.phys_code() {
        Some(code) => name(code),
        None => format!("v{}", r.0),
    };
    let mut lines = vec![];
    for b in ir.block_ids() {
        let body = ir.get_block_refs(b);
        for i in 0..body.count() {
            let inst = &ir.insts[body.nth(i).idx()];
            let id = inst.function.function.0;
            let mut line = if inst.function.module == ISA {
                format!("{:?}", I::of_id(id).unwrap())
            } else if inst.function.module == MC {
                format!("mc.{:?}", Mc::of_id(id).unwrap())
            } else {
                format!("{}.{id}", inst.function.module.0)
            };
            let d = env.get(inst.function);
            for arg in decode_args(&d.params, d.varargs, inst.args, &ir.extra, &ir.blocks) {
                let text = match arg {
                    Argument::MCReg(_, r) => register(r),
                    Argument::Int32(i) => i.to_string(),
                    other => format!("{other:?}"),
                };
                line.push(' ');
                line.push_str(&text);
            }
            lines.push(line);
        }
    }
    lines
}

fn x86_name(code: u32) -> String {
    format!("{:?}", Reg::decode(code))
}

fn x86_jump(id: u32) -> bool {
    matches!(
        X86::of_id(id).unwrap(),
        X86::jmp | X86::je | X86::jne | X86::jl | X86::jge | X86::jle | X86::jg
            | X86::ret0 | X86::ret64 | X86::ret128
    )
}

fn x86_code(blocks: Vec<(u32, Body)>) -> (Vec<String>, BackendState) {
    let env = env::<X86>(x86_jump);
    let ir = build(&env, blocks);
    let c = x86::pipeline::init_codegen(DIALECTS, ISA, MAIN);
    assert_eq!((c.mc, c.x86, c.module_id), (MC, ISA, MAIN));
    let (ir, state) =
        c.isel.codegen(ir, &env, &types(), MC, ISA, MAIN, BackendState::new());
    (shown::<X86>(&env, &ir, x86_name), state)
}

fn two(a: Ref, b: Ref) -> Vec<Argument> {
    vec![Argument::Ref(a), Argument::Ref(b)]
}

fn ret(r: Ref) -> (FunctionId, Vec<Argument>, TypeId) {
    (function(CF, Cf::Ret), vec![Argument::Ref(r)], UNIT)
}

#[test]
fn sums_are_selected_for_x86() {
    let (code, state) = x86_code(vec![(2, vec![
        (function(ARITH, Arith::Add), two(Ref(0), Ref(1)), I32),
        ret(Ref(3)),
    ])]);
    assert_eq!(
        code,
        vec![
            "mc.Copy v0 rdi",
            "mc.Copy v1 rsi",
            "mc.Copy v2 v0",
            "add_rr32 v2 v1",
            "mov_rr64 rax v2",
            "ret64",
        ],
    );
    assert_eq!(state.stack_size, 0);
}

#[test]
fn constants_are_operands_on_x86() {
    let (code, _) = x86_code(vec![(2, vec![
        (function(ARITH, Arith::Int), vec![Argument::Int(7)], I32),
        (function(ARITH, Arith::Sub), two(Ref(0), Ref(3)), I32),
        ret(Ref(4)),
    ])]);
    assert_eq!(code, vec![
            "mc.Copy v0 rdi",
            "mc.Copy v1 rsi",
            "mc.Copy v3 v0",
            "sub_ri32 v3 7",
            "mov_rr64 rax v3",
            "ret64",
        ]);
}

#[test]
fn variables_are_placed_on_the_stack_on_x86() {
    let (code, state) = x86_code(vec![(2, vec![
        (function(MEM, Mem::Decl), vec![Argument::TypeId(I32)], PTR),
        (function(MEM, Mem::Store), two(Ref(3), Ref(0)), UNIT),
        (function(MEM, Mem::Load), vec![Argument::Ref(Ref(3))], I32),
        ret(Ref(5)),
    ])]);
    assert_eq!(code, vec![
            "mc.Copy v0 rdi",
            "mc.Copy v1 rsi",
            "lea_rm64 v2 rbp 4294967292 none 1",
            "mov_mr32 v2 0 none 1 v0",
            "mov_rm32 v3 v2 0 none 1",
            "mov_rr64 rax v3",
            "ret64",
        ]);
    assert_eq!(state.stack_size, 4);
}

#[test]
fn comparisons_jump_on_x86() {
    let target = |b, values| Argument::BlockTarget(BlockId(b), values);
    let i1 = TypeId(1);
    let (code, _) = x86_code(vec![
        (2, vec![
            (function(ARITH, Arith::LT), two(Ref(0), Ref(1)), i1),
            (
                function(CF, Cf::Branch),
                vec![Argument::Ref(Ref(3)), target(1, vec![Ref(0)]), target(2, vec![Ref(1)])],
                UNIT,
            ),
        ]),
        (1, vec![ret(Ref(5))]),
        (1, vec![ret(Ref(8))]),
    ]);
    assert_eq!(
        code,
        vec![
            "mc.Copy v0 rdi",
            "mc.Copy v1 rsi",
            "cmp_rr32 v0 v1",
            "mc.AssignBlockArgs v3 v0",
            "jl BlockId(BlockId(1))",
            "mc.AssignBlockArgs v4 v1",
            "jmp BlockId(BlockId(2))",
            "mc.IncomingBlockArgs v3",
            "mov_rr64 rax v3",
            "ret64",
            "mc.IncomingBlockArgs v4",
            "mov_rr64 rax v4",
            "ret64",
        ],
    );
}

fn arm_name(code: u32) -> String {
    format!("{:?}", ArmReg::decode(code))
}

fn arm_jump(id: u32) -> bool {
    Arm::of_id(id).unwrap().is_ret()
}

#[test]
fn numbers_are_selected_for_arm() {
    let env = env::<Arm>(arm_jump);
    let ir = build(
        &env,
        vec![(
            2,
            vec![
                (function(ARITH, Arith::Int), vec![Argument::Int(0x12345)], I32),
                ret(Ref(3)),
            ],
        )],
    );
    let c = arm::pipeline::init_codegen(DIALECTS, ISA, MAIN, ArmAbi::Arm64);
    let (ir, state) =
        c.isel.codegen(ir, &env, &types(), MC, ISA, MAIN, BackendState::new());
    assert_eq!(shown::<Arm>(&env, &ir, arm_name), vec![
            "mc.Copy v0 w0",
            "mc.Copy v1 w1",
            "movz32 v2 0 9029",
            "movk32 v2 1 1",
            "mc.Copy w0 v2",
            "ret0 x30",
        ]);
    assert_eq!(state.stack_size, 0);
}

fn phys(usage: Usage, r: Reg) -> Argument {
    Argument::MCReg(usage, from_phys(r))
}

#[test]
fn frames_are_set_up_and_left() {
    let env = env::<X86>(x86_jump);
    let mov = (
        function(ISA, X86::mov_ri32),
        vec![phys(Usage::Def, Reg::ebx), Argument::Int32(5)],
        UNIT,
    );
    let ir = build(&env, vec![(0, vec![mov, (function(ISA, X86::ret0), vec![], UNIT)])]);
    let c = x86::pipeline::init_codegen(DIALECTS, ISA, MAIN);
    let mut state = BackendState::new();
    state.stack_size = 4;
    let ir = c.frames.run(&env, ir, "main", &mut state);
    assert_eq!(
        shown::<X86>(&env, &ir, x86_name),
        vec![
            "push_r64 rbp",
            "mov_rr64 rbp rsp",
            "sub_ri64 rsp 8",
            "push_r64 rbx",
            "mov_ri32 ebx 5",
            "pop_r64 rbx",
            "add_ri64 rsp 8",
            "pop_r64 rbp",
            "ret0",
        ],
    );
    let code = emit::<X86>(&Emission { mc: MC, isa: ISA, env: &env, ir: &ir }, vec![], vec![]);
    let (text, relocations) = code.ok().unwrap();
    assert!(relocations.is_empty());
    assert_eq!(text[..4], [0x55, 0x48, 0x89, 0xE5]);
    assert_eq!(text.last(), Some(&0xC3));
}

#[test]
fn distances_to_blocks_are_filled_in() {
    let env = env::<X86>(x86_jump);
    let to = |op, b| (function(ISA, op), vec![Argument::BlockId(BlockId(b))], UNIT);
    let ret = || vec![(function(ISA, X86::ret0), vec![], UNIT)];
    let ir = build(&env, vec![(0, vec![to(X86::je, 1), to(X86::jmp, 2)]), (0, ret()), (0, ret())]);
    let code = emit::<X86>(&Emission { mc: MC, isa: ISA, env: &env, ir: &ir }, vec![], vec![]);
    let (text, _) = code.ok().unwrap();
    assert_eq!(text, vec![0x0F, 0x84, 5, 0, 0, 0, 0xE9, 1, 0, 0, 0, 0xC3, 0xC3]);
}
