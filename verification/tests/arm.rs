use eye::backend::arm::abi::{
    classify, integer_param, AbiClass, ArmAbi, Location, ParamAllocator, RegWidth, Storage,
};
use eye::backend::arm::access::access_op;
use eye::backend::arm::emit::{implement_copy, Operands};
use eye::backend::arm::isa::{Arm, Reg};
use eye::backend::emit::{Emitter, Relocation};
use eye::ir::ids::{FunctionId, LocalFunctionId, ModuleId};
use eye::ir::mc::parcopy::ParcopySolver;
use eye::ir::mc::register::Register;
use eye::ir::types::{Layout, Leaf, Primitive, Shape, TypeInfo};

fn emitter() -> Emitter<Reg> {
    Emitter {
        text: vec![],
        relocations: vec![],
        start: 0,
        parcopy: ParcopySolver::new(),
        block_queue: vec![],
        queued_blocks: vec![],
        block_offsets: vec![],
        missing_block_addrs: vec![],
    }
}

fn word(op: Arm, args: Operands) -> u32 {
    let mut e = emitter();
    Arm::emit(&mut e, op, args);
    u32::from_le_bytes([e.text[0], e.text[1], e.text[2], e.text[3]])
}

#[test]
fn instructions_are_words() {
    assert_eq!(word(Arm::ret0, Operands::Reg(Reg::x30)), 0xD65F03C0);
    assert_eq!(word(Arm::movz64, Operands::RegImmImm(Reg::x0, 0, 5)), 0xD28000A0);
    assert_eq!(word(Arm::movk32, Operands::RegImmImm(Reg::w1, 1, 0xFFFF)), 0x72BFFFE1);
    assert_eq!(word(Arm::add_i64, Operands::RegRegImm(Reg::x0, Reg::x1, 16)), 0x91004020);
    assert_eq!(word(Arm::sub_i64, Operands::RegRegImm(Reg::sp, Reg::sp, 32)), 0xD10083FF);
    assert_eq!(word(Arm::orr64, Operands::RegRegReg(Reg::x0, Reg::x1, Reg::x2)), 0xAA020020);
    assert_eq!(word(Arm::ldr64, Operands::RegMem(Reg::x0, Reg::x1, 8)), 0xF9400420);
    assert_eq!(word(Arm::strb32, Operands::RegMem(Reg::w0, Reg::sp, 3)), 0x39000FE0);
}

#[test]
fn functions_are_called_with_a_relocation() {
    let mut e = emitter();
    let f = FunctionId { module: ModuleId(3), function: LocalFunctionId(2) };
    Arm::emit(&mut e, Arm::bl_function, Operands::Function(f));
    assert_eq!(e.text, vec![0, 0, 0, 0x94]);
    match &e.relocations[0] {
        Relocation::FunctionCall(id, at) => assert_eq!((*id, *at), (LocalFunctionId(2), 0)),
        other => panic!("unexpected {other:?}"),
    }
}

#[test]
fn copies_follow_the_width() {
    let copied = |to, from| {
        let mut text = vec![];
        implement_copy(&mut text, to, from);
        u32::from_le_bytes([text[0], text[1], text[2], text[3]])
    };
    assert_eq!(copied(Reg::x0, Reg::x1), 0xAA0103E0);
    assert_eq!(copied(Reg::w0, Reg::w1), 0x2A0103E0);
}

fn primitive(p: Primitive) -> TypeInfo {
    let size = p.byte_size();
    TypeInfo {
        shape: Shape::Primitive(p),
        layout: Layout { size, align: size },
        leaves: vec![Leaf { primitive: p, offset: 0 }],
    }
}

#[test]
fn numbers_are_passed_in_registers() {
    let core = |w| Location::Registers { a: AbiClass::Core(w), b: AbiClass::Nothing, align_16: false };
    assert_eq!(classify(&primitive(Primitive::I64)), core(RegWidth::W64));
    assert_eq!(classify(&primitive(Primitive::I32)), core(RegWidth::W32));
    let big = TypeInfo {
        shape: Shape::Array,
        layout: Layout { size: 24, align: 8 },
        leaves: vec![
            Leaf { primitive: Primitive::I64, offset: 0 },
            Leaf { primitive: Primitive::I64, offset: 8 },
            Leaf { primitive: Primitive::I64, offset: 16 },
        ],
    };
    assert_eq!(classify(&big), Location::Memory);
}

#[test]
fn registers_are_used_one_after_the_other() {
    let mut a = ParamAllocator::new();
    let word = Location::Registers {
        a: AbiClass::Core(RegWidth::W64),
        b: AbiClass::Nothing,
        align_16: false,
    };
    match a.allocate(word, ArmAbi::Arm64) {
        Storage::Registers(first, _) => assert_eq!(first, Reg::x0),
        other => panic!("unexpected {other:?}"),
    }
    match a.allocate(word, ArmAbi::Arm64) {
        Storage::Registers(second, _) => assert_eq!(second, Reg::x1),
        other => panic!("unexpected {other:?}"),
    }
    assert_eq!(a.ngrn, 2);
}

#[test]
fn pairs_are_passed_in_two_registers() {
    let pair = TypeInfo {
        shape: Shape::Tuple(vec![]),
        layout: Layout { size: 16, align: 8 },
        leaves: vec![
            Leaf { primitive: Primitive::I64, offset: 0 },
            Leaf { primitive: Primitive::I32, offset: 8 },
        ],
    };
    match classify(&pair) {
        Location::Registers { a, b, .. } => {
            assert_eq!(a, AbiClass::Core(RegWidth::W64));
            assert_eq!(b, AbiClass::Core(RegWidth::W64));
        }
        other => panic!("unexpected {other:?}"),
    }
}

#[test]
fn loads_and_stores_have_widths() {
    assert_eq!(access_op(true, Primitive::I16), Some(Arm::ldrh32));
    assert_eq!(access_op(false, Primitive::I16), Some(Arm::strh32));
    assert_eq!(access_op(true, Primitive::Ptr), Some(Arm::ldr64));
    assert_eq!(access_op(false, Primitive::Ptr), Some(Arm::str64));
}

#[test]
fn kinds_of_registers_do_not_overlap() {
    assert_eq!(Reg::x3.bit_index(), Reg::w3.bit_index());
    assert_ne!(Reg::x3.bit_index(), Reg::s3.bit_index());
    assert_eq!(Reg::decode(Reg::w7.encode()), Reg::w7);
}

#[test]
fn numbers_of_a_kind_are_passed_in_one_register_each() {
    let mut a = ParamAllocator::new();
    let hfa = Location::HfaF64 { count: 2 };
    match a.allocate(hfa, ArmAbi::Arm64) {
        Storage::Hfa(first, second, third, _) => {
            assert_eq!(first, Reg::d0);
            assert_eq!(second, Reg::d1);
            assert_eq!(third, Reg::xzr);
        }
        other => panic!("unexpected {other:?}"),
    }
    assert_eq!(a.nsrn, 2);
}

#[test]
fn widths_select_the_register() {
    assert_eq!(integer_param(3, RegWidth::W32), Reg::w3);
    assert_eq!(integer_param(3, RegWidth::W64), Reg::x3);
    for n in 0..8 {
        let (w, x) = (integer_param(n, RegWidth::W32), integer_param(n, RegWidth::W64));
        assert_eq!(w.bit_index(), x.bit_index());
        assert_ne!(w, x);
    }
}
