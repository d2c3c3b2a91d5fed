use eye::backend::emit::{Emitter, Relocation};
use eye::backend::x86::emit::{implement_copy, jump_fits, Operands};
use eye::backend::x86::abi::systemv::{classify_primitive, param_register, return_register, AbiClass};
use eye::backend::x86::encode::{encode_reg, encode_rex, mov_rr, sib, EncodedReg, Mem, OffsetClass, RegKind};
use eye::backend::x86::isa::{Reg, RegBits, RegClass, X86};
use eye::backend::x86::isel::{cast_op, fused_jumps};
use eye::backend::isel::ArithClass;
use eye::ir::dialect::{Arith, Dialect};
use eye::ir::mc::register::Register;
use eye::ir::types::Primitive;
use eye::backend::size::Size;
use eye::ir::ids::{BlockId, FunctionId, LocalFunctionId, ModuleId};
use eye::ir::mc::parcopy::ParcopySolver;

fn emitter() -> Emitter<Reg> {
    Emitter {
        text: vec![],
        relocations: vec![],
        start: 0,
        parcopy: ParcopySolver::new(),
        block_queue: vec![],
        queued_blocks: vec![false; 2],
        block_offsets: vec![None; 2],
        missing_block_addrs: vec![],
    }
}

fn bytes(op: X86, args: Operands) -> Vec<u8> {
    let mut e = emitter();
    X86::emit(&mut e, op, args);
    e.text
}

#[test]
fn registers_are_moved() {
    assert_eq!(
        bytes(X86::mov_rr64, Operands::RegReg(Reg::rax, Reg::rbx)),
        vec![0x48, 0x89, 0xD8],
    );
    assert_eq!(bytes(X86::mov_rr32, Operands::RegReg(Reg::ecx, Reg::edx)), vec![0x89, 0xD1]);
    assert_eq!(
        bytes(X86::mov_rr64, Operands::RegReg(Reg::r8, Reg::r15)),
        vec![0x4D, 0x89, 0xF8],
    );
    let mut text = vec![];
    mov_rr(&mut text, Size::S16, Reg::ax, Reg::cx);
    assert_eq!(text, vec![0x66, 0x89, 0xC8]);
    let mut text = vec![];
    implement_copy(&mut text, Reg::rdi, Reg::rax);
    assert_eq!(text, vec![0x48, 0x89, 0xC7]);
}

#[test]
fn numbers_are_calculated() {
    assert_eq!(bytes(X86::add_rr32, Operands::RegReg(Reg::eax, Reg::ecx)), vec![0x01, 0xC8]);
    assert_eq!(
        bytes(X86::sub_ri64, Operands::RegImm(Reg::rsp, 32)),
        vec![0x48, 0x81, 0xEC, 32, 0, 0, 0],
    );
    assert_eq!(
        bytes(X86::add_ri8, Operands::RegImm(Reg::al, 5)),
        vec![0x80, 0xC0, 5],
    );
    assert_eq!(bytes(X86::neg_r32, Operands::Reg(Reg::eax)), vec![0xF7, 0xD8]);
    assert_eq!(
        bytes(X86::mov_ri32, Operands::RegImm(Reg::eax, 0x12345678)),
        vec![0xB8, 0x78, 0x56, 0x34, 0x12],
    );
    assert_eq!(bytes(X86::cdq, Operands::Empty), vec![0x99]);
    assert_eq!(bytes(X86::ret0, Operands::Empty), vec![0xC3]);
    assert_eq!(bytes(X86::push_r64, Operands::Reg(Reg::rbp)), vec![0x55]);
    assert_eq!(bytes(X86::pop_r64, Operands::Reg(Reg::r12)), vec![0x41, 0x5C]);
}

fn memory(ptr: Reg, offset: u32) -> Mem {
    Mem { ptr, offset, index: Reg::none, scale: 1 }
}

#[test]
fn memory_is_accessed() {
    assert_eq!(
        bytes(X86::mov_rm64, Operands::RegMem(Reg::rax, memory(Reg::rbx, 0))),
        vec![0x48, 0x8B, 0x03],
    );
    assert_eq!(
        bytes(X86::mov_mr32, Operands::MemReg(memory(Reg::rbp, (-8i32) as u32), Reg::eax)),
        vec![0x89, 0x45, 0xF8],
    );
    assert_eq!(
        bytes(X86::lea_rm64, Operands::RegMem(Reg::rdi, memory(Reg::rbp, 0x1234))),
        vec![0x48, 0x8D, 0xBD, 0x34, 0x12, 0, 0],
    );
}

#[test]
fn distances_have_widths() {
    assert_eq!(OffsetClass::from_imm(0), OffsetClass::Zero);
    assert_eq!(OffsetClass::from_imm((-128i32) as u32), OffsetClass::Byte(-128));
    assert_eq!(OffsetClass::from_imm(128), OffsetClass::DWord(128));
}

#[test]
fn prefixes_are_built_of_bits() {
    assert_eq!(encode_rex(true, false, false, false, false), 0x48);
    assert_eq!(encode_rex(false, true, true, true, true), 0x47);
    assert_eq!(encode_rex(false, false, false, false, false), 0);
    let reg = |bits| EncodedReg { bits, kind: RegKind::Normal };
    assert_eq!(sib(4, Some(reg(1)), reg(3)), 0x8B);
    assert_eq!(sib(1, None, reg(4)), 0x24);
}

#[test]
fn calls_are_left_to_the_linker() {
    let mut e = emitter();
    let f = FunctionId { module: ModuleId(3), function: LocalFunctionId(7) };
    X86::emit(&mut e, X86::ret0, Operands::Empty);
    X86::emit(&mut e, X86::call_function, Operands::Function(f));
    assert_eq!(e.text, vec![0xC3, 0xE8, 0, 0, 0, 0]);
    match &e.relocations[0] {
        Relocation::FunctionCall(id, at) => {
            assert_eq!(*id, LocalFunctionId(7));
            assert_eq!(*at, 2);
        }
        other => panic!("unexpected {other:?}"),
    }
}

#[test]
fn jumps_to_later_blocks_are_filled_in_later() {
    let mut e = emitter();
    X86::emit(&mut e, X86::je, Operands::Block(BlockId(1)));
    assert_eq!(e.text, vec![0x0F, 0x84, 0, 0, 0, 0]);
    assert_eq!(e.missing_block_addrs, vec![(2, BlockId(1))]);
}

#[test]
fn long_jumps_reach_back() {
    let mut e = emitter();
    e.block_offsets[1] = Some(0);
    e.text = vec![0x90; 200];
    X86::emit(&mut e, X86::jmp, Operands::Block(BlockId(1)));
    let distance = (-205i32).to_le_bytes();
    assert_eq!(e.text[200], 0xE9);
    assert_eq!(e.text[201..205], distance);
}

#[test]
fn distances_have_to_fit() {
    let mut e = emitter();
    e.text = vec![0x90; 200];
    assert!(jump_fits(&e, 1, 1, BlockId(1)));
    e.block_offsets[1] = Some(0);
    assert!(jump_fits(&e, 2, 2, BlockId(1)));
    // the distance counts from behind the five bytes of the jump
    e.block_offsets[1] = Some(0x7FFF_FFFF);
    assert!(jump_fits(&e, 1, 1, BlockId(1)));
    e.block_offsets[1] = Some(0x8000_0000 + 199);
    assert!(jump_fits(&e, 1, 1, BlockId(1)));
    e.block_offsets[1] = Some(0x8000_0000 + 200);
    assert!(!jump_fits(&e, 1, 1, BlockId(1)));
    e.block_offsets[1] = Some(u32::MAX);
    assert!(!jump_fits(&e, 1, 1, BlockId(1)));
}

#[test]
fn registers_overlap_by_index() {
    assert_eq!(Reg::eax.index(), Reg::rax.index());
    assert_eq!(Reg::r9b.to_64_bits(), Reg::r9);
    let unique = Reg::unique_bits();
    for (i, a) in unique.iter().enumerate() {
        for b in &unique[i + 1..] {
            assert_ne!(a.index(), b.index());
        }
    }
    let mut bits = RegBits::new();
    bits.set(Reg::ax, true);
    assert!(bits.get(Reg::rax) && !bits.get(Reg::rbx));
    assert!(!RegBits::all().not().get(Reg::r15));
    assert_eq!(bits.bitor(RegBits::new()), bits);
}

#[test]
fn registers_have_numbers_and_names() {
    for r in Reg::unique_bits() {
        assert_eq!(Reg::decode(r.encode()), r);
    }
    assert_eq!(Reg::r8d.to_str(), "r8d");
    assert_eq!(Reg::eax.class(), RegClass::GP32);
    assert_eq!(RegClass::GP64.into_index(), RegClass::GP64I);
    assert_eq!(RegClass::from_code(RegClass::GP16.code()), Some(RegClass::GP16));
}

#[test]
fn free_registers_are_found() {
    let mut free = RegBits::new();
    assert_eq!(Reg::allocate_reg(free, RegClass::GP32), None);
    free.set(Reg::rdx, true);
    assert_eq!(Reg::allocate_reg(free, RegClass::GP32), Some(Reg::edx));
    free.set(Reg::rbx, true);
    assert_eq!(Reg::allocate_reg(free, RegClass::GP32), Some(Reg::ebx));
    free.set(Reg::rax, true);
    assert_eq!(Reg::allocate_reg(free, RegClass::GP64), Some(Reg::rax));
    assert_eq!(Reg::allocate_reg(free, RegClass::GP8I), Some(Reg::al));
}

#[test]
fn encodings_tell_registers_apart() {
    let plain = |r| {
        let e = encode_reg(r);
        (e.bits, e.ext())
    };
    assert_eq!(plain(Reg::rax), (0, false));
    assert_eq!(plain(Reg::r15), (7, true));
    assert_ne!(plain(Reg::rsp), plain(Reg::r12));
    assert!(encode_reg(Reg::sil).force());
    assert!(encode_reg(Reg::ah).prevents_rex());
}

#[test]
fn arguments_are_passed_in_registers() {
    let expected = [Reg::rdi, Reg::rsi, Reg::rdx, Reg::rcx, Reg::r8, Reg::r9];
    for (i, r) in expected.into_iter().enumerate() {
        assert_eq!(param_register(i as u32), Some(r));
    }
    assert_eq!(param_register(6), None);
    assert_eq!(return_register(0), Some(Reg::rax));
    assert_eq!(return_register(1), Some(Reg::rdx));
    assert_eq!(classify_primitive(Primitive::I32), AbiClass::Integer);
    assert_eq!(classify_primitive(Primitive::F64), AbiClass::Sse);
    assert_eq!(AbiClass::Integer.join(AbiClass::Sse), AbiClass::Integer);
    assert_eq!(AbiClass::Nothing.join(AbiClass::Sse), AbiClass::Sse);
}

#[test]
fn jumps_have_opposites() {
    assert_eq!(fused_jumps(Arith::Eq), Some((X86::je, X86::jne)));
    assert_eq!(fused_jumps(Arith::LT), Some((X86::jl, X86::jge)));
    assert_eq!(fused_jumps(Arith::Add), None);
}

#[test]
fn numbers_are_cast() {
    assert_eq!(cast_op(ArithClass::Signed, Size::S8, Size::S32), X86::movsx32_rr8);
    assert_eq!(cast_op(ArithClass::Unsigned, Size::S16, Size::S32), X86::movzx32_rr16);
}

#[test]
fn instructions_are_numbered() {
    let mut id = 0;
    while let Some(op) = X86::of_id(id) {
        assert_eq!(op.id(), id);
        id += 1;
    }
    assert!(id > 100);
    assert_eq!(X86::add_rr16.size(), Size::S16);
}
