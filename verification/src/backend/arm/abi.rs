//! The calling conventions.
use vstd::prelude::*;

use crate::backend::arm::isa;
use crate::backend::arm::isa::{tmp_register, Arm, Reg, RegBits};
use crate::backend::state;
use crate::ir::dialect;
use crate::ir::dialect::Mc;
use crate::ir::edit::{EditView, Plan, PlanView};
use crate::ir::ids::{ModuleId, Ref, TypeId};
use crate::ir::inst;
use crate::ir::inst::{Argument, ArgumentView, MCReg, Usage};
use crate::ir::mc::inst as machine;
use crate::ir::mc::inst::{parallel_copy, Abi, Context, McInst};
use crate::ir::mc::register::Register;
use crate::ir::modify::Insert;
use crate::ir::slots::Piece;
use crate::ir::types::{Leaf, Primitive, Shape, ShapeView, TypeInfo, TypeView};

verus! {

#[derive(Clone, Copy, Debug, PartialEq, Eq, Structural)]
pub enum ArmAbi {
    Arm32,
    Arm64,
    Darwin64,
}

pub const CALL_STACK_ALIGN: u64 = 16;

#[verifier::allow_in_spec]
pub fn frame_pointer() -> Reg
    returns
        Reg::x29,
{
    Reg::x29
}

#[derive(Clone, Copy, Debug, PartialEq, Eq, Structural)]
pub enum RegWidth {
    W64,
    W32,
}

#[derive(Clone, Copy, Debug, PartialEq, Eq, Structural)]
pub enum AbiClass {
    Nothing,
    Core(RegWidth),
    SimdFp(RegWidth),
}

/// Where a value is passed.
#[derive(Clone, Copy, Debug, PartialEq, Eq, Structural)]
pub enum Location {
    Registers { a: AbiClass, b: AbiClass, align_16: bool },
    /// Only so many floating point numbers of the same width.
    HfaF32 { count: u64 },
    HfaF64 { count: u64 },
    Memory,
}

/// The registers that a value is passed in.
#[derive(Clone, Copy, Debug, PartialEq, Eq, Structural)]
pub enum Storage {
    Registers(Reg, Reg),
    Hfa(Reg, Reg, Reg, Reg),
    Stack(u32),
}

/// The registers for whole numbers, in their order.
#[verifier::allow_in_spec]
pub fn integer_param(n: u8, width: RegWidth) -> Reg
    returns
        (match width {
            RegWidth::W64 => match n {
                0 => Reg::x0,
                1 => Reg::x1,
                2 => Reg::x2,
                3 => Reg::x3,
                4 => Reg::x4,
                5 => Reg::x5,
                6 => Reg::x6,
                _ => Reg::x7,
            },
            RegWidth::W32 => match n {
                0 => Reg::w0,
                1 => Reg::w1,
                2 => Reg::w2,
                3 => Reg::w3,
                4 => Reg::w4,
                5 => Reg::w5,
                6 => Reg::w6,
                _ => Reg::w7,
            },
        }),
{
    match width {
        RegWidth::W64 => match n {
            0 => Reg::x0,
            1 => Reg::x1,
            2 => Reg::x2,
            3 => Reg::x3,
            4 => Reg::x4,
            5 => Reg::x5,
            6 => Reg::x6,
            _ => Reg::x7,
        },
        RegWidth::W32 => match n {
            0 => Reg::w0,
            1 => Reg::w1,
            2 => Reg::w2,
            3 => Reg::w3,
            4 => Reg::w4,
            5 => Reg::w5,
            6 => Reg::w6,
            _ => Reg::w7,
        },
    }
}

/// The registers for floating point numbers, in their order.
#[verifier::allow_in_spec]
pub fn simd_param(n: u8, width: RegWidth) -> Reg
    returns
        (match width {
            RegWidth::W64 => match n {
                0 => Reg::d0,
                1 => Reg::d1,
                2 => Reg::d2,
                3 => Reg::d3,
                4 => Reg::d4,
                5 => Reg::d5,
                6 => Reg::d6,
                _ => Reg::d7,
            },
            RegWidth::W32 => match n {
                0 => Reg::s0,
                1 => Reg::s1,
                2 => Reg::s2,
                3 => Reg::s3,
                4 => Reg::s4,
                5 => Reg::s5,
                6 => Reg::s6,
                _ => Reg::s7,
            },
        }),
{
    match width {
        RegWidth::W64 => match n {
            0 => Reg::d0,
            1 => Reg::d1,
            2 => Reg::d2,
            3 => Reg::d3,
            4 => Reg::d4,
            5 => Reg::d5,
            6 => Reg::d6,
            _ => Reg::d7,
        },
        RegWidth::W32 => match n {
            0 => Reg::s0,
            1 => Reg::s1,
            2 => Reg::s2,
            3 => Reg::s3,
            4 => Reg::s4,
            5 => Reg::s5,
            6 => Reg::s6,
            _ => Reg::s7,
        },
    }
}

/// How many of the first `n` primitive values are numbers of this kind.
pub open spec fn count_of(leaves: Seq<Leaf>, n: int, p: Primitive) -> int
    decreases n,
{
    if n <= 0 {
        0
    } else {
        count_of(leaves, n - 1, p) + if leaves[n - 1].primitive == p {
            1int
        } else {
            0
        }
    }
}

pub open spec fn in_registers(a: AbiClass, b: AbiClass, align_16: bool) -> Location {
    Location::Registers { a, b, align_16 }
}

/// Where values of a type are passed.
pub open spec fn classified(t: TypeView) -> Location {
    match t.shape {
        ShapeView::Primitive(p) => match p {
            Primitive::I1
            | Primitive::I8
            | Primitive::I16
            | Primitive::I32
            | Primitive::U8
            | Primitive::U16
            | Primitive::U32 => in_registers(
                AbiClass::Core(RegWidth::W32),
                AbiClass::Nothing,
                false,
            ),
            Primitive::I64 | Primitive::U64 | Primitive::Ptr => in_registers(
                AbiClass::Core(RegWidth::W64),
                AbiClass::Nothing,
                false,
            ),
            Primitive::I128 | Primitive::U128 => in_registers(
                AbiClass::Core(RegWidth::W64),
                AbiClass::Core(RegWidth::W64),
                true,
            ),
            Primitive::F32 => in_registers(
                AbiClass::SimdFp(RegWidth::W32),
                AbiClass::Nothing,
                false,
            ),
            Primitive::F64 => in_registers(
                AbiClass::SimdFp(RegWidth::W64),
                AbiClass::Nothing,
                false,
            ),
        },
        _ => {
            let n = t.leaves.len() as int;
            let f32s = count_of(t.leaves, n, Primitive::F32);
            let f64s = count_of(t.leaves, n, Primitive::F64);
            let size = t.layout.size;
            if n == f32s && f32s <= 4 {
                Location::HfaF32 { count: f32s as u64 }
            } else if n == f64s && f64s <= 4 {
                Location::HfaF64 { count: f64s as u64 }
            } else if size == 0 {
                in_registers(AbiClass::Nothing, AbiClass::Nothing, false)
            } else if size <= 4 {
                in_registers(AbiClass::Core(RegWidth::W32), AbiClass::Nothing, false)
            } else if size <= 8 {
                in_registers(AbiClass::Core(RegWidth::W64), AbiClass::Nothing, false)
            } else if size <= 16 {
                in_registers(
                    AbiClass::Core(RegWidth::W64),
                    AbiClass::Core(RegWidth::W64),
                    t.layout.align > 8,
                )
            } else {
                Location::Memory
            }
        },
    }
}

proof fn lemma_counts(leaves: Seq<Leaf>, n: int)
    requires
        0 <= n <= leaves.len(),
    ensures
        0 <= count_of(leaves, n, Primitive::F32),
        0 <= count_of(leaves, n, Primitive::F64),
        count_of(leaves, n, Primitive::F32) + count_of(leaves, n, Primitive::F64) <= n,
    decreases n,
{
    if n > 0 {
        lemma_counts(leaves, n - 1);
    }
}

/// Finds out where values of a type are passed.
pub fn classify(t: &TypeInfo) -> (location: Location)
    ensures
        location == classified(t@),
{
    match t.shape {
        Shape::Primitive(p) => match p {
            Primitive::I1
            | Primitive::I8
            | Primitive::I16
            | Primitive::I32
            | Primitive::U8
            | Primitive::U16
            | Primitive::U32 => Location::Registers {
                a: AbiClass::Core(RegWidth::W32),
                b: AbiClass::Nothing,
                align_16: false,
            },
            Primitive::I64 | Primitive::U64 | Primitive::Ptr => Location::Registers {
                a: AbiClass::Core(RegWidth::W64),
                b: AbiClass::Nothing,
                align_16: false,
            },
            Primitive::I128 | Primitive::U128 => Location::Registers {
                a: AbiClass::Core(RegWidth::W64),
                b: AbiClass::Core(RegWidth::W64),
                align_16: true,
            },
            Primitive::F32 => Location::Registers {
                a: AbiClass::SimdFp(RegWidth::W32),
                b: AbiClass::Nothing,
                align_16: false,
            },
            Primitive::F64 => Location::Registers {
                a: AbiClass::SimdFp(RegWidth::W64),
                b: AbiClass::Nothing,
                align_16: false,
            },
        },
        _ => {
            let mut core: u64 = 0;
            let mut f32s: u64 = 0;
            let mut f64s: u64 = 0;
            let mut i: usize = 0;
            while i < t.leaves.len()
                invariant
                    i <= t.leaves@.len(),
                    core + f32s + f64s == i,
                    f32s == count_of(t.leaves@, i as int, Primitive::F32),
                    f64s == count_of(t.leaves@, i as int, Primitive::F64),
                decreases t.leaves.len() - i,
            {
                match t.leaves[i].primitive {
                    Primitive::F32 => {
                        f32s += 1;
                    },
                    Primitive::F64 => {
                        f64s += 1;
                    },
                    _ => {
                        core += 1;
                    },
                }
                i += 1;
            }
            let size: u64 = t.layout.size;
            if core == 0 && f64s == 0 && f32s <= 4 {
                Location::HfaF32 { count: f32s }
            } else if core == 0 && f32s == 0 && f64s <= 4 {
                Location::HfaF64 { count: f64s }
            } else if size == 0 {
                Location::Registers { a: AbiClass::Nothing, b: AbiClass::Nothing, align_16: false }
            } else if size <= 4 {
                Location::Registers {
                    a: AbiClass::Core(RegWidth::W32),
                    b: AbiClass::Nothing,
                    align_16: false,
                }
            } else if size <= 8 {
                Location::Registers {
                    a: AbiClass::Core(RegWidth::W64),
                    b: AbiClass::Nothing,
                    align_16: false,
                }
            } else if size <= 16 {
                Location::Registers {
                    a: AbiClass::Core(RegWidth::W64),
                    b: AbiClass::Core(RegWidth::W64),
                    align_16: t.layout.align > 8,
                }
            } else {
                Location::Memory
            }
        },
    }
}

/// Hands out the registers and the stack for arguments.
#[derive(Clone, Copy, Debug, PartialEq, Eq, Structural)]
pub struct ParamAllocator {
    /// next general register number
    pub ngrn: u8,
    /// next simd (and floating point) register number
    pub nsrn: u8,
    /// next stack argument address
    pub nsaa: u32,
}

impl ParamAllocator {
    #[verifier::allow_in_spec]
    pub fn new() -> ParamAllocator
        returns
            (ParamAllocator { ngrn: 0, nsrn: 0, nsaa: 0 }),
    {
        ParamAllocator { ngrn: 0, nsrn: 0, nsaa: 0 }
    }

    /// The number of the next register for a value of two registers.
    pub open spec fn pair_start(self, align_16: bool, target: ArmAbi) -> int {
        if align_16 && target != ArmAbi::Darwin64 {
            // align up to next even register number
            state::rounded_up(self.ngrn as int, 2)
        } else {
            self.ngrn as int
        }
    }

    /// No more than the existing registers were handed out.
    pub open spec fn wf(self) -> bool {
        self.ngrn <= 8 && self.nsrn <= 8
    }

    /// The value is passed in registers that are still free, or can be left on the stack.
    pub open spec fn can_alloc(self, location: Location, target: ArmAbi) -> bool {
        match location {
            Location::Registers { a, b: AbiClass::Nothing, align_16 } => match a {
                AbiClass::Nothing => true,
                AbiClass::Core(_) => self.ngrn < 8,
                AbiClass::SimdFp(_) => self.nsrn < 8,
            },
            Location::Registers { a, b, align_16 } => {
                &&& a is Core
                &&& b is Core
                &&& self.pair_start(align_16, target) < 7
            },
            Location::HfaF32 { count } => count <= 4 && self.nsaa <= 0xffff_fff0,
            Location::HfaF64 { count } => count <= 4 && self.nsaa <= 0xffff_fff0,
            Location::Memory => false,
        }
    }

    pub open spec fn hfa_reg(self, count: int, i: int, width: RegWidth) -> Reg {
        if i < count {
            simd_param((self.nsrn + i) as u8, width)
        } else {
            Reg::xzr
        }
    }

    /// The numbers go in one register each, or else on the stack.
    pub open spec fn hfa_allocated(self, count: u64, width: RegWidth) -> (ParamAllocator, Storage) {
        let n = count as int;
        if self.nsrn + n < 8 {
            (
                ParamAllocator { nsrn: (self.nsrn + n) as u8, ..self },
                Storage::Hfa(
                    self.hfa_reg(n, 0, width),
                    self.hfa_reg(n, 1, width),
                    self.hfa_reg(n, 2, width),
                    self.hfa_reg(n, 3, width),
                ),
            )
        } else {
            let size = match width {
                RegWidth::W32 => 4int,
                RegWidth::W64 => 8,
            };
            let at = state::rounded_up(self.nsaa as int, size);
            (
                ParamAllocator { nsrn: 8, nsaa: (at + size) as u32, ..self },
                Storage::Stack(at as u32),
            )
        }
    }

    /// The registers for a value.
    pub open spec fn allocated(self, location: Location, target: ArmAbi) -> (
        ParamAllocator,
        Storage,
    ) {
        match location {
            Location::Registers { a, b: AbiClass::Nothing, align_16 } => match a {
                AbiClass::Nothing => (self, Storage::Registers(Reg::xzr, Reg::xzr)),
                AbiClass::Core(width) => (
                    ParamAllocator { ngrn: (self.ngrn + 1) as u8, ..self },
                    Storage::Registers(integer_param(self.ngrn, width), Reg::xzr),
                ),
                AbiClass::SimdFp(width) => (
                    ParamAllocator { nsrn: (self.nsrn + 1) as u8, ..self },
                    Storage::Registers(simd_param(self.nsrn, width), Reg::xzr),
                ),
            },
            Location::Registers { a, b, align_16 } => {
                let start = self.pair_start(align_16, target);
                (
                    ParamAllocator { ngrn: (start + 2) as u8, ..self },
                    Storage::Registers(
                        integer_param(start as u8, RegWidth::W64),
                        integer_param((start + 1) as u8, RegWidth::W64),
                    ),
                )
            },
            Location::HfaF32 { count } => self.hfa_allocated(count, RegWidth::W32),
            Location::HfaF64 { count } => self.hfa_allocated(count, RegWidth::W64),
            Location::Memory => (self, Storage::Stack(0)),
        }
    }

    fn alloc_hfa(&mut self, count: u64, width: RegWidth) -> (storage: Storage)
        requires
            old(self).wf(),
            count <= 4,
            old(self).nsaa <= 0xffff_fff0,
        ensures
            (*final(self), storage) == old(self).hfa_allocated(count, width),
            final(self).wf(),
    {
        let start: u8 = self.nsrn;
        if start as u64 + count < 8 {
            self.nsrn = start + count as u8;
            let a: Reg = if count > 0 {
                simd_param(start, width)
            } else {
                Reg::xzr
            };
            let b: Reg = if count > 1 {
                simd_param(start + 1, width)
            } else {
                Reg::xzr
            };
            let c: Reg = if count > 2 {
                simd_param(start + 2, width)
            } else {
                Reg::xzr
            };
            let d: Reg = if count > 3 {
                simd_param(start + 3, width)
            } else {
                Reg::xzr
            };
            Storage::Hfa(a, b, c, d)
        } else {
            self.nsrn = 8;
            let size: u32 = match width {
                RegWidth::W32 => 4,
                RegWidth::W64 => 8,
            };
            let rest: u32 = self.nsaa % size;
            if rest != 0 {
                self.nsaa = self.nsaa + (size - rest);
            }
            let at: u32 = self.nsaa;
            self.nsaa = at + size;
            Storage::Stack(at)
        }
    }

    /// Hands out the registers for a value.
    pub fn allocate(&mut self, location: Location, target: ArmAbi) -> (storage: Storage)
        requires
            old(self).wf(),
            old(self).can_alloc(location, target),
        ensures
            (*final(self), storage) == old(self).allocated(location, target),
            final(self).wf(),
    {
        match location {
            Location::Registers { a, b: AbiClass::Nothing, align_16: _ } => {
                let reg: Reg = match a {
                    AbiClass::Nothing => Reg::xzr,
                    AbiClass::Core(width) => {
                        let reg: Reg = integer_param(self.ngrn, width);
                        self.ngrn = self.ngrn + 1;
                        reg
                    },
                    AbiClass::SimdFp(width) => {
                        let reg: Reg = simd_param(self.nsrn, width);
                        self.nsrn = self.nsrn + 1;
                        reg
                    },
                };
                Storage::Registers(reg, Reg::xzr)
            },
            Location::Registers { a: _, b: _, align_16 } => {
                if align_16 && target != ArmAbi::Darwin64 && self.ngrn % 2 != 0 {
                    // align up to next even register number
                    self.ngrn = self.ngrn + 1;
                }
                let start: u8 = self.ngrn;
                self.ngrn = start + 2;
                Storage::Registers(
                    integer_param(start, RegWidth::W64),
                    integer_param(start + 1, RegWidth::W64),
                )
            },
            Location::HfaF32 { count } => self.alloc_hfa(count, RegWidth::W32),
            Location::HfaF64 { count } => self.alloc_hfa(count, RegWidth::W64),
            Location::Memory => Storage::Stack(0),
        }
    }
}

proof fn lemma_param_index(n: u8, width: RegWidth)
    requires
        n < 8,
    ensures
        integer_param(n, width).spec_index() == n,
        simd_param(n, width).spec_index() == 32 + n,
{
}

/// No register is handed out twice: what is handed out next differs from all that was
/// handed out before.
#[verifier::rlimit(40)]
pub proof fn parameters_get_fresh_registers(
    p: ParamAllocator,
    a: Location,
    b: Location,
    target: ArmAbi,
)
    requires
        p.wf(),
        p.can_alloc(a, target),
        p.allocated(a, target).0.can_alloc(b, target),
        p.allocated(a, target).1 is Registers,
        p.allocated(a, target).0.allocated(b, target).1 is Registers,
    ensures
        ({
            let (q, first) = p.allocated(a, target);
            let (_, second) = q.allocated(b, target);
            forall|r: Reg, s: Reg|
                r.spec_index() != Reg::xzr.spec_index() && (r == first->Registers_0 || r
                    == first->Registers_1) && (s == second->Registers_0 || s
                    == second->Registers_1) ==> #[trigger] r.spec_index()
                    != #[trigger] s.spec_index()
        }),
{
    assert forall|n: u8, width: RegWidth| n < 8 implies #[trigger] integer_param(
        n,
        width,
    ).spec_index() == n && #[trigger] simd_param(n, width).spec_index() == 32 + n by {
        lemma_param_index(n, width);
    }
}

/// The register as an operand.
pub open spec fn phys(r: Reg) -> MCReg {
    MCReg((0x8000_0000 + r.spec_code()) as u32)
}

pub fn from_phys(r: Reg) -> (m: MCReg)
    ensures
        m == phys(r),
{
    proof {
        isa::register_code_round_trip(r, 0);
    }
    MCReg::from_phys(r.encode())
}

/// A copy of registers at once.
pub open spec fn copied(
    plan: PlanView,
    at: Ref,
    position: Insert,
    mc: ModuleId,
    regs: Seq<MCReg>,
) -> PlanView {
    plan.with(
        EditView::Add {
            at,
            position,
            function: dialect::spec_function(mc, Mc::Copy),
            args: machine::read_regs(regs),
            ty: TypeId::unit(),
        },
    )
}

fn copy(plan: &mut Plan, at: Ref, position: Insert, mc: ModuleId, regs: &Vec<MCReg>)
    ensures
        final(plan)@ == copied(old(plan)@, at, position, mc, regs@),
{
    let (function, args, ty) = parallel_copy(mc, regs);
    plan.add(at, position, function, args, ty);
}

/// The register of the pair that holds what is at the distance.
pub open spec fn half(a: Reg, b: Reg, offset: u64) -> Reg {
    if offset >= 8 {
        b
    } else {
        a
    }
}

/// The value stands at the start of a register.
pub open spec fn aligned(offset: u64) -> bool {
    if offset >= 8 {
        (offset - 8) % 0x100 == 0
    } else {
        offset == 0
    }
}

pub open spec fn hfa_source(storage: Storage, i: int) -> Reg {
    match storage {
        Storage::Hfa(a, b, c, d) => if i == 0 {
            a
        } else {
            c
        },
        _ => Reg::xzr,
    }
}

/// The registers of the first `n` pieces, each followed by where it comes from.
pub open spec fn hfa_copies(pieces: Seq<Piece>, storage: Storage, n: int) -> Seq<MCReg>
    decreases n,
{
    if n <= 0 {
        Seq::empty()
    } else {
        hfa_copies(pieces, storage, n - 1).push(pieces[n - 1].first).push(
            phys(hfa_source(storage, n - 1)),
        )
    }
}

/// A value is moved out of the registers that it was passed in, piece by piece.
pub open spec fn extracted(
    plan: PlanView,
    at: Ref,
    position: Insert,
    mc: ModuleId,
    pieces: Seq<Piece>,
    storage: Storage,
) -> PlanView
    decreases pieces.len(),
{
    match storage {
        Storage::Registers(a, b) => if pieces.len() == 0 {
            plan
        } else {
            let before = extracted(plan, at, position, mc, pieces.drop_last(), storage);
            let p = pieces.last();
            match p.second {
                None => copied(
                    before,
                    at,
                    position,
                    mc,
                    seq![p.first, phys(half(a, b, p.offset))],
                ),
                Some(second) => copied(
                    before,
                    at,
                    position,
                    mc,
                    seq![p.first, phys(a), second, phys(b)],
                ),
            }
        },
        Storage::Hfa(_, _, _, _) => copied(
            plan,
            at,
            position,
            mc,
            hfa_copies(pieces, storage, pieces.len() as int),
        ),
        Storage::Stack(_) => plan,
    }
}

pub open spec fn can_extract(pieces: Seq<Piece>, storage: Storage) -> bool {
    match storage {
        Storage::Registers(_, _) => forall|i: int|
            0 <= i < pieces.len() ==> match (#[trigger] pieces[i]).second {
                None => aligned(pieces[i].offset),
                Some(_) => pieces[i].offset == 0,
            },
        Storage::Hfa(_, _, _, _) => pieces.len() <= 2 && forall|i: int|
            0 <= i < pieces.len() ==> (#[trigger] pieces[i]).second is None
                && pieces[i].primitive.is_float(),
        Storage::Stack(_) => false,
    }
}

fn extract_regs(
    plan: &mut Plan,
    at: Ref,
    position: Insert,
    mc: ModuleId,
    pieces: &Vec<Piece>,
    storage: Storage,
)
    requires
        can_extract(pieces@, storage),
    ensures
        final(plan)@ == extracted(old(plan)@, at, position, mc, pieces@, storage),
{
    let ghost start = plan@;
    match storage {
        Storage::Registers(a, b) => {
            let mut i: usize = 0;
            assert(pieces@.take(0) =~= Seq::empty());
            while i < pieces.len()
                invariant
                    i <= pieces@.len(),
                    storage == Storage::Registers(a, b),
                    can_extract(pieces@, storage),
                    plan@ == extracted(start, at, position, mc, pieces@.take(i as int), storage),
                decreases pieces.len() - i,
            {
                assert(pieces@.take(i + 1).drop_last() =~= pieces@.take(i as int));
                let p: Piece = pieces[i];
                match p.second {
                    None => {
                        let src: Reg = if p.offset >= 8 {
                            b
                        } else {
                            a
                        };
                        let regs: Vec<MCReg> = vec![p.first, from_phys(src)];
                        assert(regs@ =~= seq![p.first, phys(half(a, b, p.offset))]);
                        copy(plan, at, position, mc, &regs);
                    },
                    Some(second) => {
                        let regs: Vec<MCReg> = vec![p.first, from_phys(a), second, from_phys(b)];
                        assert(regs@ =~= seq![p.first, phys(a), second, phys(b)]);
                        copy(plan, at, position, mc, &regs);
                    },
                }
                i += 1;
            }
            assert(pieces@.take(i as int) =~= pieces@);
        },
        Storage::Hfa(a, _, c, _) => {
            let mut copies: Vec<MCReg> = Vec::new();
            let mut i: usize = 0;
            while i < pieces.len()
                invariant
                    i <= pieces@.len(),
                    pieces@.len() <= 2,
                    hfa_source(storage, 0) == a,
                    hfa_source(storage, 1) == c,
                    copies@ =~= hfa_copies(pieces@, storage, i as int),
                decreases pieces.len() - i,
            {
                let from: Reg = if i == 0 {
                    a
                } else {
                    c
                };
                copies.push(pieces[i].first);
                copies.push(from_phys(from));
                i += 1;
            }
            copy(plan, at, position, mc, &copies);
        },
        Storage::Stack(_) => {},
    }
}

/// A value is moved into the registers that it is passed in, piece by piece.
pub open spec fn inserted(
    plan: PlanView,
    at: Ref,
    mc: ModuleId,
    pieces: Seq<Piece>,
    a: Reg,
    b: Reg,
) -> PlanView
    decreases pieces.len(),
{
    if pieces.len() == 0 {
        plan
    } else {
        let before = inserted(plan, at, mc, pieces.drop_last(), a, b);
        let p = pieces.last();
        match p.second {
            None => copied(
                before,
                at,
                Insert::Before,
                mc,
                seq![phys(half(a, b, p.offset)), p.first],
            ),
            Some(second) => copied(
                before,
                at,
                Insert::Before,
                mc,
                seq![phys(a), p.first, phys(b), second],
            ),
        }
    }
}

/// Each register takes one piece at most.
pub open spec fn can_insert(pieces: Seq<Piece>, storage: Storage) -> bool {
    &&& storage is Registers
    &&& forall|i: int|
        0 <= i < pieces.len() ==> match (#[trigger] pieces[i]).second {
            None => aligned(pieces[i].offset),
            Some(_) => pieces[i].offset == 0 && pieces.len() == 1,
        }
    &&& forall|i: int, j: int|
        0 <= i < j < pieces.len() ==> ((#[trigger] pieces[i]).offset >= 8) != ((
        #[trigger] pieces[j]).offset >= 8)
}

fn insert_regs(
    plan: &mut Plan,
    at: Ref,
    mc: ModuleId,
    pieces: &Vec<Piece>,
    a: Reg,
    b: Reg,
)
    requires
        can_insert(pieces@, Storage::Registers(a, b)),
    ensures
        final(plan)@ == inserted(old(plan)@, at, mc, pieces@, a, b),
{
    let ghost start = plan@;
    let mut i: usize = 0;
    assert(pieces@.take(0) =~= Seq::empty());
    while i < pieces.len()
        invariant
            i <= pieces@.len(),
            plan@ == inserted(start, at, mc, pieces@.take(i as int), a, b),
        decreases pieces.len() - i,
    {
        assert(pieces@.take(i + 1).drop_last() =~= pieces@.take(i as int));
        let p: Piece = pieces[i];
        match p.second {
            None => {
                let dst: Reg = if p.offset >= 8 {
                    b
                } else {
                    a
                };
                let regs: Vec<MCReg> = vec![from_phys(dst), p.first];
                assert(regs@ =~= seq![phys(half(a, b, p.offset)), p.first]);
                copy(plan, at, Insert::Before, mc, &regs);
            },
            Some(second) => {
                let regs: Vec<MCReg> = vec![from_phys(a), p.first, from_phys(b), second];
                assert(regs@ =~= seq![phys(a), p.first, phys(b), second]);
                copy(plan, at, Insert::Before, mc, &regs);
            },
        }
        i += 1;
    }
    assert(pieces@.take(i as int) =~= pieces@);
}

/// The pieces of a value.
pub open spec fn pieces_of(c: Context, r: Ref) -> Seq<Piece> {
    c.slots@.pieces(r, c.leaves(r))
}

pub fn get_pieces(c: &Context, r: Ref) -> (pieces: Vec<Piece>)
    requires
        c.holds(r),
    ensures
        pieces@ == pieces_of(*c, r),
{
    let ty: TypeId = c.get_type(r);
    assert(c.types@[ty.0 as int] == c.types.types@[ty.0 as int]@);
    c.slots.pieces(r, &c.types.types[ty.0 as usize].leaves)
}

fn location_of(c: &Context, r: Ref) -> (location: Location)
    requires
        c.knows(r),
    ensures
        location == location_in(*c, r),
{
    let ty: TypeId = c.get_type(r);
    assert(c.types@[ty.0 as int] == c.types.types@[ty.0 as int]@);
    classify(&c.types.types[ty.0 as usize])
}

pub open spec fn location_in(c: Context, r: Ref) -> Location {
    classified(c.types@[c.type_of(r).0 as int])
}

/// The registers that are left after the values were given theirs.
pub open spec fn after(c: Context, values: Seq<Ref>, target: ArmAbi) -> ParamAllocator
    decreases values.len(),
{
    if values.len() == 0 {
        ParamAllocator::new()
    } else {
        after(c, values.drop_last(), target).allocated(
            location_in(c, values.last()),
            target,
        ).0
    }
}

/// The registers of the last of the values.
pub open spec fn storage_of_last(c: Context, values: Seq<Ref>, target: ArmAbi) -> Storage {
    after(c, values.drop_last(), target).allocated(location_in(c, values.last()), target).1
}

/// The values can be given registers one after the other.
pub open spec fn can_place(c: Context, values: Seq<Ref>, target: ArmAbi) -> bool
    decreases values.len(),
{
    values.len() > 0 ==> {
        &&& can_place(c, values.drop_last(), target)
        &&& c.knows(values.last())
        &&& after(c, values.drop_last(), target).can_alloc(location_in(c, values.last()), target)
    }
}

proof fn lemma_after_wf(c: Context, values: Seq<Ref>, target: ArmAbi)
    requires
        can_place(c, values, target),
    ensures
        after(c, values, target).wf(),
    decreases values.len(),
{
    if values.len() > 0 {
        lemma_after_wf(c, values.drop_last(), target);
    }
}

proof fn lemma_can_place_prefix(c: Context, values: Seq<Ref>, i: int, target: ArmAbi)
    requires
        can_place(c, values, target),
        0 <= i <= values.len(),
    ensures
        can_place(c, values.take(i), target),
    decreases values.len(),
{
    if i < values.len() {
        lemma_can_place_prefix(c, values.drop_last(), i, target);
        assert(values.drop_last().take(i) =~= values.take(i));
    } else {
        assert(values.take(i) =~= values);
    }
}

pub open spec fn params_extracted(
    c: Context,
    at: Ref,
    args: Seq<Ref>,
    target: ArmAbi,
    plan: PlanView,
) -> PlanView
    decreases args.len(),
{
    if args.len() == 0 {
        plan
    } else {
        extracted(
            params_extracted(c, at, args.drop_last(), target, plan),
            at,
            Insert::Before,
            c.mc,
            pieces_of(c, args.last()),
            storage_of_last(c, args, target),
        )
    }
}

pub open spec fn args_inserted(
    c: Context,
    at: Ref,
    args: Seq<Ref>,
    target: ArmAbi,
    plan: PlanView,
) -> PlanView
    decreases args.len(),
{
    if args.len() == 0 {
        plan
    } else {
        let before = args_inserted(c, at, args.drop_last(), target, plan);
        value_inserted(c, at, args.last(), storage_of_last(c, args, target), before)
    }
}

/// A value is put where it is passed. There is nothing to put for the unit value.
pub open spec fn value_inserted(
    c: Context,
    at: Ref,
    value: Ref,
    storage: Storage,
    plan: PlanView,
) -> PlanView {
    match storage {
        Storage::Registers(a, b) if value != Ref::unit() => inserted(
            plan,
            at,
            c.mc,
            pieces_of(c, value),
            a,
            b,
        ),
        _ => plan,
    }
}

pub open spec fn can_insert_value(c: Context, value: Ref, storage: Storage) -> bool {
    value != Ref::unit() ==> c.holds(value) && can_insert(pieces_of(c, value), storage)
}

fn insert_value(c: &Context, at: Ref, value: Ref, storage: Storage, plan: &mut Plan)
    requires
        can_insert_value(*c, value, storage),
    ensures
        final(plan)@ == value_inserted(*c, at, value, storage, old(plan)@),
{
    if value == Ref::unit() {
        return;
    }
    let pieces: Vec<Piece> = get_pieces(c, value);
    if let Storage::Registers(a, b) = storage {
        insert_regs(plan, at, c.mc, &pieces, a, b);
    }
}

/// The indices of the registers from `x0` to `x17`.
pub open spec fn is_caller_saved(index: u8) -> bool {
    index <= 17
}

/// The indices of the registers from `x19` to `x28`.
pub open spec fn is_callee_saved(index: u8) -> bool {
    19 <= index <= 28
}

fn bits_between(first: u8, last: u8) -> (bits: RegBits)
    requires
        first <= last < 31,
    ensures
        forall|i: u8| #[trigger] bits.has_index(i) <==> first <= i <= last,
{
    let mut bits: RegBits = RegBits::new();
    let mut i: u8 = first;
    while i <= last
        invariant
            first <= i <= last + 1,
            last < 31,
            forall|k: u8| #[trigger] bits.has_index(k) <==> first <= k < i,
        decreases last + 1 - i,
    {
        let r: Reg = Reg::decode(i as u32);
        assert(r.spec_index() == i);
        bits.set(r, true);
        i = i + 1;
    }
    bits
}

impl Abi for ArmAbi {
    type RegisterBits = RegBits;

    open spec fn spec_has(bits: RegBits, index: u8) -> bool {
        bits.has_index(index)
    }

    open spec fn can_take_params(&self, c: Context, args: Seq<Ref>, plan: PlanView) -> bool {
        &&& can_place(c, args, *self)
        &&& forall|i: int|
            0 < i <= args.len() ==> c.holds((#[trigger] args.take(i)).last()) && can_extract(
                pieces_of(c, args.take(i).last()),
                storage_of_last(c, args.take(i), *self),
            )
    }

    open spec fn params_taken(&self, c: Context, at: Ref, args: Seq<Ref>, plan: PlanView) -> PlanView {
        params_extracted(c, at, args, *self, plan)
    }

    fn implement_params(&self, c: &Context, at: Ref, args: &Vec<Ref>, plan: &mut Plan) {
        let ghost start = plan@;
        let mut param_alloc: ParamAllocator = ParamAllocator::new();
        let mut i: usize = 0;
        assert(args@.take(0) =~= Seq::empty());
        while i < args.len()
            invariant
                i <= args@.len(),
                self.can_take_params(*c, args@, start),
                param_alloc.wf(),
                param_alloc == after(*c, args@.take(i as int), *self),
                plan@ == params_extracted(*c, at, args@.take(i as int), *self, start),
            decreases args.len() - i,
        {
            let arg: Ref = args[i];
            let ghost now = args@.take(i + 1);
            assert(now.drop_last() =~= args@.take(i as int));
            assert(now.last() == arg);
            proof {
                lemma_can_place_prefix(*c, args@, i + 1, *self);
            }
            let location: Location = location_of(c, arg);
            let storage: Storage = param_alloc.allocate(location, *self);
            let pieces: Vec<Piece> = get_pieces(c, arg);
            extract_regs(plan, at, Insert::Before, c.mc, &pieces, storage);
            i += 1;
        }
        assert(args@.take(i as int) =~= args@);
    }

    open spec fn can_call(&self, c: Context, call: Ref, skip_first_arg: bool, plan: PlanView) -> bool {
        let args = machine::passed(c.args(call), skip_first_arg);
        let result = ParamAllocator::new().allocated(location_in(c, call), *self).1;
        &&& c.has_call(call)
        &&& machine::only_values(
            c.args(call),
            if skip_first_arg {
                1
            } else {
                0
            },
        )
        &&& can_place(c, args, *self)
        &&& forall|i: int|
            0 < i <= args.len() ==> can_insert_value(
                c,
                (#[trigger] args.take(i)).last(),
                storage_of_last(c, args.take(i), *self),
            )
        &&& c.holds(call)
        &&& ParamAllocator::new().can_alloc(location_in(c, call), *self)
        &&& can_extract(pieces_of(c, call), result)
    }

    open spec fn called(&self, c: Context, call: Ref, skip_first_arg: bool, plan: PlanView) -> PlanView {
        let args = machine::passed(c.args(call), skip_first_arg);
        extracted(
            args_inserted(c, call, args, *self, plan),
            call,
            Insert::After,
            c.mc,
            pieces_of(c, call),
            ParamAllocator::new().allocated(location_in(c, call), *self).1,
        )
    }

    fn implement_call(&self, c: &Context, call_inst: Ref, skip_first_arg: bool, plan: &mut Plan) {
        let ghost start = plan@;
        let args: Vec<Ref> = c.call_args(call_inst, skip_first_arg);
        let mut allocator: ParamAllocator = ParamAllocator::new();
        let mut i: usize = 0;
        assert(args@.take(0) =~= Seq::empty());
        while i < args.len()
            invariant
                i <= args@.len(),
                args@ == machine::passed(c.args(call_inst), skip_first_arg),
                self.can_call(*c, call_inst, skip_first_arg, start),
                allocator.wf(),
                allocator == after(*c, args@.take(i as int), *self),
                plan@ == args_inserted(*c, call_inst, args@.take(i as int), *self, start),
            decreases args.len() - i,
        {
            let arg: Ref = args[i];
            let ghost now = args@.take(i + 1);
            assert(now.drop_last() =~= args@.take(i as int));
            assert(now.last() == arg);
            proof {
                lemma_can_place_prefix(*c, args@, i + 1, *self);
            }
            let location: Location = location_of(c, arg);
            let storage: Storage = allocator.allocate(location, *self);
            insert_value(c, call_inst, arg, storage, plan);
            i += 1;
        }
        assert(args@.take(i as int) =~= args@);
        let ret_location: Location = location_of(c, call_inst);
        let mut ret_allocator: ParamAllocator = ParamAllocator::new();
        let storage: Storage = ret_allocator.allocate(ret_location, *self);
        let pieces: Vec<Piece> = get_pieces(c, call_inst);
        extract_regs(plan, call_inst, Insert::After, c.mc, &pieces, storage);
    }

    open spec fn can_return(&self, c: Context, value: Ref, r: Ref, plan: PlanView) -> bool {
        let location = location_in(c, value);
        &&& c.knows(value)
        &&& ParamAllocator::new().can_alloc(location, *self)
        &&& can_insert_value(c, value, ParamAllocator::new().allocated(location, *self).1)
    }

    open spec fn returned(&self, c: Context, value: Ref, r: Ref, plan: PlanView) -> PlanView {
        value_inserted(
            c,
            r,
            value,
            ParamAllocator::new().allocated(location_in(c, value), *self).1,
            plan,
        ).with(
            EditView::Replace {
                at: r,
                function: dialect::spec_function(c.isa, Arm::ret0),
                args: seq![ArgumentView::MCReg(Usage::Use, phys(Reg::x30))],
                ty: TypeId::unit(),
            },
        )
    }

    fn implement_return(&self, c: &Context, value: Ref, r: Ref, plan: &mut Plan) {
        let location: Location = location_of(c, value);
        let mut allocator: ParamAllocator = ParamAllocator::new();
        let storage: Storage = allocator.allocate(location, *self);
        insert_value(c, r, value, storage, plan);
        let args: Vec<Argument> = vec![Argument::MCReg(Usage::Use, from_phys(Reg::x30))];
        assert(inst::views(args@) =~= seq![ArgumentView::MCReg(Usage::Use, phys(Reg::x30))]);
        plan.replace(r, dialect::function(c.isa, Arm::ret0), args, TypeId::unit());
    }

    open spec fn keeps(&self, index: u8) -> bool {
        is_callee_saved(index)
    }

    fn callee_saved(&self) -> RegBits {
        bits_between(19, 28)
    }

    open spec fn clobbers(&self, index: u8) -> bool {
        is_caller_saved(index)
    }

    fn caller_saved(&self) -> RegBits {
        bits_between(0, 17)
    }

    open spec fn returns_in(&self, value_count: u32, index: u8) -> bool {
        index < value_count
    }

    fn return_regs(&self, value_count: u32) -> RegBits {
        if value_count == 0 {
            RegBits::new()
        } else {
            bits_between(0, (value_count - 1) as u8)
        }
    }
}

impl ArmAbi {
    /// The registers that are never handed out.
    pub fn preoccupied_regs(self) -> (bits: RegBits)
        ensures
            forall|i: u8| #[trigger]
                bits.has_index(i) <==> i == Reg::sp.spec_index() || i
                    == frame_pointer().spec_index() || i == tmp_register().spec_index() || (self
                    == ArmAbi::Darwin64 && i == Reg::x18.spec_index()),
    {
        let mut bits: RegBits = Reg::sp.bit().bitor(frame_pointer().bit()).bitor(
            tmp_register().bit(),
        );
        if self == ArmAbi::Darwin64 {
            // reserved on darwin
            bits = bits.bitor(Reg::x18.bit());
        }
        bits
    }
}

/// No register is both kept for the caller and overwritten, and results are handed back
/// in registers that a call may overwrite.
pub proof fn saved_registers_are_apart(abi: ArmAbi, index: u8, value_count: u32)
    requires
        value_count <= 2,
    ensures
        !(abi.keeps(index) && abi.clobbers(index)),
        abi.returns_in(value_count, index) ==> abi.clobbers(index),
{
}

impl McInst for Arm {
    type Reg = Reg;

    type Convention = ArmAbi;

    open spec fn defines(self, abi: ArmAbi, index: u8) -> bool {
        false
    }

    open spec fn reads(self, abi: ArmAbi, index: u8) -> bool {
        false
    }

    fn implicit_def(self, abi: &ArmAbi) -> RegBits {
        RegBits::new()
    }

    fn implicit_use(self, abi: &ArmAbi) -> RegBits {
        RegBits::new()
    }
}

} // verus!
