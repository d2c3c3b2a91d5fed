//! Registers and instructions.
use vstd::prelude::*;

use crate::backend::size::Size;
use crate::ir::mc::register::Register;

verus! {
#[allow(non_camel_case_types)]
#[derive(Clone, Copy, Debug, PartialEq, Eq, Hash, Structural)]
pub enum Reg {
    rax,
    rbx,
    rcx,
    rdx,
    rbp,
    rsi,
    rdi,
    rsp,
    rip,
    r8,
    r9,
    r10,
    r11,
    r12,
    r13,
    r14,
    r15,
    none,
    eax,
    ebx,
    ecx,
    edx,
    ebp,
    esi,
    edi,
    esp,
    r8d,
    r9d,
    r10d,
    r11d,
    r12d,
    r13d,
    r14d,
    r15d,
    ax,
    bx,
    cx,
    dx,
    bp,
    si,
    di,
    sp,
    r8w,
    r9w,
    r10w,
    r11w,
    r12w,
    r13w,
    r14w,
    r15w,
    al,
    bl,
    cl,
    dl,
    bpl,
    sil,
    dil,
    spl,
    r8b,
    r9b,
    r10b,
    r11b,
    r12b,
    r13b,
    r14b,
    r15b,
    ah,
    bh,
    ch,
    dh,
    eflags,
}
/// What a virtual register can be placed in. The classes that end in `I` leave out
/// what cannot stand in the index position of an address.
#[derive(Clone, Copy, Debug, PartialEq, Eq, Hash, Structural)]
pub enum RegClass {
    GP64,
    GP32,
    GP16,
    GP8,
    Flags,
    F32,
    F64,
    GP64I,
    GP32I,
    GP16I,
    GP8I,
}
impl Reg {
    /// The class of the register's own width.
    pub open spec fn spec_class(self) -> RegClass {
        match self {
            Reg::rax | Reg::rbx | Reg::rcx | Reg::rdx | Reg::rbp | Reg::rsi | Reg::rdi | Reg::rsp | Reg::rip | Reg::r8 | Reg::r9 | Reg::r10 | Reg::r11 | Reg::r12 | Reg::r13 | Reg::r14 | Reg::r15 | Reg::none => RegClass::GP64,
            Reg::eax | Reg::ebx | Reg::ecx | Reg::edx | Reg::ebp | Reg::esi | Reg::edi | Reg::esp | Reg::r8d | Reg::r9d | Reg::r10d | Reg::r11d | Reg::r12d | Reg::r13d | Reg::r14d | Reg::r15d => RegClass::GP32,
            Reg::ax | Reg::bx | Reg::cx | Reg::dx | Reg::bp | Reg::si | Reg::di | Reg::sp | Reg::r8w | Reg::r9w | Reg::r10w | Reg::r11w | Reg::r12w | Reg::r13w | Reg::r14w | Reg::r15w => RegClass::GP16,
            Reg::al | Reg::bl | Reg::cl | Reg::dl | Reg::bpl | Reg::sil | Reg::dil | Reg::spl | Reg::r8b | Reg::r9b | Reg::r10b | Reg::r11b | Reg::r12b | Reg::r13b | Reg::r14b | Reg::r15b | Reg::ah | Reg::bh | Reg::ch | Reg::dh => RegClass::GP8,
            Reg::eflags => RegClass::Flags,
        }
    }

    pub fn class(self) -> (class: RegClass)
        ensures
            class == self.spec_class(),
    {
        match self {
            Reg::rax | Reg::rbx | Reg::rcx | Reg::rdx | Reg::rbp | Reg::rsi | Reg::rdi | Reg::rsp | Reg::rip | Reg::r8 | Reg::r9 | Reg::r10 | Reg::r11 | Reg::r12 | Reg::r13 | Reg::r14 | Reg::r15 | Reg::none => RegClass::GP64,
            Reg::eax | Reg::ebx | Reg::ecx | Reg::edx | Reg::ebp | Reg::esi | Reg::edi | Reg::esp | Reg::r8d | Reg::r9d | Reg::r10d | Reg::r11d | Reg::r12d | Reg::r13d | Reg::r14d | Reg::r15d => RegClass::GP32,
            Reg::ax | Reg::bx | Reg::cx | Reg::dx | Reg::bp | Reg::si | Reg::di | Reg::sp | Reg::r8w | Reg::r9w | Reg::r10w | Reg::r11w | Reg::r12w | Reg::r13w | Reg::r14w | Reg::r15w => RegClass::GP16,
            Reg::al | Reg::bl | Reg::cl | Reg::dl | Reg::bpl | Reg::sil | Reg::dil | Reg::spl | Reg::r8b | Reg::r9b | Reg::r10b | Reg::r11b | Reg::r12b | Reg::r13b | Reg::r14b | Reg::r15b | Reg::ah | Reg::bh | Reg::ch | Reg::dh => RegClass::GP8,
            Reg::eflags => RegClass::Flags,
        }
    }

    /// The number of the register in sets. Registers that overlap share it.
    pub open spec fn spec_index(self) -> u8 {
        match self {
            Reg::rax | Reg::eax | Reg::ax | Reg::ah | Reg::al => 0,
            Reg::rbx | Reg::ebx | Reg::bx | Reg::bh | Reg::bl => 1,
            Reg::rcx | Reg::ecx | Reg::cx | Reg::ch | Reg::cl => 2,
            Reg::rdx | Reg::edx | Reg::dx | Reg::dh | Reg::dl => 3,
            Reg::rbp | Reg::ebp | Reg::bp | Reg::bpl => 4,
            Reg::rsi | Reg::esi | Reg::si | Reg::sil => 5,
            Reg::rdi | Reg::edi | Reg::di | Reg::dil => 6,
            Reg::rsp | Reg::esp | Reg::sp | Reg::spl => 7,
            Reg::r8 | Reg::r8d | Reg::r8w | Reg::r8b => 8,
            Reg::r9 | Reg::r9d | Reg::r9w | Reg::r9b => 9,
            Reg::r10 | Reg::r10d | Reg::r10w | Reg::r10b => 10,
            Reg::r11 | Reg::r11d | Reg::r11w | Reg::r11b => 11,
            Reg::r12 | Reg::r12d | Reg::r12w | Reg::r12b => 12,
            Reg::r13 | Reg::r13d | Reg::r13w | Reg::r13b => 13,
            Reg::r14 | Reg::r14d | Reg::r14w | Reg::r14b => 14,
            Reg::r15 | Reg::r15d | Reg::r15w | Reg::r15b => 15,
            Reg::eflags => 16,
            Reg::rip => 17,
            Reg::none => 31,
        }
    }

    pub fn index(self) -> (index: u8)
        ensures
            index == self.spec_index(),
    {
        match self {
            Reg::rax | Reg::eax | Reg::ax | Reg::ah | Reg::al => 0,
            Reg::rbx | Reg::ebx | Reg::bx | Reg::bh | Reg::bl => 1,
            Reg::rcx | Reg::ecx | Reg::cx | Reg::ch | Reg::cl => 2,
            Reg::rdx | Reg::edx | Reg::dx | Reg::dh | Reg::dl => 3,
            Reg::rbp | Reg::ebp | Reg::bp | Reg::bpl => 4,
            Reg::rsi | Reg::esi | Reg::si | Reg::sil => 5,
            Reg::rdi | Reg::edi | Reg::di | Reg::dil => 6,
            Reg::rsp | Reg::esp | Reg::sp | Reg::spl => 7,
            Reg::r8 | Reg::r8d | Reg::r8w | Reg::r8b => 8,
            Reg::r9 | Reg::r9d | Reg::r9w | Reg::r9b => 9,
            Reg::r10 | Reg::r10d | Reg::r10w | Reg::r10b => 10,
            Reg::r11 | Reg::r11d | Reg::r11w | Reg::r11b => 11,
            Reg::r12 | Reg::r12d | Reg::r12w | Reg::r12b => 12,
            Reg::r13 | Reg::r13d | Reg::r13w | Reg::r13b => 13,
            Reg::r14 | Reg::r14d | Reg::r14w | Reg::r14b => 14,
            Reg::r15 | Reg::r15d | Reg::r15w | Reg::r15b => 15,
            Reg::eflags => 16,
            Reg::rip => 17,
            Reg::none => 31,
        }
    }

    /// The widest register that overlaps this one.
    pub open spec fn spec_to_64_bits(self) -> Reg {
        match self {
            Reg::rax | Reg::eax | Reg::ax | Reg::ah | Reg::al => Reg::rax,
            Reg::rbx | Reg::ebx | Reg::bx | Reg::bh | Reg::bl => Reg::rbx,
            Reg::rcx | Reg::ecx | Reg::cx | Reg::ch | Reg::cl => Reg::rcx,
            Reg::rdx | Reg::edx | Reg::dx | Reg::dh | Reg::dl => Reg::rdx,
            Reg::rbp | Reg::ebp | Reg::bp | Reg::bpl => Reg::rbp,
            Reg::rsi | Reg::esi | Reg::si | Reg::sil => Reg::rsi,
            Reg::rdi | Reg::edi | Reg::di | Reg::dil => Reg::rdi,
            Reg::rsp | Reg::esp | Reg::sp | Reg::spl => Reg::rsp,
            Reg::r8 | Reg::r8d | Reg::r8w | Reg::r8b => Reg::r8,
            Reg::r9 | Reg::r9d | Reg::r9w | Reg::r9b => Reg::r9,
            Reg::r10 | Reg::r10d | Reg::r10w | Reg::r10b => Reg::r10,
            Reg::r11 | Reg::r11d | Reg::r11w | Reg::r11b => Reg::r11,
            Reg::r12 | Reg::r12d | Reg::r12w | Reg::r12b => Reg::r12,
            Reg::r13 | Reg::r13d | Reg::r13w | Reg::r13b => Reg::r13,
            Reg::r14 | Reg::r14d | Reg::r14w | Reg::r14b => Reg::r14,
            Reg::r15 | Reg::r15d | Reg::r15w | Reg::r15b => Reg::r15,
            Reg::eflags => Reg::eflags,
            Reg::rip => Reg::rip,
            Reg::none => Reg::none,
        }
    }

    pub fn to_64_bits(self) -> (r: Reg)
        ensures
            r == self.spec_to_64_bits(),
    {
        match self {
            Reg::rax | Reg::eax | Reg::ax | Reg::ah | Reg::al => Reg::rax,
            Reg::rbx | Reg::ebx | Reg::bx | Reg::bh | Reg::bl => Reg::rbx,
            Reg::rcx | Reg::ecx | Reg::cx | Reg::ch | Reg::cl => Reg::rcx,
            Reg::rdx | Reg::edx | Reg::dx | Reg::dh | Reg::dl => Reg::rdx,
            Reg::rbp | Reg::ebp | Reg::bp | Reg::bpl => Reg::rbp,
            Reg::rsi | Reg::esi | Reg::si | Reg::sil => Reg::rsi,
            Reg::rdi | Reg::edi | Reg::di | Reg::dil => Reg::rdi,
            Reg::rsp | Reg::esp | Reg::sp | Reg::spl => Reg::rsp,
            Reg::r8 | Reg::r8d | Reg::r8w | Reg::r8b => Reg::r8,
            Reg::r9 | Reg::r9d | Reg::r9w | Reg::r9b => Reg::r9,
            Reg::r10 | Reg::r10d | Reg::r10w | Reg::r10b => Reg::r10,
            Reg::r11 | Reg::r11d | Reg::r11w | Reg::r11b => Reg::r11,
            Reg::r12 | Reg::r12d | Reg::r12w | Reg::r12b => Reg::r12,
            Reg::r13 | Reg::r13d | Reg::r13w | Reg::r13b => Reg::r13,
            Reg::r14 | Reg::r14d | Reg::r14w | Reg::r14b => Reg::r14,
            Reg::r15 | Reg::r15d | Reg::r15w | Reg::r15b => Reg::r15,
            Reg::eflags => Reg::eflags,
            Reg::rip => Reg::rip,
            Reg::none => Reg::none,
        }
    }

    /// The position of the register in the list of all registers.
    pub open spec fn spec_code(self) -> u32 {
        match self {
            Reg::rax => 0,
            Reg::rbx => 1,
            Reg::rcx => 2,
            Reg::rdx => 3,
            Reg::rbp => 4,
            Reg::rsi => 5,
            Reg::rdi => 6,
            Reg::rsp => 7,
            Reg::rip => 8,
            Reg::r8 => 9,
            Reg::r9 => 10,
            Reg::r10 => 11,
            Reg::r11 => 12,
            Reg::r12 => 13,
            Reg::r13 => 14,
            Reg::r14 => 15,
            Reg::r15 => 16,
            Reg::none => 17,
            Reg::eax => 18,
            Reg::ebx => 19,
            Reg::ecx => 20,
            Reg::edx => 21,
            Reg::ebp => 22,
            Reg::esi => 23,
            Reg::edi => 24,
            Reg::esp => 25,
            Reg::r8d => 26,
            Reg::r9d => 27,
            Reg::r10d => 28,
            Reg::r11d => 29,
            Reg::r12d => 30,
            Reg::r13d => 31,
            Reg::r14d => 32,
            Reg::r15d => 33,
            Reg::ax => 34,
            Reg::bx => 35,
            Reg::cx => 36,
            Reg::dx => 37,
            Reg::bp => 38,
            Reg::si => 39,
            Reg::di => 40,
            Reg::sp => 41,
            Reg::r8w => 42,
            Reg::r9w => 43,
            Reg::r10w => 44,
            Reg::r11w => 45,
            Reg::r12w => 46,
            Reg::r13w => 47,
            Reg::r14w => 48,
            Reg::r15w => 49,
            Reg::al => 50,
            Reg::bl => 51,
            Reg::cl => 52,
            Reg::dl => 53,
            Reg::bpl => 54,
            Reg::sil => 55,
            Reg::dil => 56,
            Reg::spl => 57,
            Reg::r8b => 58,
            Reg::r9b => 59,
            Reg::r10b => 60,
            Reg::r11b => 61,
            Reg::r12b => 62,
            Reg::r13b => 63,
            Reg::r14b => 64,
            Reg::r15b => 65,
            Reg::ah => 66,
            Reg::bh => 67,
            Reg::ch => 68,
            Reg::dh => 69,
            Reg::eflags => 70,
        }
    }

    fn code(self) -> (code: u32)
        ensures
            code == self.spec_code(),
    {
        match self {
            Reg::rax => 0,
            Reg::rbx => 1,
            Reg::rcx => 2,
            Reg::rdx => 3,
            Reg::rbp => 4,
            Reg::rsi => 5,
            Reg::rdi => 6,
            Reg::rsp => 7,
            Reg::rip => 8,
            Reg::r8 => 9,
            Reg::r9 => 10,
            Reg::r10 => 11,
            Reg::r11 => 12,
            Reg::r12 => 13,
            Reg::r13 => 14,
            Reg::r14 => 15,
            Reg::r15 => 16,
            Reg::none => 17,
            Reg::eax => 18,
            Reg::ebx => 19,
            Reg::ecx => 20,
            Reg::edx => 21,
            Reg::ebp => 22,
            Reg::esi => 23,
            Reg::edi => 24,
            Reg::esp => 25,
            Reg::r8d => 26,
            Reg::r9d => 27,
            Reg::r10d => 28,
            Reg::r11d => 29,
            Reg::r12d => 30,
            Reg::r13d => 31,
            Reg::r14d => 32,
            Reg::r15d => 33,
            Reg::ax => 34,
            Reg::bx => 35,
            Reg::cx => 36,
            Reg::dx => 37,
            Reg::bp => 38,
            Reg::si => 39,
            Reg::di => 40,
            Reg::sp => 41,
            Reg::r8w => 42,
            Reg::r9w => 43,
            Reg::r10w => 44,
            Reg::r11w => 45,
            Reg::r12w => 46,
            Reg::r13w => 47,
            Reg::r14w => 48,
            Reg::r15w => 49,
            Reg::al => 50,
            Reg::bl => 51,
            Reg::cl => 52,
            Reg::dl => 53,
            Reg::bpl => 54,
            Reg::sil => 55,
            Reg::dil => 56,
            Reg::spl => 57,
            Reg::r8b => 58,
            Reg::r9b => 59,
            Reg::r10b => 60,
            Reg::r11b => 61,
            Reg::r12b => 62,
            Reg::r13b => 63,
            Reg::r14b => 64,
            Reg::r15b => 65,
            Reg::ah => 66,
            Reg::bh => 67,
            Reg::ch => 68,
            Reg::dh => 69,
            Reg::eflags => 70,
        }
    }

    /// Inverse of the position in the list of all registers.
    pub open spec fn of_code(value: u32) -> Option<Reg> {
        if value == 0 {
            Some(Reg::rax)
        } else if value == 1 {
            Some(Reg::rbx)
        } else if value == 2 {
            Some(Reg::rcx)
        } else if value == 3 {
            Some(Reg::rdx)
        } else if value == 4 {
            Some(Reg::rbp)
        } else if value == 5 {
            Some(Reg::rsi)
        } else if value == 6 {
            Some(Reg::rdi)
        } else if value == 7 {
            Some(Reg::rsp)
        } else if value == 8 {
            Some(Reg::rip)
        } else if value == 9 {
            Some(Reg::r8)
        } else if value == 10 {
            Some(Reg::r9)
        } else if value == 11 {
            Some(Reg::r10)
        } else if value == 12 {
            Some(Reg::r11)
        } else if value == 13 {
            Some(Reg::r12)
        } else if value == 14 {
            Some(Reg::r13)
        } else if value == 15 {
            Some(Reg::r14)
        } else if value == 16 {
            Some(Reg::r15)
        } else if value == 17 {
            Some(Reg::none)
        } else if value == 18 {
            Some(Reg::eax)
        } else if value == 19 {
            Some(Reg::ebx)
        } else if value == 20 {
            Some(Reg::ecx)
        } else if value == 21 {
            Some(Reg::edx)
        } else if value == 22 {
            Some(Reg::ebp)
        } else if value == 23 {
            Some(Reg::esi)
        } else if value == 24 {
            Some(Reg::edi)
        } else if value == 25 {
            Some(Reg::esp)
        } else if value == 26 {
            Some(Reg::r8d)
        } else if value == 27 {
            Some(Reg::r9d)
        } else if value == 28 {
            Some(Reg::r10d)
        } else if value == 29 {
            Some(Reg::r11d)
        } else if value == 30 {
            Some(Reg::r12d)
        } else if value == 31 {
            Some(Reg::r13d)
        } else if value == 32 {
            Some(Reg::r14d)
        } else if value == 33 {
            Some(Reg::r15d)
        } else if value == 34 {
            Some(Reg::ax)
        } else if value == 35 {
            Some(Reg::bx)
        } else if value == 36 {
            Some(Reg::cx)
        } else if value == 37 {
            Some(Reg::dx)
        } else if value == 38 {
            Some(Reg::bp)
        } else if value == 39 {
            Some(Reg::si)
        } else if value == 40 {
            Some(Reg::di)
        } else if value == 41 {
            Some(Reg::sp)
        } else if value == 42 {
            Some(Reg::r8w)
        } else if value == 43 {
            Some(Reg::r9w)
        } else if value == 44 {
            Some(Reg::r10w)
        } else if value == 45 {
            Some(Reg::r11w)
        } else if value == 46 {
            Some(Reg::r12w)
        } else if value == 47 {
            Some(Reg::r13w)
        } else if value == 48 {
            Some(Reg::r14w)
        } else if value == 49 {
            Some(Reg::r15w)
        } else if value == 50 {
            Some(Reg::al)
        } else if value == 51 {
            Some(Reg::bl)
        } else if value == 52 {
            Some(Reg::cl)
        } else if value == 53 {
            Some(Reg::dl)
        } else if value == 54 {
            Some(Reg::bpl)
        } else if value == 55 {
            Some(Reg::sil)
        } else if value == 56 {
            Some(Reg::dil)
        } else if value == 57 {
            Some(Reg::spl)
        } else if value == 58 {
            Some(Reg::r8b)
        } else if value == 59 {
            Some(Reg::r9b)
        } else if value == 60 {
            Some(Reg::r10b)
        } else if value == 61 {
            Some(Reg::r11b)
        } else if value == 62 {
            Some(Reg::r12b)
        } else if value == 63 {
            Some(Reg::r13b)
        } else if value == 64 {
            Some(Reg::r14b)
        } else if value == 65 {
            Some(Reg::r15b)
        } else if value == 66 {
            Some(Reg::ah)
        } else if value == 67 {
            Some(Reg::bh)
        } else if value == 68 {
            Some(Reg::ch)
        } else if value == 69 {
            Some(Reg::dh)
        } else if value == 70 {
            Some(Reg::eflags)
        } else {
            None
        }
    }

    /// The number of registers.
    pub const COUNT: u32 = 71;

    /// The register with the given position in the list of all registers.
    fn from_code(value: u32) -> (r: Reg)
        requires
            value < Self::COUNT,
        ensures
            Self::of_code(value) == Some(r),
    {
        match value {
            0 => Reg::rax,
            1 => Reg::rbx,
            2 => Reg::rcx,
            3 => Reg::rdx,
            4 => Reg::rbp,
            5 => Reg::rsi,
            6 => Reg::rdi,
            7 => Reg::rsp,
            8 => Reg::rip,
            9 => Reg::r8,
            10 => Reg::r9,
            11 => Reg::r10,
            12 => Reg::r11,
            13 => Reg::r12,
            14 => Reg::r13,
            15 => Reg::r14,
            16 => Reg::r15,
            17 => Reg::none,
            18 => Reg::eax,
            19 => Reg::ebx,
            20 => Reg::ecx,
            21 => Reg::edx,
            22 => Reg::ebp,
            23 => Reg::esi,
            24 => Reg::edi,
            25 => Reg::esp,
            26 => Reg::r8d,
            27 => Reg::r9d,
            28 => Reg::r10d,
            29 => Reg::r11d,
            30 => Reg::r12d,
            31 => Reg::r13d,
            32 => Reg::r14d,
            33 => Reg::r15d,
            34 => Reg::ax,
            35 => Reg::bx,
            36 => Reg::cx,
            37 => Reg::dx,
            38 => Reg::bp,
            39 => Reg::si,
            40 => Reg::di,
            41 => Reg::sp,
            42 => Reg::r8w,
            43 => Reg::r9w,
            44 => Reg::r10w,
            45 => Reg::r11w,
            46 => Reg::r12w,
            47 => Reg::r13w,
            48 => Reg::r14w,
            49 => Reg::r15w,
            50 => Reg::al,
            51 => Reg::bl,
            52 => Reg::cl,
            53 => Reg::dl,
            54 => Reg::bpl,
            55 => Reg::sil,
            56 => Reg::dil,
            57 => Reg::spl,
            58 => Reg::r8b,
            59 => Reg::r9b,
            60 => Reg::r10b,
            61 => Reg::r11b,
            62 => Reg::r12b,
            63 => Reg::r13b,
            64 => Reg::r14b,
            65 => Reg::r15b,
            66 => Reg::ah,
            67 => Reg::bh,
            68 => Reg::ch,
            69 => Reg::dh,
            _ => Reg::eflags,
        }
    }

    /// The name of the register.
    pub open spec fn spec_to_str(self) -> Seq<char> {
        match self {
            Reg::rax => "rax"@,
            Reg::rbx => "rbx"@,
            Reg::rcx => "rcx"@,
            Reg::rdx => "rdx"@,
            Reg::rbp => "rbp"@,
            Reg::rsi => "rsi"@,
            Reg::rdi => "rdi"@,
            Reg::rsp => "rsp"@,
            Reg::rip => "rip"@,
            Reg::r8 => "r8"@,
            Reg::r9 => "r9"@,
            Reg::r10 => "r10"@,
            Reg::r11 => "r11"@,
            Reg::r12 => "r12"@,
            Reg::r13 => "r13"@,
            Reg::r14 => "r14"@,
            Reg::r15 => "r15"@,
            Reg::none => "none"@,
            Reg::eax => "eax"@,
            Reg::ebx => "ebx"@,
            Reg::ecx => "ecx"@,
            Reg::edx => "edx"@,
            Reg::ebp => "ebp"@,
            Reg::esi => "esi"@,
            Reg::edi => "edi"@,
            Reg::esp => "esp"@,
            Reg::r8d => "r8d"@,
            Reg::r9d => "r9d"@,
            Reg::r10d => "r10d"@,
            Reg::r11d => "r11d"@,
            Reg::r12d => "r12d"@,
            Reg::r13d => "r13d"@,
            Reg::r14d => "r14d"@,
            Reg::r15d => "r15d"@,
            Reg::ax => "ax"@,
            Reg::bx => "bx"@,
            Reg::cx => "cx"@,
            Reg::dx => "dx"@,
            Reg::bp => "bp"@,
            Reg::si => "si"@,
            Reg::di => "di"@,
            Reg::sp => "sp"@,
            Reg::r8w => "r8w"@,
            Reg::r9w => "r9w"@,
            Reg::r10w => "r10w"@,
            Reg::r11w => "r11w"@,
            Reg::r12w => "r12w"@,
            Reg::r13w => "r13w"@,
            Reg::r14w => "r14w"@,
            Reg::r15w => "r15w"@,
            Reg::al => "al"@,
            Reg::bl => "bl"@,
            Reg::cl => "cl"@,
            Reg::dl => "dl"@,
            Reg::bpl => "bpl"@,
            Reg::sil => "sil"@,
            Reg::dil => "dil"@,
            Reg::spl => "spl"@,
            Reg::r8b => "r8b"@,
            Reg::r9b => "r9b"@,
            Reg::r10b => "r10b"@,
            Reg::r11b => "r11b"@,
            Reg::r12b => "r12b"@,
            Reg::r13b => "r13b"@,
            Reg::r14b => "r14b"@,
            Reg::r15b => "r15b"@,
            Reg::ah => "ah"@,
            Reg::bh => "bh"@,
            Reg::ch => "ch"@,
            Reg::dh => "dh"@,
            Reg::eflags => "eflags"@,
        }
    }

    /// A register of the class can be handed out.
    pub open spec fn belongs_to(self, class: RegClass) -> bool {
        match class {
            RegClass::GP64 => matches!(self, Reg::rax | Reg::rbx | Reg::rcx | Reg::rdx | Reg::rbp | Reg::rsi | Reg::rdi | Reg::rsp | Reg::rip | Reg::r8 | Reg::r9 | Reg::r10 | Reg::r11 | Reg::r12 | Reg::r13 | Reg::r14 | Reg::r15 | Reg::none),
            RegClass::GP32 => matches!(self, Reg::eax | Reg::ebx | Reg::ecx | Reg::edx | Reg::ebp | Reg::esi | Reg::edi | Reg::esp | Reg::r8d | Reg::r9d | Reg::r10d | Reg::r11d | Reg::r12d | Reg::r13d | Reg::r14d | Reg::r15d),
            RegClass::GP16 => matches!(self, Reg::ax | Reg::bx | Reg::cx | Reg::dx | Reg::bp | Reg::si | Reg::di | Reg::sp | Reg::r8w | Reg::r9w | Reg::r10w | Reg::r11w | Reg::r12w | Reg::r13w | Reg::r14w | Reg::r15w),
            RegClass::GP8 => matches!(self, Reg::al | Reg::bl | Reg::cl | Reg::dl | Reg::bpl | Reg::sil | Reg::dil | Reg::spl | Reg::r8b | Reg::r9b | Reg::r10b | Reg::r11b | Reg::r12b | Reg::r13b | Reg::r14b | Reg::r15b | Reg::ah | Reg::bh | Reg::ch | Reg::dh),
            RegClass::Flags => matches!(self, Reg::eflags),
            RegClass::F32 => false,
            RegClass::F64 => false,
            RegClass::GP64I => matches!(self, Reg::rax | Reg::rbx | Reg::rcx | Reg::rdx | Reg::rbp | Reg::rsi | Reg::rdi | Reg::rip | Reg::r8 | Reg::r9 | Reg::r10 | Reg::r11 | Reg::r13 | Reg::r14 | Reg::r15 | Reg::none),
            RegClass::GP32I => matches!(self, Reg::eax | Reg::ebx | Reg::ecx | Reg::edx | Reg::ebp | Reg::esi | Reg::edi | Reg::r8d | Reg::r9d | Reg::r10d | Reg::r11d | Reg::r13d | Reg::r14d | Reg::r15d),
            RegClass::GP16I => matches!(self, Reg::ax | Reg::bx | Reg::cx | Reg::dx | Reg::bp | Reg::si | Reg::di | Reg::r8w | Reg::r9w | Reg::r10w | Reg::r11w | Reg::r13w | Reg::r14w | Reg::r15w),
            RegClass::GP8I => matches!(self, Reg::al | Reg::bl | Reg::cl | Reg::dl | Reg::bpl | Reg::sil | Reg::dil | Reg::r8b | Reg::r9b | Reg::r10b | Reg::r11b | Reg::r13b | Reg::r14b | Reg::r15b | Reg::ah | Reg::bh | Reg::ch | Reg::dh),
        }
    }

    /// The set of this register alone.
    pub fn bit(self) -> (bits: RegBits)
        ensures
            bits.0 == 1u32 << self.spec_index(),
            forall|i: u8| #[trigger] bits.has_index(i) <==> i == self.spec_index(),
    {
        let i: u8 = self.index();
        proof {
            assert forall|j: u8| j < 32 implies (((1u32 << i) & (1u32 << j)) != 0) == (j == i) by {
                lemma_single_bit(i, j);
            }
        }
        RegBits(1u32 << i)
    }

    /// One register for each index that is in use.
    pub fn unique_bits() -> (regs: [Reg; 18])
        ensures
            regs@ == Self::spec_unique_bits(),
    {
        [Reg::rax, Reg::rbx, Reg::rcx, Reg::rdx, Reg::rbp, Reg::rsi, Reg::rdi, Reg::rsp, Reg::r8, Reg::r9, Reg::r10, Reg::r11, Reg::r12, Reg::r13, Reg::r14, Reg::r15, Reg::eflags, Reg::rip]
    }

    pub open spec fn spec_unique_bits() -> Seq<Reg> {
        seq![Reg::rax, Reg::rbx, Reg::rcx, Reg::rdx, Reg::rbp, Reg::rsi, Reg::rdi, Reg::rsp, Reg::r8, Reg::r9, Reg::r10, Reg::r11, Reg::r12, Reg::r13, Reg::r14, Reg::r15, Reg::eflags, Reg::rip]
    }
}

/// The numbers in a set of registers are those of the list without repetition.
pub proof fn unique_bits_are_unique(i: int, j: int, r: Reg)
    requires
        0 <= i < j < 18,
    ensures
        Reg::spec_unique_bits()[i].spec_index() != Reg::spec_unique_bits()[j].spec_index(),
        r != Reg::none ==> Reg::spec_unique_bits().contains(r.spec_to_64_bits()),
{
    let all = Reg::spec_unique_bits();
    assert(all.len() == 18);
    assert(r != Reg::none ==> all[r.spec_index() as int] == r.spec_to_64_bits());
}

/// A register and the widest one that overlaps it have the same index, and
/// registers with the same index overlap.
pub proof fn index_is_overlap(a: Reg, b: Reg)
    ensures
        a.spec_to_64_bits().spec_index() == a.spec_index(),
        a.spec_to_64_bits().spec_to_64_bits() == a.spec_to_64_bits(),
        a.spec_index() == b.spec_index() <==> a.spec_to_64_bits() == b.spec_to_64_bits(),
{
}

pub proof fn lemma_known_codes(value: u32)
    ensures
        Reg::of_code(value) is Some <==> value < Reg::COUNT,
{
}

/// Decoding the position of a register gives the register.
pub proof fn register_code_round_trip(r: Reg, value: u32)
    ensures
        Reg::of_code(r.spec_code()) == Some(r),
        r.spec_code() < Reg::COUNT,
        Reg::of_code(value) matches Some(s) ==> s.spec_code() == value,
{
}

impl RegClass {
    /// The number that stands for the class.
    pub open spec fn spec_code(self) -> u8 {
        match self {
            RegClass::GP64 => 0,
            RegClass::GP32 => 1,
            RegClass::GP16 => 2,
            RegClass::GP8 => 3,
            RegClass::Flags => 4,
            RegClass::F32 => 5,
            RegClass::F64 => 6,
            RegClass::GP64I => 7,
            RegClass::GP32I => 8,
            RegClass::GP16I => 9,
            RegClass::GP8I => 10,
        }
    }

    pub fn code(self) -> (code: u8)
        ensures
            code == self.spec_code(),
    {
        match self {
            RegClass::GP64 => 0,
            RegClass::GP32 => 1,
            RegClass::GP16 => 2,
            RegClass::GP8 => 3,
            RegClass::Flags => 4,
            RegClass::F32 => 5,
            RegClass::F64 => 6,
            RegClass::GP64I => 7,
            RegClass::GP32I => 8,
            RegClass::GP16I => 9,
            RegClass::GP8I => 10,
        }
    }

    /// The class with the given number.
    pub fn from_code(value: u8) -> (class: Option<RegClass>)
        ensures
            match class {
                Some(c) => c.spec_code() == value,
                None => forall|c: RegClass| #[trigger] c.spec_code() != value,
            },
    {
        match value {
            0 => Some(RegClass::GP64),
            1 => Some(RegClass::GP32),
            2 => Some(RegClass::GP16),
            3 => Some(RegClass::GP8),
            4 => Some(RegClass::Flags),
            5 => Some(RegClass::F32),
            6 => Some(RegClass::F64),
            7 => Some(RegClass::GP64I),
            8 => Some(RegClass::GP32I),
            9 => Some(RegClass::GP16I),
            10 => Some(RegClass::GP8I),
            _ => None,
        }
    }

    /// The classes that have registers usable as an index.
    pub open spec fn has_index_class(self) -> bool {
        !(self is Flags) && !(self is F32) && !(self is F64)
    }

    /// The class of the same width that is usable as an index.
    pub open spec fn spec_into_index(self) -> RegClass {
        match self {
            RegClass::GP64 | RegClass::GP64I => RegClass::GP64I,
            RegClass::GP32 | RegClass::GP32I => RegClass::GP32I,
            RegClass::GP16 | RegClass::GP16I => RegClass::GP16I,
            RegClass::GP8 | RegClass::GP8I => RegClass::GP8I,
            _ => self,
        }
    }

    pub fn into_index(self) -> (class: RegClass)
        requires
            self.has_index_class(),
        ensures
            class == self.spec_into_index(),
    {
        match self {
            RegClass::GP64 | RegClass::GP64I => RegClass::GP64I,
            RegClass::GP32 | RegClass::GP32I => RegClass::GP32I,
            RegClass::GP16 | RegClass::GP16I => RegClass::GP16I,
            RegClass::GP8 | RegClass::GP8I => RegClass::GP8I,
            _ => self,
        }
    }
}

/// A register of an index class also belongs to the class it was made from, and
/// is neither the stack pointer nor register 12.
pub proof fn index_classes_are_narrower(r: Reg, class: RegClass)
    requires
        class.has_index_class(),
        r.belongs_to(class.spec_into_index()),
    ensures
        r.spec_index() != Reg::rsp.spec_index(),
        r.spec_index() != Reg::r12.spec_index(),
        r.belongs_to(class),
{
}

proof fn lemma_single_bit(i: u8, j: u8)
    by (bit_vector)
    requires
        i < 32,
        j < 32,
    ensures
        (((1u32 << i) & (1u32 << j)) != 0) == (j == i),
{
}

proof fn lemma_or_bit(a: u32, b: u32, j: u8)
    by (bit_vector)
    requires
        j < 32,
    ensures
        (((a | b) & (1u32 << j)) != 0) == ((a & (1u32 << j)) != 0 || (b & (1u32 << j)) != 0),
        (((a & b) & (1u32 << j)) != 0) == ((a & (1u32 << j)) != 0 && (b & (1u32 << j)) != 0),
        (((a & !b) & (1u32 << j)) != 0) == ((a & (1u32 << j)) != 0 && !((b & (1u32 << j)) != 0)),
        ((!a & (1u32 << j)) != 0) == !((a & (1u32 << j)) != 0),
        (0u32 & (1u32 << j)) == 0,
        ((0x0001_FFFFu32 & (1u32 << j)) != 0) == (j <= 16),
{
}

/// A set of register indices.
#[derive(Clone, Copy, Debug, PartialEq, Eq, Structural)]
pub struct RegBits(pub u32);

impl Default for RegBits {
    fn default() -> (bits: Self)
        ensures
            bits.0 == 0,
    {
        RegBits(0)
    }
}

impl RegBits {
    pub open spec fn has_index(self, i: u8) -> bool {
        i < 32 && self.0 & (1u32 << i) != 0
    }

    pub fn new() -> (bits: Self)
        ensures
            bits.0 == 0,
            forall|i: u8| !#[trigger] bits.has_index(i),
    {
        proof {
            assert forall|j: u8| j < 32 implies 0u32 & #[trigger] (1u32 << j) == 0 by {
                lemma_or_bit(0, 0, j);
            }
        }
        RegBits(0)
    }

    /// All registers that can be handed out, and the flags.
    pub fn all() -> (bits: Self)
        ensures
            bits.0 == 0x0001_FFFF,
            forall|i: u8| #[trigger] bits.has_index(i) <==> i <= 16,
    {
        proof {
            assert forall|j: u8| j < 32 implies (0x0001_FFFFu32 & #[trigger] (1u32 << j) != 0) == (j
                <= 16) by {
                lemma_or_bit(0, 0, j);
            }
        }
        RegBits(0x0001_FFFF)
    }

    pub fn get(&self, r: Reg) -> (set: bool)
        ensures
            set == self.has_index(r.spec_index()),
    {
        self.0 & r.bit().0 != 0
    }

    pub fn set(&mut self, r: Reg, set: bool)
        ensures
            forall|i: u8| #[trigger]
                final(self).has_index(i) <==> if i == r.spec_index() {
                    set
                } else {
                    old(self).has_index(i)
                },
    {
        let bit: u32 = r.bit().0;
        let ghost before = self.0;
        proof {
            assert forall|j: u8| j < 32 implies {
                &&& ((before | bit) & #[trigger] (1u32 << j) != 0) == (before & (1u32 << j) != 0 || j
                    == r.spec_index())
                &&& ((before & !bit) & (1u32 << j) != 0) == (before & (1u32 << j) != 0 && j
                    != r.spec_index())
            } by {
                lemma_or_bit(before, bit, j);
                lemma_single_bit(r.spec_index(), j);
            }
        }
        if set {
            self.0 = self.0 | bit;
        } else {
            self.0 = self.0 & !bit;
        }
    }

    pub fn bitor(self, rhs: Self) -> (bits: Self)
        ensures
            bits.0 == self.0 | rhs.0,
            forall|i: u8| #[trigger]
                bits.has_index(i) <==> self.has_index(i) || rhs.has_index(i),
    {
        proof {
            assert forall|j: u8| j < 32 implies ((self.0 | rhs.0) & #[trigger] (1u32 << j) != 0) == (
            self.0 & (1u32 << j) != 0 || rhs.0 & (1u32 << j) != 0) by {
                lemma_or_bit(self.0, rhs.0, j);
            }
        }
        RegBits(self.0 | rhs.0)
    }

    pub fn bitand(self, rhs: Self) -> (bits: Self)
        ensures
            bits.0 == self.0 & rhs.0,
            forall|i: u8| #[trigger]
                bits.has_index(i) <==> self.has_index(i) && rhs.has_index(i),
    {
        proof {
            assert forall|j: u8| j < 32 implies ((self.0 & rhs.0) & #[trigger] (1u32 << j) != 0) == (
            self.0 & (1u32 << j) != 0 && rhs.0 & (1u32 << j) != 0) by {
                lemma_or_bit(self.0, rhs.0, j);
            }
        }
        RegBits(self.0 & rhs.0)
    }

    pub fn not(self) -> (bits: Self)
        ensures
            bits.0 == !self.0,
            forall|i: u8| #[trigger] bits.has_index(i) <==> i < 32 && !self.has_index(i),
    {
        proof {
            assert forall|j: u8| j < 32 implies (!self.0 & #[trigger] (1u32 << j) != 0) == !(self.0 & (
            1u32 << j) != 0) by {
                lemma_or_bit(self.0, 0, j);
            }
        }
        RegBits(!self.0)
    }
}

impl Register for Reg {
    type RegisterBits = RegBits;

    type Class = RegClass;

    open spec fn spec_index(self) -> u8 {
        Reg::spec_index(self)
    }

    open spec fn spec_code(self) -> u32 {
        Reg::spec_code(self)
    }

    open spec fn spec_of_code(code: u32) -> Option<Reg> {
        Reg::of_code(code)
    }

    open spec fn spec_has(bits: RegBits, index: u8) -> bool {
        bits.has_index(index)
    }

    open spec fn spec_tracked() -> bool {
        true
    }

    open spec fn spec_in_class(self, class: RegClass) -> bool {
        self.belongs_to(class)
    }

    open spec fn spec_name(self) -> Seq<char> {
        self.spec_to_str()
    }

    fn no_bits() -> RegBits {
        RegBits::new()
    }

    fn to_str(self) -> &'static str {
        match self {
            Reg::rax => "rax",
            Reg::rbx => "rbx",
            Reg::rcx => "rcx",
            Reg::rdx => "rdx",
            Reg::rbp => "rbp",
            Reg::rsi => "rsi",
            Reg::rdi => "rdi",
            Reg::rsp => "rsp",
            Reg::rip => "rip",
            Reg::r8 => "r8",
            Reg::r9 => "r9",
            Reg::r10 => "r10",
            Reg::r11 => "r11",
            Reg::r12 => "r12",
            Reg::r13 => "r13",
            Reg::r14 => "r14",
            Reg::r15 => "r15",
            Reg::none => "none",
            Reg::eax => "eax",
            Reg::ebx => "ebx",
            Reg::ecx => "ecx",
            Reg::edx => "edx",
            Reg::ebp => "ebp",
            Reg::esi => "esi",
            Reg::edi => "edi",
            Reg::esp => "esp",
            Reg::r8d => "r8d",
            Reg::r9d => "r9d",
            Reg::r10d => "r10d",
            Reg::r11d => "r11d",
            Reg::r12d => "r12d",
            Reg::r13d => "r13d",
            Reg::r14d => "r14d",
            Reg::r15d => "r15d",
            Reg::ax => "ax",
            Reg::bx => "bx",
            Reg::cx => "cx",
            Reg::dx => "dx",
            Reg::bp => "bp",
            Reg::si => "si",
            Reg::di => "di",
            Reg::sp => "sp",
            Reg::r8w => "r8w",
            Reg::r9w => "r9w",
            Reg::r10w => "r10w",
            Reg::r11w => "r11w",
            Reg::r12w => "r12w",
            Reg::r13w => "r13w",
            Reg::r14w => "r14w",
            Reg::r15w => "r15w",
            Reg::al => "al",
            Reg::bl => "bl",
            Reg::cl => "cl",
            Reg::dl => "dl",
            Reg::bpl => "bpl",
            Reg::sil => "sil",
            Reg::dil => "dil",
            Reg::spl => "spl",
            Reg::r8b => "r8b",
            Reg::r9b => "r9b",
            Reg::r10b => "r10b",
            Reg::r11b => "r11b",
            Reg::r12b => "r12b",
            Reg::r13b => "r13b",
            Reg::r14b => "r14b",
            Reg::r15b => "r15b",
            Reg::ah => "ah",
            Reg::bh => "bh",
            Reg::ch => "ch",
            Reg::dh => "dh",
            Reg::eflags => "eflags",
        }
    }

    fn encode(self) -> u32 {
        let code: u32 = self.code();
        assert(Register::spec_code(self) == Reg::spec_code(self));
        code
    }

    fn decode(value: u32) -> Reg {
        proof {
            lemma_known_codes(value);
        }
        Reg::from_code(value)
    }

    proof fn codes_are_unique(self) {
        register_code_round_trip(self, 0);
    }

    fn bit_index(self) -> u8 {
        self.index()
    }

    fn get_bit(self, bits: &RegBits) -> bool {
        bits.get(self)
    }

    fn set_bit(self, bits: &mut RegBits, bit: bool) {
        bits.set(self, bit);
    }

    fn allocate_reg(free_bits: RegBits, class: RegClass) -> Option<Self> {
        match class {
            RegClass::GP64 => {
                if free_bits.get(Reg::rax) {
                    return Some(Reg::rax);
                }
                if free_bits.get(Reg::rbx) {
                    return Some(Reg::rbx);
                }
                if free_bits.get(Reg::rcx) {
                    return Some(Reg::rcx);
                }
                if free_bits.get(Reg::rdx) {
                    return Some(Reg::rdx);
                }
                if free_bits.get(Reg::rbp) {
                    return Some(Reg::rbp);
                }
                if free_bits.get(Reg::rsi) {
                    return Some(Reg::rsi);
                }
                if free_bits.get(Reg::rdi) {
                    return Some(Reg::rdi);
                }
                if free_bits.get(Reg::rsp) {
                    return Some(Reg::rsp);
                }
                if free_bits.get(Reg::rip) {
                    return Some(Reg::rip);
                }
                if free_bits.get(Reg::r8) {
                    return Some(Reg::r8);
                }
                if free_bits.get(Reg::r9) {
                    return Some(Reg::r9);
                }
                if free_bits.get(Reg::r10) {
                    return Some(Reg::r10);
                }
                if free_bits.get(Reg::r11) {
                    return Some(Reg::r11);
                }
                if free_bits.get(Reg::r12) {
                    return Some(Reg::r12);
                }
                if free_bits.get(Reg::r13) {
                    return Some(Reg::r13);
                }
                if free_bits.get(Reg::r14) {
                    return Some(Reg::r14);
                }
                if free_bits.get(Reg::r15) {
                    return Some(Reg::r15);
                }
                if free_bits.get(Reg::none) {
                    return Some(Reg::none);
                }
            },
            RegClass::GP32 => {
                if free_bits.get(Reg::eax) {
                    return Some(Reg::eax);
                }
                if free_bits.get(Reg::ebx) {
                    return Some(Reg::ebx);
                }
                if free_bits.get(Reg::ecx) {
                    return Some(Reg::ecx);
                }
                if free_bits.get(Reg::edx) {
                    return Some(Reg::edx);
                }
                if free_bits.get(Reg::ebp) {
                    return Some(Reg::ebp);
                }
                if free_bits.get(Reg::esi) {
                    return Some(Reg::esi);
                }
                if free_bits.get(Reg::edi) {
                    return Some(Reg::edi);
                }
                if free_bits.get(Reg::esp) {
                    return Some(Reg::esp);
                }
                if free_bits.get(Reg::r8d) {
                    return Some(Reg::r8d);
                }
                if free_bits.get(Reg::r9d) {
                    return Some(Reg::r9d);
                }
                if free_bits.get(Reg::r10d) {
                    return Some(Reg::r10d);
                }
                if free_bits.get(Reg::r11d) {
                    return Some(Reg::r11d);
                }
                if free_bits.get(Reg::r12d) {
                    return Some(Reg::r12d);
                }
                if free_bits.get(Reg::r13d) {
                    return Some(Reg::r13d);
                }
                if free_bits.get(Reg::r14d) {
                    return Some(Reg::r14d);
                }
                if free_bits.get(Reg::r15d) {
                    return Some(Reg::r15d);
                }
            },
            RegClass::GP16 => {
                if free_bits.get(Reg::ax) {
                    return Some(Reg::ax);
                }
                if free_bits.get(Reg::bx) {
                    return Some(Reg::bx);
                }
                if free_bits.get(Reg::cx) {
                    return Some(Reg::cx);
                }
                if free_bits.get(Reg::dx) {
                    return Some(Reg::dx);
                }
                if free_bits.get(Reg::bp) {
                    return Some(Reg::bp);
                }
                if free_bits.get(Reg::si) {
                    return Some(Reg::si);
                }
                if free_bits.get(Reg::di) {
                    return Some(Reg::di);
                }
                if free_bits.get(Reg::sp) {
                    return Some(Reg::sp);
                }
                if free_bits.get(Reg::r8w) {
                    return Some(Reg::r8w);
                }
                if free_bits.get(Reg::r9w) {
                    return Some(Reg::r9w);
                }
                if free_bits.get(Reg::r10w) {
                    return Some(Reg::r10w);
                }
                if free_bits.get(Reg::r11w) {
                    return Some(Reg::r11w);
                }
                if free_bits.get(Reg::r12w) {
                    return Some(Reg::r12w);
                }
                if free_bits.get(Reg::r13w) {
                    return Some(Reg::r13w);
                }
                if free_bits.get(Reg::r14w) {
                    return Some(Reg::r14w);
                }
                if free_bits.get(Reg::r15w) {
                    return Some(Reg::r15w);
                }
            },
            RegClass::GP8 => {
                if free_bits.get(Reg::al) {
                    return Some(Reg::al);
                }
                if free_bits.get(Reg::bl) {
                    return Some(Reg::bl);
                }
                if free_bits.get(Reg::cl) {
                    return Some(Reg::cl);
                }
                if free_bits.get(Reg::dl) {
                    return Some(Reg::dl);
                }
                if free_bits.get(Reg::bpl) {
                    return Some(Reg::bpl);
                }
                if free_bits.get(Reg::sil) {
                    return Some(Reg::sil);
                }
                if free_bits.get(Reg::dil) {
                    return Some(Reg::dil);
                }
                if free_bits.get(Reg::spl) {
                    return Some(Reg::spl);
                }
                if free_bits.get(Reg::r8b) {
                    return Some(Reg::r8b);
                }
                if free_bits.get(Reg::r9b) {
                    return Some(Reg::r9b);
                }
                if free_bits.get(Reg::r10b) {
                    return Some(Reg::r10b);
                }
                if free_bits.get(Reg::r11b) {
                    return Some(Reg::r11b);
                }
                if free_bits.get(Reg::r12b) {
                    return Some(Reg::r12b);
                }
                if free_bits.get(Reg::r13b) {
                    return Some(Reg::r13b);
                }
                if free_bits.get(Reg::r14b) {
                    return Some(Reg::r14b);
                }
                if free_bits.get(Reg::r15b) {
                    return Some(Reg::r15b);
                }
                if free_bits.get(Reg::ah) {
                    return Some(Reg::ah);
                }
                if free_bits.get(Reg::bh) {
                    return Some(Reg::bh);
                }
                if free_bits.get(Reg::ch) {
                    return Some(Reg::ch);
                }
                if free_bits.get(Reg::dh) {
                    return Some(Reg::dh);
                }
            },
            RegClass::Flags => {
                if free_bits.get(Reg::eflags) {
                    return Some(Reg::eflags);
                }
            },
            RegClass::F32 => {
            },
            RegClass::F64 => {
            },
            RegClass::GP64I => {
                if free_bits.get(Reg::rax) {
                    return Some(Reg::rax);
                }
                if free_bits.get(Reg::rbx) {
                    return Some(Reg::rbx);
                }
                if free_bits.get(Reg::rcx) {
                    return Some(Reg::rcx);
                }
                if free_bits.get(Reg::rdx) {
                    return Some(Reg::rdx);
                }
                if free_bits.get(Reg::rbp) {
                    return Some(Reg::rbp);
                }
                if free_bits.get(Reg::rsi) {
                    return Some(Reg::rsi);
                }
                if free_bits.get(Reg::rdi) {
                    return Some(Reg::rdi);
                }
                if free_bits.get(Reg::rip) {
                    return Some(Reg::rip);
                }
                if free_bits.get(Reg::r8) {
                    return Some(Reg::r8);
                }
                if free_bits.get(Reg::r9) {
                    return Some(Reg::r9);
                }
                if free_bits.get(Reg::r10) {
                    return Some(Reg::r10);
                }
                if free_bits.get(Reg::r11) {
                    return Some(Reg::r11);
                }
                if free_bits.get(Reg::r13) {
                    return Some(Reg::r13);
                }
                if free_bits.get(Reg::r14) {
                    return Some(Reg::r14);
                }
                if free_bits.get(Reg::r15) {
                    return Some(Reg::r15);
                }
                if free_bits.get(Reg::none) {
                    return Some(Reg::none);
                }
            },
            RegClass::GP32I => {
                if free_bits.get(Reg::eax) {
                    return Some(Reg::eax);
                }
                if free_bits.get(Reg::ebx) {
                    return Some(Reg::ebx);
                }
                if free_bits.get(Reg::ecx) {
                    return Some(Reg::ecx);
                }
                if free_bits.get(Reg::edx) {
                    return Some(Reg::edx);
                }
                if free_bits.get(Reg::ebp) {
                    return Some(Reg::ebp);
                }
                if free_bits.get(Reg::esi) {
                    return Some(Reg::esi);
                }
                if free_bits.get(Reg::edi) {
                    return Some(Reg::edi);
                }
                if free_bits.get(Reg::r8d) {
                    return Some(Reg::r8d);
                }
                if free_bits.get(Reg::r9d) {
                    return Some(Reg::r9d);
                }
                if free_bits.get(Reg::r10d) {
                    return Some(Reg::r10d);
                }
                if free_bits.get(Reg::r11d) {
                    return Some(Reg::r11d);
                }
                if free_bits.get(Reg::r13d) {
                    return Some(Reg::r13d);
                }
                if free_bits.get(Reg::r14d) {
                    return Some(Reg::r14d);
                }
                if free_bits.get(Reg::r15d) {
                    return Some(Reg::r15d);
                }
            },
            RegClass::GP16I => {
                if free_bits.get(Reg::ax) {
                    return Some(Reg::ax);
                }
                if free_bits.get(Reg::bx) {
                    return Some(Reg::bx);
                }
                if free_bits.get(Reg::cx) {
                    return Some(Reg::cx);
                }
                if free_bits.get(Reg::dx) {
                    return Some(Reg::dx);
                }
                if free_bits.get(Reg::bp) {
                    return Some(Reg::bp);
                }
                if free_bits.get(Reg::si) {
                    return Some(Reg::si);
                }
                if free_bits.get(Reg::di) {
                    return Some(Reg::di);
                }
                if free_bits.get(Reg::r8w) {
                    return Some(Reg::r8w);
                }
                if free_bits.get(Reg::r9w) {
                    return Some(Reg::r9w);
                }
                if free_bits.get(Reg::r10w) {
                    return Some(Reg::r10w);
                }
                if free_bits.get(Reg::r11w) {
                    return Some(Reg::r11w);
                }
                if free_bits.get(Reg::r13w) {
                    return Some(Reg::r13w);
                }
                if free_bits.get(Reg::r14w) {
                    return Some(Reg::r14w);
                }
                if free_bits.get(Reg::r15w) {
                    return Some(Reg::r15w);
                }
            },
            RegClass::GP8I => {
                if free_bits.get(Reg::al) {
                    return Some(Reg::al);
                }
                if free_bits.get(Reg::bl) {
                    return Some(Reg::bl);
                }
                if free_bits.get(Reg::cl) {
                    return Some(Reg::cl);
                }
                if free_bits.get(Reg::dl) {
                    return Some(Reg::dl);
                }
                if free_bits.get(Reg::bpl) {
                    return Some(Reg::bpl);
                }
                if free_bits.get(Reg::sil) {
                    return Some(Reg::sil);
                }
                if free_bits.get(Reg::dil) {
                    return Some(Reg::dil);
                }
                if free_bits.get(Reg::r8b) {
                    return Some(Reg::r8b);
                }
                if free_bits.get(Reg::r9b) {
                    return Some(Reg::r9b);
                }
                if free_bits.get(Reg::r10b) {
                    return Some(Reg::r10b);
                }
                if free_bits.get(Reg::r11b) {
                    return Some(Reg::r11b);
                }
                if free_bits.get(Reg::r13b) {
                    return Some(Reg::r13b);
                }
                if free_bits.get(Reg::r14b) {
                    return Some(Reg::r14b);
                }
                if free_bits.get(Reg::r15b) {
                    return Some(Reg::r15b);
                }
                if free_bits.get(Reg::ah) {
                    return Some(Reg::ah);
                }
                if free_bits.get(Reg::bh) {
                    return Some(Reg::bh);
                }
                if free_bits.get(Reg::ch) {
                    return Some(Reg::ch);
                }
                if free_bits.get(Reg::dh) {
                    return Some(Reg::dh);
                }
            },
        }
        None
    }
}

#[allow(non_camel_case_types)]
#[derive(Clone, Copy, Debug, PartialEq, Eq, Hash, Structural)]
pub enum X86 {
    or_rr8,
    or_rr16,
    or_rr32,
    or_rr64,
    or_ri8,
    or_ri16,
    or_ri32,
    or_ri64,
    and_rr8,
    and_rr16,
    and_rr32,
    and_rr64,
    and_ri8,
    and_ri16,
    and_ri32,
    and_ri64,
    push_r64,
    pop_r64,
    mov_ri8,
    mov_ri16,
    mov_ri32,
    mov_ri64,
    mov_rr8,
    mov_rr16,
    mov_rr32,
    mov_rr64,
    mov_rm8,
    mov_rm16,
    mov_rm32,
    mov_rm64,
    mov_mr8,
    mov_mr16,
    mov_mr32,
    mov_mr64,
    ret0,
    ret64,
    ret128,
    jmp,
    je,
    jne,
    jl,
    jge,
    jle,
    jg,
    /// overflow
    seto,
    /// not overflow
    setno,
    /// carry
    setc,
    /// not carry
    setnc,
    /// equal
    sete,
    /// not equal
    setne,
    /// below or equal
    setbe,
    /// above
    seta,
    /// signed
    sets,
    /// not signed
    setns,
    /// parity
    setp,
    /// not parity
    setnp,
    /// less
    setl,
    /// greater or equal
    setge,
    /// less than or equal
    setle,
    /// greater
    setg,
    cmp_rr8,
    cmp_rr16,
    cmp_rr32,
    cmp_rr64,
    test_rr8,
    add_rr8,
    add_rr16,
    add_rr32,
    add_rr64,
    add_ri8,
    add_ri16,
    add_ri32,
    add_ri64,
    sub_rr8,
    sub_rr16,
    sub_rr32,
    sub_rr64,
    sub_ri8,
    sub_ri16,
    sub_ri32,
    sub_ri64,
    /// ax = al * reg
    imul_r8,
    imul_rr16,
    imul_rr32,
    imul_rr64,
    imul_rri16,
    imul_rri32,
    imul_rri64,
    cbw,
    cwd,
    cdq,
    cqo,
    div_r8,
    div_r16,
    div_r32,
    div_r64,
    idiv_r8,
    idiv_r16,
    idiv_r32,
    idiv_r64,
    shl_ri8,
    shl_ri16,
    shl_ri32,
    shl_ri64,
    shr_ri8,
    shr_ri16,
    shr_ri32,
    shr_ri64,
    neg_r8,
    neg_r16,
    neg_r32,
    neg_r64,
    xor_rr8,
    xor_rr16,
    xor_rr32,
    xor_rr64,
    xor_ri8,
    xor_ri16,
    xor_ri32,
    xor_ri64,
    lea_rm32,
    lea_rm64,
    lea_function,
    lea_global,
    call_function,
    call_r64,
    movsx16_rr8,
    movsx32_rr8,
    movsx64_rr8,
    movsx32_rr16,
    movsx64_rr16,
    movsx64_rr32,
    movzx16_rr8,
    movzx32_rr8,
    movzx32_rr16,
}

impl X86 {
    /// The width that the instruction works on, for those that have one.
    pub open spec fn spec_size(self) -> Option<Size> {
        match self {
            X86::or_rr8
            | X86::and_rr8
            | X86::or_ri8
            | X86::and_ri8
            | X86::mov_ri8
            | X86::mov_rm8
            | X86::mov_mr8
            | X86::cmp_rr8
            | X86::test_rr8
            | X86::add_rr8
            | X86::add_ri8
            | X86::sub_rr8
            | X86::sub_ri8
            | X86::imul_r8
            | X86::shl_ri8
            | X86::shr_ri8
            | X86::neg_r8
            | X86::xor_ri8
            | X86::mov_rr8
            | X86::xor_rr8
            | X86::movsx16_rr8
            | X86::movsx32_rr8
            | X86::movsx64_rr8
            | X86::movzx16_rr8
            | X86::movzx32_rr8
            | X86::cbw
            | X86::div_r8
            | X86::idiv_r8 => Some(Size::S8),
            X86::or_rr16
            | X86::and_rr16
            | X86::or_ri16
            | X86::and_ri16
            | X86::mov_ri16
            | X86::mov_rm16
            | X86::mov_mr16
            | X86::cmp_rr16
            | X86::add_rr16
            | X86::add_ri16
            | X86::sub_rr16
            | X86::sub_ri16
            | X86::imul_rr16
            | X86::imul_rri16
            | X86::shl_ri16
            | X86::shr_ri16
            | X86::neg_r16
            | X86::xor_ri16
            | X86::mov_rr16
            | X86::xor_rr16
            | X86::movsx32_rr16
            | X86::movsx64_rr16
            | X86::movzx32_rr16
            | X86::cwd
            | X86::div_r16
            | X86::idiv_r16 => Some(Size::S16),
            X86::or_rr32
            | X86::and_rr32
            | X86::or_ri32
            | X86::and_ri32
            | X86::mov_ri32
            | X86::mov_rr32
            | X86::mov_rm32
            | X86::mov_mr32
            | X86::cmp_rr32
            | X86::add_rr32
            | X86::add_ri32
            | X86::sub_rr32
            | X86::sub_ri32
            | X86::imul_rr32
            | X86::imul_rri32
            | X86::shl_ri32
            | X86::shr_ri32
            | X86::neg_r32
            | X86::xor_ri32
            | X86::lea_rm32
            | X86::xor_rr32
            | X86::movsx64_rr32
            | X86::cdq
            | X86::div_r32
            | X86::idiv_r32 => Some(Size::S32),
            X86::or_rr64
            | X86::and_rr64
            | X86::or_ri64
            | X86::and_ri64
            | X86::push_r64
            | X86::pop_r64
            | X86::mov_ri64
            | X86::mov_rr64
            | X86::mov_rm64
            | X86::mov_mr64
            | X86::cmp_rr64
            | X86::add_rr64
            | X86::add_ri64
            | X86::sub_rr64
            | X86::sub_ri64
            | X86::imul_rr64
            | X86::imul_rri64
            | X86::shl_ri64
            | X86::shr_ri64
            | X86::neg_r64
            | X86::xor_ri64
            | X86::lea_rm64
            | X86::xor_rr64
            | X86::lea_function
            | X86::lea_global
            | X86::call_r64
            | X86::cqo
            | X86::div_r64
            | X86::idiv_r64 => Some(Size::S64),
            X86::ret0
            | X86::ret64
            | X86::ret128
            | X86::jmp
            | X86::je
            | X86::jne
            | X86::jl
            | X86::jge
            | X86::jle
            | X86::jg
            | X86::seto
            | X86::setno
            | X86::setc
            | X86::setnc
            | X86::sete
            | X86::setne
            | X86::setbe
            | X86::seta
            | X86::sets
            | X86::setns
            | X86::setp
            | X86::setnp
            | X86::setl
            | X86::setge
            | X86::setle
            | X86::setg
            | X86::call_function => None,
        }
    }

    pub fn size(self) -> (size: Size)
        requires
            self.spec_size() is Some,
        ensures
            size == self.spec_size()->Some_0,
    {
        match self {
            X86::or_rr8
            | X86::and_rr8
            | X86::or_ri8
            | X86::and_ri8
            | X86::mov_ri8
            | X86::mov_rm8
            | X86::mov_mr8
            | X86::cmp_rr8
            | X86::test_rr8
            | X86::add_rr8
            | X86::add_ri8
            | X86::sub_rr8
            | X86::sub_ri8
            | X86::imul_r8
            | X86::shl_ri8
            | X86::shr_ri8
            | X86::neg_r8
            | X86::xor_ri8
            | X86::mov_rr8
            | X86::xor_rr8
            | X86::movsx16_rr8
            | X86::movsx32_rr8
            | X86::movsx64_rr8
            | X86::movzx16_rr8
            | X86::movzx32_rr8
            | X86::cbw
            | X86::div_r8
            | X86::idiv_r8 => Size::S8,
            X86::or_rr16
            | X86::and_rr16
            | X86::or_ri16
            | X86::and_ri16
            | X86::mov_ri16
            | X86::mov_rm16
            | X86::mov_mr16
            | X86::cmp_rr16
            | X86::add_rr16
            | X86::add_ri16
            | X86::sub_rr16
            | X86::sub_ri16
            | X86::imul_rr16
            | X86::imul_rri16
            | X86::shl_ri16
            | X86::shr_ri16
            | X86::neg_r16
            | X86::xor_ri16
            | X86::mov_rr16
            | X86::xor_rr16
            | X86::movsx32_rr16
            | X86::movsx64_rr16
            | X86::movzx32_rr16
            | X86::cwd
            | X86::div_r16
            | X86::idiv_r16 => Size::S16,
            X86::or_rr32
            | X86::and_rr32
            | X86::or_ri32
            | X86::and_ri32
            | X86::mov_ri32
            | X86::mov_rr32
            | X86::mov_rm32
            | X86::mov_mr32
            | X86::cmp_rr32
            | X86::add_rr32
            | X86::add_ri32
            | X86::sub_rr32
            | X86::sub_ri32
            | X86::imul_rr32
            | X86::imul_rri32
            | X86::shl_ri32
            | X86::shr_ri32
            | X86::neg_r32
            | X86::xor_ri32
            | X86::lea_rm32
            | X86::xor_rr32
            | X86::movsx64_rr32
            | X86::cdq
            | X86::div_r32
            | X86::idiv_r32 => Size::S32,
            X86::or_rr64
            | X86::and_rr64
            | X86::or_ri64
            | X86::and_ri64
            | X86::push_r64
            | X86::pop_r64
            | X86::mov_ri64
            | X86::mov_rr64
            | X86::mov_rm64
            | X86::mov_mr64
            | X86::cmp_rr64
            | X86::add_rr64
            | X86::add_ri64
            | X86::sub_rr64
            | X86::sub_ri64
            | X86::imul_rr64
            | X86::imul_rri64
            | X86::shl_ri64
            | X86::shr_ri64
            | X86::neg_r64
            | X86::xor_ri64
            | X86::lea_rm64
            | X86::xor_rr64
            | X86::lea_function
            | X86::lea_global
            | X86::call_r64
            | X86::cqo
            | X86::div_r64
            | X86::idiv_r64 => Size::S64,
            // jumps, returns, flag reads and direct calls have no operand width
            _ => Size::S128,
        }
    }

    /// The instruction leaves the function.
    pub fn is_ret(&self) -> (is: bool)
        ensures
            is <==> *self is ret0 || *self is ret64 || *self is ret128,
    {
        matches!(self, X86::ret0 | X86::ret64 | X86::ret128)
    }
}

} // verus!
