//! Registers and instructions.
use vstd::prelude::*;

use crate::ir::mc::register::Register;

verus! {

#[allow(non_camel_case_types)]
#[derive(Clone, Copy, Debug, PartialEq, Eq, Hash, Structural)]
pub enum Reg {
    x0,
    x1,
    x2,
    x3,
    x4,
    x5,
    x6,
    x7,
    x8,
    x9,
    x10,
    x11,
    x12,
    x13,
    x14,
    x15,
    x16,
    x17,
    x18,
    x19,
    x20,
    x21,
    x22,
    x23,
    x24,
    x25,
    x26,
    x27,
    x28,
    x29,
    x30,
    sp,
    w0,
    w1,
    w2,
    w3,
    w4,
    w5,
    w6,
    w7,
    w8,
    w9,
    w10,
    w11,
    w12,
    w13,
    w14,
    w15,
    w16,
    w17,
    w18,
    w19,
    w20,
    w21,
    w22,
    w23,
    w24,
    w25,
    w26,
    w27,
    w28,
    w29,
    w30,
    wsp,
    s0,
    s1,
    s2,
    s3,
    s4,
    s5,
    s6,
    s7,
    s8,
    s9,
    s10,
    s11,
    s12,
    s13,
    s14,
    s15,
    s16,
    s17,
    s18,
    s19,
    s20,
    s21,
    s22,
    s23,
    s24,
    s25,
    s26,
    s27,
    s28,
    s29,
    s30,
    s31,
    d0,
    d1,
    d2,
    d3,
    d4,
    d5,
    d6,
    d7,
    d8,
    d9,
    d10,
    d11,
    d12,
    d13,
    d14,
    d15,
    d16,
    d17,
    d18,
    d19,
    d20,
    d21,
    d22,
    d23,
    d24,
    d25,
    d26,
    d27,
    d28,
    d29,
    d30,
    d31,
    xzr,
    wzr,
}

/// What a virtual register can be placed in.
#[derive(Clone, Copy, Debug, PartialEq, Eq, Hash, Structural)]
pub enum RegClass {
    GP64,
    GP32,
    FP32,
    FP64,
    ZR,
}

impl Reg {
    /// The class of the register's own width.
    pub open spec fn spec_class(self) -> RegClass {
        match self {
            Reg::x0
            | Reg::x1
            | Reg::x2
            | Reg::x3
            | Reg::x4
            | Reg::x5
            | Reg::x6
            | Reg::x7
            | Reg::x8
            | Reg::x9
            | Reg::x10
            | Reg::x11
            | Reg::x12
            | Reg::x13
            | Reg::x14
            | Reg::x15
            | Reg::x16
            | Reg::x17
            | Reg::x18
            | Reg::x19
            | Reg::x20
            | Reg::x21
            | Reg::x22
            | Reg::x23
            | Reg::x24
            | Reg::x25
            | Reg::x26
            | Reg::x27
            | Reg::x28
            | Reg::x29
            | Reg::x30
            | Reg::sp => RegClass::GP64,
            Reg::w0
            | Reg::w1
            | Reg::w2
            | Reg::w3
            | Reg::w4
            | Reg::w5
            | Reg::w6
            | Reg::w7
            | Reg::w8
            | Reg::w9
            | Reg::w10
            | Reg::w11
            | Reg::w12
            | Reg::w13
            | Reg::w14
            | Reg::w15
            | Reg::w16
            | Reg::w17
            | Reg::w18
            | Reg::w19
            | Reg::w20
            | Reg::w21
            | Reg::w22
            | Reg::w23
            | Reg::w24
            | Reg::w25
            | Reg::w26
            | Reg::w27
            | Reg::w28
            | Reg::w29
            | Reg::w30
            | Reg::wsp => RegClass::GP32,
            Reg::s0
            | Reg::s1
            | Reg::s2
            | Reg::s3
            | Reg::s4
            | Reg::s5
            | Reg::s6
            | Reg::s7
            | Reg::s8
            | Reg::s9
            | Reg::s10
            | Reg::s11
            | Reg::s12
            | Reg::s13
            | Reg::s14
            | Reg::s15
            | Reg::s16
            | Reg::s17
            | Reg::s18
            | Reg::s19
            | Reg::s20
            | Reg::s21
            | Reg::s22
            | Reg::s23
            | Reg::s24
            | Reg::s25
            | Reg::s26
            | Reg::s27
            | Reg::s28
            | Reg::s29
            | Reg::s30
            | Reg::s31 => RegClass::FP32,
            Reg::d0
            | Reg::d1
            | Reg::d2
            | Reg::d3
            | Reg::d4
            | Reg::d5
            | Reg::d6
            | Reg::d7
            | Reg::d8
            | Reg::d9
            | Reg::d10
            | Reg::d11
            | Reg::d12
            | Reg::d13
            | Reg::d14
            | Reg::d15
            | Reg::d16
            | Reg::d17
            | Reg::d18
            | Reg::d19
            | Reg::d20
            | Reg::d21
            | Reg::d22
            | Reg::d23
            | Reg::d24
            | Reg::d25
            | Reg::d26
            | Reg::d27
            | Reg::d28
            | Reg::d29
            | Reg::d30
            | Reg::d31 => RegClass::FP64,
            Reg::xzr
            | Reg::wzr => RegClass::ZR,
        }
    }

    pub fn class(self) -> (class: RegClass)
        ensures
            class == self.spec_class(),
    {
        match self {
            Reg::x0
            | Reg::x1
            | Reg::x2
            | Reg::x3
            | Reg::x4
            | Reg::x5
            | Reg::x6
            | Reg::x7
            | Reg::x8
            | Reg::x9
            | Reg::x10
            | Reg::x11
            | Reg::x12
            | Reg::x13
            | Reg::x14
            | Reg::x15
            | Reg::x16
            | Reg::x17
            | Reg::x18
            | Reg::x19
            | Reg::x20
            | Reg::x21
            | Reg::x22
            | Reg::x23
            | Reg::x24
            | Reg::x25
            | Reg::x26
            | Reg::x27
            | Reg::x28
            | Reg::x29
            | Reg::x30
            | Reg::sp => RegClass::GP64,
            Reg::w0
            | Reg::w1
            | Reg::w2
            | Reg::w3
            | Reg::w4
            | Reg::w5
            | Reg::w6
            | Reg::w7
            | Reg::w8
            | Reg::w9
            | Reg::w10
            | Reg::w11
            | Reg::w12
            | Reg::w13
            | Reg::w14
            | Reg::w15
            | Reg::w16
            | Reg::w17
            | Reg::w18
            | Reg::w19
            | Reg::w20
            | Reg::w21
            | Reg::w22
            | Reg::w23
            | Reg::w24
            | Reg::w25
            | Reg::w26
            | Reg::w27
            | Reg::w28
            | Reg::w29
            | Reg::w30
            | Reg::wsp => RegClass::GP32,
            Reg::s0
            | Reg::s1
            | Reg::s2
            | Reg::s3
            | Reg::s4
            | Reg::s5
            | Reg::s6
            | Reg::s7
            | Reg::s8
            | Reg::s9
            | Reg::s10
            | Reg::s11
            | Reg::s12
            | Reg::s13
            | Reg::s14
            | Reg::s15
            | Reg::s16
            | Reg::s17
            | Reg::s18
            | Reg::s19
            | Reg::s20
            | Reg::s21
            | Reg::s22
            | Reg::s23
            | Reg::s24
            | Reg::s25
            | Reg::s26
            | Reg::s27
            | Reg::s28
            | Reg::s29
            | Reg::s30
            | Reg::s31 => RegClass::FP32,
            Reg::d0
            | Reg::d1
            | Reg::d2
            | Reg::d3
            | Reg::d4
            | Reg::d5
            | Reg::d6
            | Reg::d7
            | Reg::d8
            | Reg::d9
            | Reg::d10
            | Reg::d11
            | Reg::d12
            | Reg::d13
            | Reg::d14
            | Reg::d15
            | Reg::d16
            | Reg::d17
            | Reg::d18
            | Reg::d19
            | Reg::d20
            | Reg::d21
            | Reg::d22
            | Reg::d23
            | Reg::d24
            | Reg::d25
            | Reg::d26
            | Reg::d27
            | Reg::d28
            | Reg::d29
            | Reg::d30
            | Reg::d31 => RegClass::FP64,
            Reg::xzr
            | Reg::wzr => RegClass::ZR,
        }
    }

    /// The number of the register in sets. Registers that overlap share it, as do the stack
    /// pointer and the zero register, which are written alike.
    pub open spec fn spec_index(self) -> u8 {
        match self {
            Reg::x0 | Reg::w0 => 0,
            Reg::x1 | Reg::w1 => 1,
            Reg::x2 | Reg::w2 => 2,
            Reg::x3 | Reg::w3 => 3,
            Reg::x4 | Reg::w4 => 4,
            Reg::x5 | Reg::w5 => 5,
            Reg::x6 | Reg::w6 => 6,
            Reg::x7 | Reg::w7 => 7,
            Reg::x8 | Reg::w8 => 8,
            Reg::x9 | Reg::w9 => 9,
            Reg::x10 | Reg::w10 => 10,
            Reg::x11 | Reg::w11 => 11,
            Reg::x12 | Reg::w12 => 12,
            Reg::x13 | Reg::w13 => 13,
            Reg::x14 | Reg::w14 => 14,
            Reg::x15 | Reg::w15 => 15,
            Reg::x16 | Reg::w16 => 16,
            Reg::x17 | Reg::w17 => 17,
            Reg::x18 | Reg::w18 => 18,
            Reg::x19 | Reg::w19 => 19,
            Reg::x20 | Reg::w20 => 20,
            Reg::x21 | Reg::w21 => 21,
            Reg::x22 | Reg::w22 => 22,
            Reg::x23 | Reg::w23 => 23,
            Reg::x24 | Reg::w24 => 24,
            Reg::x25 | Reg::w25 => 25,
            Reg::x26 | Reg::w26 => 26,
            Reg::x27 | Reg::w27 => 27,
            Reg::x28 | Reg::w28 => 28,
            Reg::x29 | Reg::w29 => 29,
            Reg::x30 | Reg::w30 => 30,
            Reg::sp | Reg::wsp | Reg::xzr | Reg::wzr => 31,
            Reg::s0 | Reg::d0 => 32,
            Reg::s1 | Reg::d1 => 33,
            Reg::s2 | Reg::d2 => 34,
            Reg::s3 | Reg::d3 => 35,
            Reg::s4 | Reg::d4 => 36,
            Reg::s5 | Reg::d5 => 37,
            Reg::s6 | Reg::d6 => 38,
            Reg::s7 | Reg::d7 => 39,
            Reg::s8 | Reg::d8 => 40,
            Reg::s9 | Reg::d9 => 41,
            Reg::s10 | Reg::d10 => 42,
            Reg::s11 | Reg::d11 => 43,
            Reg::s12 | Reg::d12 => 44,
            Reg::s13 | Reg::d13 => 45,
            Reg::s14 | Reg::d14 => 46,
            Reg::s15 | Reg::d15 => 47,
            Reg::s16 | Reg::d16 => 48,
            Reg::s17 | Reg::d17 => 49,
            Reg::s18 | Reg::d18 => 50,
            Reg::s19 | Reg::d19 => 51,
            Reg::s20 | Reg::d20 => 52,
            Reg::s21 | Reg::d21 => 53,
            Reg::s22 | Reg::d22 => 54,
            Reg::s23 | Reg::d23 => 55,
            Reg::s24 | Reg::d24 => 56,
            Reg::s25 | Reg::d25 => 57,
            Reg::s26 | Reg::d26 => 58,
            Reg::s27 | Reg::d27 => 59,
            Reg::s28 | Reg::d28 => 60,
            Reg::s29 | Reg::d29 => 61,
            Reg::s30 | Reg::d30 => 62,
            Reg::s31 | Reg::d31 => 63,
        }
    }

    pub fn index(self) -> (index: u8)
        ensures
            index == self.spec_index(),
    {
        match self {
            Reg::x0 | Reg::w0 => 0,
            Reg::x1 | Reg::w1 => 1,
            Reg::x2 | Reg::w2 => 2,
            Reg::x3 | Reg::w3 => 3,
            Reg::x4 | Reg::w4 => 4,
            Reg::x5 | Reg::w5 => 5,
            Reg::x6 | Reg::w6 => 6,
            Reg::x7 | Reg::w7 => 7,
            Reg::x8 | Reg::w8 => 8,
            Reg::x9 | Reg::w9 => 9,
            Reg::x10 | Reg::w10 => 10,
            Reg::x11 | Reg::w11 => 11,
            Reg::x12 | Reg::w12 => 12,
            Reg::x13 | Reg::w13 => 13,
            Reg::x14 | Reg::w14 => 14,
            Reg::x15 | Reg::w15 => 15,
            Reg::x16 | Reg::w16 => 16,
            Reg::x17 | Reg::w17 => 17,
            Reg::x18 | Reg::w18 => 18,
            Reg::x19 | Reg::w19 => 19,
            Reg::x20 | Reg::w20 => 20,
            Reg::x21 | Reg::w21 => 21,
            Reg::x22 | Reg::w22 => 22,
            Reg::x23 | Reg::w23 => 23,
            Reg::x24 | Reg::w24 => 24,
            Reg::x25 | Reg::w25 => 25,
            Reg::x26 | Reg::w26 => 26,
            Reg::x27 | Reg::w27 => 27,
            Reg::x28 | Reg::w28 => 28,
            Reg::x29 | Reg::w29 => 29,
            Reg::x30 | Reg::w30 => 30,
            Reg::sp | Reg::wsp | Reg::xzr | Reg::wzr => 31,
            Reg::s0 | Reg::d0 => 32,
            Reg::s1 | Reg::d1 => 33,
            Reg::s2 | Reg::d2 => 34,
            Reg::s3 | Reg::d3 => 35,
            Reg::s4 | Reg::d4 => 36,
            Reg::s5 | Reg::d5 => 37,
            Reg::s6 | Reg::d6 => 38,
            Reg::s7 | Reg::d7 => 39,
            Reg::s8 | Reg::d8 => 40,
            Reg::s9 | Reg::d9 => 41,
            Reg::s10 | Reg::d10 => 42,
            Reg::s11 | Reg::d11 => 43,
            Reg::s12 | Reg::d12 => 44,
            Reg::s13 | Reg::d13 => 45,
            Reg::s14 | Reg::d14 => 46,
            Reg::s15 | Reg::d15 => 47,
            Reg::s16 | Reg::d16 => 48,
            Reg::s17 | Reg::d17 => 49,
            Reg::s18 | Reg::d18 => 50,
            Reg::s19 | Reg::d19 => 51,
            Reg::s20 | Reg::d20 => 52,
            Reg::s21 | Reg::d21 => 53,
            Reg::s22 | Reg::d22 => 54,
            Reg::s23 | Reg::d23 => 55,
            Reg::s24 | Reg::d24 => 56,
            Reg::s25 | Reg::d25 => 57,
            Reg::s26 | Reg::d26 => 58,
            Reg::s27 | Reg::d27 => 59,
            Reg::s28 | Reg::d28 => 60,
            Reg::s29 | Reg::d29 => 61,
            Reg::s30 | Reg::d30 => 62,
            Reg::s31 | Reg::d31 => 63,
        }
    }

    /// The position of the register in the list of all registers.
    pub open spec fn spec_code(self) -> u32 {
        match self {
            Reg::x0 => 0,
            Reg::x1 => 1,
            Reg::x2 => 2,
            Reg::x3 => 3,
            Reg::x4 => 4,
            Reg::x5 => 5,
            Reg::x6 => 6,
            Reg::x7 => 7,
            Reg::x8 => 8,
            Reg::x9 => 9,
            Reg::x10 => 10,
            Reg::x11 => 11,
            Reg::x12 => 12,
            Reg::x13 => 13,
            Reg::x14 => 14,
            Reg::x15 => 15,
            Reg::x16 => 16,
            Reg::x17 => 17,
            Reg::x18 => 18,
            Reg::x19 => 19,
            Reg::x20 => 20,
            Reg::x21 => 21,
            Reg::x22 => 22,
            Reg::x23 => 23,
            Reg::x24 => 24,
            Reg::x25 => 25,
            Reg::x26 => 26,
            Reg::x27 => 27,
            Reg::x28 => 28,
            Reg::x29 => 29,
            Reg::x30 => 30,
            Reg::sp => 31,
            Reg::w0 => 32,
            Reg::w1 => 33,
            Reg::w2 => 34,
            Reg::w3 => 35,
            Reg::w4 => 36,
            Reg::w5 => 37,
            Reg::w6 => 38,
            Reg::w7 => 39,
            Reg::w8 => 40,
            Reg::w9 => 41,
            Reg::w10 => 42,
            Reg::w11 => 43,
            Reg::w12 => 44,
            Reg::w13 => 45,
            Reg::w14 => 46,
            Reg::w15 => 47,
            Reg::w16 => 48,
            Reg::w17 => 49,
            Reg::w18 => 50,
            Reg::w19 => 51,
            Reg::w20 => 52,
            Reg::w21 => 53,
            Reg::w22 => 54,
            Reg::w23 => 55,
            Reg::w24 => 56,
            Reg::w25 => 57,
            Reg::w26 => 58,
            Reg::w27 => 59,
            Reg::w28 => 60,
            Reg::w29 => 61,
            Reg::w30 => 62,
            Reg::wsp => 63,
            Reg::s0 => 64,
            Reg::s1 => 65,
            Reg::s2 => 66,
            Reg::s3 => 67,
            Reg::s4 => 68,
            Reg::s5 => 69,
            Reg::s6 => 70,
            Reg::s7 => 71,
            Reg::s8 => 72,
            Reg::s9 => 73,
            Reg::s10 => 74,
            Reg::s11 => 75,
            Reg::s12 => 76,
            Reg::s13 => 77,
            Reg::s14 => 78,
            Reg::s15 => 79,
            Reg::s16 => 80,
            Reg::s17 => 81,
            Reg::s18 => 82,
            Reg::s19 => 83,
            Reg::s20 => 84,
            Reg::s21 => 85,
            Reg::s22 => 86,
            Reg::s23 => 87,
            Reg::s24 => 88,
            Reg::s25 => 89,
            Reg::s26 => 90,
            Reg::s27 => 91,
            Reg::s28 => 92,
            Reg::s29 => 93,
            Reg::s30 => 94,
            Reg::s31 => 95,
            Reg::d0 => 96,
            Reg::d1 => 97,
            Reg::d2 => 98,
            Reg::d3 => 99,
            Reg::d4 => 100,
            Reg::d5 => 101,
            Reg::d6 => 102,
            Reg::d7 => 103,
            Reg::d8 => 104,
            Reg::d9 => 105,
            Reg::d10 => 106,
            Reg::d11 => 107,
            Reg::d12 => 108,
            Reg::d13 => 109,
            Reg::d14 => 110,
            Reg::d15 => 111,
            Reg::d16 => 112,
            Reg::d17 => 113,
            Reg::d18 => 114,
            Reg::d19 => 115,
            Reg::d20 => 116,
            Reg::d21 => 117,
            Reg::d22 => 118,
            Reg::d23 => 119,
            Reg::d24 => 120,
            Reg::d25 => 121,
            Reg::d26 => 122,
            Reg::d27 => 123,
            Reg::d28 => 124,
            Reg::d29 => 125,
            Reg::d30 => 126,
            Reg::d31 => 127,
            Reg::xzr => 128,
            Reg::wzr => 129,
        }
    }

    fn code(self) -> (code: u32)
        ensures
            code == self.spec_code(),
    {
        match self {
            Reg::x0 => 0,
            Reg::x1 => 1,
            Reg::x2 => 2,
            Reg::x3 => 3,
            Reg::x4 => 4,
            Reg::x5 => 5,
            Reg::x6 => 6,
            Reg::x7 => 7,
            Reg::x8 => 8,
            Reg::x9 => 9,
            Reg::x10 => 10,
            Reg::x11 => 11,
            Reg::x12 => 12,
            Reg::x13 => 13,
            Reg::x14 => 14,
            Reg::x15 => 15,
            Reg::x16 => 16,
            Reg::x17 => 17,
            Reg::x18 => 18,
            Reg::x19 => 19,
            Reg::x20 => 20,
            Reg::x21 => 21,
            Reg::x22 => 22,
            Reg::x23 => 23,
            Reg::x24 => 24,
            Reg::x25 => 25,
            Reg::x26 => 26,
            Reg::x27 => 27,
            Reg::x28 => 28,
            Reg::x29 => 29,
            Reg::x30 => 30,
            Reg::sp => 31,
            Reg::w0 => 32,
            Reg::w1 => 33,
            Reg::w2 => 34,
            Reg::w3 => 35,
            Reg::w4 => 36,
            Reg::w5 => 37,
            Reg::w6 => 38,
            Reg::w7 => 39,
            Reg::w8 => 40,
            Reg::w9 => 41,
            Reg::w10 => 42,
            Reg::w11 => 43,
            Reg::w12 => 44,
            Reg::w13 => 45,
            Reg::w14 => 46,
            Reg::w15 => 47,
            Reg::w16 => 48,
            Reg::w17 => 49,
            Reg::w18 => 50,
            Reg::w19 => 51,
            Reg::w20 => 52,
            Reg::w21 => 53,
            Reg::w22 => 54,
            Reg::w23 => 55,
            Reg::w24 => 56,
            Reg::w25 => 57,
            Reg::w26 => 58,
            Reg::w27 => 59,
            Reg::w28 => 60,
            Reg::w29 => 61,
            Reg::w30 => 62,
            Reg::wsp => 63,
            Reg::s0 => 64,
            Reg::s1 => 65,
            Reg::s2 => 66,
            Reg::s3 => 67,
            Reg::s4 => 68,
            Reg::s5 => 69,
            Reg::s6 => 70,
            Reg::s7 => 71,
            Reg::s8 => 72,
            Reg::s9 => 73,
            Reg::s10 => 74,
            Reg::s11 => 75,
            Reg::s12 => 76,
            Reg::s13 => 77,
            Reg::s14 => 78,
            Reg::s15 => 79,
            Reg::s16 => 80,
            Reg::s17 => 81,
            Reg::s18 => 82,
            Reg::s19 => 83,
            Reg::s20 => 84,
            Reg::s21 => 85,
            Reg::s22 => 86,
            Reg::s23 => 87,
            Reg::s24 => 88,
            Reg::s25 => 89,
            Reg::s26 => 90,
            Reg::s27 => 91,
            Reg::s28 => 92,
            Reg::s29 => 93,
            Reg::s30 => 94,
            Reg::s31 => 95,
            Reg::d0 => 96,
            Reg::d1 => 97,
            Reg::d2 => 98,
            Reg::d3 => 99,
            Reg::d4 => 100,
            Reg::d5 => 101,
            Reg::d6 => 102,
            Reg::d7 => 103,
            Reg::d8 => 104,
            Reg::d9 => 105,
            Reg::d10 => 106,
            Reg::d11 => 107,
            Reg::d12 => 108,
            Reg::d13 => 109,
            Reg::d14 => 110,
            Reg::d15 => 111,
            Reg::d16 => 112,
            Reg::d17 => 113,
            Reg::d18 => 114,
            Reg::d19 => 115,
            Reg::d20 => 116,
            Reg::d21 => 117,
            Reg::d22 => 118,
            Reg::d23 => 119,
            Reg::d24 => 120,
            Reg::d25 => 121,
            Reg::d26 => 122,
            Reg::d27 => 123,
            Reg::d28 => 124,
            Reg::d29 => 125,
            Reg::d30 => 126,
            Reg::d31 => 127,
            Reg::xzr => 128,
            Reg::wzr => 129,
        }
    }

    /// Inverse of the position in the list of all registers.
    pub open spec fn of_code(value: u32) -> Option<Reg> {
        match value {
            0 => Some(Reg::x0),
            1 => Some(Reg::x1),
            2 => Some(Reg::x2),
            3 => Some(Reg::x3),
            4 => Some(Reg::x4),
            5 => Some(Reg::x5),
            6 => Some(Reg::x6),
            7 => Some(Reg::x7),
            8 => Some(Reg::x8),
            9 => Some(Reg::x9),
            10 => Some(Reg::x10),
            11 => Some(Reg::x11),
            12 => Some(Reg::x12),
            13 => Some(Reg::x13),
            14 => Some(Reg::x14),
            15 => Some(Reg::x15),
            16 => Some(Reg::x16),
            17 => Some(Reg::x17),
            18 => Some(Reg::x18),
            19 => Some(Reg::x19),
            20 => Some(Reg::x20),
            21 => Some(Reg::x21),
            22 => Some(Reg::x22),
            23 => Some(Reg::x23),
            24 => Some(Reg::x24),
            25 => Some(Reg::x25),
            26 => Some(Reg::x26),
            27 => Some(Reg::x27),
            28 => Some(Reg::x28),
            29 => Some(Reg::x29),
            30 => Some(Reg::x30),
            31 => Some(Reg::sp),
            32 => Some(Reg::w0),
            33 => Some(Reg::w1),
            34 => Some(Reg::w2),
            35 => Some(Reg::w3),
            36 => Some(Reg::w4),
            37 => Some(Reg::w5),
            38 => Some(Reg::w6),
            39 => Some(Reg::w7),
            40 => Some(Reg::w8),
            41 => Some(Reg::w9),
            42 => Some(Reg::w10),
            43 => Some(Reg::w11),
            44 => Some(Reg::w12),
            45 => Some(Reg::w13),
            46 => Some(Reg::w14),
            47 => Some(Reg::w15),
            48 => Some(Reg::w16),
            49 => Some(Reg::w17),
            50 => Some(Reg::w18),
            51 => Some(Reg::w19),
            52 => Some(Reg::w20),
            53 => Some(Reg::w21),
            54 => Some(Reg::w22),
            55 => Some(Reg::w23),
            56 => Some(Reg::w24),
            57 => Some(Reg::w25),
            58 => Some(Reg::w26),
            59 => Some(Reg::w27),
            60 => Some(Reg::w28),
            61 => Some(Reg::w29),
            62 => Some(Reg::w30),
            63 => Some(Reg::wsp),
            64 => Some(Reg::s0),
            65 => Some(Reg::s1),
            66 => Some(Reg::s2),
            67 => Some(Reg::s3),
            68 => Some(Reg::s4),
            69 => Some(Reg::s5),
            70 => Some(Reg::s6),
            71 => Some(Reg::s7),
            72 => Some(Reg::s8),
            73 => Some(Reg::s9),
            74 => Some(Reg::s10),
            75 => Some(Reg::s11),
            76 => Some(Reg::s12),
            77 => Some(Reg::s13),
            78 => Some(Reg::s14),
            79 => Some(Reg::s15),
            80 => Some(Reg::s16),
            81 => Some(Reg::s17),
            82 => Some(Reg::s18),
            83 => Some(Reg::s19),
            84 => Some(Reg::s20),
            85 => Some(Reg::s21),
            86 => Some(Reg::s22),
            87 => Some(Reg::s23),
            88 => Some(Reg::s24),
            89 => Some(Reg::s25),
            90 => Some(Reg::s26),
            91 => Some(Reg::s27),
            92 => Some(Reg::s28),
            93 => Some(Reg::s29),
            94 => Some(Reg::s30),
            95 => Some(Reg::s31),
            96 => Some(Reg::d0),
            97 => Some(Reg::d1),
            98 => Some(Reg::d2),
            99 => Some(Reg::d3),
            100 => Some(Reg::d4),
            101 => Some(Reg::d5),
            102 => Some(Reg::d6),
            103 => Some(Reg::d7),
            104 => Some(Reg::d8),
            105 => Some(Reg::d9),
            106 => Some(Reg::d10),
            107 => Some(Reg::d11),
            108 => Some(Reg::d12),
            109 => Some(Reg::d13),
            110 => Some(Reg::d14),
            111 => Some(Reg::d15),
            112 => Some(Reg::d16),
            113 => Some(Reg::d17),
            114 => Some(Reg::d18),
            115 => Some(Reg::d19),
            116 => Some(Reg::d20),
            117 => Some(Reg::d21),
            118 => Some(Reg::d22),
            119 => Some(Reg::d23),
            120 => Some(Reg::d24),
            121 => Some(Reg::d25),
            122 => Some(Reg::d26),
            123 => Some(Reg::d27),
            124 => Some(Reg::d28),
            125 => Some(Reg::d29),
            126 => Some(Reg::d30),
            127 => Some(Reg::d31),
            128 => Some(Reg::xzr),
            129 => Some(Reg::wzr),
            _ => None,
        }
    }

    /// The number of registers.
    pub const COUNT: u32 = 130;

    /// The register with the given position in the list of all registers.
    fn from_code(value: u32) -> (r: Reg)
        requires
            value < Self::COUNT,
        ensures
            Self::of_code(value) == Some(r),
    {
        match value {
            0 => Reg::x0,
            1 => Reg::x1,
            2 => Reg::x2,
            3 => Reg::x3,
            4 => Reg::x4,
            5 => Reg::x5,
            6 => Reg::x6,
            7 => Reg::x7,
            8 => Reg::x8,
            9 => Reg::x9,
            10 => Reg::x10,
            11 => Reg::x11,
            12 => Reg::x12,
            13 => Reg::x13,
            14 => Reg::x14,
            15 => Reg::x15,
            16 => Reg::x16,
            17 => Reg::x17,
            18 => Reg::x18,
            19 => Reg::x19,
            20 => Reg::x20,
            21 => Reg::x21,
            22 => Reg::x22,
            23 => Reg::x23,
            24 => Reg::x24,
            25 => Reg::x25,
            26 => Reg::x26,
            27 => Reg::x27,
            28 => Reg::x28,
            29 => Reg::x29,
            30 => Reg::x30,
            31 => Reg::sp,
            32 => Reg::w0,
            33 => Reg::w1,
            34 => Reg::w2,
            35 => Reg::w3,
            36 => Reg::w4,
            37 => Reg::w5,
            38 => Reg::w6,
            39 => Reg::w7,
            40 => Reg::w8,
            41 => Reg::w9,
            42 => Reg::w10,
            43 => Reg::w11,
            44 => Reg::w12,
            45 => Reg::w13,
            46 => Reg::w14,
            47 => Reg::w15,
            48 => Reg::w16,
            49 => Reg::w17,
            50 => Reg::w18,
            51 => Reg::w19,
            52 => Reg::w20,
            53 => Reg::w21,
            54 => Reg::w22,
            55 => Reg::w23,
            56 => Reg::w24,
            57 => Reg::w25,
            58 => Reg::w26,
            59 => Reg::w27,
            60 => Reg::w28,
            61 => Reg::w29,
            62 => Reg::w30,
            63 => Reg::wsp,
            64 => Reg::s0,
            65 => Reg::s1,
            66 => Reg::s2,
            67 => Reg::s3,
            68 => Reg::s4,
            69 => Reg::s5,
            70 => Reg::s6,
            71 => Reg::s7,
            72 => Reg::s8,
            73 => Reg::s9,
            74 => Reg::s10,
            75 => Reg::s11,
            76 => Reg::s12,
            77 => Reg::s13,
            78 => Reg::s14,
            79 => Reg::s15,
            80 => Reg::s16,
            81 => Reg::s17,
            82 => Reg::s18,
            83 => Reg::s19,
            84 => Reg::s20,
            85 => Reg::s21,
            86 => Reg::s22,
            87 => Reg::s23,
            88 => Reg::s24,
            89 => Reg::s25,
            90 => Reg::s26,
            91 => Reg::s27,
            92 => Reg::s28,
            93 => Reg::s29,
            94 => Reg::s30,
            95 => Reg::s31,
            96 => Reg::d0,
            97 => Reg::d1,
            98 => Reg::d2,
            99 => Reg::d3,
            100 => Reg::d4,
            101 => Reg::d5,
            102 => Reg::d6,
            103 => Reg::d7,
            104 => Reg::d8,
            105 => Reg::d9,
            106 => Reg::d10,
            107 => Reg::d11,
            108 => Reg::d12,
            109 => Reg::d13,
            110 => Reg::d14,
            111 => Reg::d15,
            112 => Reg::d16,
            113 => Reg::d17,
            114 => Reg::d18,
            115 => Reg::d19,
            116 => Reg::d20,
            117 => Reg::d21,
            118 => Reg::d22,
            119 => Reg::d23,
            120 => Reg::d24,
            121 => Reg::d25,
            122 => Reg::d26,
            123 => Reg::d27,
            124 => Reg::d28,
            125 => Reg::d29,
            126 => Reg::d30,
            127 => Reg::d31,
            128 => Reg::xzr,
            _ => Reg::wzr,
        }
    }

    /// The name of the register.
    pub open spec fn spec_to_str(self) -> Seq<char> {
        match self {
            Reg::x0 => "x0"@,
            Reg::x1 => "x1"@,
            Reg::x2 => "x2"@,
            Reg::x3 => "x3"@,
            Reg::x4 => "x4"@,
            Reg::x5 => "x5"@,
            Reg::x6 => "x6"@,
            Reg::x7 => "x7"@,
            Reg::x8 => "x8"@,
            Reg::x9 => "x9"@,
            Reg::x10 => "x10"@,
            Reg::x11 => "x11"@,
            Reg::x12 => "x12"@,
            Reg::x13 => "x13"@,
            Reg::x14 => "x14"@,
            Reg::x15 => "x15"@,
            Reg::x16 => "x16"@,
            Reg::x17 => "x17"@,
            Reg::x18 => "x18"@,
            Reg::x19 => "x19"@,
            Reg::x20 => "x20"@,
            Reg::x21 => "x21"@,
            Reg::x22 => "x22"@,
            Reg::x23 => "x23"@,
            Reg::x24 => "x24"@,
            Reg::x25 => "x25"@,
            Reg::x26 => "x26"@,
            Reg::x27 => "x27"@,
            Reg::x28 => "x28"@,
            Reg::x29 => "x29"@,
            Reg::x30 => "x30"@,
            Reg::sp => "sp"@,
            Reg::w0 => "w0"@,
            Reg::w1 => "w1"@,
            Reg::w2 => "w2"@,
            Reg::w3 => "w3"@,
            Reg::w4 => "w4"@,
            Reg::w5 => "w5"@,
            Reg::w6 => "w6"@,
            Reg::w7 => "w7"@,
            Reg::w8 => "w8"@,
            Reg::w9 => "w9"@,
            Reg::w10 => "w10"@,
            Reg::w11 => "w11"@,
            Reg::w12 => "w12"@,
            Reg::w13 => "w13"@,
            Reg::w14 => "w14"@,
            Reg::w15 => "w15"@,
            Reg::w16 => "w16"@,
            Reg::w17 => "w17"@,
            Reg::w18 => "w18"@,
            Reg::w19 => "w19"@,
            Reg::w20 => "w20"@,
            Reg::w21 => "w21"@,
            Reg::w22 => "w22"@,
            Reg::w23 => "w23"@,
            Reg::w24 => "w24"@,
            Reg::w25 => "w25"@,
            Reg::w26 => "w26"@,
            Reg::w27 => "w27"@,
            Reg::w28 => "w28"@,
            Reg::w29 => "w29"@,
            Reg::w30 => "w30"@,
            Reg::wsp => "wsp"@,
            Reg::s0 => "s0"@,
            Reg::s1 => "s1"@,
            Reg::s2 => "s2"@,
            Reg::s3 => "s3"@,
            Reg::s4 => "s4"@,
            Reg::s5 => "s5"@,
            Reg::s6 => "s6"@,
            Reg::s7 => "s7"@,
            Reg::s8 => "s8"@,
            Reg::s9 => "s9"@,
            Reg::s10 => "s10"@,
            Reg::s11 => "s11"@,
            Reg::s12 => "s12"@,
            Reg::s13 => "s13"@,
            Reg::s14 => "s14"@,
            Reg::s15 => "s15"@,
            Reg::s16 => "s16"@,
            Reg::s17 => "s17"@,
            Reg::s18 => "s18"@,
            Reg::s19 => "s19"@,
            Reg::s20 => "s20"@,
            Reg::s21 => "s21"@,
            Reg::s22 => "s22"@,
            Reg::s23 => "s23"@,
            Reg::s24 => "s24"@,
            Reg::s25 => "s25"@,
            Reg::s26 => "s26"@,
            Reg::s27 => "s27"@,
            Reg::s28 => "s28"@,
            Reg::s29 => "s29"@,
            Reg::s30 => "s30"@,
            Reg::s31 => "s31"@,
            Reg::d0 => "d0"@,
            Reg::d1 => "d1"@,
            Reg::d2 => "d2"@,
            Reg::d3 => "d3"@,
            Reg::d4 => "d4"@,
            Reg::d5 => "d5"@,
            Reg::d6 => "d6"@,
            Reg::d7 => "d7"@,
            Reg::d8 => "d8"@,
            Reg::d9 => "d9"@,
            Reg::d10 => "d10"@,
            Reg::d11 => "d11"@,
            Reg::d12 => "d12"@,
            Reg::d13 => "d13"@,
            Reg::d14 => "d14"@,
            Reg::d15 => "d15"@,
            Reg::d16 => "d16"@,
            Reg::d17 => "d17"@,
            Reg::d18 => "d18"@,
            Reg::d19 => "d19"@,
            Reg::d20 => "d20"@,
            Reg::d21 => "d21"@,
            Reg::d22 => "d22"@,
            Reg::d23 => "d23"@,
            Reg::d24 => "d24"@,
            Reg::d25 => "d25"@,
            Reg::d26 => "d26"@,
            Reg::d27 => "d27"@,
            Reg::d28 => "d28"@,
            Reg::d29 => "d29"@,
            Reg::d30 => "d30"@,
            Reg::d31 => "d31"@,
            Reg::xzr => "xzr"@,
            Reg::wzr => "wzr"@,
        }
    }

    /// The set of this register alone.
    pub fn bit(self) -> (bits: RegBits)
        ensures
            bits.0 == 1u64 << self.spec_index(),
            forall|i: u8| #[trigger] bits.has_index(i) <==> i == self.spec_index(),
    {
        let i: u8 = self.index();
        proof {
            assert forall|j: u8| j < 64 implies (((1u64 << i) & (1u64 << j)) != 0) == (j == i) by {
                lemma_single_bit(i, j);
            }
        }
        RegBits(1u64 << i)
    }
}

pub proof fn lemma_known_codes(value: u32)
    ensures
        Reg::of_code(value) is Some <==> value < Reg::COUNT,
{
}

/// Decoding the position of a register gives the register.
#[verifier::rlimit(40)]
pub proof fn register_code_round_trip(r: Reg, value: u32)
    ensures
        Reg::of_code(r.spec_code()) == Some(r),
        r.spec_code() < Reg::COUNT,
        Reg::of_code(value) matches Some(s) ==> s.spec_code() == value,
{
}

/// Registers for numbers and for floating point numbers never overlap.
pub proof fn kinds_of_registers_are_apart(r: Reg)
    ensures
        r.spec_index() < 64,
        (r.spec_class() is FP32 || r.spec_class() is FP64) <==> r.spec_index() >= 32,
{
}

impl RegClass {
    /// The number that stands for the class.
    pub open spec fn spec_code(self) -> u8 {
        match self {
            RegClass::GP64 => 0,
            RegClass::GP32 => 1,
            RegClass::FP32 => 2,
            RegClass::FP64 => 3,
            RegClass::ZR => 4,
        }
    }

    pub fn code(self) -> (code: u8)
        ensures
            code == self.spec_code(),
    {
        match self {
            RegClass::GP64 => 0,
            RegClass::GP32 => 1,
            RegClass::FP32 => 2,
            RegClass::FP64 => 3,
            RegClass::ZR => 4,
        }
    }

    /// The class with the given number.
    pub fn from_code(value: u8) -> (class: Option<RegClass>)
        ensures
            match class {
                Some(c) => c.spec_code() == value,
                None => forall|c: RegClass| #[trigger] c.spec_code() != value,
            },
    {
        match value {
            0 => Some(RegClass::GP64),
            1 => Some(RegClass::GP32),
            2 => Some(RegClass::FP32),
            3 => Some(RegClass::FP64),
            4 => Some(RegClass::ZR),
            _ => None,
        }
    }
}

/// The scratch register for copies.
#[verifier::allow_in_spec]
pub fn tmp_register() -> Reg
    returns
        Reg::x16,
{
    Reg::x16
}

proof fn lemma_single_bit(i: u8, j: u8)
    by (bit_vector)
    requires
        i < 64,
        j < 64,
    ensures
        (((1u64 << i) & (1u64 << j)) != 0) == (j == i),
{
}

proof fn lemma_or_bit(a: u64, b: u64, j: u8)
    by (bit_vector)
    requires
        j < 64,
    ensures
        (((a | b) & (1u64 << j)) != 0) == ((a & (1u64 << j)) != 0 || (b & (1u64 << j)) != 0),
        (((a & b) & (1u64 << j)) != 0) == ((a & (1u64 << j)) != 0 && (b & (1u64 << j)) != 0),
        (((a & !b) & (1u64 << j)) != 0) == ((a & (1u64 << j)) != 0 && !((b & (1u64 << j)) != 0)),
        ((!a & (1u64 << j)) != 0) == !((a & (1u64 << j)) != 0),
        (0u64 & (1u64 << j)) == 0,
{
}

/// A set of register indices.
#[derive(Clone, Copy, Debug, PartialEq, Eq, Structural)]
pub struct RegBits(pub u64);

impl Default for RegBits {
    fn default() -> (bits: Self)
        ensures
            bits.0 == 0,
    {
        RegBits(0)
    }
}

impl RegBits {
    pub open spec fn has_index(self, i: u8) -> bool {
        i < 64 && self.0 & (1u64 << i) != 0
    }

    pub fn new() -> (bits: Self)
        ensures
            bits.0 == 0,
            forall|i: u8| !#[trigger] bits.has_index(i),
    {
        proof {
            assert forall|j: u8| j < 64 implies 0u64 & #[trigger] (1u64 << j) == 0 by {
                lemma_or_bit(0, 0, j);
            }
        }
        RegBits(0)
    }

    /// All registers.
    pub fn all() -> (bits: Self)
        ensures
            bits.0 == u64::MAX,
            forall|i: u8| #[trigger] bits.has_index(i) <==> i < 64,
    {
        proof {
            assert(!0u64 == u64::MAX) by (bit_vector);
            assert forall|j: u8| j < 64 implies (!0u64 & #[trigger] (1u64 << j) != 0) by {
                lemma_or_bit(0, 0, j);
            }
        }
        RegBits(u64::MAX)
    }

    pub fn get(&self, r: Reg) -> (set: bool)
        ensures
            set == self.has_index(r.spec_index()),
    {
        self.0 & r.bit().0 != 0
    }

    pub fn set(&mut self, r: Reg, set: bool)
        ensures
            forall|i: u8| #[trigger]
                final(self).has_index(i) <==> if i == r.spec_index() {
                    set
                } else {
                    old(self).has_index(i)
                },
    {
        let bit: u64 = r.bit().0;
        let ghost before = self.0;
        proof {
            assert forall|j: u8| j < 64 implies {
                &&& ((before | bit) & #[trigger] (1u64 << j) != 0) == (before & (1u64 << j) != 0 || j
                    == r.spec_index())
                &&& ((before & !bit) & (1u64 << j) != 0) == (before & (1u64 << j) != 0 && j
                    != r.spec_index())
            } by {
                lemma_or_bit(before, bit, j);
                lemma_single_bit(r.spec_index(), j);
            }
        }
        if set {
            self.0 = self.0 | bit;
        } else {
            self.0 = self.0 & !bit;
        }
    }

    pub fn bitor(self, rhs: Self) -> (bits: Self)
        ensures
            bits.0 == self.0 | rhs.0,
            forall|i: u8| #[trigger]
                bits.has_index(i) <==> self.has_index(i) || rhs.has_index(i),
    {
        proof {
            assert forall|j: u8| j < 64 implies ((self.0 | rhs.0) & #[trigger] (1u64 << j) != 0) == (
            self.0 & (1u64 << j) != 0 || rhs.0 & (1u64 << j) != 0) by {
                lemma_or_bit(self.0, rhs.0, j);
            }
        }
        RegBits(self.0 | rhs.0)
    }

    pub fn bitand(self, rhs: Self) -> (bits: Self)
        ensures
            bits.0 == self.0 & rhs.0,
            forall|i: u8| #[trigger]
                bits.has_index(i) <==> self.has_index(i) && rhs.has_index(i),
    {
        proof {
            assert forall|j: u8| j < 64 implies ((self.0 & rhs.0) & #[trigger] (1u64 << j) != 0) == (
            self.0 & (1u64 << j) != 0 && rhs.0 & (1u64 << j) != 0) by {
                lemma_or_bit(self.0, rhs.0, j);
            }
        }
        RegBits(self.0 & rhs.0)
    }

    pub fn not(self) -> (bits: Self)
        ensures
            bits.0 == !self.0,
            forall|i: u8| #[trigger] bits.has_index(i) <==> i < 64 && !self.has_index(i),
    {
        proof {
            assert forall|j: u8| j < 64 implies (!self.0 & #[trigger] (1u64 << j) != 0) == !(self.0 & (
            1u64 << j) != 0) by {
                lemma_or_bit(self.0, 0, j);
            }
        }
        RegBits(!self.0)
    }
}

impl Register for Reg {
    type RegisterBits = RegBits;

    type Class = RegClass;

    open spec fn spec_index(self) -> u8 {
        self.spec_index()
    }

    open spec fn spec_code(self) -> u32 {
        self.spec_code()
    }

    open spec fn spec_of_code(code: u32) -> Option<Reg> {
        Reg::of_code(code)
    }

    open spec fn spec_has(bits: RegBits, index: u8) -> bool {
        bits.has_index(index)
    }

    open spec fn spec_tracked() -> bool {
        true
    }

    open spec fn spec_in_class(self, class: RegClass) -> bool {
        self.spec_class() == class
    }

    open spec fn spec_name(self) -> Seq<char> {
        self.spec_to_str()
    }

    fn no_bits() -> RegBits {
        RegBits::new()
    }

    fn to_str(self) -> &'static str {
        match self {
            Reg::x0 => "x0",
            Reg::x1 => "x1",
            Reg::x2 => "x2",
            Reg::x3 => "x3",
            Reg::x4 => "x4",
            Reg::x5 => "x5",
            Reg::x6 => "x6",
            Reg::x7 => "x7",
            Reg::x8 => "x8",
            Reg::x9 => "x9",
            Reg::x10 => "x10",
            Reg::x11 => "x11",
            Reg::x12 => "x12",
            Reg::x13 => "x13",
            Reg::x14 => "x14",
            Reg::x15 => "x15",
            Reg::x16 => "x16",
            Reg::x17 => "x17",
            Reg::x18 => "x18",
            Reg::x19 => "x19",
            Reg::x20 => "x20",
            Reg::x21 => "x21",
            Reg::x22 => "x22",
            Reg::x23 => "x23",
            Reg::x24 => "x24",
            Reg::x25 => "x25",
            Reg::x26 => "x26",
            Reg::x27 => "x27",
            Reg::x28 => "x28",
            Reg::x29 => "x29",
            Reg::x30 => "x30",
            Reg::sp => "sp",
            Reg::w0 => "w0",
            Reg::w1 => "w1",
            Reg::w2 => "w2",
            Reg::w3 => "w3",
            Reg::w4 => "w4",
            Reg::w5 => "w5",
            Reg::w6 => "w6",
            Reg::w7 => "w7",
            Reg::w8 => "w8",
            Reg::w9 => "w9",
            Reg::w10 => "w10",
            Reg::w11 => "w11",
            Reg::w12 => "w12",
            Reg::w13 => "w13",
            Reg::w14 => "w14",
            Reg::w15 => "w15",
            Reg::w16 => "w16",
            Reg::w17 => "w17",
            Reg::w18 => "w18",
            Reg::w19 => "w19",
            Reg::w20 => "w20",
            Reg::w21 => "w21",
            Reg::w22 => "w22",
            Reg::w23 => "w23",
            Reg::w24 => "w24",
            Reg::w25 => "w25",
            Reg::w26 => "w26",
            Reg::w27 => "w27",
            Reg::w28 => "w28",
            Reg::w29 => "w29",
            Reg::w30 => "w30",
            Reg::wsp => "wsp",
            Reg::s0 => "s0",
            Reg::s1 => "s1",
            Reg::s2 => "s2",
            Reg::s3 => "s3",
            Reg::s4 => "s4",
            Reg::s5 => "s5",
            Reg::s6 => "s6",
            Reg::s7 => "s7",
            Reg::s8 => "s8",
            Reg::s9 => "s9",
            Reg::s10 => "s10",
            Reg::s11 => "s11",
            Reg::s12 => "s12",
            Reg::s13 => "s13",
            Reg::s14 => "s14",
            Reg::s15 => "s15",
            Reg::s16 => "s16",
            Reg::s17 => "s17",
            Reg::s18 => "s18",
            Reg::s19 => "s19",
            Reg::s20 => "s20",
            Reg::s21 => "s21",
            Reg::s22 => "s22",
            Reg::s23 => "s23",
            Reg::s24 => "s24",
            Reg::s25 => "s25",
            Reg::s26 => "s26",
            Reg::s27 => "s27",
            Reg::s28 => "s28",
            Reg::s29 => "s29",
            Reg::s30 => "s30",
            Reg::s31 => "s31",
            Reg::d0 => "d0",
            Reg::d1 => "d1",
            Reg::d2 => "d2",
            Reg::d3 => "d3",
            Reg::d4 => "d4",
            Reg::d5 => "d5",
            Reg::d6 => "d6",
            Reg::d7 => "d7",
            Reg::d8 => "d8",
            Reg::d9 => "d9",
            Reg::d10 => "d10",
            Reg::d11 => "d11",
            Reg::d12 => "d12",
            Reg::d13 => "d13",
            Reg::d14 => "d14",
            Reg::d15 => "d15",
            Reg::d16 => "d16",
            Reg::d17 => "d17",
            Reg::d18 => "d18",
            Reg::d19 => "d19",
            Reg::d20 => "d20",
            Reg::d21 => "d21",
            Reg::d22 => "d22",
            Reg::d23 => "d23",
            Reg::d24 => "d24",
            Reg::d25 => "d25",
            Reg::d26 => "d26",
            Reg::d27 => "d27",
            Reg::d28 => "d28",
            Reg::d29 => "d29",
            Reg::d30 => "d30",
            Reg::d31 => "d31",
            Reg::xzr => "xzr",
            Reg::wzr => "wzr",
        }
    }

    fn encode(self) -> u32 {
        self.code()
    }

    fn decode(value: u32) -> Reg {
        proof {
            lemma_known_codes(value);
        }
        Reg::from_code(value)
    }

    proof fn codes_are_unique(self) {
        register_code_round_trip(self, 0);
    }

    fn bit_index(self) -> u8 {
        self.index()
    }

    fn get_bit(self, bits: &RegBits) -> bool {
        bits.get(self)
    }

    fn set_bit(self, bits: &mut RegBits, bit: bool) {
        bits.set(self, bit);
    }

    #[verifier::rlimit(40)]
    fn allocate_reg(free_bits: RegBits, class: RegClass) -> Option<Self> {
        match class {
            RegClass::GP64 => {
                if free_bits.get(Reg::x0) {
                    return Some(Reg::x0);
                }
                if free_bits.get(Reg::x1) {
                    return Some(Reg::x1);
                }
                if free_bits.get(Reg::x2) {
                    return Some(Reg::x2);
                }
                if free_bits.get(Reg::x3) {
                    return Some(Reg::x3);
                }
                if free_bits.get(Reg::x4) {
                    return Some(Reg::x4);
                }
                if free_bits.get(Reg::x5) {
                    return Some(Reg::x5);
                }
                if free_bits.get(Reg::x6) {
                    return Some(Reg::x6);
                }
                if free_bits.get(Reg::x7) {
                    return Some(Reg::x7);
                }
                if free_bits.get(Reg::x8) {
                    return Some(Reg::x8);
                }
                if free_bits.get(Reg::x9) {
                    return Some(Reg::x9);
                }
                if free_bits.get(Reg::x10) {
                    return Some(Reg::x10);
                }
                if free_bits.get(Reg::x11) {
                    return Some(Reg::x11);
                }
                if free_bits.get(Reg::x12) {
                    return Some(Reg::x12);
                }
                if free_bits.get(Reg::x13) {
                    return Some(Reg::x13);
                }
                if free_bits.get(Reg::x14) {
                    return Some(Reg::x14);
                }
                if free_bits.get(Reg::x15) {
                    return Some(Reg::x15);
                }
                if free_bits.get(Reg::x16) {
                    return Some(Reg::x16);
                }
                if free_bits.get(Reg::x17) {
                    return Some(Reg::x17);
                }
                if free_bits.get(Reg::x18) {
                    return Some(Reg::x18);
                }
                if free_bits.get(Reg::x19) {
                    return Some(Reg::x19);
                }
                if free_bits.get(Reg::x20) {
                    return Some(Reg::x20);
                }
                if free_bits.get(Reg::x21) {
                    return Some(Reg::x21);
                }
                if free_bits.get(Reg::x22) {
                    return Some(Reg::x22);
                }
                if free_bits.get(Reg::x23) {
                    return Some(Reg::x23);
                }
                if free_bits.get(Reg::x24) {
                    return Some(Reg::x24);
                }
                if free_bits.get(Reg::x25) {
                    return Some(Reg::x25);
                }
                if free_bits.get(Reg::x26) {
                    return Some(Reg::x26);
                }
                if free_bits.get(Reg::x27) {
                    return Some(Reg::x27);
                }
                if free_bits.get(Reg::x28) {
                    return Some(Reg::x28);
                }
                if free_bits.get(Reg::x29) {
                    return Some(Reg::x29);
                }
                if free_bits.get(Reg::x30) {
                    return Some(Reg::x30);
                }
                if free_bits.get(Reg::sp) {
                    return Some(Reg::sp);
                }
            },
            RegClass::GP32 => {
                if free_bits.get(Reg::w0) {
                    return Some(Reg::w0);
                }
                if free_bits.get(Reg::w1) {
                    return Some(Reg::w1);
                }
                if free_bits.get(Reg::w2) {
                    return Some(Reg::w2);
                }
                if free_bits.get(Reg::w3) {
                    return Some(Reg::w3);
                }
                if free_bits.get(Reg::w4) {
                    return Some(Reg::w4);
                }
                if free_bits.get(Reg::w5) {
                    return Some(Reg::w5);
                }
                if free_bits.get(Reg::w6) {
                    return Some(Reg::w6);
                }
                if free_bits.get(Reg::w7) {
                    return Some(Reg::w7);
                }
                if free_bits.get(Reg::w8) {
                    return Some(Reg::w8);
                }
                if free_bits.get(Reg::w9) {
                    return Some(Reg::w9);
                }
                if free_bits.get(Reg::w10) {
                    return Some(Reg::w10);
                }
                if free_bits.get(Reg::w11) {
                    return Some(Reg::w11);
                }
                if free_bits.get(Reg::w12) {
                    return Some(Reg::w12);
                }
                if free_bits.get(Reg::w13) {
                    return Some(Reg::w13);
                }
                if free_bits.get(Reg::w14) {
                    return Some(Reg::w14);
                }
                if free_bits.get(Reg::w15) {
                    return Some(Reg::w15);
                }
                if free_bits.get(Reg::w16) {
                    return Some(Reg::w16);
                }
                if free_bits.get(Reg::w17) {
                    return Some(Reg::w17);
                }
                if free_bits.get(Reg::w18) {
                    return Some(Reg::w18);
                }
                if free_bits.get(Reg::w19) {
                    return Some(Reg::w19);
                }
                if free_bits.get(Reg::w20) {
                    return Some(Reg::w20);
                }
                if free_bits.get(Reg::w21) {
                    return Some(Reg::w21);
                }
                if free_bits.get(Reg::w22) {
                    return Some(Reg::w22);
                }
                if free_bits.get(Reg::w23) {
                    return Some(Reg::w23);
                }
                if free_bits.get(Reg::w24) {
                    return Some(Reg::w24);
                }
                if free_bits.get(Reg::w25) {
                    return Some(Reg::w25);
                }
                if free_bits.get(Reg::w26) {
                    return Some(Reg::w26);
                }
                if free_bits.get(Reg::w27) {
                    return Some(Reg::w27);
                }
                if free_bits.get(Reg::w28) {
                    return Some(Reg::w28);
                }
                if free_bits.get(Reg::w29) {
                    return Some(Reg::w29);
                }
                if free_bits.get(Reg::w30) {
                    return Some(Reg::w30);
                }
                if free_bits.get(Reg::wsp) {
                    return Some(Reg::wsp);
                }
            },
            RegClass::FP32 => {
                if free_bits.get(Reg::s0) {
                    return Some(Reg::s0);
                }
                if free_bits.get(Reg::s1) {
                    return Some(Reg::s1);
                }
                if free_bits.get(Reg::s2) {
                    return Some(Reg::s2);
                }
                if free_bits.get(Reg::s3) {
                    return Some(Reg::s3);
                }
                if free_bits.get(Reg::s4) {
                    return Some(Reg::s4);
                }
                if free_bits.get(Reg::s5) {
                    return Some(Reg::s5);
                }
                if free_bits.get(Reg::s6) {
                    return Some(Reg::s6);
                }
                if free_bits.get(Reg::s7) {
                    return Some(Reg::s7);
                }
                if free_bits.get(Reg::s8) {
                    return Some(Reg::s8);
                }
                if free_bits.get(Reg::s9) {
                    return Some(Reg::s9);
                }
                if free_bits.get(Reg::s10) {
                    return Some(Reg::s10);
                }
                if free_bits.get(Reg::s11) {
                    return Some(Reg::s11);
                }
                if free_bits.get(Reg::s12) {
                    return Some(Reg::s12);
                }
                if free_bits.get(Reg::s13) {
                    return Some(Reg::s13);
                }
                if free_bits.get(Reg::s14) {
                    return Some(Reg::s14);
                }
                if free_bits.get(Reg::s15) {
                    return Some(Reg::s15);
                }
                if free_bits.get(Reg::s16) {
                    return Some(Reg::s16);
                }
                if free_bits.get(Reg::s17) {
                    return Some(Reg::s17);
                }
                if free_bits.get(Reg::s18) {
                    return Some(Reg::s18);
                }
                if free_bits.get(Reg::s19) {
                    return Some(Reg::s19);
                }
                if free_bits.get(Reg::s20) {
                    return Some(Reg::s20);
                }
                if free_bits.get(Reg::s21) {
                    return Some(Reg::s21);
                }
                if free_bits.get(Reg::s22) {
                    return Some(Reg::s22);
                }
                if free_bits.get(Reg::s23) {
                    return Some(Reg::s23);
                }
                if free_bits.get(Reg::s24) {
                    return Some(Reg::s24);
                }
                if free_bits.get(Reg::s25) {
                    return Some(Reg::s25);
                }
                if free_bits.get(Reg::s26) {
                    return Some(Reg::s26);
                }
                if free_bits.get(Reg::s27) {
                    return Some(Reg::s27);
                }
                if free_bits.get(Reg::s28) {
                    return Some(Reg::s28);
                }
                if free_bits.get(Reg::s29) {
                    return Some(Reg::s29);
                }
                if free_bits.get(Reg::s30) {
                    return Some(Reg::s30);
                }
                if free_bits.get(Reg::s31) {
                    return Some(Reg::s31);
                }
            },
            RegClass::FP64 => {
                if free_bits.get(Reg::d0) {
                    return Some(Reg::d0);
                }
                if free_bits.get(Reg::d1) {
                    return Some(Reg::d1);
                }
                if free_bits.get(Reg::d2) {
                    return Some(Reg::d2);
                }
                if free_bits.get(Reg::d3) {
                    return Some(Reg::d3);
                }
                if free_bits.get(Reg::d4) {
                    return Some(Reg::d4);
                }
                if free_bits.get(Reg::d5) {
                    return Some(Reg::d5);
                }
                if free_bits.get(Reg::d6) {
                    return Some(Reg::d6);
                }
                if free_bits.get(Reg::d7) {
                    return Some(Reg::d7);
                }
                if free_bits.get(Reg::d8) {
                    return Some(Reg::d8);
                }
                if free_bits.get(Reg::d9) {
                    return Some(Reg::d9);
                }
                if free_bits.get(Reg::d10) {
                    return Some(Reg::d10);
                }
                if free_bits.get(Reg::d11) {
                    return Some(Reg::d11);
                }
                if free_bits.get(Reg::d12) {
                    return Some(Reg::d12);
                }
                if free_bits.get(Reg::d13) {
                    return Some(Reg::d13);
                }
                if free_bits.get(Reg::d14) {
                    return Some(Reg::d14);
                }
                if free_bits.get(Reg::d15) {
                    return Some(Reg::d15);
                }
                if free_bits.get(Reg::d16) {
                    return Some(Reg::d16);
                }
                if free_bits.get(Reg::d17) {
                    return Some(Reg::d17);
                }
                if free_bits.get(Reg::d18) {
                    return Some(Reg::d18);
                }
                if free_bits.get(Reg::d19) {
                    return Some(Reg::d19);
                }
                if free_bits.get(Reg::d20) {
                    return Some(Reg::d20);
                }
                if free_bits.get(Reg::d21) {
                    return Some(Reg::d21);
                }
                if free_bits.get(Reg::d22) {
                    return Some(Reg::d22);
                }
                if free_bits.get(Reg::d23) {
                    return Some(Reg::d23);
                }
                if free_bits.get(Reg::d24) {
                    return Some(Reg::d24);
                }
                if free_bits.get(Reg::d25) {
                    return Some(Reg::d25);
                }
                if free_bits.get(Reg::d26) {
                    return Some(Reg::d26);
                }
                if free_bits.get(Reg::d27) {
                    return Some(Reg::d27);
                }
                if free_bits.get(Reg::d28) {
                    return Some(Reg::d28);
                }
                if free_bits.get(Reg::d29) {
                    return Some(Reg::d29);
                }
                if free_bits.get(Reg::d30) {
                    return Some(Reg::d30);
                }
                if free_bits.get(Reg::d31) {
                    return Some(Reg::d31);
                }
            },
            RegClass::ZR => {
                if free_bits.get(Reg::xzr) {
                    return Some(Reg::xzr);
                }
                if free_bits.get(Reg::wzr) {
                    return Some(Reg::wzr);
                }
            },
        }
        None
    }
}

/// The instructions of the machine. The number is the width in bits.
#[allow(non_camel_case_types)]
#[derive(Clone, Copy, Debug, PartialEq, Eq, Hash, Structural)]
pub enum Arm {
    orr32,
    orr64,
    movz32,
    movz64,
    movk32,
    movk64,
    ldrb32,
    ldrh32,
    ldr32,
    ldr64,
    strb32,
    strh32,
    str32,
    str64,
    ldp32,
    ldp64,
    stp32,
    stp64,
    add_i32,
    add_i64,
    sub_i32,
    sub_i64,
    bl_function,
    ret0,
    ret64,
    ret128,
}

impl Arm {
    #[verifier::allow_in_spec]
    pub fn is_call(self) -> bool
        returns
            self == Arm::bl_function,
    {
        match self {
            Arm::bl_function => true,
            _ => false,
        }
    }

    #[verifier::allow_in_spec]
    pub fn is_ret(self) -> bool
        returns
            self == Arm::ret0 || self == Arm::ret64 || self == Arm::ret128,
    {
        match self {
            Arm::ret0 | Arm::ret64 | Arm::ret128 => true,
            _ => false,
        }
    }
}

} // verus!
