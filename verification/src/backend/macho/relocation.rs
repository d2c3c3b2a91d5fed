//! Places that the linker fills in.
use vstd::prelude::*;

use crate::backend::bytes;
use crate::backend::bytes::push_u32;
use crate::backend::macho::symtab::SymbolNum;

verus! {

#[derive(Clone, Copy, Debug, PartialEq, Eq, Structural)]
pub struct RelocationInfo {
    pub address: u32,
    pub info: u32,
}

#[derive(Clone, Copy, Debug, PartialEq, Eq, Structural)]
pub enum RelocationLength {
    L1,
    L2,
    L4,
    L8,
}

impl RelocationLength {
    /// The binary logarithm of the number of bytes.
    #[verifier::allow_in_spec]
    pub fn code(self) -> u32
        returns
            (match self {
                RelocationLength::L1 => 0u32,
                RelocationLength::L2 => 1u32,
                RelocationLength::L4 => 2u32,
                RelocationLength::L8 => 3u32,
            }),
    {
        match self {
            RelocationLength::L1 => 0,
            RelocationLength::L2 => 1,
            RelocationLength::L4 => 2,
            RelocationLength::L8 => 3,
        }
    }
}

pub trait RelocationType: Sized {
    spec fn spec_bits(self) -> u8;

    /// convert to 4-bit integer
    fn into_bits(self) -> (bits: u8)
        ensures
            bits == self.spec_bits(),
            bits < 16,
    ;
}

#[derive(Clone, Copy, Debug, PartialEq, Eq, Structural)]
pub enum RelocationTypeX86_64 {
    Signed,
    Branch,
    /// signed with -4 addend
    Signed4,
}

impl RelocationType for RelocationTypeX86_64 {
    open spec fn spec_bits(self) -> u8 {
        match self {
            RelocationTypeX86_64::Signed => 1,
            RelocationTypeX86_64::Branch => 2,
            RelocationTypeX86_64::Signed4 => 8,
        }
    }

    fn into_bits(self) -> u8 {
        match self {
            RelocationTypeX86_64::Signed => 1,
            RelocationTypeX86_64::Branch => 2,
            RelocationTypeX86_64::Signed4 => 8,
        }
    }
}

pub open spec fn bit(b: bool) -> int {
    if b {
        1
    } else {
        0
    }
}

impl RelocationInfo {
    pub const SIZE: u64 = 8;

    /// The fields that are packed in one number: from the lowest bit on the symbol
    /// in 24 bits, a bit for places relative to the instruction, the length in two
    /// bits, a bit for symbols instead of sections, and the type in four bits.
    pub open spec fn packed(
        symbolnum: u32,
        pcrel: bool,
        length: RelocationLength,
        external: bool,
        ty: u8,
    ) -> u32 {
        (symbolnum + 0x100_0000 * bit(pcrel) + 0x200_0000 * length.code() + 0x800_0000 * bit(
            external,
        ) + 0x1000_0000 * ty) as u32
    }

    pub fn new<T: RelocationType>(
        address: u32,
        symbolnum: SymbolNum,
        pcrel: bool,
        length: RelocationLength,
        external: bool,
        ty: T,
    ) -> (r: Self)
        requires
            symbolnum.0 < 0x100_0000,
        ensures
            r.address == address,
            r.info == Self::packed(symbolnum.0, pcrel, length, external, ty.spec_bits()),
    {
        let ty: u8 = ty.into_bits();
        let pcrel_bits: u32 = if pcrel { 0x100_0000 } else { 0 };
        let external_bits: u32 = if external { 0x800_0000 } else { 0 };
        RelocationInfo {
            address,
            info: symbolnum.0 + pcrel_bits + 0x200_0000 * length.code() + external_bits
                + 0x1000_0000 * (ty as u32),
        }
    }

    pub open spec fn spec_bytes(self) -> Seq<u8> {
        bytes::le_32(self.address) + bytes::le_32(self.info)
    }

    pub fn bytes(self) -> (b: Vec<u8>)
        ensures
            b@ == self.spec_bytes(),
            b@.len() == Self::SIZE,
    {
        let mut b: Vec<u8> = Vec::new();
        push_u32(&mut b, self.address);
        push_u32(&mut b, self.info);
        proof {
            assert(b@ =~= self.spec_bytes());
            bytes::le_bytes_len(self.address as int, 4);
            bytes::le_bytes_len(self.info as int, 4);
        }
        b
    }
}

/// The fields can be read back from the packed number.
pub proof fn packed_fields_read_back(
    symbolnum: u32,
    pcrel: bool,
    length: RelocationLength,
    external: bool,
    ty: u8,
)
    requires
        symbolnum < 0x100_0000,
        ty < 16,
    ensures
        ({
            let info = RelocationInfo::packed(symbolnum, pcrel, length, external, ty);
            &&& info % 0x100_0000 == symbolnum
            &&& info / 0x100_0000 % 2 == bit(pcrel)
            &&& info / 0x200_0000 % 4 == length.code()
            &&& info / 0x800_0000 % 2 == bit(external)
            &&& info / 0x1000_0000 == ty
        }),
{
}

} // verus!
