//! The table of symbols and the strings that name them.
use vstd::prelude::*;

use crate::backend::bytes;
use crate::backend::bytes::{push_all, push_u16, push_u32, push_u64};

verus! {

/// A section, counted from 1; 0 stands for none.
#[derive(Clone, Copy, Debug, PartialEq, Eq, Structural)]
pub struct SectionIdx(pub u8);

#[derive(Clone, Copy, Debug, PartialEq, Eq, Structural)]
pub struct StrIdx(pub u32);

#[derive(Clone, Copy, Debug, PartialEq, Eq, Structural)]
pub struct SymbolNum(pub u32);

#[derive(Clone, Copy, Debug, PartialEq, Eq, Structural)]
pub enum SymbolAddrType {
    Undefined,
    Absolute,
    Indirect,
    PreboundUndef,
    SecNumDefined,
}

impl SymbolAddrType {
    #[verifier::allow_in_spec]
    pub fn code(self) -> u8
        returns
            (match self {
                SymbolAddrType::Undefined => 0u8,
                SymbolAddrType::Absolute => 2u8,
                SymbolAddrType::Indirect => 10u8,
                SymbolAddrType::PreboundUndef => 12u8,
                SymbolAddrType::SecNumDefined => 14u8,
            }),
    {
        match self {
            SymbolAddrType::Undefined => 0,
            SymbolAddrType::Absolute => 2,
            SymbolAddrType::Indirect => 10,
            SymbolAddrType::PreboundUndef => 12,
            SymbolAddrType::SecNumDefined => 14,
        }
    }
}

#[derive(Clone, Copy, Debug, PartialEq, Eq, Structural)]
pub enum SymbolVisibility {
    Private,
    External,
}

impl SymbolVisibility {
    #[verifier::allow_in_spec]
    pub fn code(self) -> u8
        returns
            (match self {
                SymbolVisibility::Private => 16u8,
                SymbolVisibility::External => 1u8,
            }),
    {
        match self {
            SymbolVisibility::Private => 16,
            SymbolVisibility::External => 1,
        }
    }
}

#[allow(non_camel_case_types)]
#[derive(Clone, Copy, Debug, PartialEq, Eq, Structural)]
pub struct nlist_64 {
    pub n_strx: StrIdx,
    pub addr_type: SymbolAddrType,
    pub vis: SymbolVisibility,
    pub n_sect: SectionIdx,
    pub n_desc: u16,
    pub n_value: u64,
}

impl nlist_64 {
    pub const SIZE: u64 = 16;

    /// The symbol as it is written.
    pub open spec fn bytes(self) -> Seq<u8> {
        bytes::le_32(self.n_strx.0) + seq![
            (self.addr_type.code() + self.vis.code()) as u8,
            self.n_sect.0,
        ] + bytes::le_16(self.n_desc) + bytes::le_64(self.n_value)
    }

    pub fn write(&self, f: &mut Vec<u8>)
        ensures
            final(f)@ == old(f)@ + self.bytes(),
    {
        push_u32(f, self.n_strx.0);
        // the bits of both fields do not overlap
        f.push(self.addr_type.code() + self.vis.code());
        f.push(self.n_sect.0);
        push_u16(f, self.n_desc);
        push_u64(f, self.n_value);
        assert(f@ =~= old(f)@ + self.bytes());
    }
}

pub open spec fn symbol_bytes(symbols: Seq<nlist_64>) -> Seq<u8>
    decreases symbols.len(),
{
    if symbols.len() == 0 {
        Seq::empty()
    } else {
        symbol_bytes(symbols.drop_last()) + symbols.last().bytes()
    }
}

/// Every symbol takes 16 bytes.
pub proof fn symbols_are_16_bytes(symbols: Seq<nlist_64>)
    ensures
        symbol_bytes(symbols).len() == nlist_64::SIZE * symbols.len(),
    decreases symbols.len(),
{
    if symbols.len() > 0 {
        symbols_are_16_bytes(symbols.drop_last());
        let s = symbols.last();
        bytes::le_bytes_len(s.n_strx.0 as int, 4);
        bytes::le_bytes_len(s.n_desc as int, 2);
        bytes::le_bytes_len(s.n_value as int, 8);
    }
}

#[derive(Debug)]
pub struct SymTab {
    pub symbols: Vec<nlist_64>,
    pub s: Vec<u8>,
}

/// The mathematical content of a [`SymTab`].
#[verifier::ext_equal]
pub struct SymTabView {
    pub symbols: Seq<nlist_64>,
    pub s: Seq<u8>,
}

impl View for SymTab {
    type V = SymTabView;

    open spec fn view(&self) -> SymTabView {
        SymTabView { symbols: self.symbols@, s: self.s@ }
    }
}

impl SymTabView {
    /// How many bytes the table takes.
    pub open spec fn content_size(self) -> int {
        nlist_64::SIZE * self.symbols.len() + self.s.len()
    }

    /// Where the symbols and the strings are, when they are stored at `offset`.
    pub open spec fn command_bytes(self, offset: int) -> Seq<u8> {
        bytes::le_32(offset as u32) + bytes::le_32(self.symbols.len() as u32) + bytes::le_32(
            (offset + nlist_64::SIZE * self.symbols.len()) as u32,
        ) + bytes::le_32(self.s.len() as u32)
    }

    pub open spec fn content_bytes(self) -> Seq<u8> {
        symbol_bytes(self.symbols) + self.s
    }
}

impl SymTab {
    pub const COMMAND_SIZE: u32 = 16;

    pub fn new() -> (t: Self)
        ensures
            t.symbols@.len() == 0,
            t.s@ == seq![0u8],
    {
        let mut s: Vec<u8> = Vec::new();
        s.push(0);
        assert(s@ =~= seq![0u8]);
        SymTab { symbols: Vec::new(), s }
    }

    pub fn sym(&mut self, symbol: nlist_64) -> (n: SymbolNum)
        requires
            old(self).symbols@.len() <= u32::MAX,
        ensures
            n.0 == old(self).symbols@.len(),
            final(self).symbols@ == old(self).symbols@.push(symbol),
            final(self).s == old(self).s,
    {
        let n: u32 = self.symbols.len() as u32;
        self.symbols.push(symbol);
        SymbolNum(n)
    }

    /// The string as it is stored.
    pub open spec fn stored(s: Seq<char>, underscore_prefix: bool) -> Seq<u8> {
        (if underscore_prefix {
            seq![0x5fu8]
        } else {
            Seq::empty()
        }) + vstd::utf8::encode_utf8(s) + seq![0u8]
    }

    /// Adds a string and returns where it begins.
    pub fn str(&mut self, s: &str, underscore_prefix: bool) -> (i: StrIdx)
        requires
            old(self).s@.len() <= u32::MAX,
        ensures
            i.0 == old(self).s@.len(),
            final(self).s@ == old(self).s@ + Self::stored(s@, underscore_prefix),
            final(self).symbols == old(self).symbols,
    {
        let i: u32 = self.s.len() as u32;
        if underscore_prefix {
            self.s.push(0x5f);
        }
        push_all(&mut self.s, s.as_bytes());
        self.s.push(0);
        assert(self.s@ =~= old(self).s@ + Self::stored(s@, underscore_prefix));
        StrIdx(i)
    }

    pub fn write(&self, f: &mut Vec<u8>, file_offset: &mut u64)
        requires
            *old(file_offset) + self@.content_size() <= u32::MAX,
        ensures
            final(f)@ == old(f)@ + self@.command_bytes(*old(file_offset) as int),
            *final(file_offset) == *old(file_offset) + self@.content_size(),
    {
        push_u32(f, *file_offset as u32);
        push_u32(f, self.symbols.len() as u32);
        *file_offset = *file_offset + self.symbols.len() as u64 * nlist_64::SIZE;
        push_u32(f, *file_offset as u32);
        push_u32(f, self.s.len() as u32);
        *file_offset = *file_offset + self.s.len() as u64;
        assert(f@ =~= old(f)@ + self@.command_bytes(*old(file_offset) as int));
    }

    pub fn write_content(&self, f: &mut Vec<u8>)
        ensures
            final(f)@ == old(f)@ + self@.content_bytes(),
    {
        let ghost before = f@;
        let mut i: usize = 0;
        assert(self.symbols@.take(0) =~= Seq::empty());
        assert(f@ =~= before + symbol_bytes(self.symbols@.take(0)));
        while i < self.symbols.len()
            invariant
                i <= self.symbols@.len(),
                f@ =~= before + symbol_bytes(self.symbols@.take(i as int)),
            decreases self.symbols.len() - i,
        {
            assert(self.symbols@.take(i + 1).drop_last() =~= self.symbols@.take(i as int));
            self.symbols[i].write(f);
            i += 1;
        }
        assert(self.symbols@.take(i as int) =~= self.symbols@);
        push_all(f, self.s.as_slice());
        assert(f@ =~= before + self@.content_bytes());
    }
}

} // verus!
