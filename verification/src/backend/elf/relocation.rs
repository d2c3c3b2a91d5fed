//! The table of places that the linker fills in.
use vstd::prelude::*;

use crate::backend::bytes;
use crate::backend::bytes::push_u64;
use crate::backend::elf::symtab::SymtabIdx;
use crate::backend::elf::writer::{SectionHeader, SectionHeaderFlags, SectionHeaderType, SectionIdx};

verus! {

#[derive(Clone, Copy, Debug, PartialEq, Eq, Structural)]
pub enum RelaType {
    X86_64PC32,
    X86_64Plt32,
}

impl RelaType {
    #[verifier::allow_in_spec]
    pub fn code(self) -> u32
        returns
            (match self {
                RelaType::X86_64PC32 => 2u32,
                RelaType::X86_64Plt32 => 4u32,
            }),
    {
        match self {
            RelaType::X86_64PC32 => 2,
            RelaType::X86_64Plt32 => 4,
        }
    }
}

#[derive(Clone, Copy, Debug, PartialEq, Eq, Structural)]
pub struct Rela {
    pub r_offset: u64,
    pub sym: SymtabIdx,
    pub ty: RelaType,
    pub r_addend: i64,
}

impl Rela {
    /// The entry as it is written.
    pub open spec fn bytes(self) -> Seq<u8> {
        bytes::le_64(self.r_offset) + bytes::le_64(
            (0x1_0000_0000 * self.sym.0 + self.ty.code()) as u64,
        ) + bytes::le_64((self.r_addend as int % 0x1_0000_0000_0000_0000) as u64)
    }
}

pub open spec fn rela_bytes(entries: Seq<Rela>) -> Seq<u8>
    decreases entries.len(),
{
    if entries.len() == 0 {
        Seq::empty()
    } else {
        rela_bytes(entries.drop_last()) + entries.last().bytes()
    }
}

pub struct RelaWriter {
    section: Vec<u8>,
    entries: Ghost<Seq<Rela>>,
}

impl View for RelaWriter {
    type V = Seq<Rela>;

    closed spec fn view(&self) -> Seq<Rela> {
        self.entries@
    }
}

impl RelaWriter {
    pub closed spec fn well_formed(&self) -> bool {
        self.section@ == rela_bytes(self.entries@)
    }

    pub fn new() -> (w: Self)
        ensures
            w.well_formed(),
            w@.len() == 0,
    {
        RelaWriter { section: Vec::new(), entries: Ghost(Seq::empty()) }
    }

    pub fn entry(&mut self, entry: Rela)
        requires
            old(self).well_formed(),
        ensures
            final(self).well_formed(),
            final(self)@ == old(self)@.push(entry),
    {
        let ghost section0 = self.section@;
        push_u64(&mut self.section, entry.r_offset);
        let info: u64 = 0x1_0000_0000 * (entry.sym.0 as u64) + entry.ty.code() as u64;
        push_u64(&mut self.section, info);
        let addend: u64 = if entry.r_addend >= 0 {
            entry.r_addend as u64
        } else {
            (0x1_0000_0000_0000_0000i128 + entry.r_addend as i128) as u64
        };
        push_u64(&mut self.section, addend);
        proof {
            assert(self.section@ =~= section0 + entry.bytes());
            assert(self.entries@.push(entry).drop_last() =~= self.entries@);
            self.entries@ = self.entries@.push(entry);
        }
    }

    pub fn finish(self, text: SectionIdx, symtab: SectionIdx) -> (section: (SectionHeader, Vec<u8>))
        requires
            self.well_formed(),
        ensures
            section.0.name@ == ".rela.text"@,
            section.0.ty == SectionHeaderType::RelA,
            section.0.flags == SectionHeaderFlags::none(),
            section.0.addr == 0,
            section.0.link == symtab,
            section.0.info == text.0,
            section.0.addralign == 8,
            section.0.entsize == 24,
            section.1@ == rela_bytes(self@),
    {
        (
            SectionHeader {
                name: ".rela.text".to_owned(),
                ty: SectionHeaderType::RelA,
                flags: SectionHeaderFlags::none(),
                addr: 0,
                link: symtab,
                info: text.0 as u32,
                addralign: 8,
                entsize: 24,
            },
            self.section,
        )
    }
}

} // verus!
