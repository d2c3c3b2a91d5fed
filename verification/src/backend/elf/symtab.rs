//! The table of symbols.
use vstd::prelude::*;

use crate::backend::bytes;
use crate::backend::bytes::{push_u16, push_u32, push_u64};
use crate::backend::elf::writer::{SectionHeader, SectionHeaderFlags, SectionHeaderType, SectionIdx};

verus! {

#[derive(Clone, Copy, Debug, PartialEq, Eq, Structural)]
pub enum Bind {
    Local,
    Global,
    Weak,
    Num,
}

#[derive(Clone, Copy, Debug, PartialEq, Eq, Structural)]
pub enum Type {
    NoType,
    Object,
    Function,
    Section,
    File,
    Common,
    Tls,
    NumTypes,
}

#[derive(Clone, Copy, Debug, PartialEq, Eq, Structural)]
pub enum Visibility {
    Default,
    Internal,
    Hiddden,
    Protected,
}

impl Bind {
    #[verifier::allow_in_spec]
    pub fn code(self) -> u8
        returns
            (match self {
                Bind::Local => 0u8,
                Bind::Global => 1u8,
                Bind::Weak => 2u8,
                Bind::Num => 3u8,
            }),
    {
        match self {
            Bind::Local => 0,
            Bind::Global => 1,
            Bind::Weak => 2,
            Bind::Num => 3,
        }
    }
}

impl Type {
    #[verifier::allow_in_spec]
    pub fn code(self) -> u8
        returns
            (match self {
                Type::NoType => 0u8,
                Type::Object => 1u8,
                Type::Function => 2u8,
                Type::Section => 3u8,
                Type::File => 4u8,
                Type::Common => 5u8,
                Type::Tls => 6u8,
                Type::NumTypes => 7u8,
            }),
    {
        match self {
            Type::NoType => 0,
            Type::Object => 1,
            Type::Function => 2,
            Type::Section => 3,
            Type::File => 4,
            Type::Common => 5,
            Type::Tls => 6,
            Type::NumTypes => 7,
        }
    }
}

impl Visibility {
    #[verifier::allow_in_spec]
    pub fn code(self) -> u8
        returns
            (match self {
                Visibility::Default => 0u8,
                Visibility::Internal => 1u8,
                Visibility::Hiddden => 2u8,
                Visibility::Protected => 3u8,
            }),
    {
        match self {
            Visibility::Default => 0,
            Visibility::Internal => 1,
            Visibility::Hiddden => 2,
            Visibility::Protected => 3,
        }
    }
}

#[derive(Clone, Copy, Debug, PartialEq, Eq, Structural)]
pub struct SymtabIdx(pub u32);

#[derive(Clone, Copy, Debug, PartialEq, Eq, Structural)]
pub struct Entry {
    pub name_index: u32,
    pub bind: Bind,
    pub ty: Type,
    pub visibility: Visibility,
    pub section_index: SectionIdx,
    pub value: u64,
    pub size: u64,
}

impl Entry {
    /// The symbol as it is written.
    pub open spec fn bytes(self) -> Seq<u8> {
        bytes::le_32(self.name_index) + seq![
            (16 * self.bind.code() + self.ty.code()) as u8,
            self.visibility.code(),
        ] + bytes::le_16(self.section_index.0) + bytes::le_64(self.value) + bytes::le_64(self.size)
    }

    /// The symbol that every table begins with.
    pub open spec fn null() -> Entry {
        Entry {
            name_index: 0,
            bind: Bind::Local,
            ty: Type::NoType,
            visibility: Visibility::Default,
            section_index: SectionIdx::none(),
            value: 0,
            size: 0,
        }
    }
}

/// The entries as they are written.
pub open spec fn table_bytes(entries: Seq<Entry>) -> Seq<u8>
    decreases entries.len(),
{
    if entries.len() == 0 {
        Seq::empty()
    } else {
        table_bytes(entries.drop_last()) + entries.last().bytes()
    }
}

/// The position of the first symbol that is not local.
pub open spec fn first_global(entries: Seq<Entry>) -> Option<int>
    decreases entries.len(),
{
    if entries.len() == 0 {
        None
    } else {
        match first_global(entries.drop_last()) {
            Some(i) => Some(i),
            None => if entries.last().bind == Bind::Local {
                None
            } else {
                Some(entries.len() - 1)
            },
        }
    }
}

/// The entries `i * 24 ..` of the table are the bytes of the `i`-th symbol.
pub proof fn entries_are_24_bytes(entries: Seq<Entry>, i: int)
    requires
        0 <= i < entries.len(),
    ensures
        table_bytes(entries).len() == 24 * entries.len(),
        table_bytes(entries).subrange(24 * i, 24 * i + 24) =~= entries[i].bytes(),
    decreases entries.len(),
{
    lemma_table_len(entries);
    lemma_table_len(entries.drop_last());
    lemma_entry_len(entries.last());
    if i < entries.len() - 1 {
        entries_are_24_bytes(entries.drop_last(), i);
        assert(table_bytes(entries).subrange(24 * i, 24 * i + 24) =~= table_bytes(
            entries.drop_last(),
        ).subrange(24 * i, 24 * i + 24));
    }
}

proof fn lemma_entry_len(e: Entry)
    ensures
        e.bytes().len() == 24,
{
    bytes::le_bytes_len(e.name_index as int, 4);
    bytes::le_bytes_len(e.section_index.0 as int, 2);
    bytes::le_bytes_len(e.value as int, 8);
    bytes::le_bytes_len(e.size as int, 8);
}

proof fn lemma_table_len(entries: Seq<Entry>)
    ensures
        table_bytes(entries).len() == 24 * entries.len(),
    decreases entries.len(),
{
    if entries.len() > 0 {
        lemma_table_len(entries.drop_last());
        lemma_entry_len(entries.last());
    }
}

/// The table of symbols as it is being written.
pub struct SymtabWriter {
    section: Vec<u8>,
    entry_count: u32,
    first_non_local: Option<u32>,
    entries: Ghost<Seq<Entry>>,
}

impl View for SymtabWriter {
    type V = Seq<Entry>;

    closed spec fn view(&self) -> Seq<Entry> {
        self.entries@
    }
}

impl SymtabWriter {
    /// The section holds the symbols.
    pub closed spec fn well_formed(&self) -> bool {
        &&& self.section@ == table_bytes(self.entries@)
        &&& self.entry_count == self.entries@.len()
        &&& match self.first_non_local {
            Some(i) => first_global(self.entries@) == Some(i as int),
            None => first_global(self.entries@) is None,
        }
    }

    pub fn new() -> (w: Self)
        ensures
            w.well_formed(),
            w@ == seq![Entry::null()],
    {
        let mut writer = SymtabWriter {
            section: Vec::new(),
            entry_count: 0,
            first_non_local: None,
            entries: Ghost(Seq::empty()),
        };
        writer.entry(
            Entry {
                name_index: 0,
                bind: Bind::Local,
                ty: Type::NoType,
                visibility: Visibility::Default,
                section_index: SectionIdx::none(),
                value: 0,
                size: 0,
            },
        );
        assert(writer@ =~= seq![Entry::null()]);
        writer
    }

    /// Local symbols come before all others.
    pub fn entry(&mut self, entry: Entry) -> (idx: SymtabIdx)
        requires
            old(self).well_formed(),
            old(self)@.len() < u32::MAX,
            entry.bind == Bind::Local ==> first_global(old(self)@) is None,
        ensures
            final(self).well_formed(),
            final(self)@ == old(self)@.push(entry),
            idx.0 == old(self)@.len(),
    {
        let idx: u32 = self.entry_count;
        let ghost section0 = self.section@;
        if !matches!(entry.bind, Bind::Local) && self.first_non_local.is_none() {
            self.first_non_local = Some(idx);
        }
        self.entry_count = self.entry_count + 1;
        push_u32(&mut self.section, entry.name_index);
        let info: u8 = 16 * entry.bind.code() + entry.ty.code();
        self.section.push(info);
        self.section.push(entry.visibility.code());
        push_u16(&mut self.section, entry.section_index.0);
        push_u64(&mut self.section, entry.value);
        push_u64(&mut self.section, entry.size);
        proof {
            assert(self.section@ =~= section0 + entry.bytes());
            assert(self.entries@.push(entry).drop_last() =~= self.entries@);
            self.entries@ = self.entries@.push(entry);
        }
        SymtabIdx(idx)
    }

    /// The section of the table. Its header tells where the symbols that are not
    /// local begin.
    pub fn finish(self, strtab: SectionIdx) -> (section: (SectionHeader, Vec<u8>))
        requires
            self.well_formed(),
        ensures
            section.0.name@ == ".symtab"@,
            section.0.ty == SectionHeaderType::SymTab,
            section.0.flags == SectionHeaderFlags::none(),
            section.0.addr == 0,
            section.0.link == strtab,
            section.0.info == match first_global(self@) {
                Some(i) => i,
                None => self@.len() as int,
            },
            section.0.addralign == 8,
            section.0.entsize == 24,
            section.1@ == table_bytes(self@),
    {
        let first_non_local: u32 = match self.first_non_local {
            Some(i) => i,
            None => self.entry_count,
        };
        (
            SectionHeader {
                name: ".symtab".to_owned(),
                ty: SectionHeaderType::SymTab,
                flags: SectionHeaderFlags::none(),
                addr: 0,
                link: strtab,
                info: first_non_local,
                addralign: 8,
                entsize: 24,
            },
            self.section,
        )
    }
}

} // verus!
