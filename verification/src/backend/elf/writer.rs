//! Sections and how they are laid out in a file.
use vstd::prelude::*;

use crate::backend::bytes;
use crate::backend::bytes::{push_all, push_u16, push_u32, push_u64};

verus! {

#[derive(Clone, Copy, Debug, PartialEq, Eq, Structural)]
pub enum Format {
    B32,
    B64,
}

impl Format {
    #[verifier::allow_in_spec]
    pub fn code(self) -> u8
        returns
            (match self {
                Format::B32 => 1u8,
                Format::B64 => 2u8,
            }),
    {
        match self {
            Format::B32 => 1,
            Format::B64 => 2,
        }
    }
}

#[derive(Clone, Copy, Debug, PartialEq, Eq, Structural)]
pub enum Endianness {
    Little,
    Big,
}

impl Endianness {
    #[verifier::allow_in_spec]
    pub fn code(self) -> u8
        returns
            (match self {
                Endianness::Little => 1u8,
                Endianness::Big => 2u8,
            }),
    {
        match self {
            Endianness::Little => 1,
            Endianness::Big => 2,
        }
    }
}

#[derive(Clone, Copy, Debug, PartialEq, Eq, Structural)]
pub enum Abi {
    SystemV,
}

impl Abi {
    #[verifier::allow_in_spec]
    pub fn code(self) -> u8
        returns
            0u8,
    {
        0
    }
}

#[derive(Clone, Copy, Debug, PartialEq, Eq, Structural)]
pub enum ObjectFileType {
    Unknown,
    Relocatable,
    Executable,
    Shared,
    Core,
    OSSpecific(u8),
    ProcessorSpecific(u8),
}

impl ObjectFileType {
    pub open spec fn bytes(self) -> Seq<u8> {
        match self {
            ObjectFileType::Unknown => seq![0u8, 0u8],
            ObjectFileType::Relocatable => seq![1u8, 0u8],
            ObjectFileType::Executable => seq![2u8, 0u8],
            ObjectFileType::Shared => seq![3u8, 0u8],
            ObjectFileType::Core => seq![4u8, 0u8],
            ObjectFileType::OSSpecific(b) => seq![0xFEu8, b],
            ObjectFileType::ProcessorSpecific(b) => seq![0xFFu8, b],
        }
    }

    pub fn to_bytes(self) -> (b: [u8; 2])
        ensures
            b@ == self.bytes(),
    {
        let b: [u8; 2] = match self {
            ObjectFileType::Unknown => [0, 0],
            ObjectFileType::Relocatable => [1, 0],
            ObjectFileType::Executable => [2, 0],
            ObjectFileType::Shared => [3, 0],
            ObjectFileType::Core => [4, 0],
            ObjectFileType::OSSpecific(b) => [0xFE, b],
            ObjectFileType::ProcessorSpecific(b) => [0xFF, b],
        };
        assert(b@ =~= self.bytes());
        b
    }
}

#[derive(Clone, Copy, Debug, PartialEq, Eq, Structural)]
pub struct SectionIdx(pub u16);

impl SectionIdx {
    #[verifier::allow_in_spec]
    pub fn none() -> SectionIdx
        returns
            SectionIdx(0),
    {
        SectionIdx(0)
    }

    #[verifier::allow_in_spec]
    pub fn absent() -> SectionIdx
        returns
            SectionIdx(0xfff1),
    {
        SectionIdx(0xfff1)
    }
}

#[derive(Clone, Copy, Debug, PartialEq, Eq, Structural)]
pub enum SectionHeaderType {
    Null,
    Progbits,
    SymTab,
    StrTab,
    RelA,
}

impl SectionHeaderType {
    #[verifier::allow_in_spec]
    pub fn code(self) -> u32
        returns
            (match self {
                SectionHeaderType::Null => 0u32,
                SectionHeaderType::Progbits => 1u32,
                SectionHeaderType::SymTab => 2u32,
                SectionHeaderType::StrTab => 3u32,
                SectionHeaderType::RelA => 4u32,
            }),
    {
        match self {
            SectionHeaderType::Null => 0,
            SectionHeaderType::Progbits => 1,
            SectionHeaderType::SymTab => 2,
            SectionHeaderType::StrTab => 3,
            SectionHeaderType::RelA => 4,
        }
    }
}

#[derive(Clone, Copy, Debug, PartialEq, Eq, Structural)]
pub struct SectionHeaderFlags {
    pub write: bool,
    pub alloc: bool,
    pub execinstr: bool,
    pub merge: bool,
    pub strings: bool,
}

impl Default for SectionHeaderFlags {
    fn default() -> (f: Self)
        ensures
            f == SectionHeaderFlags::none(),
    {
        SectionHeaderFlags::none()
    }
}

impl SectionHeaderFlags {
    #[verifier::allow_in_spec]
    pub fn none() -> SectionHeaderFlags
        returns
            (SectionHeaderFlags {
                write: false,
                alloc: false,
                execinstr: false,
                merge: false,
                strings: false,
            }),
    {
        SectionHeaderFlags {
            write: false,
            alloc: false,
            execinstr: false,
            merge: false,
            strings: false,
        }
    }

    /// One bit for each flag, in the order of the fields.
    pub open spec fn spec_bits(self) -> u64 {
        ((if self.write {
            1int
        } else {
            0
        }) + (if self.alloc {
            2int
        } else {
            0
        }) + (if self.execinstr {
            4int
        } else {
            0
        }) + (if self.merge {
            8int
        } else {
            0
        }) + (if self.strings {
            16int
        } else {
            0
        })) as u64
    }

    pub fn bits(self) -> (bits: u64)
        ensures
            bits == self.spec_bits(),
            bits < 32,
    {
        let w: u64 = if self.write { 1 } else { 0 };
        let a: u64 = if self.alloc { 2 } else { 0 };
        let x: u64 = if self.execinstr { 4 } else { 0 };
        let m: u64 = if self.merge { 8 } else { 0 };
        let s: u64 = if self.strings { 16 } else { 0 };
        w + a + x + m + s
    }
}

#[derive(Debug)]
pub struct SectionHeader {
    pub name: String,
    pub ty: SectionHeaderType,
    pub flags: SectionHeaderFlags,
    pub addr: u64,
    pub link: SectionIdx,
    pub info: u32,
    pub addralign: u64,
    pub entsize: u64,
}

/// What a header says, with the name as it is stored.
#[verifier::ext_equal]
pub struct HeaderView {
    pub name: Seq<u8>,
    pub ty: SectionHeaderType,
    pub flags: SectionHeaderFlags,
    pub addr: u64,
    pub link: SectionIdx,
    pub info: u32,
    pub addralign: u64,
    pub entsize: u64,
}

impl View for SectionHeader {
    type V = HeaderView;

    open spec fn view(&self) -> HeaderView {
        HeaderView {
            name: vstd::utf8::encode_utf8(self.name@),
            ty: self.ty,
            flags: self.flags,
            addr: self.addr,
            link: self.link,
            info: self.info,
            addralign: self.addralign,
            entsize: self.entsize,
        }
    }
}

impl HeaderView {
    /// The header as it is written.
    pub open spec fn bytes(self, name_index: u32, offset: u64, size: u64) -> Seq<u8> {
        bytes::le_32(name_index) + bytes::le_32(self.ty.code()) + bytes::le_64(
            self.flags.spec_bits(),
        ) + bytes::le_64(self.addr) + bytes::le_64(offset) + bytes::le_64(size) + bytes::le_32(
            self.link.0 as u32,
        ) + bytes::le_32(self.info) + bytes::le_64(self.addralign) + bytes::le_64(self.entsize)
    }
}

proof fn lemma_header_len(h: HeaderView, name_index: u32, offset: u64, size: u64)
    ensures
        h.bytes(name_index, offset, size).len() == 0x40,
{
    bytes::le_bytes_len(name_index as int, 4);
    bytes::le_bytes_len(h.ty.code() as int, 4);
    bytes::le_bytes_len(h.flags.spec_bits() as int, 8);
    bytes::le_bytes_len(h.addr as int, 8);
    bytes::le_bytes_len(offset as int, 8);
    bytes::le_bytes_len(size as int, 8);
    bytes::le_bytes_len(h.link.0 as int, 4);
    bytes::le_bytes_len(h.info as int, 4);
    bytes::le_bytes_len(h.addralign as int, 8);
    bytes::le_bytes_len(h.entsize as int, 8);
}

impl SectionHeader {
    fn write(&self, file: &mut Vec<u8>, name_index: u32, offset: u64, size: u64)
        ensures
            final(file)@ == old(file)@ + self@.bytes(name_index, offset, size),
    {
        push_u32(file, name_index);
        push_u32(file, self.ty.code());
        push_u64(file, self.flags.bits());
        push_u64(file, self.addr);
        push_u64(file, offset);
        push_u64(file, size);
        push_u32(file, self.link.0 as u32);
        push_u32(file, self.info);
        push_u64(file, self.addralign);
        push_u64(file, self.entsize);
        assert(file@ =~= old(file)@ + self@.bytes(name_index, offset, size));
    }
}

#[derive(Debug)]
pub struct Section {
    pub header: SectionHeader,
    pub contents: Vec<u8>,
}

#[verifier::ext_equal]
pub struct SectionView {
    pub header: HeaderView,
    pub contents: Seq<u8>,
}

impl View for Section {
    type V = SectionView;

    open spec fn view(&self) -> SectionView {
        SectionView { header: self.header@, contents: self.contents@ }
    }
}

pub open spec fn section_views(sections: Seq<Section>) -> Seq<SectionView> {
    sections.map_values(|s: Section| s@)
}

/// An object file that is being put together. The null section and the section of
/// strings come before all others.
#[derive(Debug)]
pub struct ElfObjectWriter {
    pub strtab: Vec<u8>,
    pub sections: Vec<Section>,
}

#[verifier::ext_equal]
pub struct ElfView {
    pub strtab: Seq<u8>,
    pub sections: Seq<SectionView>,
}

impl View for ElfObjectWriter {
    type V = ElfView;

    open spec fn view(&self) -> ElfView {
        ElfView { strtab: self.strtab@, sections: section_views(self.sections@) }
    }
}

/// The section that stands at index 0.
pub open spec fn null_section() -> SectionView {
    SectionView {
        header: HeaderView {
            name: Seq::empty(),
            ty: SectionHeaderType::Null,
            flags: SectionHeaderFlags::none(),
            addr: 0,
            link: SectionIdx::none(),
            info: 0,
            addralign: 0,
            entsize: 0,
        },
        contents: Seq::empty(),
    }
}

/// The section of strings, which is filled in when the file is written.
pub open spec fn strtab_section() -> SectionView {
    SectionView {
        header: HeaderView {
            name: vstd::utf8::encode_utf8(".strtab"@),
            ty: SectionHeaderType::StrTab,
            flags: SectionHeaderFlags::none(),
            addr: 0,
            link: SectionIdx::none(),
            info: 0,
            addralign: 1,
            entsize: 0,
        },
        contents: Seq::empty(),
    }
}

/// The start of the file.
pub open spec fn file_header(section_count: u16) -> Seq<u8> {
    seq![
        0x7fu8,
        0x45u8,
        0x4cu8,
        0x46u8,
        Format::B64.code(),
        Endianness::Little.code(),
        1u8,
        Abi::SystemV.code(),
        0u8,
        0u8,
        0u8,
        0u8,
        0u8,
        0u8,
        0u8,
        0u8,
    ] + ObjectFileType::Relocatable.bytes() + bytes::le_16(0x3e) + bytes::le_32(1) + bytes::le_64(0)
        + bytes::le_64(0) + bytes::le_64(0x40) + bytes::le_32(0) + bytes::le_16(64) + bytes::le_16(
        0x38,
    ) + bytes::le_16(0) + bytes::le_16(0x40) + bytes::le_16(section_count) + bytes::le_16(1)
}

/// The strings with the names of the sections added, and where each name begins.
/// An empty name stands at the start.
pub open spec fn named(strtab: Seq<u8>, sections: Seq<SectionView>) -> (Seq<u8>, Seq<u32>)
    decreases sections.len(),
{
    if sections.len() == 0 {
        (strtab, Seq::empty())
    } else {
        let (strings, indices) = named(strtab, sections.drop_last());
        let name = sections.last().header.name;
        if name.len() == 0 {
            (strings, indices.push(0))
        } else {
            (strings + name + seq![0u8], indices.push(strings.len() as u32))
        }
    }
}

/// The contents of sections one after the other.
pub open spec fn all_contents(sections: Seq<SectionView>) -> Seq<u8>
    decreases sections.len(),
{
    if sections.len() == 0 {
        Seq::empty()
    } else {
        all_contents(sections.drop_last()) + sections.last().contents
    }
}

/// The headers of sections whose contents begin at `start`. A section without
/// contents has the offset 0.
pub open spec fn all_headers(sections: Seq<SectionView>, indices: Seq<u32>, start: int) -> Seq<u8>
    decreases sections.len(),
{
    if sections.len() == 0 {
        Seq::empty()
    } else {
        let s = sections.last();
        let offset = start + all_contents(sections.drop_last()).len();
        all_headers(sections.drop_last(), indices.drop_last(), start) + s.header.bytes(
            indices.last(),
            if s.contents.len() == 0 {
                0
            } else {
                offset as u64
            },
            s.contents.len() as u64,
        )
    }
}

/// The sections with the strings in place.
pub open spec fn with_strings(v: ElfView) -> Seq<SectionView> {
    let strings = named(v.strtab, v.sections).0;
    v.sections.update(1, SectionView { contents: strings, ..v.sections[1] })
}

/// Where the contents of the sections begin.
pub open spec fn contents_start(v: ElfView) -> int {
    (0x40 + 0x40 * v.sections.len()) as int
}

/// The whole file.
pub open spec fn file_bytes(v: ElfView) -> Seq<u8> {
    let sections = with_strings(v);
    file_header(v.sections.len() as u16) + all_headers(
        sections,
        named(v.strtab, v.sections).1,
        contents_start(v),
    ) + all_contents(sections)
}

pub(crate) proof fn lemma_file_header_len(n: u16)
    ensures
        file_header(n).len() == 0x40,
{
    reveal_with_fuel(bytes::le_bytes, 9);
}

pub(crate) proof fn lemma_headers_len(sections: Seq<SectionView>, indices: Seq<u32>, start: int)
    requires
        indices.len() == sections.len(),
    ensures
        all_headers(sections, indices, start).len() == 0x40 * sections.len(),
    decreases sections.len(),
{
    if sections.len() > 0 {
        lemma_headers_len(sections.drop_last(), indices.drop_last(), start);
        let s = sections.last();
        let offset = start + all_contents(sections.drop_last()).len();
        lemma_header_len(
            s.header,
            indices.last(),
            if s.contents.len() == 0 {
                0
            } else {
                offset as u64
            },
            s.contents.len() as u64,
        );
    }
}

pub(crate) proof fn lemma_named_len(strtab: Seq<u8>, sections: Seq<SectionView>)
    ensures
        named(strtab, sections).1.len() == sections.len(),
        named(strtab, sections).0.len() >= strtab.len(),
    decreases sections.len(),
{
    if sections.len() > 0 {
        lemma_named_len(strtab, sections.drop_last());
    }
}

pub(crate) proof fn lemma_contents_prefix(sections: Seq<SectionView>, i: int)
    requires
        0 <= i <= sections.len(),
    ensures
        all_contents(sections.take(i)).len() <= all_contents(sections).len(),
        all_contents(sections).take(all_contents(sections.take(i)).len() as int) =~= all_contents(
            sections.take(i),
        ),
    decreases sections.len(),
{
    if i < sections.len() {
        assert(sections.drop_last().take(i) =~= sections.take(i));
        lemma_contents_prefix(sections.drop_last(), i);
    } else {
        assert(sections.take(i) =~= sections);
    }
}

/// The file is as long as its header, the headers of the sections and their
/// contents together, and the contents of each section are found at the offset
/// that its header gives.
pub proof fn sections_are_at_their_offsets(v: ElfView, i: int)
    requires
        2 <= v.sections.len() <= u16::MAX,
        0 <= i < v.sections.len(),
    ensures
        ({
            let sections = with_strings(v);
            let at = contents_start(v) + all_contents(sections.take(i)).len();
            let end = at + sections[i].contents.len();
            &&& file_bytes(v).len() == contents_start(v) + all_contents(sections).len()
            &&& end <= file_bytes(v).len()
            &&& file_bytes(v).subrange(at, end) =~= sections[i].contents
        }),
{
    let sections = with_strings(v);
    let indices = named(v.strtab, v.sections).1;
    lemma_named_len(v.strtab, v.sections);
    lemma_file_header_len(v.sections.len() as u16);
    lemma_headers_len(sections, indices, contents_start(v));
    lemma_contents_prefix(sections, i);
    lemma_contents_prefix(sections, i + 1);
    assert(sections.take(i + 1).drop_last() =~= sections.take(i));
    let a = all_contents(sections.take(i)).len() as int;
    let b = a + sections[i].contents.len();
    assert(all_contents(sections.take(i + 1)) =~= all_contents(sections.take(i))
        + sections[i].contents);
    assert(all_contents(sections).subrange(a, b) =~= all_contents(sections.take(i + 1)).subrange(
        a,
        b,
    ));
    assert(all_contents(sections).subrange(a, b) =~= sections[i].contents);
    assert(file_bytes(v).subrange(contents_start(v) + a, contents_start(v) + b) =~= all_contents(
        sections,
    ).subrange(a, b));
}

/// A string that was added is found at the index that was returned, with a zero
/// byte behind it, however many strings are added later.
pub proof fn added_strings_stay(before: Seq<u8>, s: Seq<u8>, later: Seq<u8>)
    ensures
        ({
            let table = before + s + seq![0u8] + later;
            let at = before.len() as int;
            &&& table.subrange(at, at + s.len()) =~= s
            &&& table[at + s.len()] == 0
        }),
{
}

impl ElfObjectWriter {
    pub fn new() -> (w: Self)
        ensures
            w@.strtab == seq![0u8],
            w@.sections == seq![null_section(), strtab_section()],
    {
        let mut strtab: Vec<u8> = Vec::new();
        strtab.push(0);
        let mut sections: Vec<Section> = Vec::new();
        // null section
        sections.push(
            Section {
                header: SectionHeader {
                    name: String::new(),
                    ty: SectionHeaderType::Null,
                    flags: SectionHeaderFlags::none(),
                    addr: 0,
                    link: SectionIdx::none(),
                    info: 0,
                    addralign: 0,
                    entsize: 0,
                },
                contents: Vec::new(),
            },
        );
        // strtab section
        sections.push(
            Section {
                header: SectionHeader {
                    name: ".strtab".to_owned(),
                    ty: SectionHeaderType::StrTab,
                    flags: SectionHeaderFlags::none(),
                    addr: 0,
                    link: SectionIdx::none(),
                    info: 0,
                    addralign: 1,
                    entsize: 0,
                },
                contents: Vec::new(),
            },
        );
        let w = ElfObjectWriter { strtab, sections };
        proof {
            assert(Seq::<char>::empty() =~= sections@[0].header.name@);
            assert(vstd::utf8::encode_utf8(Seq::<char>::empty()) =~= Seq::<u8>::empty());
            assert(sections@[0]@ =~= null_section());
            assert(sections@[1]@ =~= strtab_section());
            assert(w@.sections =~= seq![null_section(), strtab_section()]);
            assert(w@.strtab =~= seq![0u8]);
        }
        w
    }

    /// The section of strings always has the same index.
    pub fn strtab_idx(&self) -> (idx: SectionIdx)
        ensures
            idx == SectionIdx(1),
    {
        SectionIdx(1)
    }

    pub fn section(&mut self, header: SectionHeader, contents: Vec<u8>) -> (idx: SectionIdx)
        requires
            old(self)@.sections.len() <= u16::MAX,
        ensures
            idx.0 == old(self)@.sections.len(),
            final(self)@ == (ElfView {
                sections: old(self)@.sections.push(
                    SectionView { header: header@, contents: contents@ },
                ),
                ..old(self)@
            }),
    {
        let idx: u16 = self.sections.len() as u16;
        self.sections.push(Section { header, contents });
        assert(self@.sections =~= old(self)@.sections.push(
            SectionView { header: header@, contents: contents@ },
        ));
        assert(self@ =~= (ElfView {
            sections: old(self)@.sections.push(
                SectionView { header: header@, contents: contents@ },
            ),
            ..old(self)@
        }));
        SectionIdx(idx)
    }

    /// Adds a string and returns where it begins.
    pub fn add_str(&mut self, s: &str) -> (index: u32)
        requires
            old(self)@.strtab.len() <= u32::MAX,
        ensures
            index == old(self)@.strtab.len(),
            final(self)@ == (ElfView {
                strtab: old(self)@.strtab + vstd::utf8::encode_utf8(s@) + seq![0u8],
                ..old(self)@
            }),
    {
        let index: u32 = self.strtab.len() as u32;
        push_all(&mut self.strtab, s.as_bytes());
        self.strtab.push(0);
        assert(self@ =~= (ElfView {
            strtab: old(self)@.strtab + vstd::utf8::encode_utf8(s@) + seq![0u8],
            ..old(self)@
        }));
        index
    }

    /// The bytes of the whole file.
    pub fn write(self) -> (file: Vec<u8>)
        requires
            2 <= self@.sections.len() <= u16::MAX,
            named(self@.strtab, self@.sections).0.len() <= u32::MAX,
            file_bytes(self@).len() <= u64::MAX,
        ensures
            file@ == file_bytes(self@),
    {
        let mut w: ElfObjectWriter = self;
        let ghost v = w@;
        let mut file: Vec<u8> = Vec::new();
        let count: u16 = w.sections.len() as u16;
        push_all(
            &mut file,
            &[
                0x7f,
                0x45,
                0x4c,
                0x46,
                Format::B64.code(),
                Endianness::Little.code(),
                1,
                Abi::SystemV.code(),
                0,
                0,
                0,
                0,
                0,
                0,
                0,
                0,
            ],
        );
        push_all(&mut file, &ObjectFileType::Relocatable.to_bytes());
        push_u16(&mut file, 0x3e);  // x86-64
        push_u32(&mut file, 1);  // version of ELF
        push_u64(&mut file, 0);  // entry point
        push_u64(&mut file, 0);  // program header table offset
        push_u64(&mut file, 0x40);  // section header table offset
        push_u32(&mut file, 0);  // e_flags: target-specific flags
        push_u16(&mut file, 64);  // e_ehsize
        push_u16(&mut file, 0x38);  // e_phentsize
        push_u16(&mut file, 0);  // e_phnum: program header table entry count
        push_u16(&mut file, 0x40);  // e_shentsize
        push_u16(&mut file, count);  // e_shnum
        push_u16(&mut file, w.strtab_idx().0);  // e_shstrndx
        assert(file@ =~= file_header(count));
        let indices: Vec<u32> = w.name_sections();
        let ghost strings = named(v.strtab, v.sections).0;
        let mut strtab: Vec<u8> = Vec::new();
        strtab.append(&mut w.strtab);
        w.sections[1].contents = strtab;
        let ghost sections = with_strings(v);
        proof {
            lemma_named_len(v.strtab, v.sections);
            lemma_file_header_len(count);
            lemma_headers_len(sections, indices@, contents_start(v));
            assert(w.sections@[1]@ =~= sections[1]);
            assert(section_views(w.sections@) =~= sections);
        }
        let mut offset: u64 = 0x40 + 0x40 * (count as u64);
        let mut i: usize = 0;
        assert(sections.take(0) =~= Seq::empty());
        assert(indices@.take(0) =~= Seq::empty());
        assert(file@ =~= file_header(count) + all_headers(
            sections.take(0),
            indices@.take(0),
            contents_start(v),
        ));
        while i < w.sections.len()
            invariant
                i <= w.sections@.len(),
                section_views(w.sections@) == sections,
                sections.len() == w.sections@.len(),
                indices@.len() == sections.len(),
                contents_start(v) + all_contents(sections).len() <= u64::MAX,
                offset == contents_start(v) + all_contents(sections.take(i as int)).len(),
                file@ =~= file_header(count) + all_headers(
                    sections.take(i as int),
                    indices@.take(i as int),
                    contents_start(v),
                ),
            decreases w.sections.len() - i,
        {
            proof {
                assert(sections.take(i + 1).drop_last() =~= sections.take(i as int));
                assert(indices@.take(i + 1).drop_last() =~= indices@.take(i as int));
                assert(sections[i as int] == w.sections@[i as int]@);
                lemma_contents_prefix(sections, i + 1);
            }
            let len: u64 = w.sections[i].contents.len() as u64;
            let section_offset: u64 = if len == 0 {
                0
            } else {
                offset
            };
            w.sections[i].header.write(&mut file, indices[i], section_offset, len);
            offset += len;
            i += 1;
        }
        assert(sections.take(i as int) =~= sections);
        assert(indices@.take(i as int) =~= indices@);
        let ghost head = file@;
        let mut i: usize = 0;
        assert(file@ =~= head + all_contents(sections.take(0)));
        while i < w.sections.len()
            invariant
                i <= w.sections@.len(),
                section_views(w.sections@) == sections,
                sections.len() == w.sections@.len(),
                file@ =~= head + all_contents(sections.take(i as int)),
            decreases w.sections.len() - i,
        {
            proof {
                assert(sections.take(i + 1).drop_last() =~= sections.take(i as int));
                assert(sections[i as int] == w.sections@[i as int]@);
            }
            push_all(&mut file, w.sections[i].contents.as_slice());
            i += 1;
        }
        assert(sections.take(i as int) =~= sections);
        file
    }

    /// Adds the names of the sections to the strings.
    fn name_sections(&mut self) -> (indices: Vec<u32>)
        requires
            named(old(self)@.strtab, old(self)@.sections).0.len() <= u32::MAX,
        ensures
            (final(self)@.strtab, indices@) == named(old(self)@.strtab, old(self)@.sections),
            final(self).sections == old(self).sections,
    {
        let ghost strtab0 = self.strtab@;
        let ghost sections = self@.sections;
        let mut indices: Vec<u32> = Vec::new();
        let mut i: usize = 0;
        assert(sections.take(0) =~= Seq::empty());
        while i < self.sections.len()
            invariant
                i <= self.sections@.len(),
                self.sections == old(self).sections,
                sections == section_views(self.sections@),
                named(strtab0, sections).0.len() <= u32::MAX,
                (self.strtab@, indices@) == named(strtab0, sections.take(i as int)),
            decreases self.sections.len() - i,
        {
            proof {
                assert(sections.take(i + 1).drop_last() =~= sections.take(i as int));
                assert(sections.take(i + 1).last() == self.sections@[i as int]@);
                lemma_named_grows(strtab0, sections, i as int);
            }
            let name: &[u8] = self.sections[i].header.name.as_str().as_bytes();
            if name.len() == 0 {
                // null section doesn't have a name
                indices.push(0);
            } else {
                let index: u32 = self.strtab.len() as u32;
                push_all(&mut self.strtab, name);
                self.strtab.push(0);
                indices.push(index);
            }
            i += 1;
        }
        assert(sections.take(i as int) =~= sections);
        indices
    }
}

proof fn lemma_named_grows(strtab: Seq<u8>, sections: Seq<SectionView>, i: int)
    requires
        0 <= i <= sections.len(),
    ensures
        named(strtab, sections.take(i)).0.len() <= named(strtab, sections).0.len(),
    decreases sections.len(),
{
    if i < sections.len() {
        assert(sections.drop_last().take(i) =~= sections.take(i));
        lemma_named_grows(strtab, sections.drop_last(), i);
    } else {
        assert(sections.take(i) =~= sections);
    }
}

} // verus!
