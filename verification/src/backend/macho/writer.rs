//! Segments and how they are laid out in a file.
use vstd::prelude::*;

use crate::backend::bytes;
use crate::backend::bytes::{push_all, push_u32, push_u64};
use crate::backend::macho::relocation::RelocationInfo;
use crate::backend::macho::symtab;
use crate::backend::macho::symtab::{SectionIdx, SymTab, SymTabView};

verus! {

#[derive(Clone, Copy, Debug, PartialEq, Eq, Structural)]
pub enum CpuType {
    X86,
    X86_64,
    Arm,
    Arm64,
}

impl CpuType {
    #[verifier::allow_in_spec]
    pub fn code(self) -> u32
        returns
            (match self {
                CpuType::X86 => 0x0000_0007u32,
                CpuType::X86_64 => 0x0100_0007u32,
                CpuType::Arm => 0x0000_000Cu32,
                CpuType::Arm64 => 0x0100_000Cu32,
            }),
    {
        match self {
            CpuType::X86 => 0x0000_0007,
            CpuType::X86_64 => 0x0100_0007,
            CpuType::Arm => 0x0000_000C,
            CpuType::Arm64 => 0x0100_000C,
        }
    }
}

#[derive(Clone, Copy, Debug, PartialEq, Eq, Structural)]
pub enum CpuSubtypeArm {
    All,
}

impl CpuSubtypeArm {
    #[verifier::allow_in_spec]
    pub fn code(self) -> u32
        returns
            0u32,
    {
        0
    }
}

#[derive(Clone, Copy, Debug, PartialEq, Eq, Structural)]
pub enum FileType {
    RelocatableObject,
}

impl FileType {
    #[verifier::allow_in_spec]
    pub fn code(self) -> u32
        returns
            1u32,
    {
        1
    }
}

/// What the memory of a segment can be used for.
#[derive(Clone, Copy, Debug, PartialEq, Eq, Structural)]
pub struct PermissionFlags {
    pub read: bool,
    pub write: bool,
    pub execute: bool,
}

impl PermissionFlags {
    pub open spec fn spec_bits(self) -> u32 {
        ((if self.read {
            1int
        } else {
            0
        }) + (if self.write {
            2int
        } else {
            0
        }) + (if self.execute {
            4int
        } else {
            0
        })) as u32
    }

    pub fn bits(self) -> (b: u32)
        ensures
            b == self.spec_bits(),
    {
        let r: u32 = if self.read { 1 } else { 0 };
        let w: u32 = if self.write { 2 } else { 0 };
        let x: u32 = if self.execute { 4 } else { 0 };
        r + w + x
    }
}

#[derive(Clone, Copy, Debug, PartialEq, Eq, Structural)]
pub struct SegmentFlags(pub u32);

/// The name of a segment or of a section.
#[derive(Clone, Copy, Debug, PartialEq, Eq, Structural)]
pub enum Name {
    /// `__TEXT`
    TextSegment,
    /// `__text`
    TextSection,
    /// `__const`
    ConstSection,
    /// `__DATA`
    DataSegment,
    /// `__data`
    DataSection,
}

impl Name {
    /// The name in 16 bytes, filled up with zero bytes.
    pub open spec fn spec_bytes(self) -> Seq<u8> {
        match self {
            Name::TextSegment => seq![0x5fu8, 0x5f, 0x54, 0x45, 0x58, 0x54, 0, 0, 0, 0, 0, 0, 0, 0, 0, 0],
            Name::TextSection => seq![0x5fu8, 0x5f, 0x74, 0x65, 0x78, 0x74, 0, 0, 0, 0, 0, 0, 0, 0, 0, 0],
            Name::ConstSection => seq![0x5fu8, 0x5f, 0x63, 0x6f, 0x6e, 0x73, 0x74, 0, 0, 0, 0, 0, 0, 0, 0, 0],
            Name::DataSegment => seq![0x5fu8, 0x5f, 0x44, 0x41, 0x54, 0x41, 0, 0, 0, 0, 0, 0, 0, 0, 0, 0],
            Name::DataSection => seq![0x5fu8, 0x5f, 0x64, 0x61, 0x74, 0x61, 0, 0, 0, 0, 0, 0, 0, 0, 0, 0],
        }
    }

    pub fn bytes(self) -> (b: [u8; 16])
        ensures
            b@ == self.spec_bytes(),
    {
        let b: [u8; 16] = match self {
            Name::TextSegment => [0x5f, 0x5f, 0x54, 0x45, 0x58, 0x54, 0, 0, 0, 0, 0, 0, 0, 0, 0, 0],
            Name::TextSection => [0x5f, 0x5f, 0x74, 0x65, 0x78, 0x74, 0, 0, 0, 0, 0, 0, 0, 0, 0, 0],
            Name::ConstSection => [0x5f, 0x5f, 0x63, 0x6f, 0x6e, 0x73, 0x74, 0, 0, 0, 0, 0, 0, 0, 0, 0],
            Name::DataSegment => [0x5f, 0x5f, 0x44, 0x41, 0x54, 0x41, 0, 0, 0, 0, 0, 0, 0, 0, 0, 0],
            Name::DataSection => [0x5f, 0x5f, 0x64, 0x61, 0x74, 0x61, 0, 0, 0, 0, 0, 0, 0, 0, 0, 0],
        };
        assert(b@ =~= self.spec_bytes());
        b
    }
}

#[derive(Debug)]
pub struct SegmentSection64 {
    pub section_name: Name,
    pub section_addr: u64,
    pub alignment: u32,
    pub flag: u32,
    pub contents: Vec<u8>,
    pub relocations: Vec<RelocationInfo>,
}

pub open spec fn relocation_bytes(rs: Seq<RelocationInfo>) -> Seq<u8>
    decreases rs.len(),
{
    if rs.len() == 0 {
        Seq::empty()
    } else {
        relocation_bytes(rs.drop_last()) + rs.last().spec_bytes()
    }
}

pub(crate) proof fn lemma_relocation_bytes_len(rs: Seq<RelocationInfo>)
    ensures
        relocation_bytes(rs).len() == RelocationInfo::SIZE * rs.len(),
    decreases rs.len(),
{
    if rs.len() > 0 {
        lemma_relocation_bytes_len(rs.drop_last());
        bytes::le_bytes_len(rs.last().address as int, 4);
        bytes::le_bytes_len(rs.last().info as int, 4);
    }
}

/// The mathematical content of a [`SegmentSection64`].
#[verifier::ext_equal]
pub struct SectionView {
    pub section_name: Name,
    pub section_addr: u64,
    pub alignment: u32,
    pub flag: u32,
    pub contents: Seq<u8>,
    pub relocations: Seq<RelocationInfo>,
}

impl View for SegmentSection64 {
    type V = SectionView;

    open spec fn view(&self) -> SectionView {
        SectionView {
            section_name: self.section_name,
            section_addr: self.section_addr,
            alignment: self.alignment,
            flag: self.flag,
            contents: self.contents@,
            relocations: self.relocations@,
        }
    }
}

impl SectionView {
    /// The bytes that are stored for the section.
    pub open spec fn content_bytes(self) -> Seq<u8> {
        self.contents + relocation_bytes(self.relocations)
    }

    /// How many bytes are stored for the section.
    pub open spec fn content_size(self) -> int {
        self.contents.len() + RelocationInfo::SIZE * self.relocations.len()
    }

    /// The description of the section when its contents are stored at `offset`.
    pub open spec fn header_bytes(self, segment_name: Name, offset: int) -> Seq<u8> {
        self.section_name.spec_bytes() + segment_name.spec_bytes() + bytes::le_64(self.section_addr) + bytes::le_64(
            self.contents.len() as u64,
        ) + bytes::le_32(offset as u32) + bytes::le_32(self.alignment) + bytes::le_32(
            (offset + self.contents.len()) as u32,
        ) + bytes::le_32(self.relocations.len() as u32) + bytes::le_32(self.flag) + seq![
            0u8,
            0u8,
            0u8,
            0u8,
            0u8,
            0u8,
            0u8,
            0u8,
            0u8,
            0u8,
            0u8,
            0u8,
        ]
    }
}

impl SegmentSection64 {
    /// The size of the description of a section.
    pub const SIZE: u32 = 80;

    /// The contents and the relocations follow each other from `file_offset` on.
    pub fn write(&self, f: &mut Vec<u8>, segment_name: Name, file_offset: &mut u64)
        requires
            *old(file_offset) + self@.content_size() <= u32::MAX,
        ensures
            final(f)@ == old(f)@ + self@.header_bytes(segment_name, *old(file_offset) as int),
            *final(file_offset) == *old(file_offset) + self@.content_size(),
    {
        push_all(f, &self.section_name.bytes());
        push_all(f, &segment_name.bytes());
        push_u64(f, self.section_addr);
        push_u64(f, self.contents.len() as u64);
        push_u32(f, *file_offset as u32);
        *file_offset = *file_offset + self.contents.len() as u64;
        push_u32(f, self.alignment);
        push_u32(f, *file_offset as u32);
        *file_offset = *file_offset + self.relocations.len() as u64 * RelocationInfo::SIZE;
        push_u32(f, self.relocations.len() as u32);
        push_u32(f, self.flag);
        // reserved
        push_all(f, &[0, 0, 0, 0, 0, 0, 0, 0, 0, 0, 0, 0]);
        assert(f@ =~= old(f)@ + self@.header_bytes(segment_name, *old(file_offset) as int));
    }

    fn write_content(&self, f: &mut Vec<u8>)
        ensures
            final(f)@ == old(f)@ + self@.content_bytes(),
    {
        let ghost before = f@;
        push_all(f, self.contents.as_slice());
        let ghost middle = f@;
        let mut i: usize = 0;
        assert(self.relocations@.take(0) =~= Seq::empty());
        assert(f@ =~= middle + relocation_bytes(self.relocations@.take(0)));
        while i < self.relocations.len()
            invariant
                i <= self.relocations@.len(),
                f@ =~= middle + relocation_bytes(self.relocations@.take(i as int)),
            decreases self.relocations.len() - i,
        {
            assert(self.relocations@.take(i + 1).drop_last() =~= self.relocations@.take(i as int));
            let b: Vec<u8> = self.relocations[i].bytes();
            push_all(f, b.as_slice());
            i += 1;
        }
        assert(self.relocations@.take(i as int) =~= self.relocations@);
        assert(f@ =~= before + self@.content_bytes());
    }
}

/// The description of a section is as long as said.
pub proof fn section_headers_have_their_size(s: SectionView, segment_name: Name, offset: int)
    ensures
        s.header_bytes(segment_name, offset).len() == SegmentSection64::SIZE,
        s.content_bytes().len() == s.content_size(),
{
    bytes::le_bytes_len(s.section_addr as int, 8);
    bytes::le_bytes_len(s.contents.len() as u64 as int, 8);
    bytes::le_bytes_len(offset as u32 as int, 4);
    bytes::le_bytes_len(s.alignment as int, 4);
    bytes::le_bytes_len((offset + s.contents.len()) as u32 as int, 4);
    bytes::le_bytes_len(s.relocations.len() as u32 as int, 4);
    bytes::le_bytes_len(s.flag as int, 4);
    lemma_relocation_bytes_len(s.relocations);
}

pub open spec fn sections_content(sections: Seq<SectionView>) -> Seq<u8>
    decreases sections.len(),
{
    if sections.len() == 0 {
        Seq::empty()
    } else {
        sections_content(sections.drop_last()) + sections.last().content_bytes()
    }
}

pub open spec fn sections_size(sections: Seq<SectionView>) -> int
    decreases sections.len(),
{
    if sections.len() == 0 {
        0
    } else {
        sections_size(sections.drop_last()) + sections.last().content_size()
    }
}

/// The sum of the sizes of the contents, without relocations.
pub open spec fn sections_filesize(sections: Seq<SectionView>) -> int
    decreases sections.len(),
{
    if sections.len() == 0 {
        0
    } else {
        sections_filesize(sections.drop_last()) + sections.last().contents.len()
    }
}

pub open spec fn sections_headers(
    sections: Seq<SectionView>,
    segment_name: Name,
    offset: int,
) -> Seq<u8>
    decreases sections.len(),
{
    if sections.len() == 0 {
        Seq::empty()
    } else {
        sections_headers(sections.drop_last(), segment_name, offset)
            + sections.last().header_bytes(
            segment_name,
            offset + sections_size(sections.drop_last()),
        )
    }
}

pub(crate) proof fn lemma_sections_grow(sections: Seq<SectionView>, i: int)
    requires
        0 <= i <= sections.len(),
    ensures
        0 <= sections_filesize(sections.take(i)) <= sections_size(sections.take(i))
            <= sections_size(sections),
        sections_filesize(sections.take(i)) <= sections_filesize(sections),
    decreases sections.len(),
{
    if i < sections.len() {
        assert(sections.drop_last().take(i) =~= sections.take(i));
        lemma_sections_grow(sections.drop_last(), i);
    } else {
        assert(sections.take(i) =~= sections);
        if i > 0 {
            lemma_sections_grow(sections.drop_last(), i - 1);
            assert(sections.drop_last().take(i - 1) =~= sections.drop_last());
        }
    }
}

pub(crate) proof fn lemma_sections_len(sections: Seq<SectionView>, segment_name: Name, offset: int)
    ensures
        sections_headers(sections, segment_name, offset).len() == SegmentSection64::SIZE
            * sections.len(),
        sections_content(sections).len() == sections_size(sections),
    decreases sections.len(),
{
    if sections.len() > 0 {
        lemma_sections_len(sections.drop_last(), segment_name, offset);
        section_headers_have_their_size(
            sections.last(),
            segment_name,
            offset + sections_size(sections.drop_last()),
        );
    }
}

#[derive(Debug)]
pub struct SegmentLoad64 {
    pub segment_name: Name,
    pub vmaddr: u64,
    pub vmsize: u64,
    pub max_vmem_prot: PermissionFlags,
    pub init_vmem_prot: PermissionFlags,
    pub flags: SegmentFlags,
    pub sections: Vec<SegmentSection64>,
}

/// The mathematical content of a [`SegmentLoad64`].
#[verifier::ext_equal]
pub struct SegmentView {
    pub segment_name: Name,
    pub vmaddr: u64,
    pub vmsize: u64,
    pub max_vmem_prot: PermissionFlags,
    pub init_vmem_prot: PermissionFlags,
    pub flags: SegmentFlags,
    pub sections: Seq<SectionView>,
}

impl View for SegmentLoad64 {
    type V = SegmentView;

    open spec fn view(&self) -> SegmentView {
        SegmentView {
            segment_name: self.segment_name,
            vmaddr: self.vmaddr,
            vmsize: self.vmsize,
            max_vmem_prot: self.max_vmem_prot,
            init_vmem_prot: self.init_vmem_prot,
            flags: self.flags,
            sections: self.sections@.map_values(|s: SegmentSection64| s@),
        }
    }
}

impl SegmentView {
    pub open spec fn spec_size(self) -> int {
        64 + SegmentSection64::SIZE * self.sections.len()
    }

    /// The description of the segment when its contents are stored at `offset`.
    pub open spec fn header_bytes(self, offset: int) -> Seq<u8> {
        self.segment_name.spec_bytes() + bytes::le_64(self.vmaddr) + bytes::le_64(self.vmsize) + bytes::le_64(
            offset as u64,
        ) + bytes::le_64(sections_filesize(self.sections) as u64) + bytes::le_32(
            self.max_vmem_prot.spec_bits(),
        ) + bytes::le_32(self.init_vmem_prot.spec_bits()) + bytes::le_32(
            self.sections.len() as u32,
        ) + bytes::le_32(self.flags.0) + sections_headers(self.sections, self.segment_name, offset)
    }
}

impl SegmentLoad64 {
    pub fn size(&self) -> (n: u32)
        requires
            self@.spec_size() <= u32::MAX,
        ensures
            n == self@.spec_size(),
    {
        64 + self.sections.len() as u32 * SegmentSection64::SIZE
    }

    fn write(&self, f: &mut Vec<u8>, file_offset: &mut u64)
        requires
            *old(file_offset) + sections_size(self@.sections) <= u32::MAX,
        ensures
            final(f)@ == old(f)@ + self@.header_bytes(*old(file_offset) as int),
            *final(file_offset) == *old(file_offset) + sections_size(self@.sections),
    {
        let ghost before = f@;
        let ghost start = *file_offset as int;
        push_all(f, &self.segment_name.bytes());
        push_u64(f, self.vmaddr);
        push_u64(f, self.vmsize);
        push_u64(f, *file_offset);
        let mut filesize: u64 = 0;
        let mut i: usize = 0;
        let ghost sections = self@.sections;
        assert(sections.take(0) =~= Seq::empty());
        while i < self.sections.len()
            invariant
                i <= self.sections@.len(),
                sections == self@.sections,
                0 <= start,
                start + sections_size(sections) <= u32::MAX,
                filesize == sections_filesize(sections.take(i as int)),
            decreases self.sections.len() - i,
        {
            proof {
                assert(sections.take(i + 1).drop_last() =~= sections.take(i as int));
                lemma_sections_grow(sections, i + 1);
            }
            filesize += self.sections[i].contents.len() as u64;
            i += 1;
        }
        assert(sections.take(i as int) =~= sections);
        push_u64(f, filesize);
        push_u32(f, self.max_vmem_prot.bits());
        push_u32(f, self.init_vmem_prot.bits());
        push_u32(f, self.sections.len() as u32);
        push_u32(f, self.flags.0);
        let ghost fixed = f@;
        let mut i: usize = 0;
        assert(f@ =~= fixed + sections_headers(sections.take(0), self.segment_name, start));
        while i < self.sections.len()
            invariant
                i <= self.sections@.len(),
                sections == self@.sections,
                start + sections_size(sections) <= u32::MAX,
                *file_offset == start + sections_size(sections.take(i as int)),
                f@ =~= fixed + sections_headers(
                    sections.take(i as int),
                    self.segment_name,
                    start,
                ),
            decreases self.sections.len() - i,
        {
            proof {
                assert(sections.take(i + 1).drop_last() =~= sections.take(i as int));
                lemma_sections_grow(sections, i + 1);
            }
            self.sections[i].write(f, self.segment_name, file_offset);
            i += 1;
        }
        assert(sections.take(i as int) =~= sections);
        assert(f@ =~= before + self@.header_bytes(start));
    }

    fn write_content(&self, f: &mut Vec<u8>)
        ensures
            final(f)@ == old(f)@ + sections_content(self@.sections),
    {
        let ghost before = f@;
        let ghost sections = self@.sections;
        let mut i: usize = 0;
        assert(sections.take(0) =~= Seq::empty());
        assert(f@ =~= before + sections_content(sections.take(0)));
        while i < self.sections.len()
            invariant
                i <= self.sections@.len(),
                sections == self@.sections,
                f@ =~= before + sections_content(sections.take(i as int)),
            decreases self.sections.len() - i,
        {
            assert(sections.take(i + 1).drop_last() =~= sections.take(i as int));
            self.sections[i].write_content(f);
            i += 1;
        }
        assert(sections.take(i as int) =~= sections);
    }
}

#[derive(Debug)]
pub enum LoadCommandContent {
    Segment(SegmentLoad64),
    SymTab(SymTab),
}

#[derive(Debug)]
pub struct LoadCommand {
    pub necessary_for_loading: bool,
    pub content: LoadCommandContent,
}

#[verifier::ext_equal]
pub enum ContentView {
    Segment(SegmentView),
    SymTab(SymTabView),
}

/// The mathematical content of a [`LoadCommand`].
#[verifier::ext_equal]
pub struct CommandView {
    pub necessary_for_loading: bool,
    pub content: ContentView,
}

impl View for LoadCommand {
    type V = CommandView;

    open spec fn view(&self) -> CommandView {
        CommandView {
            necessary_for_loading: self.necessary_for_loading,
            content: match self.content {
                LoadCommandContent::Segment(segment) => ContentView::Segment(segment@),
                LoadCommandContent::SymTab(symtab) => ContentView::SymTab(symtab@),
            },
        }
    }
}

impl CommandView {
    pub open spec fn spec_size(self) -> int {
        LoadCommand::START_SIZE + match self.content {
            ContentView::Segment(segment) => segment.spec_size(),
            ContentView::SymTab(_) => SymTab::COMMAND_SIZE as int,
        }
    }

    pub open spec fn content_size(self) -> int {
        match self.content {
            ContentView::Segment(segment) => sections_size(segment.sections),
            ContentView::SymTab(symtab) => symtab.content_size(),
        }
    }

    pub open spec fn content_bytes(self) -> Seq<u8> {
        match self.content {
            ContentView::Segment(segment) => sections_content(segment.sections),
            ContentView::SymTab(symtab) => symtab.content_bytes(),
        }
    }

    /// The number of the command; the highest bit tells commands that a loader has
    /// to understand.
    pub open spec fn type_code(self) -> u32 {
        ((match self.content {
            ContentView::Segment(_) => 0x19int,
            ContentView::SymTab(_) => 0x02int,
        }) + (if self.necessary_for_loading {
            0x8000_0000int
        } else {
            0
        })) as u32
    }

    /// The command when its contents are stored at `offset`.
    pub open spec fn bytes(self, offset: int) -> Seq<u8> {
        bytes::le_32(self.type_code()) + bytes::le_32(self.spec_size() as u32) + match self.content {
            ContentView::Segment(segment) => segment.header_bytes(offset),
            ContentView::SymTab(symtab) => symtab.command_bytes(offset),
        }
    }
}

impl LoadCommand {
    pub const START_SIZE: u32 = 8;

    pub fn size(&self) -> (n: u32)
        requires
            self@.spec_size() <= u32::MAX,
        ensures
            n == self@.spec_size(),
    {
        Self::START_SIZE + match &self.content {
            LoadCommandContent::Segment(segment) => segment.size(),
            LoadCommandContent::SymTab(_) => SymTab::COMMAND_SIZE,
        }
    }

    fn write(&self, f: &mut Vec<u8>, file_offset: &mut u64)
        requires
            self@.spec_size() <= u32::MAX,
            *old(file_offset) + self@.content_size() <= u32::MAX,
        ensures
            final(f)@ == old(f)@ + self@.bytes(*old(file_offset) as int),
            *final(file_offset) == *old(file_offset) + self@.content_size(),
    {
        let ghost before = f@;
        let ghost start = *file_offset as int;
        let base: u32 = match &self.content {
            LoadCommandContent::Segment(_) => 0x19,
            LoadCommandContent::SymTab(_) => 0x02,
        };
        let ty: u32 = base + if self.necessary_for_loading {
            0x8000_0000
        } else {
            0
        };
        push_u32(f, ty);
        push_u32(f, self.size());
        match &self.content {
            LoadCommandContent::Segment(segment) => segment.write(f, file_offset),
            LoadCommandContent::SymTab(symtab) => symtab.write(f, file_offset),
        }
        assert(f@ =~= before + self@.bytes(start));
    }

    fn write_content(&self, f: &mut Vec<u8>)
        ensures
            final(f)@ == old(f)@ + self@.content_bytes(),
    {
        match &self.content {
            LoadCommandContent::Segment(segment) => segment.write_content(f),
            LoadCommandContent::SymTab(symtab) => symtab.write_content(f),
        }
    }
}

/// A command is as long as it says, and so are its contents.
pub proof fn commands_have_their_size(c: CommandView, offset: int)
    ensures
        c.bytes(offset).len() == c.spec_size(),
        c.content_bytes().len() == c.content_size(),
{
    bytes::le_bytes_len(c.type_code() as int, 4);
    bytes::le_bytes_len(c.spec_size() as u32 as int, 4);
    match c.content {
        ContentView::Segment(s) => {
            bytes::le_bytes_len(s.vmaddr as int, 8);
            bytes::le_bytes_len(s.vmsize as int, 8);
            bytes::le_bytes_len(offset as u64 as int, 8);
            bytes::le_bytes_len(sections_filesize(s.sections) as u64 as int, 8);
            bytes::le_bytes_len(s.max_vmem_prot.spec_bits() as int, 4);
            bytes::le_bytes_len(s.init_vmem_prot.spec_bits() as int, 4);
            bytes::le_bytes_len(s.sections.len() as u32 as int, 4);
            bytes::le_bytes_len(s.flags.0 as int, 4);
            lemma_sections_len(s.sections, s.segment_name, offset);
        },
        ContentView::SymTab(t) => {
            bytes::le_bytes_len(offset as u32 as int, 4);
            bytes::le_bytes_len(t.symbols.len() as u32 as int, 4);
            bytes::le_bytes_len(
                (offset + symtab::nlist_64::SIZE * t.symbols.len()) as u32 as int,
                4,
            );
            bytes::le_bytes_len(t.s.len() as u32 as int, 4);
            symtab::symbols_are_16_bytes(t.symbols);
        },
    }
}

pub open spec fn commands_size(commands: Seq<CommandView>) -> int
    decreases commands.len(),
{
    if commands.len() == 0 {
        0
    } else {
        commands_size(commands.drop_last()) + commands.last().spec_size()
    }
}

pub open spec fn contents_size(commands: Seq<CommandView>) -> int
    decreases commands.len(),
{
    if commands.len() == 0 {
        0
    } else {
        contents_size(commands.drop_last()) + commands.last().content_size()
    }
}

pub open spec fn commands_bytes(commands: Seq<CommandView>, offset: int) -> Seq<u8>
    decreases commands.len(),
{
    if commands.len() == 0 {
        Seq::empty()
    } else {
        commands_bytes(commands.drop_last(), offset) + commands.last().bytes(
            offset + contents_size(commands.drop_last()),
        )
    }
}

pub open spec fn contents_bytes(commands: Seq<CommandView>) -> Seq<u8>
    decreases commands.len(),
{
    if commands.len() == 0 {
        Seq::empty()
    } else {
        contents_bytes(commands.drop_last()) + commands.last().content_bytes()
    }
}

/// The start of the file.
pub open spec fn file_header(cpu_type: CpuType, command_count: int, size: int) -> Seq<u8> {
    bytes::le_32(0xfeed_facf) + bytes::le_32(cpu_type.code()) + bytes::le_32(
        CpuSubtypeArm::All.code(),
    ) + bytes::le_32(FileType::RelocatableObject.code()) + bytes::le_32(command_count as u32)
        + bytes::le_32(size as u32) + bytes::le_32(0) + bytes::le_32(0)
}

/// The whole file: its start, the commands, and the contents that they describe.
pub open spec fn file_bytes(cpu_type: CpuType, commands: Seq<CommandView>) -> Seq<u8> {
    let size = commands_size(commands);
    file_header(cpu_type, commands.len() as int, size) + commands_bytes(commands, 32 + size)
        + contents_bytes(commands)
}

pub(crate) proof fn lemma_commands_grow(commands: Seq<CommandView>, i: int)
    requires
        0 <= i <= commands.len(),
    ensures
        0 <= commands_size(commands.take(i)) <= commands_size(commands),
        0 <= contents_size(commands.take(i)) <= contents_size(commands),
        commands_size(commands) >= 8 * commands.len(),
        forall|j: int| 0 <= j < i ==> (#[trigger] commands[j]).spec_size() <= commands_size(commands),
    decreases commands.len(),
{
    if commands.len() > 0 {
        let rest = commands.drop_last();
        assert(forall|j: int| 0 <= j < rest.len() ==> rest[j] == commands[j]);
        if let ContentView::Segment(s) = commands.last().content {
            lemma_sections_grow(s.sections, s.sections.len() as int);
            assert(s.sections.take(s.sections.len() as int) =~= s.sections);
        }
        if i < commands.len() {
            assert(rest.take(i) =~= commands.take(i));
            lemma_commands_grow(rest, i);
        } else {
            assert(commands.take(i) =~= commands);
            lemma_commands_grow(rest, i - 1);
            assert(rest.take(i - 1) =~= rest);
        }
    }
}

pub(crate) proof fn lemma_commands_len(commands: Seq<CommandView>, offset: int)
    ensures
        commands_bytes(commands, offset).len() == commands_size(commands),
        contents_bytes(commands).len() == contents_size(commands),
    decreases commands.len(),
{
    if commands.len() > 0 {
        lemma_commands_len(commands.drop_last(), offset);
        commands_have_their_size(
            commands.last(),
            offset + contents_size(commands.drop_last()),
        );
    }
}

proof fn lemma_contents_prefix(commands: Seq<CommandView>, i: int)
    requires
        0 <= i <= commands.len(),
    ensures
        contents_bytes(commands.take(i)).len() <= contents_bytes(commands).len(),
        contents_bytes(commands).take(contents_bytes(commands.take(i)).len() as int)
            =~= contents_bytes(commands.take(i)),
    decreases commands.len(),
{
    if i < commands.len() {
        assert(commands.drop_last().take(i) =~= commands.take(i));
        lemma_contents_prefix(commands.drop_last(), i);
    } else {
        assert(commands.take(i) =~= commands);
    }
}

/// The contents of each command are stored where the command says.
pub proof fn contents_are_at_their_offsets(
    cpu_type: CpuType,
    commands: Seq<CommandView>,
    i: int,
)
    requires
        0 <= i < commands.len(),
    ensures
        ({
            let at = 32 + commands_size(commands) + contents_size(commands.take(i));
            let end = at + commands[i].content_size();
            let file = file_bytes(cpu_type, commands);
            &&& file.len() == 32 + commands_size(commands) + contents_size(commands)
            &&& end <= file.len()
            &&& file.subrange(at, end) =~= commands[i].content_bytes()
        }),
{
    let size = commands_size(commands);
    let header = file_header(cpu_type, commands.len() as int, size);
    reveal_with_fuel(bytes::le_bytes, 5);
    assert(header.len() == 32);
    lemma_commands_len(commands, 32 + size);
    lemma_commands_len(commands.take(i), 32 + size);
    lemma_contents_prefix(commands, i);
    lemma_contents_prefix(commands, i + 1);
    commands_have_their_size(commands[i], 0);
    assert(commands.take(i + 1).drop_last() =~= commands.take(i));
    let a = contents_size(commands.take(i));
    let b = a + commands[i].content_size();
    let all = contents_bytes(commands);
    assert(contents_bytes(commands.take(i + 1)) =~= contents_bytes(commands.take(i))
        + commands[i].content_bytes());
    assert(all.subrange(a, b) =~= contents_bytes(commands.take(i + 1)).subrange(a, b));
    assert(all.subrange(a, b) =~= commands[i].content_bytes());
    assert(file_bytes(cpu_type, commands).subrange(32 + size + a, 32 + size + b) =~= all.subrange(
        a,
        b,
    ));
}

/// An object file that is being put together.
#[derive(Debug)]
pub struct MachoObjectWriter {
    pub symtab: SymTab,
    /// every load command except the first one which is always the symtab
    pub load_commands: Vec<LoadCommand>,
}

impl MachoObjectWriter {
    pub fn new() -> (w: Self)
        ensures
            w.symtab.symbols@.len() == 0,
            w.symtab.s@ == seq![0u8],
            w.load_commands@.len() == 0,
    {
        MachoObjectWriter { symtab: SymTab::new(), load_commands: Vec::new() }
    }

    /// Adds a command and returns how many there are.
    pub fn load_command(&mut self, load_command: LoadCommand) -> (idx: SectionIdx)
        requires
            old(self).load_commands@.len() < u8::MAX,
        ensures
            idx.0 == final(self).load_commands@.len(),
            final(self).load_commands@ == old(self).load_commands@.push(load_command),
            final(self).symtab == old(self).symtab,
    {
        self.load_commands.push(load_command);
        SectionIdx(self.load_commands.len() as u8)
    }

    /// All commands of the file.
    pub open spec fn commands(self) -> Seq<CommandView> {
        seq![
            CommandView {
                necessary_for_loading: false,
                content: ContentView::SymTab(self.symtab@),
            },
        ] + self.load_commands@.map_values(|c: LoadCommand| c@)
    }

    /// The bytes of the whole file.
    pub fn write(self, cpu_type: CpuType) -> (f: Vec<u8>)
        requires
            file_bytes(cpu_type, self.commands()).len() <= u32::MAX,
        ensures
            f@ == file_bytes(cpu_type, self.commands()),
    {
        let ghost all = self.commands();
        let ghost total = commands_size(all);
        proof {
            contents_are_at_their_offsets(cpu_type, all, 0);
            lemma_commands_grow(all, all.len() as int);
        }
        let mut commands: Vec<LoadCommand> = Vec::new();
        commands.push(
            LoadCommand {
                necessary_for_loading: false,
                content: LoadCommandContent::SymTab(self.symtab),
            },
        );
        let mut rest: Vec<LoadCommand> = self.load_commands;
        commands.append(&mut rest);
        assert(commands@.map_values(|c: LoadCommand| c@) =~= all);
        let mut size: u32 = 0;
        let mut i: usize = 0;
        assert(all.take(0) =~= Seq::empty());
        while i < commands.len()
            invariant
                i <= commands@.len(),
                commands@.map_values(|c: LoadCommand| c@) == all,
                commands_size(all) <= u32::MAX,
                size == commands_size(all.take(i as int)),
            decreases commands.len() - i,
        {
            proof {
                assert(all.take(i + 1).drop_last() =~= all.take(i as int));
                lemma_commands_grow(all, i + 1);
            }
            size += commands[i].size();
            i += 1;
        }
        assert(all.take(i as int) =~= all);
        let mut f: Vec<u8> = Vec::new();
        push_u32(&mut f, 0xfeed_facf);
        push_u32(&mut f, cpu_type.code());
        push_u32(&mut f, CpuSubtypeArm::All.code());
        push_u32(&mut f, FileType::RelocatableObject.code());
        // number of load commands
        push_u32(&mut f, commands.len() as u32);
        push_u32(&mut f, size);
        push_u32(&mut f, 0);
        // reserved on 64-bit binaries
        push_u32(&mut f, 0);
        let ghost header = file_header(cpu_type, all.len() as int, total);
        assert(f@ =~= header);
        let mut content_offset: u64 = 32 + size as u64;
        let ghost start = content_offset as int;
        let mut i: usize = 0;
        assert(f@ =~= header + commands_bytes(all.take(0), start));
        while i < commands.len()
            invariant
                i <= commands@.len(),
                commands@.map_values(|c: LoadCommand| c@) == all,
                start == 32 + commands_size(all),
                start + contents_size(all) <= u32::MAX,
                commands_size(all) <= u32::MAX,
                content_offset == start + contents_size(all.take(i as int)),
                f@ =~= header + commands_bytes(all.take(i as int), start),
            decreases commands.len() - i,
        {
            proof {
                assert(all.take(i + 1).drop_last() =~= all.take(i as int));
                lemma_commands_grow(all, i + 1);
            }
            commands[i].write(&mut f, &mut content_offset);
            i += 1;
        }
        assert(all.take(i as int) =~= all);
        let ghost described = f@;
        let mut i: usize = 0;
        assert(f@ =~= described + contents_bytes(all.take(0)));
        while i < commands.len()
            invariant
                i <= commands@.len(),
                commands@.map_values(|c: LoadCommand| c@) == all,
                f@ =~= described + contents_bytes(all.take(i as int)),
            decreases commands.len() - i,
        {
            assert(all.take(i + 1).drop_last() =~= all.take(i as int));
            commands[i].write_content(&mut f);
            i += 1;
        }
        assert(all.take(i as int) =~= all);
        f
    }
}

} // verus!
