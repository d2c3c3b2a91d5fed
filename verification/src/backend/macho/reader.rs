//! How an object file is read: where the format has its fields, and that what was
//! written is found there.
use vstd::prelude::*;

use crate::backend::bytes;
use crate::backend::macho::relocation::{RelocationInfo, RelocationLength};
use crate::backend::macho::symtab;
use crate::backend::macho::symtab::{nlist_64, SymTabView, SymbolAddrType, SymbolVisibility};
use crate::backend::macho::writer;
use crate::backend::macho::writer::{
    CommandView,
    ContentView,
    CpuType,
    Name,
    PermissionFlags,
    SectionView,
    SegmentView,
};

verus! {

/// How the address of a symbol is given, by its number (`N_TYPE`).
pub open spec fn address_type_numbered(n: int) -> Option<SymbolAddrType> {
    if n == 0x0 {
        Some(SymbolAddrType::Undefined)
    } else if n == 0x2 {
        Some(SymbolAddrType::Absolute)
    } else if n == 0xA {
        Some(SymbolAddrType::Indirect)
    } else if n == 0xC {
        Some(SymbolAddrType::PreboundUndef)
    } else if n == 0xE {
        Some(SymbolAddrType::SecNumDefined)
    } else {
        None
    }
}

/// A symbol at `at` (`nlist_64`): the name, a byte with the visibility in bits 0 and 4 and
/// how the address is given in bits 1 to 3, the section, the description and the value.
pub open spec fn is_symbol_at(table: Seq<u8>, at: int, s: nlist_64) -> bool {
    let kind = bytes::field(table, at + 4, 1);
    &&& bytes::field(table, at, 4) == s.n_strx.0
    &&& address_type_numbered(kind % 16 / 2 * 2) == Some(s.addr_type)
    &&& kind % 2 == 1 <==> s.vis == SymbolVisibility::External
    &&& kind / 16 == 1 <==> s.vis == SymbolVisibility::Private
    &&& bytes::field(table, at + 5, 1) == s.n_sect.0
    &&& bytes::field(table, at + 6, 2) == s.n_desc
    &&& bytes::field(table, at + 8, 8) == s.n_value
}

proof fn lemma_symbol(s: nlist_64)
    ensures
        s.bytes().len() == 16,
        is_symbol_at(s.bytes(), 0, s),
{
    let b = s.bytes();
    let none = Seq::<u8>::empty();
    let kind = (s.addr_type.code() + s.vis.code()) as u8;
    let name = bytes::le_32(s.n_strx.0);
    let desc = bytes::le_16(s.n_desc);
    let value = bytes::le_64(s.n_value);
    bytes::le_bytes_len(s.n_strx.0 as int, 4);
    bytes::le_bytes_len(s.n_desc as int, 2);
    bytes::le_bytes_len(s.n_value as int, 8);
    let two = seq![kind, s.n_sect.0];
    assert(b =~= none + name + (two + desc + value));
    bytes::fields_read_back(none, s.n_strx.0 as int, 4, two + desc + value);
    assert(b =~= name + seq![kind] + (seq![s.n_sect.0] + desc + value));
    bytes::byte_reads_back(name, kind, seq![s.n_sect.0] + desc + value);
    assert(b =~= (name + seq![kind]) + seq![s.n_sect.0] + (desc + value));
    bytes::byte_reads_back(name + seq![kind], s.n_sect.0, desc + value);
    assert(b =~= (name + two) + desc + value);
    bytes::fields_read_back(name + two, s.n_desc as int, 2, value);
    assert(b =~= (name + two + desc) + value + none);
    bytes::fields_read_back(name + two + desc, s.n_value as int, 8, none);
}

/// The symbol with number `i` is found at its place in the table, with all its fields.
pub proof fn symbols_read_back(symbols: Seq<nlist_64>, i: int)
    requires
        0 <= i < symbols.len(),
    ensures
        symtab::symbol_bytes(symbols).len() == 16 * symbols.len(),
        is_symbol_at(symtab::symbol_bytes(symbols), 16 * i, symbols[i]),
    decreases symbols.len(),
{
    let table = symtab::symbol_bytes(symbols);
    let rest = symtab::symbol_bytes(symbols.drop_last());
    symtab::symbols_are_16_bytes(symbols);
    symtab::symbols_are_16_bytes(symbols.drop_last());
    let (whole, at) = if i < symbols.len() - 1 {
        symbols_read_back(symbols.drop_last(), i);
        (rest, 0)
    } else {
        lemma_symbol(symbols[i]);
        (symbols[i].bytes(), 16 * i)
    };
    let inner = 16 * i - at;
    assert(table.subrange(at, at + whole.len()) =~= whole);
    bytes::part_of_whole(table, at, whole, inner, 4);
    bytes::part_of_whole(table, at, whole, inner + 4, 1);
    bytes::part_of_whole(table, at, whole, inner + 5, 1);
    bytes::part_of_whole(table, at, whole, inner + 6, 2);
    bytes::part_of_whole(table, at, whole, inner + 8, 8);
}

/// The relocation with number `i` is found at its place: the address and the packed number.
pub proof fn relocations_read_back(rs: Seq<RelocationInfo>, i: int)
    requires
        0 <= i < rs.len(),
    ensures
        writer::relocation_bytes(rs).len() == 8 * rs.len(),
        bytes::field(writer::relocation_bytes(rs), 8 * i, 4) == rs[i].address,
        bytes::field(writer::relocation_bytes(rs), 8 * i + 4, 4) == rs[i].info,
    decreases rs.len(),
{
    let table = writer::relocation_bytes(rs);
    let rest = writer::relocation_bytes(rs.drop_last());
    let none = Seq::<u8>::empty();
    writer::lemma_relocation_bytes_len(rs);
    writer::lemma_relocation_bytes_len(rs.drop_last());
    if i < rs.len() - 1 {
        relocations_read_back(rs.drop_last(), i);
        assert(table.subrange(0, rest.len() as int) =~= rest);
        bytes::part_of_whole(table, 0, rest, 8 * i, 4);
        bytes::part_of_whole(table, 0, rest, 8 * i + 4, 4);
    } else {
        let a = bytes::le_32(rs[i].address);
        let b = bytes::le_32(rs[i].info);
        bytes::le_bytes_len(rs[i].address as int, 4);
        bytes::le_bytes_len(rs[i].info as int, 4);
        assert(table =~= rest + a + b);
        bytes::fields_read_back(rest, rs[i].address as int, 4, b);
        assert(table =~= (rest + a) + b + none);
        bytes::fields_read_back(rest + a, rs[i].info as int, 4, none);
    }
}

/// The length of a place, by its number: the binary logarithm of its bytes.
pub proof fn lengths_are_logarithms(l: RelocationLength)
    ensures
        vstd::arithmetic::power2::pow2(l.code() as nat) == match l {
            RelocationLength::L1 => 1int,
            RelocationLength::L2 => 2,
            RelocationLength::L4 => 4,
            RelocationLength::L8 => 8,
        },
{
    vstd::arithmetic::power2::lemma2_to64();
}

/// The bytes of a name up to the first zero byte.
pub open spec fn letters(name: Name) -> Seq<char> {
    match name {
        Name::TextSegment => "__TEXT"@,
        Name::TextSection => "__text"@,
        Name::ConstSection => "__const"@,
        Name::DataSegment => "__DATA"@,
        Name::DataSection => "__data"@,
    }
}

/// A name fills 16 bytes, with zero bytes behind its letters.
pub proof fn names_are_spelled(name: Name)
    ensures
        name.spec_bytes().len() == 16,
        letters(name).len() < 16,
        forall|i: int|
            0 <= i < letters(name).len() ==> (#[trigger] name.spec_bytes()[i]) as char == letters(
                name,
            )[i],
        forall|i: int| letters(name).len() <= i < 16 ==> (#[trigger] name.spec_bytes()[i]) == 0,
{
    reveal_strlit("__TEXT");
    reveal_strlit("__text");
    reveal_strlit("__const");
    reveal_strlit("__DATA");
    reveal_strlit("__data");
}

/// The description of a section at `at` (`section_64`), whose contents are stored at
/// `offset`: the names of the section and of its segment, the address, the size, where the
/// contents and the relocations are, and the flags.
pub open spec fn is_section_at(
    b: Seq<u8>,
    at: int,
    s: SectionView,
    segment: Name,
    offset: int,
) -> bool {
    &&& b.subrange(at, at + 16) =~= s.section_name.spec_bytes()
    &&& b.subrange(at + 16, at + 32) =~= segment.spec_bytes()
    &&& bytes::field(b, at + 32, 8) == s.section_addr
    &&& bytes::field(b, at + 40, 8) == s.contents.len()
    &&& bytes::field(b, at + 48, 4) == offset
    &&& bytes::field(b, at + 52, 4) == s.alignment
    &&& bytes::field(b, at + 56, 4) == offset + s.contents.len()
    &&& bytes::field(b, at + 60, 4) == s.relocations.len()
    &&& bytes::field(b, at + 64, 4) == s.flag
}

/// The fields of the description of a section are found in it.
pub proof fn section_headers_read_back(s: SectionView, segment: Name, offset: int)
    requires
        0 <= offset,
        offset + s.content_size() <= u32::MAX,
    ensures
        s.header_bytes(segment, offset).len() == 80,
        is_section_at(s.header_bytes(segment, offset), 0, s, segment, offset),
{
    let b = s.header_bytes(segment, offset);
    writer::section_headers_have_their_size(s, segment, offset);
    names_are_spelled(s.section_name);
    names_are_spelled(segment);
    let n = s.contents.len() as int;
    let names = s.section_name.spec_bytes() + segment.spec_bytes();
    let zeros = seq![0u8, 0u8, 0u8, 0u8, 0u8, 0u8, 0u8, 0u8, 0u8, 0u8, 0u8, 0u8];
    bytes::le_bytes_len(s.section_addr as int, 8);
    bytes::le_bytes_len(n, 8);
    bytes::le_bytes_len(offset, 4);
    bytes::le_bytes_len(s.alignment as int, 4);
    bytes::le_bytes_len(offset + n, 4);
    bytes::le_bytes_len(s.relocations.len() as int, 4);
    bytes::le_bytes_len(s.flag as int, 4);
    let b0 = bytes::le_bytes(s.section_addr as int, 8);
    let b1 = bytes::le_bytes(n, 8);
    let b2 = bytes::le_bytes(offset, 4);
    let b3 = bytes::le_bytes(s.alignment as int, 4);
    let b4 = bytes::le_bytes(offset + n, 4);
    let b5 = bytes::le_bytes(s.relocations.len() as int, 4);
    let b6 = bytes::le_bytes(s.flag as int, 4);
    let r3 = b4 + b5 + b6 + zeros;
    assert(b =~= names + b0 + (b1 + b2 + b3 + r3));
    bytes::fields_read_back(names, s.section_addr as int, 8, b1 + b2 + b3 + r3);
    assert(b =~= (names + b0) + b1 + (b2 + b3 + r3));
    bytes::fields_read_back(names + b0, n, 8, b2 + b3 + r3);
    assert(b =~= (names + b0 + b1) + b2 + (b3 + r3));
    bytes::fields_read_back(names + b0 + b1, offset, 4, b3 + r3);
    let l3 = names + b0 + b1 + b2;
    assert(b =~= l3 + b3 + r3);
    bytes::fields_read_back(l3, s.alignment as int, 4, r3);
    assert(b =~= (l3 + b3) + b4 + (b5 + b6 + zeros));
    bytes::fields_read_back(l3 + b3, offset + n, 4, b5 + b6 + zeros);
    assert(b =~= (l3 + b3 + b4) + b5 + (b6 + zeros));
    bytes::fields_read_back(l3 + b3 + b4, s.relocations.len() as int, 4, b6 + zeros);
    assert(b =~= (l3 + b3 + b4 + b5) + b6 + zeros);
    bytes::fields_read_back(l3 + b3 + b4 + b5, s.flag as int, 4, zeros);
    assert(b.subrange(0, 16) =~= s.section_name.spec_bytes());
    assert(b.subrange(16, 32) =~= segment.spec_bytes());
}

/// What memory can be used for, one bit each (`VM_PROT_*`).
pub open spec fn permissions(n: int) -> PermissionFlags {
    PermissionFlags { read: n % 2 == 1, write: n / 2 % 2 == 1, execute: n / 4 % 2 == 1 }
}

/// The description of a segment at `at` without the command before it
/// (`segment_command_64`): the name, the address and the size in memory, where its contents
/// are stored, what the memory can be used for, and how many sections follow.
pub open spec fn is_segment_at(b: Seq<u8>, at: int, s: SegmentView, offset: int) -> bool {
    &&& b.subrange(at, at + 16) =~= s.segment_name.spec_bytes()
    &&& bytes::field(b, at + 16, 8) == s.vmaddr
    &&& bytes::field(b, at + 24, 8) == s.vmsize
    &&& bytes::field(b, at + 32, 8) == offset
    &&& bytes::field(b, at + 40, 8) == writer::sections_filesize(s.sections)
    &&& permissions(bytes::field(b, at + 48, 4)) == s.max_vmem_prot
    &&& permissions(bytes::field(b, at + 52, 4)) == s.init_vmem_prot
    &&& bytes::field(b, at + 56, 4) == s.sections.len()
    &&& bytes::field(b, at + 60, 4) == s.flags.0
}

#[verifier::spinoff_prover]
#[verifier::rlimit(80)]
proof fn lemma_segment(s: SegmentView, offset: int)
    requires
        0 <= offset,
        offset + writer::sections_size(s.sections) <= u32::MAX,
        s.sections.len() <= u32::MAX,
    ensures
        s.header_bytes(offset).len() == 64 + 80 * s.sections.len(),
        s.header_bytes(offset).skip(64) =~= writer::sections_headers(
            s.sections,
            s.segment_name,
            offset,
        ),
        is_segment_at(s.header_bytes(offset), 0, s, offset),
{
    let b = s.header_bytes(offset);
    let name = s.segment_name.spec_bytes();
    let filesize = writer::sections_filesize(s.sections);
    writer::lemma_sections_grow(s.sections, s.sections.len() as int);
    assert(s.sections.take(s.sections.len() as int) =~= s.sections);
    writer::lemma_sections_len(s.sections, s.segment_name, offset);
    names_are_spelled(s.segment_name);
    bytes::le_bytes_len(s.vmaddr as int, 8);
    bytes::le_bytes_len(s.vmsize as int, 8);
    bytes::le_bytes_len(offset, 8);
    bytes::le_bytes_len(filesize, 8);
    bytes::le_bytes_len(s.max_vmem_prot.spec_bits() as int, 4);
    bytes::le_bytes_len(s.init_vmem_prot.spec_bits() as int, 4);
    bytes::le_bytes_len(s.sections.len() as int, 4);
    bytes::le_bytes_len(s.flags.0 as int, 4);
    let b0 = bytes::le_bytes(s.vmaddr as int, 8);
    let b1 = bytes::le_bytes(s.vmsize as int, 8);
    let b2 = bytes::le_bytes(offset, 8);
    let b3 = bytes::le_bytes(filesize, 8);
    let b4 = bytes::le_bytes(s.max_vmem_prot.spec_bits() as int, 4);
    let b5 = bytes::le_bytes(s.init_vmem_prot.spec_bits() as int, 4);
    let b6 = bytes::le_bytes(s.sections.len() as int, 4);
    let b7 = bytes::le_bytes(s.flags.0 as int, 4);
    let tail = writer::sections_headers(s.sections, s.segment_name, offset);
    let r3 = b4 + b5 + b6 + b7 + tail;
    let l3 = name + b0 + b1 + b2;
    assert(b =~= name + b0 + (b1 + b2 + b3 + r3));
    bytes::fields_read_back(name, s.vmaddr as int, 8, b1 + b2 + b3 + r3);
    assert(b =~= (name + b0) + b1 + (b2 + b3 + r3));
    bytes::fields_read_back(name + b0, s.vmsize as int, 8, b2 + b3 + r3);
    assert(b =~= (name + b0 + b1) + b2 + (b3 + r3));
    bytes::fields_read_back(name + b0 + b1, offset, 8, b3 + r3);
    assert(b =~= l3 + b3 + r3);
    bytes::fields_read_back(l3, filesize, 8, r3);
    assert(b =~= (l3 + b3) + b4 + (b5 + b6 + b7 + tail));
    bytes::fields_read_back(
        l3 + b3,
        s.max_vmem_prot.spec_bits() as int,
        4,
        b5 + b6 + b7 + tail,
    );
    assert(b =~= (l3 + b3 + b4) + b5 + (b6 + b7 + tail));
    bytes::fields_read_back(
        l3 + b3 + b4,
        s.init_vmem_prot.spec_bits() as int,
        4,
        b6 + b7 + tail,
    );
    assert(b =~= (l3 + b3 + b4 + b5) + b6 + (b7 + tail));
    bytes::fields_read_back(l3 + b3 + b4 + b5, s.sections.len() as int, 4, b7 + tail);
    assert(b =~= (l3 + b3 + b4 + b5 + b6) + b7 + tail);
    bytes::fields_read_back(l3 + b3 + b4 + b5 + b6, s.flags.0 as int, 4, tail);
    assert(b.subrange(0, 16) =~= name);
}

proof fn lemma_sections_headers(sections: Seq<SectionView>, name: Name, offset: int, i: int)
    requires
        0 <= i < sections.len(),
        0 <= offset,
        offset + writer::sections_size(sections) <= u32::MAX,
    ensures
        writer::sections_headers(sections, name, offset).subrange(80 * i, 80 * i + 80)
            =~= sections[i].header_bytes(name, offset + writer::sections_size(sections.take(i))),
        0 <= writer::sections_size(sections.take(i)),
        writer::sections_size(sections.take(i)) + sections[i].content_size()
            <= writer::sections_size(sections),
    decreases sections.len(),
{
    let all = writer::sections_headers(sections, name, offset);
    let rest = writer::sections_headers(sections.drop_last(), name, offset);
    writer::lemma_sections_len(sections, name, offset);
    writer::lemma_sections_len(sections.drop_last(), name, offset);
    writer::lemma_sections_grow(sections, i);
    if i < sections.len() - 1 {
        lemma_sections_headers(sections.drop_last(), name, offset, i);
        assert(sections.drop_last().take(i) =~= sections.take(i));
        assert(all.subrange(80 * i, 80 * i + 80) =~= rest.subrange(80 * i, 80 * i + 80));
    } else {
        assert(sections.drop_last() =~= sections.take(i));
        writer::section_headers_have_their_size(
            sections[i],
            name,
            offset + writer::sections_size(sections.take(i)),
        );
    }
}

/// Whoever reads the description of a segment finds what was said of it, and of each of
/// its sections, one after the other.
pub proof fn segments_read_back(s: SegmentView, offset: int, i: int)
    requires
        0 <= i < s.sections.len() <= u32::MAX,
        0 <= offset,
        offset + writer::sections_size(s.sections) <= u32::MAX,
    ensures
        is_segment_at(s.header_bytes(offset), 0, s, offset),
        is_section_at(
            s.header_bytes(offset),
            64 + 80 * i,
            s.sections[i],
            s.segment_name,
            offset + writer::sections_size(s.sections.take(i)),
        ),
{
    let b = s.header_bytes(offset);
    lemma_segment(s, offset);
    lemma_sections_headers(s.sections, s.segment_name, offset, i);
    let own = offset + writer::sections_size(s.sections.take(i));
    let part = s.sections[i].header_bytes(s.segment_name, own);
    section_headers_read_back(s.sections[i], s.segment_name, own);
    let at = 64 + 80 * i;
    assert(b.subrange(at, at + 80) =~= b.skip(64).subrange(80 * i, 80 * i + 80));
    assert(b.subrange(at, at + 16) =~= part.subrange(0, 16));
    assert(b.subrange(at + 16, at + 32) =~= part.subrange(16, 32));
    bytes::part_of_whole(b, at, part, 32, 8);
    bytes::part_of_whole(b, at, part, 40, 8);
    bytes::part_of_whole(b, at, part, 48, 4);
    bytes::part_of_whole(b, at, part, 52, 4);
    bytes::part_of_whole(b, at, part, 56, 4);
    bytes::part_of_whole(b, at, part, 60, 4);
    bytes::part_of_whole(b, at, part, 64, 4);
}

/// The contents of a section lie where its description says, and its relocations behind
/// them.
pub proof fn section_contents_are_found(sections: Seq<SectionView>, i: int)
    requires
        0 <= i < sections.len(),
    ensures
        ({
            let all = writer::sections_content(sections);
            let at = writer::sections_size(sections.take(i));
            let s = sections[i];
            let end = at + s.contents.len();
            &&& 0 <= at
            &&& end + 8 * s.relocations.len() <= all.len()
            &&& all.subrange(at, end) =~= s.contents
            &&& all.subrange(end, end + 8 * s.relocations.len()) =~= writer::relocation_bytes(
                s.relocations,
            )
        }),
    decreases sections.len(),
{
    let all = writer::sections_content(sections);
    let rest = writer::sections_content(sections.drop_last());
    let name = Name::TextSegment;
    let at = writer::sections_size(sections.take(i));
    let end = at + sections[i].contents.len();
    let last = end + 8 * sections[i].relocations.len();
    writer::lemma_sections_len(sections, name, 0);
    writer::lemma_sections_len(sections.drop_last(), name, 0);
    writer::lemma_sections_grow(sections, i);
    writer::lemma_relocation_bytes_len(sections[i].relocations);
    if i < sections.len() - 1 {
        section_contents_are_found(sections.drop_last(), i);
        assert(sections.drop_last().take(i) =~= sections.take(i));
        assert(all.subrange(at, end) =~= rest.subrange(at, end));
        assert(all.subrange(end, last) =~= rest.subrange(end, last));
    } else {
        assert(sections.drop_last() =~= sections.take(i));
    }
}

/// Where the symbols and the strings are (`symtab_command`), when they are stored at
/// `offset`: the symbols and how many there are, the strings and how many bytes they take.
pub proof fn symbol_tables_are_found(t: SymTabView, offset: int, i: int)
    requires
        0 <= offset,
        offset + t.content_size() <= u32::MAX,
        0 <= i < t.symbols.len(),
    ensures
        ({
            let b = t.command_bytes(offset);
            let content = t.content_bytes();
            let symbols_at = bytes::field(b, 0, 4) - offset;
            let strings_at = bytes::field(b, 8, 4) - offset;
            &&& b.len() == 16
            &&& symbols_at == 0
            &&& bytes::field(b, 4, 4) == t.symbols.len()
            &&& bytes::field(b, 12, 4) == t.s.len()
            &&& is_symbol_at(content, symbols_at + 16 * i, t.symbols[i])
            &&& content.subrange(strings_at, strings_at + t.s.len()) =~= t.s
        }),
{
    let b = t.command_bytes(offset);
    let none = Seq::<u8>::empty();
    let n = t.symbols.len() as int;
    bytes::le_bytes_len(offset, 4);
    bytes::le_bytes_len(n, 4);
    bytes::le_bytes_len(offset + 16 * n, 4);
    bytes::le_bytes_len(t.s.len() as int, 4);
    let b0 = bytes::le_bytes(offset, 4);
    let b1 = bytes::le_bytes(n, 4);
    let b2 = bytes::le_bytes(offset + 16 * n, 4);
    let b3 = bytes::le_bytes(t.s.len() as int, 4);
    assert(b =~= none + b0 + (b1 + b2 + b3));
    bytes::fields_read_back(none, offset, 4, b1 + b2 + b3);
    assert(b =~= b0 + b1 + (b2 + b3));
    bytes::fields_read_back(b0, n, 4, b2 + b3);
    assert(b =~= (b0 + b1) + b2 + b3);
    bytes::fields_read_back(b0 + b1, offset + 16 * n, 4, b3);
    assert(b =~= (b0 + b1 + b2) + b3 + none);
    bytes::fields_read_back(b0 + b1 + b2, t.s.len() as int, 4, none);
    symbols_read_back(t.symbols, i);
    let content = t.content_bytes();
    let table = symtab::symbol_bytes(t.symbols);
    assert(content.subrange(0, table.len() as int) =~= table);
    bytes::part_of_whole(content, 0, table, 16 * i, 4);
    bytes::part_of_whole(content, 0, table, 16 * i + 4, 1);
    bytes::part_of_whole(content, 0, table, 16 * i + 5, 1);
    bytes::part_of_whole(content, 0, table, 16 * i + 6, 2);
    bytes::part_of_whole(content, 0, table, 16 * i + 8, 8);
    assert(content.subrange(16 * n, 16 * n + t.s.len()) =~= t.s);
}

/// The processor with a number: the wide ones are marked (`CPU_ARCH_ABI64`).
pub open spec fn processor_numbered(n: int) -> Option<CpuType> {
    let wide = n >= 0x100_0000;
    let family = n % 0x100_0000;
    if n >= 0x200_0000 {
        None
    } else if family == 7 {
        Some(
            if wide {
                CpuType::X86_64
            } else {
                CpuType::X86
            },
        )
    } else if family == 12 {
        Some(
            if wide {
                CpuType::Arm64
            } else {
                CpuType::Arm
            },
        )
    } else {
        None
    }
}

/// The start of the file (`mach_header_64`): a file of 64 bits for the processor, an object
/// to be linked, with so many commands that take so many bytes, and no flags.
pub proof fn file_starts_read_back(cpu: CpuType, count: int, size: int)
    requires
        0 <= count <= u32::MAX,
        0 <= size <= u32::MAX,
    ensures
        ({
            let b = writer::file_header(cpu, count, size);
            &&& b.len() == 32
            &&& bytes::field(b, 0, 4) == 0xfeed_facf
            &&& processor_numbered(bytes::field(b, 4, 4)) == Some(cpu)
            &&& bytes::field(b, 8, 4) == 0
            &&& bytes::field(b, 12, 4) == 1
            &&& bytes::field(b, 16, 4) == count
            &&& bytes::field(b, 20, 4) == size
            &&& bytes::field(b, 24, 4) == 0
        }),
{
    let b = writer::file_header(cpu, count, size);
    let code = cpu.code() as int;
    let z = bytes::le_bytes(0, 4);
    bytes::le_bytes_len(0xfeed_facf, 4);
    bytes::le_bytes_len(code, 4);
    bytes::le_bytes_len(0, 4);
    bytes::le_bytes_len(1, 4);
    bytes::le_bytes_len(count, 4);
    bytes::le_bytes_len(size, 4);
    let b0 = bytes::le_bytes(0xfeed_facf, 4);
    let b1 = bytes::le_bytes(code, 4);
    let b3 = bytes::le_bytes(1, 4);
    let b4 = bytes::le_bytes(count, 4);
    let b5 = bytes::le_bytes(size, 4);
    let none = Seq::<u8>::empty();
    let tail = b4 + b5 + z + z;
    assert(b =~= none + b0 + (b1 + z + b3 + tail));
    bytes::fields_read_back(none, 0xfeed_facf, 4, b1 + z + b3 + tail);
    assert(b =~= b0 + b1 + (z + b3 + tail));
    bytes::fields_read_back(b0, code, 4, z + b3 + tail);
    assert(b =~= (b0 + b1) + z + (b3 + tail));
    bytes::fields_read_back(b0 + b1, 0, 4, b3 + tail);
    assert(b =~= (b0 + b1 + z) + b3 + tail);
    bytes::fields_read_back(b0 + b1 + z, 1, 4, tail);
    let l4 = b0 + b1 + z + b3;
    assert(b =~= l4 + b4 + (b5 + z + z));
    bytes::fields_read_back(l4, count, 4, b5 + z + z);
    assert(b =~= (l4 + b4) + b5 + (z + z));
    bytes::fields_read_back(l4 + b4, size, 4, z + z);
    assert(b =~= (l4 + b4 + b5) + z + z);
    bytes::fields_read_back(l4 + b4 + b5, 0, 4, z);
}

/// A command (`load_command`): its kind, where the highest bit tells those that a loader has
/// to understand, and how many bytes it takes with what follows.
pub proof fn commands_read_back(c: CommandView, offset: int)
    requires
        c.spec_size() <= u32::MAX,
    ensures
        ({
            let b = c.bytes(offset);
            let kind = bytes::field(b, 0, 4);
            &&& bytes::field(b, 4, 4) == b.len()
            &&& kind >= 0x8000_0000 <==> c.necessary_for_loading
            &&& kind % 0x8000_0000 == 0x19 <==> c.content is Segment
            &&& kind % 0x8000_0000 == 0x2 <==> c.content is SymTab
            &&& b.skip(8) =~= match c.content {
                ContentView::Segment(segment) => segment.header_bytes(offset),
                ContentView::SymTab(symtab) => symtab.command_bytes(offset),
            }
        }),
{
    let b = c.bytes(offset);
    let none = Seq::<u8>::empty();
    let rest = match c.content {
        ContentView::Segment(segment) => segment.header_bytes(offset),
        ContentView::SymTab(symtab) => symtab.command_bytes(offset),
    };
    writer::commands_have_their_size(c, offset);
    bytes::le_bytes_len(c.type_code() as int, 4);
    bytes::le_bytes_len(c.spec_size(), 4);
    let b0 = bytes::le_bytes(c.type_code() as int, 4);
    let b1 = bytes::le_bytes(c.spec_size(), 4);
    assert(b =~= none + b0 + (b1 + rest));
    bytes::fields_read_back(none, c.type_code() as int, 4, b1 + rest);
    assert(b =~= b0 + b1 + rest);
    bytes::fields_read_back(b0, c.spec_size(), 4, rest);
}

} // verus!
