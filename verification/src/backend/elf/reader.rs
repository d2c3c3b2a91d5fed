//! How an object file is read: where the format has its fields, and that what was
//! written is found there.
use vstd::prelude::*;

use crate::backend::bytes;
use crate::backend::elf::relocation;
use crate::backend::elf::relocation::{Rela, RelaType};
use crate::backend::elf::symtab;
use crate::backend::elf::symtab::{Bind, Entry, Type, Visibility};
use crate::backend::elf::writer;
use crate::backend::elf::writer::{
    ElfView,
    HeaderView,
    SectionHeaderFlags,
    SectionHeaderType,
    SectionView,
};

verus! {

/// The binding with a number of the format (`STB_*`).
pub open spec fn bind_numbered(n: int) -> Option<Bind> {
    if n == 0 {
        Some(Bind::Local)
    } else if n == 1 {
        Some(Bind::Global)
    } else if n == 2 {
        Some(Bind::Weak)
    } else if n == 3 {
        Some(Bind::Num)
    } else {
        None
    }
}

/// The type of a symbol with a number of the format (`STT_*`).
pub open spec fn type_numbered(n: int) -> Option<Type> {
    if n == 0 {
        Some(Type::NoType)
    } else if n == 1 {
        Some(Type::Object)
    } else if n == 2 {
        Some(Type::Function)
    } else if n == 3 {
        Some(Type::Section)
    } else if n == 4 {
        Some(Type::File)
    } else if n == 5 {
        Some(Type::Common)
    } else if n == 6 {
        Some(Type::Tls)
    } else if n == 7 {
        Some(Type::NumTypes)
    } else {
        None
    }
}

/// The visibility with a number of the format (`STV_*`).
pub open spec fn visibility_numbered(n: int) -> Option<Visibility> {
    if n == 0 {
        Some(Visibility::Default)
    } else if n == 1 {
        Some(Visibility::Internal)
    } else if n == 2 {
        Some(Visibility::Hiddden)
    } else if n == 3 {
        Some(Visibility::Protected)
    } else {
        None
    }
}

/// A symbol at `at` (`Elf64_Sym`): the name, a byte with the binding in its upper
/// and the type in its lower half, the visibility, the section, the value and the
/// size.
pub open spec fn is_symbol_at(table: Seq<u8>, at: int, e: Entry) -> bool {
    &&& bytes::field(table, at, 4) == e.name_index
    &&& bind_numbered(bytes::field(table, at + 4, 1) / 16) == Some(e.bind)
    &&& type_numbered(bytes::field(table, at + 4, 1) % 16) == Some(e.ty)
    &&& visibility_numbered(bytes::field(table, at + 5, 1)) == Some(e.visibility)
    &&& bytes::field(table, at + 6, 2) == e.section_index.0
    &&& bytes::field(table, at + 8, 8) == e.value
    &&& bytes::field(table, at + 16, 8) == e.size
}

/// The symbol with index `i` is found at its place in the table, with all its
/// fields: in particular its value is the value of the symbol and not its size.
pub proof fn symbols_read_back(entries: Seq<Entry>, i: int)
    requires
        0 <= i < entries.len(),
    ensures
        is_symbol_at(symtab::table_bytes(entries), 24 * i, entries[i]),
{
    let table = symtab::table_bytes(entries);
    symtab::entries_are_24_bytes(entries, i);
    let e = entries[i];
    let b = e.bytes();
    let name = bytes::le_32(e.name_index);
    let info = (16 * e.bind.code() + e.ty.code()) as u8;
    let other = e.visibility.code();
    let section = bytes::le_16(e.section_index.0);
    let value = bytes::le_64(e.value);
    let size = bytes::le_64(e.size);
    bytes::le_bytes_len(e.name_index as int, 4);
    bytes::le_bytes_len(e.section_index.0 as int, 2);
    bytes::le_bytes_len(e.value as int, 8);
    bytes::le_bytes_len(e.size as int, 8);
    let none = Seq::<u8>::empty();
    let two = seq![info, other];
    assert(b =~= none + name + (two + section + value + size));
    bytes::fields_read_back(none, e.name_index as int, 4, two + section + value + size);
    assert(b =~= name + seq![info] + (seq![other] + section + value + size));
    bytes::byte_reads_back(name, info, seq![other] + section + value + size);
    assert(b =~= (name + seq![info]) + seq![other] + (section + value + size));
    bytes::byte_reads_back(name + seq![info], other, section + value + size);
    assert(b =~= (name + two) + section + (value + size));
    bytes::fields_read_back(name + two, e.section_index.0 as int, 2, value + size);
    assert(b =~= (name + two + section) + value + size);
    bytes::fields_read_back(name + two + section, e.value as int, 8, size);
    assert(b =~= (name + two + section + value) + size + none);
    bytes::fields_read_back(name + two + section + value, e.size as int, 8, none);
    bytes::part_of_whole(table, 24 * i, b, 0, 4);
    bytes::part_of_whole(table, 24 * i, b, 4, 1);
    bytes::part_of_whole(table, 24 * i, b, 5, 1);
    bytes::part_of_whole(table, 24 * i, b, 6, 2);
    bytes::part_of_whole(table, 24 * i, b, 8, 8);
    bytes::part_of_whole(table, 24 * i, b, 16, 8);
}

/// The kind of relocation with a number of the format (`R_X86_64_*`).
pub open spec fn relocation_numbered(n: int) -> Option<RelaType> {
    if n == 2 {
        Some(RelaType::X86_64PC32)
    } else if n == 4 {
        Some(RelaType::X86_64Plt32)
    } else {
        None
    }
}

/// A number of 64 bits read with its sign.
pub open spec fn signed_64(n: int) -> int {
    if n < 0x8000_0000_0000_0000 {
        n
    } else {
        n - 0x1_0000_0000_0000_0000
    }
}

/// A relocation at `at` (`Elf64_Rela`): the place, the kind in the lower and the
/// symbol in the upper half of the next field, and what is added.
pub open spec fn is_relocation_at(table: Seq<u8>, at: int, r: Rela) -> bool {
    &&& bytes::field(table, at, 8) == r.r_offset
    &&& relocation_numbered(bytes::field(table, at + 8, 8) % 0x1_0000_0000) == Some(r.ty)
    &&& bytes::field(table, at + 8, 8) / 0x1_0000_0000 == r.sym.0
    &&& signed_64(bytes::field(table, at + 16, 8)) == r.r_addend
}

proof fn lemma_rela_len(entries: Seq<Rela>)
    ensures
        relocation::rela_bytes(entries).len() == 24 * entries.len(),
    decreases entries.len(),
{
    if entries.len() > 0 {
        lemma_rela_len(entries.drop_last());
        let e = entries.last();
        bytes::le_bytes_len(e.r_offset as int, 8);
        bytes::le_bytes_len(
            (0x1_0000_0000 * e.sym.0 + e.ty.code()) as u64 as int,
            8,
        );
        bytes::le_bytes_len((e.r_addend as int % 0x1_0000_0000_0000_0000) as u64 as int, 8);
    }
}

/// The relocation with index `i` is found at its place, with all its fields.
pub proof fn relocations_read_back(entries: Seq<Rela>, i: int)
    requires
        0 <= i < entries.len(),
    ensures
        relocation::rela_bytes(entries).len() == 24 * entries.len(),
        is_relocation_at(relocation::rela_bytes(entries), 24 * i, entries[i]),
    decreases entries.len(),
{
    let table = relocation::rela_bytes(entries);
    let rest = entries.drop_last();
    lemma_rela_len(entries);
    lemma_rela_len(rest);
    if i < entries.len() - 1 {
        relocations_read_back(rest, i);
        let before = relocation::rela_bytes(rest);
        assert(table.subrange(0, before.len() as int) =~= before);
        bytes::part_of_whole(table, 0, before, 24 * i, 8);
        bytes::part_of_whole(table, 0, before, 24 * i + 8, 8);
        bytes::part_of_whole(table, 0, before, 24 * i + 16, 8);
    } else {
        let r = entries[i];
        let none = Seq::<u8>::empty();
        let start = relocation::rela_bytes(rest);
        let info = 0x1_0000_0000 * r.sym.0 + r.ty.code();
        let added = r.r_addend as int % 0x1_0000_0000_0000_0000;
        bytes::le_bytes_len(r.r_offset as int, 8);
        bytes::le_bytes_len(info, 8);
        bytes::le_bytes_len(added, 8);
        let b1 = bytes::le_bytes(r.r_offset as int, 8);
        let b2 = bytes::le_bytes(info, 8);
        let b3 = bytes::le_bytes(added, 8);
        assert(table =~= start + b1 + (b2 + b3));
        bytes::fields_read_back(start, r.r_offset as int, 8, b2 + b3);
        assert(table =~= (start + b1) + b2 + b3);
        bytes::fields_read_back(start + b1, info, 8, b3);
        assert(table =~= (start + b1 + b2) + b3 + none);
        bytes::fields_read_back(start + b1 + b2, added, 8, none);
    }
}

/// The type of a section with a number of the format (`SHT_*`).
pub open spec fn section_type_numbered(n: int) -> Option<SectionHeaderType> {
    if n == 0 {
        Some(SectionHeaderType::Null)
    } else if n == 1 {
        Some(SectionHeaderType::Progbits)
    } else if n == 2 {
        Some(SectionHeaderType::SymTab)
    } else if n == 3 {
        Some(SectionHeaderType::StrTab)
    } else if n == 4 {
        Some(SectionHeaderType::RelA)
    } else {
        None
    }
}

/// The flags as bits of the format: `SHF_WRITE`, `SHF_ALLOC`, `SHF_EXECINSTR`,
/// and for strings `SHF_MERGE` and `SHF_STRINGS` one bit below their own.
pub open spec fn flags_of(n: int) -> SectionHeaderFlags {
    SectionHeaderFlags {
        write: n % 2 == 1,
        alloc: n / 2 % 2 == 1,
        execinstr: n / 4 % 2 == 1,
        merge: n / 8 % 2 == 1,
        strings: n / 16 % 2 == 1,
    }
}

/// The header of a section at `at` (`Elf64_Shdr`).
pub open spec fn is_header_at(
    file: Seq<u8>,
    at: int,
    h: HeaderView,
    name_index: u32,
    offset: u64,
    size: u64,
) -> bool {
    &&& bytes::field(file, at, 4) == name_index
    &&& section_type_numbered(bytes::field(file, at + 4, 4)) == Some(h.ty)
    &&& flags_of(bytes::field(file, at + 8, 8)) == h.flags
    &&& bytes::field(file, at + 16, 8) == h.addr
    &&& bytes::field(file, at + 24, 8) == offset
    &&& bytes::field(file, at + 32, 8) == size
    &&& bytes::field(file, at + 40, 4) == h.link.0
    &&& bytes::field(file, at + 44, 4) == h.info
    &&& bytes::field(file, at + 48, 8) == h.addralign
    &&& bytes::field(file, at + 56, 8) == h.entsize
}

/// The fields of a header are found in it.
pub proof fn headers_read_back(h: HeaderView, name_index: u32, offset: u64, size: u64)
    ensures
        h.bytes(name_index, offset, size).len() == 64,
        is_header_at(h.bytes(name_index, offset, size), 0, h, name_index, offset, size),
{
    let b = h.bytes(name_index, offset, size);
    let none = Seq::<u8>::empty();
    bytes::le_bytes_len(name_index as int, 4);
    bytes::le_bytes_len(h.ty.code() as int, 4);
    bytes::le_bytes_len(h.flags.spec_bits() as int, 8);
    bytes::le_bytes_len(h.addr as int, 8);
    bytes::le_bytes_len(offset as int, 8);
    bytes::le_bytes_len(size as int, 8);
    bytes::le_bytes_len(h.link.0 as int, 4);
    bytes::le_bytes_len(h.info as int, 4);
    bytes::le_bytes_len(h.addralign as int, 8);
    bytes::le_bytes_len(h.entsize as int, 8);
    let b0 = bytes::le_32(name_index);
    let b1 = bytes::le_32(h.ty.code());
    let b2 = bytes::le_64(h.flags.spec_bits());
    let b3 = bytes::le_64(h.addr);
    let b4 = bytes::le_64(offset);
    let b5 = bytes::le_64(size);
    let b6 = bytes::le_32(h.link.0 as u32);
    let b7 = bytes::le_32(h.info);
    let b8 = bytes::le_64(h.addralign);
    let b9 = bytes::le_64(h.entsize);
    let r1 = b2 + b3 + b4 + b5 + b6 + b7 + b8 + b9;
    let l4 = b0 + b1 + b2 + b3;
    let r4 = b5 + b6 + b7 + b8 + b9;
    let l7 = b0 + b1 + b2 + b3 + b4 + b5 + b6;
    assert(b =~= none + b0 + (b1 + r1));
    bytes::fields_read_back(none, name_index as int, 4, b1 + r1);
    assert(b =~= b0 + b1 + r1);
    bytes::fields_read_back(b0, h.ty.code() as int, 4, r1);
    assert(b =~= (b0 + b1) + b2 + (b3 + b4 + r4));
    bytes::fields_read_back(b0 + b1, h.flags.spec_bits() as int, 8, b3 + b4 + r4);
    assert(b =~= (b0 + b1 + b2) + b3 + (b4 + r4));
    bytes::fields_read_back(b0 + b1 + b2, h.addr as int, 8, b4 + r4);
    assert(b =~= l4 + b4 + r4);
    bytes::fields_read_back(l4, offset as int, 8, r4);
    assert(b =~= (l4 + b4) + b5 + (b6 + b7 + b8 + b9));
    bytes::fields_read_back(l4 + b4, size as int, 8, b6 + b7 + b8 + b9);
    assert(b =~= (l4 + b4 + b5) + b6 + (b7 + b8 + b9));
    bytes::fields_read_back(l4 + b4 + b5, h.link.0 as int, 4, b7 + b8 + b9);
    assert(b =~= l7 + b7 + (b8 + b9));
    bytes::fields_read_back(l7, h.info as int, 4, b8 + b9);
    assert(b =~= (l7 + b7) + b8 + b9);
    bytes::fields_read_back(l7 + b7, h.addralign as int, 8, b9);
    assert(b =~= (l7 + b7 + b8) + b9 + none);
    bytes::fields_read_back(l7 + b7 + b8, h.entsize as int, 8, none);
}

/// The file begins as the format asks for: a relocatable file of 64 bits for
/// x86-64, least significant byte first, without a program, with the headers of its
/// sections right behind this start and the names of the sections in the one with
/// index 1.
pub open spec fn is_file_start(file: Seq<u8>, sections: int) -> bool {
    &&& file[0] == 0x7f
    &&& file[1] as char == 'E'
    &&& file[2] as char == 'L'
    &&& file[3] as char == 'F'
    &&& bytes::field(file, 4, 1) == 2
    &&& bytes::field(file, 5, 1) == 1
    &&& bytes::field(file, 6, 1) == 1
    &&& bytes::field(file, 7, 1) == 0
    &&& bytes::field(file, 16, 2) == 1
    &&& bytes::field(file, 18, 2) == 62
    &&& bytes::field(file, 20, 4) == 1
    &&& bytes::field(file, 24, 8) == 0
    &&& bytes::field(file, 32, 8) == 0
    &&& bytes::field(file, 40, 8) == 64
    &&& bytes::field(file, 48, 4) == 0
    &&& bytes::field(file, 52, 2) == 64
    &&& bytes::field(file, 56, 2) == 0
    &&& bytes::field(file, 58, 2) == 64
    &&& bytes::field(file, 60, 2) == sections
    &&& bytes::field(file, 62, 2) == 1
}

proof fn lemma_start(n: u16)
    ensures
        file_start(n).len() == 64,
        is_file_start(file_start(n), n as int),
{
    let f = file_start(n);
    let none = Seq::<u8>::empty();
    writer::lemma_file_header_len(n);
    let magic = seq![0x7fu8, 0x45u8, 0x4cu8, 0x46u8];
    let zeros = seq![0u8, 0u8, 0u8, 0u8, 0u8, 0u8, 0u8, 0u8];
    let b0 = magic + seq![2u8, 1u8, 1u8, 0u8] + zeros + seq![1u8, 0u8];
    bytes::le_bytes_len(0x3e, 2);
    bytes::le_bytes_len(1, 4);
    bytes::le_bytes_len(0, 8);
    bytes::le_bytes_len(0x40, 8);
    bytes::le_bytes_len(0, 4);
    bytes::le_bytes_len(64, 2);
    bytes::le_bytes_len(0x38, 2);
    bytes::le_bytes_len(0, 2);
    bytes::le_bytes_len(n as int, 2);
    bytes::le_bytes_len(1, 2);
    let b1 = bytes::le_bytes(0x3e, 2);
    let b2 = bytes::le_bytes(1, 4);
    let b3 = bytes::le_bytes(0, 8);
    let b5 = bytes::le_bytes(0x40, 8);
    let b6 = bytes::le_bytes(0, 4);
    let b7 = bytes::le_bytes(64, 2);
    let b8 = bytes::le_bytes(0x38, 2);
    let b9 = bytes::le_bytes(0, 2);
    let ba = bytes::le_bytes(64, 2);
    let bb = bytes::le_bytes(n as int, 2);
    let bc = bytes::le_bytes(1, 2);
    let tail = b6 + b7 + b8 + b9 + ba + bb + bc;
    assert(f =~= b0 + b1 + (b2 + b3 + b3 + b5 + tail));
    bytes::fields_read_back(b0, 0x3e, 2, b2 + b3 + b3 + b5 + tail);
    assert(f =~= (b0 + b1) + b2 + (b3 + b3 + b5 + tail));
    bytes::fields_read_back(b0 + b1, 1, 4, b3 + b3 + b5 + tail);
    let l3 = b0 + b1 + b2;
    assert(f =~= l3 + b3 + (b3 + b5 + tail));
    bytes::fields_read_back(l3, 0, 8, b3 + b5 + tail);
    assert(f =~= (l3 + b3) + b3 + (b5 + tail));
    bytes::fields_read_back(l3 + b3, 0, 8, b5 + tail);
    assert(f =~= (l3 + b3 + b3) + b5 + tail);
    bytes::fields_read_back(l3 + b3 + b3, 0x40, 8, tail);
    let l6 = l3 + b3 + b3 + b5;
    assert(f =~= l6 + b6 + (b7 + b8 + b9 + ba + bb + bc));
    bytes::fields_read_back(l6, 0, 4, b7 + b8 + b9 + ba + bb + bc);
    assert(f =~= (l6 + b6) + b7 + (b8 + b9 + ba + bb + bc));
    bytes::fields_read_back(l6 + b6, 64, 2, b8 + b9 + ba + bb + bc);
    let l9 = l6 + b6 + b7 + b8;
    assert(f =~= l9 + b9 + (ba + bb + bc));
    bytes::fields_read_back(l9, 0, 2, ba + bb + bc);
    assert(f =~= (l9 + b9) + ba + (bb + bc));
    bytes::fields_read_back(l9 + b9, 64, 2, bb + bc);
    assert(f =~= (l9 + b9 + ba) + bb + bc);
    bytes::fields_read_back(l9 + b9 + ba, n as int, 2, bc);
    assert(f =~= (l9 + b9 + ba + bb) + bc + none);
    bytes::fields_read_back(l9 + b9 + ba + bb, 1, 2, none);
    let rest = f.skip(16);
    assert(f =~= magic + seq![2u8] + (seq![1u8, 1u8, 0u8] + zeros + rest));
    bytes::byte_reads_back(magic, 2, seq![1u8, 1u8, 0u8] + zeros + rest);
    assert(f =~= (magic + seq![2u8]) + seq![1u8] + (seq![1u8, 0u8] + zeros + rest));
    bytes::byte_reads_back(magic + seq![2u8], 1, seq![1u8, 0u8] + zeros + rest);
    assert(f =~= (magic + seq![2u8, 1u8]) + seq![1u8] + (seq![0u8] + zeros + rest));
    bytes::byte_reads_back(magic + seq![2u8, 1u8], 1, seq![0u8] + zeros + rest);
    assert(f =~= (magic + seq![2u8, 1u8, 1u8]) + seq![0u8] + (zeros + rest));
    bytes::byte_reads_back(magic + seq![2u8, 1u8, 1u8], 0, zeros + rest);
    let kind = f.subrange(16, 18);
    assert(kind =~= seq![1u8, 0u8]);
    assert(kind.skip(1) =~= seq![0u8]);
    assert(kind.skip(1).skip(1) =~= none);
    reveal_with_fuel(bytes::le_value, 3);
}

spec fn file_start(n: u16) -> Seq<u8> {
    writer::file_header(n)
}

/// The offset that is written for the section with index `i`.
pub open spec fn written_offset(sections: Seq<SectionView>, start: int, i: int) -> u64 {
    if sections[i].contents.len() == 0 {
        0
    } else {
        (start + writer::all_contents(sections.take(i)).len()) as u64
    }
}

proof fn lemma_header_place(sections: Seq<SectionView>, indices: Seq<u32>, start: int, i: int)
    requires
        indices.len() == sections.len(),
        0 <= i < sections.len(),
    ensures
        writer::all_headers(sections, indices, start).len() == 64 * sections.len(),
        writer::all_headers(sections, indices, start).subrange(64 * i, 64 * i + 64)
            =~= sections[i].header.bytes(
            indices[i],
            written_offset(sections, start, i),
            sections[i].contents.len() as u64,
        ),
    decreases sections.len(),
{
    let all = writer::all_headers(sections, indices, start);
    let rest = writer::all_headers(sections.drop_last(), indices.drop_last(), start);
    writer::lemma_headers_len(sections, indices, start);
    writer::lemma_headers_len(sections.drop_last(), indices.drop_last(), start);
    if i < sections.len() - 1 {
        lemma_header_place(sections.drop_last(), indices.drop_last(), start, i);
        assert(sections.drop_last().take(i) =~= sections.take(i));
        assert(all.subrange(64 * i, 64 * i + 64) =~= rest.subrange(64 * i, 64 * i + 64));
    } else {
        assert(sections.drop_last() =~= sections.take(i));
        headers_read_back(
            sections[i].header,
            indices[i],
            written_offset(sections, start, i),
            sections[i].contents.len() as u64,
        );
    }
}

/// The string at `at` is `s`, with a zero byte behind it.
pub open spec fn is_string_at(strings: Seq<u8>, at: int, s: Seq<u8>) -> bool {
    &&& 0 <= at
    &&& at + s.len() < strings.len()
    &&& strings.subrange(at, at + s.len()) =~= s
    &&& strings[at + s.len()] == 0
}

proof fn lemma_names(strtab: Seq<u8>, sections: Seq<SectionView>, i: int)
    requires
        strtab.len() > 0,
        strtab[0] == 0,
        writer::named(strtab, sections).0.len() <= u32::MAX,
        0 <= i < sections.len(),
    ensures
        writer::named(strtab, sections).1.len() == sections.len(),
        is_string_at(
            writer::named(strtab, sections).0,
            writer::named(strtab, sections).1[i] as int,
            sections[i].header.name,
        ),
    decreases sections.len(),
{
    let (strings, indices) = writer::named(strtab, sections);
    let (before, earlier) = writer::named(strtab, sections.drop_last());
    writer::lemma_named_len(strtab, sections);
    writer::lemma_named_len(strtab, sections.drop_last());
    lemma_first_zero(strtab, sections);
    if i < sections.len() - 1 {
        lemma_names(strtab, sections.drop_last(), i);
        let name = sections[i].header.name;
        let at = earlier[i] as int;
        assert(indices[i] == earlier[i]);
        assert(strings.subrange(at, at + name.len()) =~= before.subrange(at, at + name.len()));
    }
}

proof fn lemma_first_zero(strtab: Seq<u8>, sections: Seq<SectionView>)
    requires
        strtab.len() > 0,
        strtab[0] == 0,
    ensures
        writer::named(strtab, sections).0.len() > 0,
        writer::named(strtab, sections).0[0] == 0,
    decreases sections.len(),
{
    if sections.len() > 0 {
        lemma_first_zero(strtab, sections.drop_last());
    }
}

/// Whoever reads the file by the format finds in the header of a section what was
/// said of the section, by the name's index its name, and by the offset and the
/// size its contents.
pub proof fn sections_read_back(v: ElfView, i: int)
    requires
        2 <= v.sections.len() <= u16::MAX,
        v.strtab.len() > 0,
        v.strtab[0] == 0,
        writer::named(v.strtab, v.sections).0.len() <= u32::MAX,
        writer::file_bytes(v).len() <= u64::MAX,
        0 <= i < v.sections.len(),
    ensures
        ({
            let file = writer::file_bytes(v);
            let at = bytes::field(file, 40, 8) + bytes::field(file, 58, 2) * i;
            let names = bytes::field(file, 40, 8) + bytes::field(file, 58, 2) * bytes::field(
                file,
                62,
                2,
            );
            let names_at = bytes::field(file, names + 24, 8);
            let strings = file.subrange(names_at, names_at + bytes::field(file, names + 32, 8));
            let section = v.sections[i];
            let contents = if i == 1 {
                strings
            } else {
                section.contents
            };
            let offset = bytes::field(file, at + 24, 8);
            let size = bytes::field(file, at + 32, 8);
            &&& is_file_start(file, v.sections.len() as int)
            &&& section_type_numbered(bytes::field(file, at + 4, 4)) == Some(section.header.ty)
            &&& flags_of(bytes::field(file, at + 8, 8)) == section.header.flags
            &&& bytes::field(file, at + 16, 8) == section.header.addr
            &&& bytes::field(file, at + 40, 4) == section.header.link.0
            &&& bytes::field(file, at + 44, 4) == section.header.info
            &&& bytes::field(file, at + 48, 8) == section.header.addralign
            &&& bytes::field(file, at + 56, 8) == section.header.entsize
            &&& is_string_at(strings, bytes::field(file, at, 4), section.header.name)
            &&& size == contents.len()
            &&& 0 <= offset
            &&& offset + size <= file.len()
            &&& file.subrange(offset, offset + size) =~= contents
        }),
{
    let file = writer::file_bytes(v);
    let n = v.sections.len() as u16;
    let sections = writer::with_strings(v);
    let (strings, indices) = writer::named(v.strtab, v.sections);
    let start = writer::contents_start(v);
    lemma_start(n);
    writer::lemma_named_len(v.strtab, v.sections);
    let headers = writer::all_headers(sections, indices, start);
    assert(file.subrange(0, 64) =~= file_start(n));
    bytes::part_of_whole(file, 0, file_start(n), 4, 1);
    bytes::part_of_whole(file, 0, file_start(n), 5, 1);
    bytes::part_of_whole(file, 0, file_start(n), 6, 1);
    bytes::part_of_whole(file, 0, file_start(n), 7, 1);
    bytes::part_of_whole(file, 0, file_start(n), 16, 2);
    bytes::part_of_whole(file, 0, file_start(n), 18, 2);
    bytes::part_of_whole(file, 0, file_start(n), 20, 4);
    bytes::part_of_whole(file, 0, file_start(n), 24, 8);
    bytes::part_of_whole(file, 0, file_start(n), 32, 8);
    bytes::part_of_whole(file, 0, file_start(n), 40, 8);
    bytes::part_of_whole(file, 0, file_start(n), 48, 4);
    bytes::part_of_whole(file, 0, file_start(n), 52, 2);
    bytes::part_of_whole(file, 0, file_start(n), 56, 2);
    bytes::part_of_whole(file, 0, file_start(n), 58, 2);
    bytes::part_of_whole(file, 0, file_start(n), 60, 2);
    bytes::part_of_whole(file, 0, file_start(n), 62, 2);
    assert(is_file_start(file, v.sections.len() as int));
    lemma_section(v, 1);
    lemma_section(v, i);
    lemma_names(v.strtab, v.sections, i);
    lemma_first_zero(v.strtab, v.sections);
}

/// What is read in the header of one section.
proof fn lemma_section(v: ElfView, i: int)
    requires
        2 <= v.sections.len() <= u16::MAX,
        writer::file_bytes(v).len() <= u64::MAX,
        0 <= i < v.sections.len(),
    ensures
        ({
            let file = writer::file_bytes(v);
            let sections = writer::with_strings(v);
            let offset = written_offset(sections, writer::contents_start(v), i);
            let size = sections[i].contents.len();
            &&& is_header_at(
                file,
                64 + 64 * i,
                v.sections[i].header,
                writer::named(v.strtab, v.sections).1[i],
                offset,
                size as u64,
            )
            &&& size <= u64::MAX
            &&& offset + size <= file.len()
            &&& file.subrange(offset as int, offset + size) =~= sections[i].contents
        }),
{
    let file = writer::file_bytes(v);
    let n = v.sections.len() as u16;
    let sections = writer::with_strings(v);
    let indices = writer::named(v.strtab, v.sections).1;
    let start = writer::contents_start(v);
    lemma_start(n);
    writer::lemma_named_len(v.strtab, v.sections);
    let headers = writer::all_headers(sections, indices, start);
    lemma_header_place(sections, indices, start, i);
    writer::sections_are_at_their_offsets(v, i);
    let offset = written_offset(sections, start, i);
    let size = sections[i].contents.len() as u64;
    let h = sections[i].header.bytes(indices[i], offset, size);
    headers_read_back(sections[i].header, indices[i], offset, size);
    assert(file =~= file_start(n) + headers + writer::all_contents(sections));
    let at = 64 + 64 * i;
    assert(file.subrange(at, at + 64) =~= headers.subrange(64 * i, 64 * i + 64));
    bytes::part_of_whole(file, at, h, 0, 4);
    bytes::part_of_whole(file, at, h, 4, 4);
    bytes::part_of_whole(file, at, h, 8, 8);
    bytes::part_of_whole(file, at, h, 16, 8);
    bytes::part_of_whole(file, at, h, 24, 8);
    bytes::part_of_whole(file, at, h, 32, 8);
    bytes::part_of_whole(file, at, h, 40, 4);
    bytes::part_of_whole(file, at, h, 44, 4);
    bytes::part_of_whole(file, at, h, 48, 8);
    bytes::part_of_whole(file, at, h, 56, 8);
}

} // verus!
