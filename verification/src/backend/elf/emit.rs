//! Putting the functions and globals of a module in an object file.
use vstd::prelude::*;

use crate::backend::elf::relocation;
use crate::backend::elf::relocation::{Rela, RelaType, RelaWriter};
use crate::backend::elf::symtab;
use crate::backend::elf::symtab::{Bind, Entry, SymtabIdx, SymtabWriter, Type, Visibility};
use crate::backend::elf::writer;
use crate::backend::elf::writer::{
    ElfObjectWriter, ElfView, HeaderView, SectionHeader, SectionHeaderFlags, SectionHeaderType,
    SectionIdx, SectionView,
};
use crate::backend::emit::Relocation;
use crate::backend::object;
use crate::backend::object::{
    lay_out, lay_out_globals, patch, ObjectFunction, ObjectGlobal, ObjectModule,
};

verus! {

/// Strings with a zero byte behind each, and one before the first.
pub open spec fn strings(names: Seq<Seq<u8>>) -> Seq<u8>
    decreases names.len(),
{
    if names.len() == 0 {
        seq![0u8]
    } else {
        strings(names.drop_last()) + names.last() + seq![0u8]
    }
}

/// The names in the file: of the module, of its functions and of its globals.
pub open spec fn all_names(m: ObjectModule) -> Seq<Seq<u8>> {
    seq![object::utf8(m.name@)] + m.functions@.map_values(|f: ObjectFunction| object::utf8(f.name@))
        + m.globals@.map_values(|g: ObjectGlobal| object::utf8(g.name@))
}

/// Where the `k`-th name begins.
pub open spec fn name_at(m: ObjectModule, k: int) -> u32 {
    strings(all_names(m).take(k)).len() as u32
}

pub(crate) proof fn lemma_strings_grow(names: Seq<Seq<u8>>, k: int)
    requires
        0 <= k <= names.len(),
    ensures
        strings(names.take(k)).len() <= strings(names).len(),
    decreases names.len(),
{
    if k < names.len() {
        assert(names.drop_last().take(k) =~= names.take(k));
        lemma_strings_grow(names.drop_last(), k);
    } else {
        assert(names.take(k) =~= names);
    }
}

#[verifier::allow_in_spec]
pub fn text_idx() -> SectionIdx
    returns
        SectionIdx(2),
{
    SectionIdx(2)
}

#[verifier::allow_in_spec]
pub fn rodata_idx() -> SectionIdx
    returns
        SectionIdx(3),
{
    SectionIdx(3)
}

#[verifier::allow_in_spec]
pub fn data_idx() -> SectionIdx
    returns
        SectionIdx(4),
{
    SectionIdx(4)
}

/// The symbols of the file itself and of its code.
pub open spec fn leading_symbols(m: ObjectModule) -> Seq<Entry> {
    seq![
        Entry::null(),
        Entry {
            name_index: 1,
            bind: Bind::Local,
            ty: Type::File,
            visibility: Visibility::Default,
            section_index: SectionIdx::absent(),
            value: 0,
            size: 0,
        },
        Entry {
            name_index: 0,
            bind: Bind::Local,
            ty: Type::Section,
            visibility: Visibility::Default,
            section_index: text_idx(),
            value: 0,
            size: 0,
        },
    ]
}

/// The symbol of a function.
pub open spec fn function_symbol(m: ObjectModule, i: int) -> Entry {
    let defined = m.functions@[i].body is Some;
    Entry {
        name_index: name_at(m, 1 + i),
        bind: Bind::Global,
        ty: Type::Function,
        visibility: Visibility::Default,
        section_index: if defined {
            text_idx()
        } else {
            SectionIdx::none()
        },
        value: if defined {
            object::offset_of(m.functions@, i) as u64
        } else {
            0
        },
        size: m.functions@[i].code().len() as u64,
    }
}

/// The symbol of a global.
pub open spec fn global_symbol(m: ObjectModule, i: int) -> Entry {
    let g = m.globals@[i];
    Entry {
        name_index: name_at(m, 1 + m.functions@.len() + i),
        bind: Bind::Global,
        ty: Type::Object,
        visibility: Visibility::Default,
        section_index: if g.readonly {
            rodata_idx()
        } else {
            data_idx()
        },
        value: object::global_offset(m.globals@, i) as u64,
        size: g.value@.len() as u64,
    }
}

/// All symbols of the file.
pub open spec fn all_symbols(m: ObjectModule) -> Seq<Entry> {
    leading_symbols(m) + Seq::new(m.functions@.len(), |i: int| function_symbol(m, i)) + Seq::new(
        m.globals@.len(),
        |i: int| global_symbol(m, i),
    )
}

/// The symbol of a function or of a global is found at this index.
pub open spec fn function_symbol_idx(i: u32) -> SymtabIdx {
    SymtabIdx((3 + i) as u32)
}

pub open spec fn global_symbol_idx(m: ObjectModule, i: u32) -> SymtabIdx {
    SymtabIdx((3 + m.functions@.len() + i) as u32)
}

/// The entries for functions that are defined elsewhere.
pub open spec fn function_relas(m: ObjectModule, rs: Seq<Relocation>) -> Seq<Rela>
    decreases rs.len(),
{
    if rs.len() == 0 {
        Seq::empty()
    } else {
        let before = function_relas(m, rs.drop_last());
        match object::called(rs.last()) {
            Some(f) => if m.functions@[f as int].body is Some {
                before
            } else {
                before.push(
                    Rela {
                        r_offset: object::relocation_at(rs.last()),
                        sym: function_symbol_idx(f),
                        ty: RelaType::X86_64Plt32,
                        r_addend: -4i64 as i64,
                    },
                )
            },
            None => before,
        }
    }
}

/// The entries for globals.
pub open spec fn global_relas(m: ObjectModule, rs: Seq<Relocation>) -> Seq<Rela>
    decreases rs.len(),
{
    if rs.len() == 0 {
        Seq::empty()
    } else {
        let before = global_relas(m, rs.drop_last());
        match rs.last() {
            Relocation::GlobalAddr(g, at) => before.push(
                Rela {
                    r_offset: at,
                    sym: global_symbol_idx(m, g),
                    ty: RelaType::X86_64PC32,
                    r_addend: -4i64 as i64,
                },
            ),
            _ => before,
        }
    }
}

pub open spec fn program_section(
    name: Seq<char>,
    write: bool,
    execinstr: bool,
    addralign: u64,
    contents: Seq<u8>,
) -> SectionView {
    SectionView {
        header: HeaderView {
            name: object::utf8(name),
            ty: SectionHeaderType::Progbits,
            flags: SectionHeaderFlags {
                write,
                alloc: true,
                execinstr,
                merge: false,
                strings: false,
            },
            addr: 0,
            link: SectionIdx::none(),
            info: 0,
            addralign,
            entsize: 0,
        },
        contents,
    }
}

pub open spec fn symtab_section(entries: Seq<Entry>) -> SectionView {
    SectionView {
        header: HeaderView {
            name: object::utf8(".symtab"@),
            ty: SectionHeaderType::SymTab,
            flags: SectionHeaderFlags::none(),
            addr: 0,
            link: SectionIdx(1),
            info: match symtab::first_global(entries) {
                Some(i) => i as u32,
                None => entries.len() as u32,
            },
            addralign: 8,
            entsize: 24,
        },
        contents: symtab::table_bytes(entries),
    }
}

pub open spec fn rela_section(entries: Seq<Rela>) -> SectionView {
    SectionView {
        header: HeaderView {
            name: object::utf8(".rela.text"@),
            ty: SectionHeaderType::RelA,
            flags: SectionHeaderFlags::none(),
            addr: 0,
            link: SectionIdx(5),
            info: text_idx().0 as u32,
            addralign: 8,
            entsize: 24,
        },
        contents: relocation::rela_bytes(entries),
    }
}

/// The sections of the file and the strings.
#[verifier::opaque]
pub open spec fn object_view(m: ObjectModule) -> ElfView {
    let rs = object::relocations_of(m.functions@);
    ElfView {
        strtab: strings(all_names(m)),
        sections: seq![
            writer::null_section(),
            writer::strtab_section(),
            program_section(
                ".text"@,
                false,
                true,
                16,
                object::patched(m, object::text_of(m.functions@), rs),
            ),
            program_section(".rodata"@, false, false, 8, object::values_of(m.globals@, true)),
            program_section(".data"@, true, false, 8, object::values_of(m.globals@, false)),
            symtab_section(all_symbols(m)),
            rela_section(function_relas(m, rs) + global_relas(m, rs)),
        ],
    }
}

/// The file can be written.
pub open spec fn can_emit(m: ObjectModule) -> bool {
    &&& strings(all_names(m)).len() <= u32::MAX
    &&& m.functions@.len() + m.globals@.len() + 3 <= u32::MAX
    &&& writer::named(object_view(m).strtab, object_view(m).sections).0.len() <= u32::MAX
    &&& writer::file_bytes(object_view(m)).len() <= u64::MAX
    &&& object::relocations_fit(m)
    &&& object::places_fit(m)
}

fn program_header(name: &str, write: bool, execinstr: bool, addralign: u64) -> (h: SectionHeader)
    ensures
        h@ == program_section(name@, write, execinstr, addralign, Seq::empty()).header,
{
    SectionHeader {
        name: name.to_owned(),
        ty: SectionHeaderType::Progbits,
        flags: SectionHeaderFlags { write, alloc: true, execinstr, merge: false, strings: false },
        addr: 0,
        link: SectionIdx::none(),
        info: 0,
        addralign,
        entsize: 0,
    }
}

/// Enters the names and the symbols of the functions.
fn add_functions(
    m: &ObjectModule,
    w: &mut ElfObjectWriter,
    symtab: &mut SymtabWriter,
    offsets: &Vec<u64>,
)
    requires
        strings(all_names(*m)).len() <= u32::MAX,
        m.functions@.len() + 3 <= u32::MAX,
        old(w)@.strtab == strings(all_names(*m).take(1)),
        old(symtab).well_formed(),
        old(symtab)@ == leading_symbols(*m),
        offsets@ == object::offsets_of(m.functions@),
    ensures
        final(w)@ == (ElfView {
            strtab: strings(all_names(*m).take(1 + m.functions@.len() as int)),
            ..old(w)@
        }),
        final(symtab).well_formed(),
        final(symtab)@ == leading_symbols(*m) + Seq::new(
            m.functions@.len(),
            |i: int| function_symbol(*m, i),
        ),
{
    let ghost names = all_names(*m);
    let ghost fs = m.functions@;
    let ghost sections0 = w@.sections;
    let mut i: usize = 0;
    assert(symtab@ =~= leading_symbols(*m) + Seq::new(0, |i: int| function_symbol(*m, i)));
    while i < m.functions.len()
        invariant
            i <= fs.len(),
            fs == m.functions@,
            names == all_names(*m),
            names.len() == 1 + fs.len() + m.globals@.len(),
            strings(names).len() <= u32::MAX,
            fs.len() + 3 <= u32::MAX,
            w@.sections == sections0,
            w@.strtab == strings(names.take(1 + i)),
            symtab.well_formed(),
            symtab@ =~= leading_symbols(*m) + Seq::new(
                i as nat,
                |i: int| function_symbol(*m, i),
            ),
            offsets@ == object::offsets_of(m.functions@),
        decreases m.functions.len() - i,
    {
        let func: &ObjectFunction = &m.functions[i];
        proof {
            assert(names.take(2 + i).drop_last() =~= names.take(1 + i));
            assert(names.take(2 + i).last() == object::utf8(fs[i as int].name@));
            lemma_strings_grow(names, 1 + i);
        }
        let mut section_index: SectionIdx = SectionIdx::none();
        let mut value: u64 = 0;
        let mut size: u64 = 0;
        if let Some(body) = &func.body {
            section_index = text_idx();
            value = offsets[i];
            size = body.code.len() as u64;
        }
        let name_index: u32 = w.add_str(func.name.as_str());
        symtab.entry(
            Entry {
                name_index,
                bind: Bind::Global,
                ty: Type::Function,
                visibility: Visibility::Default,
                section_index,
                value,
                size,
            },
        );
        assert(symtab@.last() == function_symbol(*m, i as int));
        i += 1;
    }
    assert(w@ =~= (ElfView { strtab: strings(names.take(1 + fs.len() as int)), sections: sections0 }));
}

/// Enters the names and the symbols of the globals.
fn add_globals(
    m: &ObjectModule,
    w: &mut ElfObjectWriter,
    symtab: &mut SymtabWriter,
    offsets: &Vec<u64>,
)
    requires
        strings(all_names(*m)).len() <= u32::MAX,
        m.functions@.len() + m.globals@.len() + 3 <= u32::MAX,
        old(w)@.strtab == strings(all_names(*m).take(1 + m.functions@.len() as int)),
        old(symtab).well_formed(),
        old(symtab)@ == leading_symbols(*m) + Seq::new(
            m.functions@.len(),
            |i: int| function_symbol(*m, i),
        ),
        offsets@ == Seq::new(
            m.globals@.len(),
            |i: int| object::global_offset(m.globals@, i) as u64,
        ),
    ensures
        final(w)@ == (ElfView { strtab: strings(all_names(*m)), ..old(w)@ }),
        final(symtab).well_formed(),
        final(symtab)@ == all_symbols(*m),
{
    let ghost names = all_names(*m);
    let ghost gs = m.globals@;
    let ghost nf = m.functions@.len();
    let ghost sections0 = w@.sections;
    let ghost symbols0 = symtab@;
    let mut i: usize = 0;
    assert(symtab@ =~= symbols0 + Seq::new(0, |i: int| global_symbol(*m, i)));
    while i < m.globals.len()
        invariant
            i <= gs.len(),
            gs == m.globals@,
            nf == m.functions@.len(),
            names == all_names(*m),
            names.len() == 1 + nf + gs.len(),
            strings(names).len() <= u32::MAX,
            nf + gs.len() + 3 <= u32::MAX,
            symbols0.len() == 3 + nf,
            w@.sections == sections0,
            w@.strtab == strings(names.take(1 + nf + i)),
            symtab.well_formed(),
            symtab@ =~= symbols0 + Seq::new(i as nat, |i: int| global_symbol(*m, i)),
            offsets@ == Seq::new(gs.len(), |i: int| object::global_offset(gs, i) as u64),
        decreases m.globals.len() - i,
    {
        let global: &ObjectGlobal = &m.globals[i];
        proof {
            assert(names.take(2 + nf + i).drop_last() =~= names.take(1 + nf + i));
            assert(names.take(2 + nf + i).last() == object::utf8(gs[i as int].name@));
            lemma_strings_grow(names, 1 + nf + i);
        }
        let name_index: u32 = w.add_str(global.name.as_str());
        let size: u64 = global.value.len() as u64;
        let section_index: SectionIdx = if global.readonly {
            rodata_idx()
        } else {
            data_idx()
        };
        symtab.entry(
            Entry {
                name_index,
                bind: Bind::Global,
                ty: Type::Object,
                visibility: Visibility::Default,
                section_index,
                value: offsets[i],
                size,
            },
        );
        assert(symtab@.last() == global_symbol(*m, i as int));
        i += 1;
    }
    assert(names.take(1 + nf + i) =~= names);
    assert(symtab@ =~= all_symbols(*m));
    assert(w@ =~= (ElfView { strtab: strings(names), sections: sections0 }));
}

/// Enters what is left to the linker.
fn add_relocations(m: &ObjectModule, rs: &Vec<Relocation>, rela: &mut RelaWriter)
    requires
        rs@ == object::relocations_of(m.functions@),
        object::relocations_fit(*m),
        m.functions@.len() + m.globals@.len() + 3 <= u32::MAX,
        old(rela).well_formed(),
        old(rela)@.len() == 0,
    ensures
        final(rela).well_formed(),
        final(rela)@ == function_relas(*m, rs@) + global_relas(*m, rs@),
{
    let ghost all = rs@;
    let mut i: usize = 0;
    proof {
        assert(all.take(0) =~= Seq::empty());
    }
    while i < rs.len()
        invariant
            i <= rs@.len(),
            all == rs@,
            rs@ == object::relocations_of(m.functions@),
            object::relocations_fit(*m),
            m.functions@.len() + m.globals@.len() + 3 <= u32::MAX,
            rela.well_formed(),
            rela@ =~= function_relas(*m, all.take(i as int)),
        decreases rs.len() - i,
    {
        proof {
            assert(all.take(i + 1).drop_last() =~= all.take(i as int));
            assert(all.take(i + 1).last() == all[i as int]);
            assert(object::relocation_fits(all[i as int], *m));
        }
        let place: Option<(u32, u64)> = match rs[i] {
            Relocation::FunctionCall(f, at) => Some((f.0, at)),
            Relocation::FunctionAddr(f, at) => Some((f.0, at)),
            Relocation::GlobalAddr(_, _) => None,
        };
        if let Some((f, at)) = place {
            if m.functions[f as usize].body.is_none() {
                rela.entry(
                    Rela {
                        r_offset: at,
                        sym: SymtabIdx(3 + f),
                        ty: RelaType::X86_64Plt32,
                        // call rel32, therefore offset by -4 since RIP is behind the instruction
                        r_addend: -4,
                    },
                );
            }
        }
        i += 1;
    }
    assert(all.take(i as int) =~= all);
    let ghost first = rela@;
    let functions: u32 = m.functions.len() as u32;
    let mut i: usize = 0;
    while i < rs.len()
        invariant
            i <= rs@.len(),
            all == rs@,
            rs@ == object::relocations_of(m.functions@),
            object::relocations_fit(*m),
            functions == m.functions@.len(),
            m.functions@.len() + m.globals@.len() + 3 <= u32::MAX,
            rela.well_formed(),
            rela@ =~= first + global_relas(*m, all.take(i as int)),
        decreases rs.len() - i,
    {
        proof {
            assert(all.take(i + 1).drop_last() =~= all.take(i as int));
            assert(all.take(i + 1).last() == all[i as int]);
            assert(object::relocation_fits(all[i as int], *m));
        }
        if let Relocation::GlobalAddr(g, at) = rs[i] {
            rela.entry(
                Rela {
                    r_offset: at,
                    sym: SymtabIdx(3 + functions + g),
                    ty: RelaType::X86_64PC32,
                    r_addend: -4,
                },
            );
        }
        i += 1;
    }
    assert(all.take(i as int) =~= all);
}

proof fn lemma_leading_symbols_are_local(m: ObjectModule)
    ensures
        symtab::first_global(leading_symbols(m).take(1)) is None,
        symtab::first_global(leading_symbols(m).take(2)) is None,
{
    reveal_with_fuel(symtab::first_global, 3);
}

/// Begins a file with the symbols of the file itself.
fn begin(m: &ObjectModule) -> (r: (ElfObjectWriter, SymtabWriter))
    ensures
        r.0@.strtab == strings(all_names(*m).take(1)),
        r.0@.sections == seq![writer::null_section(), writer::strtab_section()],
        r.1.well_formed(),
        r.1@ == leading_symbols(*m),
{
    let mut w = ElfObjectWriter::new();
    let mut symtab = SymtabWriter::new();
    let ghost names = all_names(*m);
    proof {
        lemma_leading_symbols_are_local(*m);
    }
    // file entry
    let file_name: u32 = w.add_str(m.name.as_str());
    assert(leading_symbols(*m).take(1) =~= symtab@);
    symtab.entry(
        Entry {
            name_index: file_name,
            bind: Bind::Local,
            ty: Type::File,
            visibility: Visibility::Default,
            section_index: SectionIdx::absent(),
            value: 0,
            size: 0,
        },
    );
    assert(leading_symbols(*m).take(2) =~= symtab@);
    // section entry
    symtab.entry(
        Entry {
            name_index: 0,
            bind: Bind::Local,
            ty: Type::Section,
            visibility: Visibility::Default,
            section_index: text_idx(),
            value: 0,
            size: 0,
        },
    );
    assert(symtab@ =~= leading_symbols(*m));
    proof {
        assert(names.len() >= 1);
        assert(names.take(1).drop_last() =~= Seq::empty());
        assert(names.take(1).last() == object::utf8(m.name@));
        assert(strings(names.take(1).drop_last()) =~= seq![0u8]);
        assert(w@.strtab =~= strings(names.take(1)));
    }
    (w, symtab)
}

/// Enters functions, globals and relocations.
fn fill(m: &ObjectModule) -> (w: ElfObjectWriter)
    requires
        strings(all_names(*m)).len() <= u32::MAX,
        m.functions@.len() + m.globals@.len() + 3 <= u32::MAX,
        object::relocations_fit(*m),
        object::places_fit(*m),
    ensures
        w@ == object_view(*m),
        w@.sections.len() == 7,
{
    reveal(object_view);
    let (mut w, mut symtab) = begin(m);
    let (mut text, rs, offsets) = lay_out(m);
    add_functions(m, &mut w, &mut symtab, &offsets);
    let (rodata, data, global_offsets) = lay_out_globals(m);
    add_globals(m, &mut w, &mut symtab, &global_offsets);
    patch(m, &mut text, &rs, &offsets);
    let mut rela = RelaWriter::new();
    add_relocations(m, &rs, &mut rela);
    add_sections(&mut w, text, rodata, data, symtab, rela);
    w
}

/// The bytes of an object file with the functions and globals of a module.
pub fn emit(m: &ObjectModule) -> (file: Vec<u8>)
    requires
        can_emit(*m),
    ensures
        file@ == writer::file_bytes(object_view(*m)),
{
    let w: ElfObjectWriter = fill(m);
    w.write()
}

/// The sections of the file in their order.
fn add_sections(
    w: &mut ElfObjectWriter,
    text: Vec<u8>,
    rodata: Vec<u8>,
    data: Vec<u8>,
    symtab: SymtabWriter,
    rela: RelaWriter,
)
    requires
        old(w)@.sections == seq![writer::null_section(), writer::strtab_section()],
        symtab.well_formed(),
        symtab@.len() <= u32::MAX,
        rela.well_formed(),
    ensures
        final(w)@.strtab == old(w)@.strtab,
        final(w)@.sections == seq![
            writer::null_section(),
            writer::strtab_section(),
            program_section(".text"@, false, true, 16, text@),
            program_section(".rodata"@, false, false, 8, rodata@),
            program_section(".data"@, true, false, 8, data@),
            symtab_section(symtab@),
            rela_section(rela@),
        ],
{
    w.section(program_header(".text", false, true, 16), text);
    w.section(program_header(".rodata", false, false, 8), rodata);
    w.section(program_header(".data", true, false, 8), data);
    let strtab: SectionIdx = w.strtab_idx();
    let ghost entries = symtab@;
    let ghost relas = rela@;
    let (symtab_header, symtab_contents) = symtab.finish(strtab);
    assert(symtab_header@ =~= symtab_section(entries).header);
    let symtab_idx: SectionIdx = w.section(symtab_header, symtab_contents);
    let (rela_header, rela_contents) = rela.finish(text_idx(), symtab_idx);
    assert(rela_header@ =~= rela_section(relas).header);
    w.section(rela_header, rela_contents);
}

} // verus!
