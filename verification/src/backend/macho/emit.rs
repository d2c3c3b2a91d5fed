//! Putting the functions and globals of a module in an object file.
use vstd::prelude::*;

use crate::backend::bytes;
use crate::backend::bytes::write_u32;
use crate::backend::emit::Relocation;
use crate::backend::macho::relocation::{RelocationInfo, RelocationLength, RelocationTypeX86_64};
use crate::backend::macho::symtab::{
    nlist_64, SectionIdx, StrIdx, SymTab, SymTabView, SymbolAddrType, SymbolNum, SymbolVisibility,
};
use crate::backend::macho::writer;
use crate::backend::macho::writer::{
    CommandView, ContentView, CpuType, LoadCommand, LoadCommandContent, MachoObjectWriter, Name,
    PermissionFlags, SectionView, SegmentFlags, SegmentLoad64, SegmentSection64, SegmentView,
};
use crate::backend::object;
use crate::backend::object::{
    lay_out, lay_out_globals, ObjectFunction, ObjectGlobal, ObjectModule,
};
use crate::backend::Error;
use crate::target::{Arch, ArchView};

verus! {

/// The names in the file: of the functions and of the globals.
pub open spec fn all_names(m: ObjectModule) -> Seq<Seq<char>> {
    m.functions@.map_values(|f: ObjectFunction| f.name@) + m.globals@.map_values(
        |g: ObjectGlobal| g.name@,
    )
}

/// The names with an underscore before each and a zero byte behind each; another
/// zero byte is the first.
pub open spec fn strings(names: Seq<Seq<char>>) -> Seq<u8>
    decreases names.len(),
{
    if names.len() == 0 {
        seq![0u8]
    } else {
        strings(names.drop_last()) + SymTab::stored(names.last(), true)
    }
}

/// Where the `k`-th name begins.
pub open spec fn name_at(m: ObjectModule, k: int) -> StrIdx {
    StrIdx(strings(all_names(m).take(k)).len() as u32)
}

pub(crate) proof fn lemma_strings_grow(names: Seq<Seq<char>>, k: int)
    requires
        0 <= k <= names.len(),
    ensures
        strings(names.take(k)).len() <= strings(names).len(),
    decreases names.len(),
{
    if k < names.len() {
        assert(names.drop_last().take(k) =~= names.take(k));
        lemma_strings_grow(names.drop_last(), k);
    } else {
        assert(names.take(k) =~= names);
    }
}

// section indices are 1-indexed

#[verifier::allow_in_spec]
pub fn text_section() -> SectionIdx
    returns
        SectionIdx(1),
{
    SectionIdx(1)
}

#[verifier::allow_in_spec]
pub fn const_section() -> SectionIdx
    returns
        SectionIdx(2),
{
    SectionIdx(2)
}

#[verifier::allow_in_spec]
pub fn data_section() -> SectionIdx
    returns
        SectionIdx(3),
{
    SectionIdx(3)
}

/// The symbol of a function.
pub open spec fn function_symbol(m: ObjectModule, i: int) -> nlist_64 {
    let defined = m.functions@[i].body is Some;
    nlist_64 {
        n_strx: name_at(m, i),
        addr_type: if defined {
            SymbolAddrType::SecNumDefined
        } else {
            SymbolAddrType::Undefined
        },
        vis: SymbolVisibility::External,
        n_sect: if defined {
            text_section()
        } else {
            SectionIdx(0)
        },
        n_desc: 0,
        n_value: if defined {
            object::offset_of(m.functions@, i) as u64
        } else {
            0
        },
    }
}

/// The symbol of a global.
pub open spec fn global_symbol(m: ObjectModule, i: int) -> nlist_64 {
    nlist_64 {
        n_strx: name_at(m, m.functions@.len() + i),
        addr_type: SymbolAddrType::SecNumDefined,
        vis: SymbolVisibility::External,
        n_sect: if m.globals@[i].readonly {
            const_section()
        } else {
            data_section()
        },
        n_desc: 0,
        n_value: object::global_offset(m.globals@, i) as u64,
    }
}

/// All symbols of the file.
pub open spec fn all_symbols(m: ObjectModule) -> Seq<nlist_64> {
    Seq::new(m.functions@.len(), |i: int| function_symbol(m, i)) + Seq::new(
        m.globals@.len(),
        |i: int| global_symbol(m, i),
    )
}

pub open spec fn info(at: u64, symbol: int, ty: u8) -> RelocationInfo {
    RelocationInfo {
        address: at as u32,
        info: RelocationInfo::packed(symbol as u32, true, RelocationLength::L4, true, ty),
    }
}

/// What is left to the linker of one place: nothing for functions of the module.
pub open spec fn left_to_linker(m: ObjectModule, r: Relocation) -> Option<RelocationInfo> {
    match r {
        Relocation::FunctionCall(f, at) => if m.functions@[f.0 as int].body is Some {
            None
        } else {
            Some(info(at, f.0 as int, 2))
        },
        Relocation::FunctionAddr(f, at) => if m.functions@[f.0 as int].body is Some {
            None
        } else {
            Some(info(at, f.0 as int, 1))
        },
        Relocation::GlobalAddr(g, at) => Some(info(at, m.functions@.len() + g, 1)),
    }
}

/// What is left to the linker.
pub open spec fn infos(m: ObjectModule, rs: Seq<Relocation>) -> Seq<RelocationInfo>
    decreases rs.len(),
{
    if rs.len() == 0 {
        Seq::empty()
    } else {
        let before = infos(m, rs.drop_last());
        match left_to_linker(m, rs.last()) {
            Some(i) => before.push(i),
            None => before,
        }
    }
}

pub open spec fn section(
    section_name: Name,
    contents: Seq<u8>,
    relocations: Seq<RelocationInfo>,
) -> SectionView {
    SectionView { section_name, section_addr: 0, alignment: 0, flag: 0, contents, relocations }
}

pub open spec fn segment(
    segment_name: Name,
    permissions: PermissionFlags,
    vmsize: u64,
    sections: Seq<SectionView>,
) -> CommandView {
    CommandView {
        necessary_for_loading: false,
        content: ContentView::Segment(
            SegmentView {
                segment_name,
                vmaddr: 0,
                vmsize,
                max_vmem_prot: permissions,
                init_vmem_prot: permissions,
                flags: SegmentFlags(0),
                sections,
            },
        ),
    }
}

/// The distance to the function of the module that a relocation refers to, from behind the
/// place of the relocation.
pub open spec fn distance_of(m: ObjectModule, r: Relocation) -> Option<int> {
    match object::called(r) {
        Some(f) => if m.functions@[f as int].body is Some {
            Some(object::distance(m, f, object::relocation_at(r)))
        } else {
            None
        },
        None => None,
    }
}

/// The code with the distances to functions of the module. Each is written at the offset that
/// equals the distance, not at the place of its relocation.
pub open spec fn with_distances(m: ObjectModule, text: Seq<u8>, rs: Seq<Relocation>) -> Seq<u8>
    decreases rs.len(),
{
    if rs.len() == 0 {
        text
    } else {
        let before = with_distances(m, text, rs.drop_last());
        match distance_of(m, rs.last()) {
            Some(d) => before.take(d) + bytes::le_32(bytes::twos_32(d)) + before.skip(d + 4),
            None => before,
        }
    }
}

/// Every place lies in the code, what it refers to exists, and so does the offset at which a
/// distance is written. Distances to functions that come before are negative and are no offsets.
pub open spec fn distances_fit(m: ObjectModule) -> bool {
    let rs = object::relocations_of(m.functions@);
    forall|i: int|
        0 <= i < rs.len() ==> {
            &&& object::relocation_fits(#[trigger] rs[i], m)
            &&& distance_of(m, rs[i]) matches Some(d) ==> 0 <= d <= i32::MAX && d + 4
                <= object::text_of(m.functions@).len()
        }
}

proof fn lemma_with_distances_len(m: ObjectModule, n: int)
    requires
        distances_fit(m),
        0 <= n <= object::relocations_of(m.functions@).len(),
    ensures
        with_distances(
            m,
            object::text_of(m.functions@),
            object::relocations_of(m.functions@).take(n),
        ).len() == object::text_of(m.functions@).len(),
    decreases n,
{
    if n > 0 {
        let rs = object::relocations_of(m.functions@);
        assert(rs.take(n).drop_last() =~= rs.take(n - 1));
        lemma_with_distances_len(m, n - 1);
        assert(object::relocation_fits(rs[n - 1], m));
        if let Some(d) = distance_of(m, rs[n - 1]) {
            bytes::le_bytes_len(bytes::twos_32(d) as int, 4);
        }
    }
}

/// Writes the distances to functions of the module.
fn write_distances(m: &ObjectModule, text: &mut Vec<u8>, rs: &Vec<Relocation>, offsets: &Vec<u64>)
    requires
        old(text)@ == object::text_of(m.functions@),
        rs@ == object::relocations_of(m.functions@),
        offsets@ == object::offsets_of(m.functions@),
        distances_fit(*m),
    ensures
        final(text)@ == with_distances(*m, object::text_of(m.functions@), rs@),
{
    let ghost all = rs@;
    let ghost text0 = text@;
    let text_len: usize = text.len();
    let mut i: usize = 0;
    assert(all.take(0) =~= Seq::empty());
    while i < rs.len()
        invariant
            i <= rs@.len(),
            all == rs@,
            rs@ == object::relocations_of(m.functions@),
            text0 == object::text_of(m.functions@),
            text0.len() == text_len,
            distances_fit(*m),
            offsets@ == object::offsets_of(m.functions@),
            text@ == with_distances(*m, text0, all.take(i as int)),
        decreases rs.len() - i,
    {
        proof {
            assert(all.take(i + 1).drop_last() =~= all.take(i as int));
            assert(all.take(i + 1).last() == all[i as int]);
            assert(object::relocation_fits(all[i as int], *m));
            lemma_with_distances_len(*m, i as int);
        }
        let place: Option<(u32, u64)> = match rs[i] {
            Relocation::FunctionCall(f, at) => Some((f.0, at)),
            Relocation::FunctionAddr(f, at) => Some((f.0, at)),
            Relocation::GlobalAddr(_, _) => None,
        };
        if let Some((f, at)) = place {
            if m.functions[f as usize].body.is_some() {
                proof {
                    object::lemma_text_grows(m.functions@, f as int);
                    assert(offsets@[f as int] == object::offset_of(m.functions@, f as int));
                    assert(distance_of(*m, all[i as int]) == Some(
                        object::distance(*m, f, at),
                    ));
                }
                let distance: u64 = offsets[f as usize] - at - 4;
                write_u32(text, distance as usize, distance as u32);
            }
        }
        i += 1;
    }
    assert(all.take(i as int) =~= all);
}

/// The commands of the file: the symbols, the code with the constants, and the data.
pub open spec fn commands(m: ObjectModule) -> Seq<CommandView> {
    let rs = object::relocations_of(m.functions@);
    let text = with_distances(m, object::text_of(m.functions@), rs);
    let consts = object::values_of(m.globals@, true);
    let data = object::values_of(m.globals@, false);
    seq![
        CommandView {
            necessary_for_loading: false,
            content: ContentView::SymTab(
                SymTabView { symbols: all_symbols(m), s: strings(all_names(m)) },
            ),
        },
        segment(
            Name::TextSegment,
            PermissionFlags { read: true, write: false, execute: true },
            (text.len() + consts.len()) as u64,
            seq![
                section(Name::TextSection, text, infos(m, rs)),
                section(Name::ConstSection, consts, Seq::empty()),
            ],
        ),
        segment(
            Name::DataSegment,
            PermissionFlags { read: true, write: true, execute: false },
            data.len() as u64,
            seq![section(Name::DataSection, data, Seq::empty())],
        ),
    ]
}

/// The processors that files can be written for.
pub open spec fn cpu_of(arch: ArchView) -> Option<CpuType> {
    match arch {
        ArchView::X86_64 => Some(CpuType::X86_64),
        ArchView::Aarch64 => Some(CpuType::Arm64),
        ArchView::Other(_) => None,
    }
}

/// The file can be written.
pub open spec fn can_emit(m: ObjectModule) -> bool {
    &&& m.functions@.len() + m.globals@.len() < 0x100_0000
    &&& writer::commands_size(commands(m)) + writer::contents_size(commands(m)) + 32 <= u32::MAX
    &&& distances_fit(m)
    &&& object::places_fit(m)
}

/// Enters the names and the symbols.
fn add_symbols(m: &ObjectModule, offsets: &Vec<u64>, global_offsets: &Vec<u64>) -> (symtab: SymTab)
    requires
        m.functions@.len() + m.globals@.len() < 0x100_0000,
        strings(all_names(*m)).len() <= u32::MAX,
        offsets@ == object::offsets_of(m.functions@),
        global_offsets@ == Seq::new(
            m.globals@.len(),
            |i: int| object::global_offset(m.globals@, i) as u64,
        ),
    ensures
        symtab@ == (SymTabView { symbols: all_symbols(*m), s: strings(all_names(*m)) }),
{
    let mut symtab = SymTab::new();
    let ghost names = all_names(*m);
    let ghost nf = m.functions@.len();
    let mut i: usize = 0;
    assert(names.take(0) =~= Seq::empty());
    while i < m.functions.len()
        invariant
            i <= m.functions@.len(),
            nf == m.functions@.len(),
            nf + m.globals@.len() < 0x100_0000,
            names == all_names(*m),
            names.len() == nf + m.globals@.len(),
            strings(names).len() <= u32::MAX,
            offsets@ == object::offsets_of(m.functions@),
            symtab.s@ == strings(names.take(i as int)),
            symtab.symbols@ =~= Seq::new(i as nat, |i: int| function_symbol(*m, i)),
        decreases m.functions.len() - i,
    {
        let func: &ObjectFunction = &m.functions[i];
        proof {
            assert(names.take(i + 1).drop_last() =~= names.take(i as int));
            assert(names.take(i + 1).last() == func.name@);
            lemma_strings_grow(names, i as int);
        }
        let n_strx: StrIdx = symtab.str(func.name.as_str(), true);
        if func.body.is_some() {
            symtab.sym(
                nlist_64 {
                    n_strx,
                    addr_type: SymbolAddrType::SecNumDefined,
                    vis: SymbolVisibility::External,
                    n_sect: text_section(),
                    n_desc: 0,
                    n_value: offsets[i],
                },
            );
        } else {
            symtab.sym(
                nlist_64 {
                    n_strx,
                    addr_type: SymbolAddrType::Undefined,
                    vis: SymbolVisibility::External,
                    n_sect: SectionIdx(0),
                    n_desc: 0,
                    n_value: 0,
                },
            );
        }
        assert(symtab.symbols@.last() == function_symbol(*m, i as int));
        i += 1;
    }
    let mut i: usize = 0;
    let ghost first = symtab.symbols@;
    while i < m.globals.len()
        invariant
            i <= m.globals@.len(),
            nf == m.functions@.len(),
            nf + m.globals@.len() < 0x100_0000,
            first.len() == nf,
            names == all_names(*m),
            names.len() == nf + m.globals@.len(),
            strings(names).len() <= u32::MAX,
            global_offsets@ == Seq::new(
                m.globals@.len(),
                |i: int| object::global_offset(m.globals@, i) as u64,
            ),
            symtab.s@ == strings(names.take(nf + i)),
            symtab.symbols@ =~= first + Seq::new(i as nat, |i: int| global_symbol(*m, i)),
        decreases m.globals.len() - i,
    {
        let global: &ObjectGlobal = &m.globals[i];
        proof {
            assert(names.take(nf + i + 1).drop_last() =~= names.take(nf + i));
            assert(names.take(nf + i + 1).last() == global.name@);
            lemma_strings_grow(names, nf + i);
        }
        let n_strx: StrIdx = symtab.str(global.name.as_str(), true);
        let n_sect: SectionIdx = if global.readonly {
            const_section()
        } else {
            data_section()
        };
        symtab.sym(
            nlist_64 {
                n_strx,
                addr_type: SymbolAddrType::SecNumDefined,
                vis: SymbolVisibility::External,
                n_sect,
                n_desc: 0,
                n_value: global_offsets[i],
            },
        );
        assert(symtab.symbols@.last() == global_symbol(*m, i as int));
        i += 1;
    }
    assert(names.take(nf + i) =~= names);
    assert(symtab@ =~= (SymTabView { symbols: all_symbols(*m), s: strings(all_names(*m)) }));
    symtab
}

/// What is left to the linker.
fn collect_infos(m: &ObjectModule, rs: &Vec<Relocation>) -> (r: Vec<RelocationInfo>)
    requires
        m.functions@.len() + m.globals@.len() < 0x100_0000,
        object::text_of(m.functions@).len() <= u32::MAX,
        rs@ == object::relocations_of(m.functions@),
        distances_fit(*m),
    ensures
        r@ == infos(*m, rs@),
{
    let ghost all = rs@;
    let functions: u32 = m.functions.len() as u32;
    let mut r: Vec<RelocationInfo> = Vec::new();
    let mut i: usize = 0;
    assert(all.take(0) =~= Seq::empty());
    while i < rs.len()
        invariant
            i <= rs@.len(),
            all == rs@,
            functions == m.functions@.len(),
            m.functions@.len() + m.globals@.len() < 0x100_0000,
            object::text_of(m.functions@).len() <= u32::MAX,
            rs@ == object::relocations_of(m.functions@),
            distances_fit(*m),
            r@ =~= infos(*m, all.take(i as int)),
        decreases rs.len() - i,
    {
        proof {
            assert(all.take(i + 1).drop_last() =~= all.take(i as int));
            assert(all.take(i + 1).last() == all[i as int]);
            assert(object::relocation_fits(all[i as int], *m));
        }
        let place: Option<(u32, u64, RelocationTypeX86_64)> = match rs[i] {
            Relocation::FunctionCall(f, at) => if m.functions[f.0 as usize].body.is_some() {
                None
            } else {
                Some((f.0, at, RelocationTypeX86_64::Branch))
            },
            Relocation::FunctionAddr(f, at) => if m.functions[f.0 as usize].body.is_some() {
                None
            } else {
                Some((f.0, at, RelocationTypeX86_64::Signed))
            },
            Relocation::GlobalAddr(g, at) => Some((functions + g, at, RelocationTypeX86_64::Signed)),
        };
        if let Some((symbol, at, ty)) = place {
            r.push(
                RelocationInfo::new(
                    at as u32,
                    SymbolNum(symbol),
                    true,
                    RelocationLength::L4,
                    true,
                    ty,
                ),
            );
        }
        i += 1;
    }
    assert(all.take(i as int) =~= all);
    r
}

fn make_section(name: Name, contents: Vec<u8>, relocations: Vec<RelocationInfo>) -> (s:
    SegmentSection64)
    ensures
        s@ == section(name, contents@, relocations@),
{
    SegmentSection64 {
        section_name: name,
        section_addr: 0,
        alignment: 0,
        flag: 0,
        contents,
        relocations,
    }
}

fn make_segment(
    segment_name: Name,
    permissions: PermissionFlags,
    vmsize: u64,
    sections: Vec<SegmentSection64>,
) -> (c: LoadCommand)
    ensures
        c@ == segment(
            segment_name,
            permissions,
            vmsize,
            sections@.map_values(|s: SegmentSection64| s@),
        ),
{
    LoadCommand {
        necessary_for_loading: false,
        content: LoadCommandContent::Segment(
            SegmentLoad64 {
                segment_name,
                vmaddr: 0,
                vmsize,
                max_vmem_prot: permissions,
                init_vmem_prot: permissions,
                flags: SegmentFlags(0),
                sections,
            },
        ),
    }
}

proof fn lemma_sizes(m: ObjectModule)
    requires
        can_emit(m),
    ensures
        strings(all_names(m)).len() <= u32::MAX,
        object::text_of(m.functions@).len() <= u32::MAX,
        with_distances(
            m,
            object::text_of(m.functions@),
            object::relocations_of(m.functions@),
        ).len() == object::text_of(m.functions@).len(),
        object::text_of(m.functions@).len() + object::values_of(m.globals@, true).len() <= u32::MAX,
{
    let all = commands(m);
    let rs = object::relocations_of(m.functions@);
    let text0 = object::text_of(m.functions@);
    lemma_with_distances_len(m, rs.len() as int);
    assert(rs.take(rs.len() as int) =~= rs);
    reveal_with_fuel(writer::contents_size, 4);
    reveal_with_fuel(writer::commands_size, 4);
    reveal_with_fuel(writer::sections_size, 3);
    assert(all.drop_last().drop_last().drop_last() =~= Seq::empty());
    assert(all.drop_last().drop_last().last() == all[0]);
    assert(all.drop_last().last() == all[1]);
    let text = all[1].content->Segment_0.sections;
    assert(text.drop_last().drop_last() =~= Seq::empty());
    assert(text.drop_last().last() == text[0]);
    let data = all[2].content->Segment_0.sections;
    assert(data.drop_last() =~= Seq::empty());
}

/// The bytes of an object file with the functions and globals of a module.
pub fn emit(m: &ObjectModule, arch: &Arch) -> (file: Result<Vec<u8>, Error>)
    requires
        cpu_of(arch@) is Some ==> can_emit(*m),
    ensures
        match file {
            Ok(bytes) => cpu_of(arch@) matches Some(cpu_type) && bytes@ == writer::file_bytes(
                cpu_type,
                commands(*m),
            ),
            Err(e) => cpu_of(arch@) is None && e == Error::UnsupportedArch,
        },
{
    let cpu_type: CpuType = match arch {
        Arch::X86_64 => CpuType::X86_64,
        Arch::Aarch64 => CpuType::Arm64,
        Arch::Other(_) => return Err(Error::UnsupportedArch),
    };
    proof {
        lemma_sizes(*m);
    }
    let mut w = MachoObjectWriter::new();
    let (mut text, rs, offsets) = lay_out(m);
    let (consts, data, global_offsets) = lay_out_globals(m);
    w.symtab = add_symbols(m, &offsets, &global_offsets);
    let relocations: Vec<RelocationInfo> = collect_infos(m, &rs);
    write_distances(m, &mut text, &rs, &offsets);
    let vmsize: u64 = text.len() as u64 + consts.len() as u64;
    let data_size: u64 = data.len() as u64;
    let mut sections: Vec<SegmentSection64> = Vec::new();
    sections.push(make_section(Name::TextSection, text, relocations));
    sections.push(make_section(Name::ConstSection, consts, Vec::new()));
    assert(sections@.map_values(|s: SegmentSection64| s@)
        =~= commands(*m)[1].content->Segment_0.sections);
    w.load_command(
        make_segment(
            Name::TextSegment,
            PermissionFlags { read: true, write: false, execute: true },
            vmsize,
            sections,
        ),
    );
    let mut sections: Vec<SegmentSection64> = Vec::new();
    sections.push(make_section(Name::DataSection, data, Vec::new()));
    assert(sections@.map_values(|s: SegmentSection64| s@)
        =~= commands(*m)[2].content->Segment_0.sections);
    w.load_command(
        make_segment(
            Name::DataSegment,
            PermissionFlags { read: true, write: true, execute: false },
            data_size,
            sections,
        ),
    );
    proof {
        assert(w.commands() =~= commands(*m));
        writer::contents_are_at_their_offsets(cpu_type, commands(*m), 0);
    }
    Ok(w.write(cpu_type))
}

} // verus!
