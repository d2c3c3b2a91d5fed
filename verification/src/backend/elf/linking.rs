//! What a linker finds in the file: functions and globals by their symbols, and the
//! places that it has to fill in.
use vstd::prelude::*;

use crate::backend::elf::emit;
use crate::backend::elf::reader;
use crate::backend::elf::relocation::{Rela, RelaType};
use crate::backend::elf::symtab;
use crate::backend::elf::symtab::{Bind, Entry, Type};
use crate::backend::elf::writer::{SectionHeaderType, SectionView};
use crate::backend::emit::Relocation;
use crate::backend::object;
use crate::backend::object::ObjectModule;

verus! {

/// Each string is found where it was put.
pub proof fn strings_are_found(names: Seq<Seq<u8>>, k: int)
    requires
        0 <= k < names.len(),
    ensures
        reader::is_string_at(
            emit::strings(names),
            emit::strings(names.take(k)).len() as int,
            names[k],
        ),
    decreases names.len(),
{
    let all = emit::strings(names);
    let before = emit::strings(names.drop_last());
    let at = emit::strings(names.take(k)).len() as int;
    if k < names.len() - 1 {
        strings_are_found(names.drop_last(), k);
        assert(names.drop_last().take(k) =~= names.take(k));
        assert(all.subrange(at, at + names[k].len()) =~= before.subrange(at, at + names[k].len()));
    } else {
        assert(names.drop_last() =~= names.take(k));
        assert(all.subrange(at, at + names[k].len()) =~= names[k]);
    }
}

/// A section that is kept in memory: whether it can be written and run.
pub open spec fn is_program_section(s: SectionView, name: Seq<char>, write: bool, run: bool) -> bool {
    &&& s.header.name == object::utf8(name)
    &&& s.header.ty == SectionHeaderType::Progbits
    &&& s.header.flags.alloc
    &&& s.header.flags.write == write
    &&& s.header.flags.execinstr == run
}

/// The symbol of a function names it. It leads to its code in the section of code, or to
/// no section where the function is defined elsewhere.
pub proof fn functions_are_found(m: ObjectModule, i: int)
    requires
        0 <= i < m.functions@.len(),
        emit::strings(emit::all_names(m)).len() <= u32::MAX,
        object::text_of(m.functions@).len() <= u64::MAX,
    ensures
        ({
            let e = emit::all_symbols(m)[3 + i];
            let view = emit::object_view(m);
            &&& reader::is_string_at(
                view.strtab,
                e.name_index as int,
                object::utf8(m.functions@[i].name@),
            )
            &&& e.bind == Bind::Global
            &&& e.ty == Type::Function
            &&& e.size == m.functions@[i].code().len()
            &&& m.functions@[i].body is None <==> e.section_index.0 == 0
            &&& m.functions@[i].body is Some ==> {
                &&& is_program_section(
                    view.sections[e.section_index.0 as int],
                    ".text"@,
                    false,
                    true,
                )
                &&& view.sections[e.section_index.0 as int].contents == object::patched(
                    m,
                    object::text_of(m.functions@),
                    object::relocations_of(m.functions@),
                )
                &&& e.value + e.size <= object::text_of(m.functions@).len()
                &&& object::text_of(m.functions@).subrange(e.value as int, e.value + e.size)
                    =~= m.functions@[i].code()
            }
        }),
{
    reveal(emit::object_view);
    let names = emit::all_names(m);
    assert(names[1 + i] == object::utf8(m.functions@[i].name@));
    emit::lemma_strings_grow(names, 1 + i);
    strings_are_found(names, 1 + i);
    object::code_is_at_offset(m.functions@, i);
    assert(emit::all_symbols(m)[3 + i] == emit::function_symbol(m, i));
}

/// The symbol of a global names it and leads to its value, in the section that can be
/// written or in the one that cannot.
pub proof fn globals_are_found(m: ObjectModule, i: int)
    requires
        0 <= i < m.globals@.len(),
        emit::strings(emit::all_names(m)).len() <= u32::MAX,
        object::values_of(m.globals@, m.globals@[i].readonly).len() <= u64::MAX,
    ensures
        ({
            let e = emit::all_symbols(m)[3 + m.functions@.len() + i];
            let view = emit::object_view(m);
            let g = m.globals@[i];
            let s = view.sections[e.section_index.0 as int];
            &&& reader::is_string_at(view.strtab, e.name_index as int, object::utf8(g.name@))
            &&& e.bind == Bind::Global
            &&& e.ty == Type::Object
            &&& e.size == g.value@.len()
            &&& is_program_section(
                s,
                if g.readonly {
                    ".rodata"@
                } else {
                    ".data"@
                },
                !g.readonly,
                false,
            )
            &&& e.value + e.size <= s.contents.len()
            &&& s.contents.subrange(e.value as int, e.value + e.size) =~= g.value@
        }),
{
    reveal(emit::object_view);
    let names = emit::all_names(m);
    let k = 1 + m.functions@.len() + i;
    assert(names[k] == object::utf8(m.globals@[i].name@));
    emit::lemma_strings_grow(names, k);
    strings_are_found(names, k);
    object::value_is_at_offset(m.globals@, i);
    assert(emit::all_symbols(m)[3 + m.functions@.len() + i] == emit::global_symbol(m, i));
}

/// What the linker is told of one place: the symbol, and to write a distance of four bytes
/// from behind the place. It is told nothing of functions of the module.
pub open spec fn tells(m: ObjectModule, r: Relocation, rela: Rela) -> bool {
    let symbol = emit::all_symbols(m)[rela.sym.0 as int];
    &&& rela.r_offset == object::relocation_at(r)
    &&& rela.r_addend == -4
    &&& match r {
        Relocation::GlobalAddr(g, _) => rela.ty == RelaType::X86_64PC32 && symbol
            == emit::global_symbol(m, g as int),
        Relocation::FunctionCall(f, _) | Relocation::FunctionAddr(f, _) => rela.ty
            == RelaType::X86_64Plt32 && symbol == emit::function_symbol(m, f.0 as int)
            && m.functions@[f.0 as int].body is None,
    }
}

/// The place is not filled in already.
pub open spec fn is_left(m: ObjectModule, r: Relocation) -> bool {
    match object::called(r) {
        Some(f) => m.functions@[f as int].body is None,
        None => true,
    }
}

pub open spec fn all_exist(m: ObjectModule, rs: Seq<Relocation>) -> bool {
    forall|i: int|
        0 <= i < rs.len() ==> match #[trigger] rs[i] {
            Relocation::GlobalAddr(g, _) => g < m.globals@.len(),
            Relocation::FunctionCall(f, _) | Relocation::FunctionAddr(f, _) => f.0
                < m.functions@.len(),
        }
}

/// The linker is told of every place that is left to it.
pub proof fn places_are_told(m: ObjectModule, rs: Seq<Relocation>, i: int)
    requires
        0 <= i < rs.len(),
        all_exist(m, rs),
        is_left(m, rs[i]),
        m.functions@.len() + m.globals@.len() + 3 <= u32::MAX,
    ensures
        exists|k: int|
            0 <= k < (emit::function_relas(m, rs) + emit::global_relas(m, rs)).len() && tells(
                m,
                rs[i],
                #[trigger] (emit::function_relas(m, rs) + emit::global_relas(m, rs))[k],
            ),
    decreases rs.len(),
{
    let fs = emit::function_relas(m, rs);
    let gs = emit::global_relas(m, rs);
    let rest = rs.drop_last();
    let fs0 = emit::function_relas(m, rest);
    let gs0 = emit::global_relas(m, rest);
    assert(forall|j: int| 0 <= j < rest.len() ==> rest[j] == rs[j]);
    if i < rs.len() - 1 {
        places_are_told(m, rest, i);
        let k = choose|k: int|
            0 <= k < (fs0 + gs0).len() && tells(m, rest[i], #[trigger] (fs0 + gs0)[k]);
        if k < fs0.len() {
            assert((fs + gs)[k] == fs0[k]);
        } else {
            assert((fs + gs)[fs.len() + (k - fs0.len())] == gs0[k - fs0.len()]);
        }
    } else {
        match rs[i] {
            Relocation::GlobalAddr(g, _) => {
                let k = fs.len() + gs.len() - 1;
                assert(emit::all_symbols(m)[3 + m.functions@.len() + g] == emit::global_symbol(
                    m,
                    g as int,
                ));
                assert((fs + gs)[k] == gs.last());
                assert(tells(m, rs[i], (fs + gs)[k]));
            },
            Relocation::FunctionCall(f, _) | Relocation::FunctionAddr(f, _) => {
                let k = fs.len() - 1;
                assert(emit::all_symbols(m)[3 + f.0] == emit::function_symbol(m, f.0 as int));
                assert((fs + gs)[k] == fs.last());
                assert(tells(m, rs[i], (fs + gs)[k]));
            },
        }
    }
}

/// How many places are left.
pub open spec fn left_count(m: ObjectModule, rs: Seq<Relocation>) -> int {
    rs.filter(|r: Relocation| is_left(m, r)).len() as int
}

/// The linker is told of as many places as are left to it, and of no others.
pub proof fn no_other_places_are_told(m: ObjectModule, rs: Seq<Relocation>)
    ensures
        (emit::function_relas(m, rs) + emit::global_relas(m, rs)).len() == left_count(m, rs),
    decreases rs.len(),
{
    reveal(Seq::filter);
    if rs.len() > 0 {
        no_other_places_are_told(m, rs.drop_last());
    }
}

proof fn lemma_first_global(entries: Seq<Entry>, n: int)
    requires
        0 <= n < entries.len(),
        entries[n].bind != Bind::Local,
        forall|i: int| 0 <= i < n ==> (#[trigger] entries[i]).bind == Bind::Local,
    ensures
        symtab::first_global(entries) == Some(n),
    decreases entries.len(),
{
    let rest = entries.drop_last();
    if n < entries.len() - 1 {
        lemma_first_global(rest, n);
    } else {
        lemma_all_local(rest);
    }
}

proof fn lemma_all_local(entries: Seq<Entry>)
    requires
        forall|i: int| 0 <= i < entries.len() ==> (#[trigger] entries[i]).bind == Bind::Local,
    ensures
        symtab::first_global(entries) is None,
    decreases entries.len(),
{
    if entries.len() > 0 {
        assert(entries.last().bind == Bind::Local);
        let rest = entries.drop_last();
        assert(forall|i: int| 0 <= i < rest.len() ==> rest[i] == entries[i]);
        lemma_all_local(rest);
    }
}

/// The header of the table of symbols says how many of them are local: all symbols before
/// that number are, and none from it on.
pub proof fn local_symbols_come_first(m: ObjectModule, i: int)
    requires
        0 <= i < emit::all_symbols(m).len(),
        emit::all_symbols(m).len() <= u32::MAX,
    ensures
        ({
            let section = emit::object_view(m).sections[5];
            &&& section.header.ty == SectionHeaderType::SymTab
            &&& section.header.entsize * emit::all_symbols(m).len() == section.contents.len()
            &&& emit::all_symbols(m)[i].bind == Bind::Local <==> i < section.header.info
            // the strings of the symbols
            &&& emit::object_view(m).sections[section.header.link.0 as int].header.ty
                == SectionHeaderType::StrTab
        }),
{
    reveal(emit::object_view);
    let all = emit::all_symbols(m);
    symtab::entries_are_24_bytes(all, i);
    if m.functions@.len() + m.globals@.len() > 0 {
        assert(all[3].bind == Bind::Global);
        lemma_first_global(all, 3);
    } else {
        lemma_all_local(all);
    }
}

/// The table of places belongs to the section of code and to the table of symbols.
pub proof fn places_belong_to_the_code(m: ObjectModule)
    ensures
        ({
            let view = emit::object_view(m);
            let places = view.sections[6];
            &&& places.header.ty == SectionHeaderType::RelA
            &&& places.header.entsize == 24
            &&& view.sections[places.header.link.0 as int].header.ty == SectionHeaderType::SymTab
            &&& is_program_section(
                view.sections[places.header.info as int],
                ".text"@,
                false,
                true,
            )
        }),
{
    reveal(emit::object_view);
}

} // verus!
