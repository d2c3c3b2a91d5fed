//! What a linker finds in the file: functions and globals by their symbols, and the
//! places that it has to fill in.
use vstd::prelude::*;

use crate::backend::emit::Relocation;
use crate::backend::macho::emit;
use crate::backend::macho::relocation;
use crate::backend::macho::relocation::{RelocationInfo, RelocationLength, RelocationTypeX86_64};
use crate::backend::macho::symtab::{SymbolAddrType, SymbolVisibility};
use crate::backend::macho::writer::{CommandView, ContentView, Name, SectionView};
use crate::backend::object;
use crate::backend::object::ObjectModule;

verus! {

/// The string at `at` is the name with an underscore before it and a zero byte behind it.
pub open spec fn is_name_at(strings: Seq<u8>, at: int, name: Seq<char>) -> bool {
    let n = object::utf8(name).len();
    &&& 0 <= at
    &&& at + 1 + n < strings.len()
    &&& strings[at] as char == '_'
    &&& strings.subrange(at + 1, at + 1 + n) =~= object::utf8(name)
    &&& strings[at + 1 + n] == 0
}

/// Each name is found where it was put.
pub proof fn names_are_found(names: Seq<Seq<char>>, k: int)
    requires
        0 <= k < names.len(),
    ensures
        is_name_at(
            emit::strings(names),
            emit::strings(names.take(k)).len() as int,
            names[k],
        ),
    decreases names.len(),
{
    let all = emit::strings(names);
    let before = emit::strings(names.drop_last());
    let at = emit::strings(names.take(k)).len() as int;
    let n = object::utf8(names[k]).len();
    if k < names.len() - 1 {
        names_are_found(names.drop_last(), k);
        assert(names.drop_last().take(k) =~= names.take(k));
        assert(all.subrange(at + 1, at + 1 + n) =~= before.subrange(at + 1, at + 1 + n));
    } else {
        assert(names.drop_last() =~= names.take(k));
        assert(all.subrange(at + 1, at + 1 + n) =~= object::utf8(names[k]));
    }
}

/// All sections of the file in their order. They are counted from 1.
pub open spec fn all_sections(commands: Seq<CommandView>) -> Seq<SectionView>
    decreases commands.len(),
{
    if commands.len() == 0 {
        Seq::empty()
    } else {
        all_sections(commands.drop_last()) + match commands.last().content {
            ContentView::Segment(s) => s.sections,
            ContentView::SymTab(_) => Seq::empty(),
        }
    }
}

proof fn lemma_sections(m: ObjectModule)
    ensures
        ({
            let all = all_sections(emit::commands(m));
            let rs = object::relocations_of(m.functions@);
            &&& all.len() == 3
            &&& all[0] == emit::section(
                Name::TextSection,
                emit::with_distances(m, object::text_of(m.functions@), rs),
                emit::infos(m, rs),
            )
            &&& all[1].section_name == Name::ConstSection
            &&& all[1].contents == object::values_of(m.globals@, true)
            &&& all[2].section_name == Name::DataSection
            &&& all[2].contents == object::values_of(m.globals@, false)
        }),
{
    reveal_with_fuel(all_sections, 4);
    let c = emit::commands(m);
    assert(c.drop_last().drop_last().drop_last() =~= Seq::empty());
    assert(c.drop_last().last() == c[1]);
    assert(c.drop_last().drop_last().last() == c[0]);
}

/// The symbol of a function names it. It leads to its code in the section of code, or says
/// that the function is defined elsewhere.
pub proof fn functions_are_found(m: ObjectModule, i: int)
    requires
        0 <= i < m.functions@.len(),
        emit::strings(emit::all_names(m)).len() <= u32::MAX,
        object::text_of(m.functions@).len() <= u64::MAX,
    ensures
        ({
            let s = emit::all_symbols(m)[i];
            let size = m.functions@[i].code().len();
            let sections = all_sections(emit::commands(m));
            &&& is_name_at(
                emit::strings(emit::all_names(m)),
                s.n_strx.0 as int,
                m.functions@[i].name@,
            )
            &&& s.vis == SymbolVisibility::External
            &&& m.functions@[i].body is None <==> s.addr_type == SymbolAddrType::Undefined
            &&& m.functions@[i].body is None ==> s.n_sect.0 == 0
            &&& m.functions@[i].body is Some ==> {
                &&& s.addr_type == SymbolAddrType::SecNumDefined
                &&& sections[s.n_sect.0 - 1].section_name == Name::TextSection
                &&& s.n_value + size <= object::text_of(m.functions@).len()
                &&& object::text_of(m.functions@).subrange(s.n_value as int, s.n_value + size)
                    =~= m.functions@[i].code()
            }
        }),
{
    let names = emit::all_names(m);
    assert(names[i] == m.functions@[i].name@);
    emit::lemma_strings_grow(names, i);
    names_are_found(names, i);
    object::code_is_at_offset(m.functions@, i);
    lemma_sections(m);
    assert(emit::all_symbols(m)[i] == emit::function_symbol(m, i));
}

/// The symbol of a global names it and leads to its value, among the constants or among
/// the data.
pub proof fn globals_are_found(m: ObjectModule, i: int)
    requires
        0 <= i < m.globals@.len(),
        emit::strings(emit::all_names(m)).len() <= u32::MAX,
        object::values_of(m.globals@, m.globals@[i].readonly).len() <= u64::MAX,
    ensures
        ({
            let s = emit::all_symbols(m)[m.functions@.len() + i];
            let g = m.globals@[i];
            let section = all_sections(emit::commands(m))[s.n_sect.0 - 1];
            &&& is_name_at(emit::strings(emit::all_names(m)), s.n_strx.0 as int, g.name@)
            &&& s.vis == SymbolVisibility::External
            &&& s.addr_type == SymbolAddrType::SecNumDefined
            &&& section.section_name == if g.readonly {
                Name::ConstSection
            } else {
                Name::DataSection
            }
            &&& s.n_value + g.value@.len() <= section.contents.len()
            &&& section.contents.subrange(s.n_value as int, s.n_value + g.value@.len())
                =~= g.value@
        }),
{
    let names = emit::all_names(m);
    let k = m.functions@.len() + i;
    assert(names[k] == m.globals@[i].name@);
    emit::lemma_strings_grow(names, k);
    names_are_found(names, k);
    object::value_is_at_offset(m.globals@, i);
    lemma_sections(m);
    assert(emit::all_symbols(m)[k] == emit::global_symbol(m, i));
}

/// The kind of place with a number.
pub open spec fn kind_numbered(n: int) -> Option<RelocationTypeX86_64> {
    if n == 1 {
        Some(RelocationTypeX86_64::Signed)
    } else if n == 2 {
        Some(RelocationTypeX86_64::Branch)
    } else if n == 8 {
        Some(RelocationTypeX86_64::Signed4)
    } else {
        None
    }
}

/// What the linker is told of one place: the symbol, and to write a distance of four bytes,
/// of a call or of an address. It is told nothing of functions of the module.
pub open spec fn tells(m: ObjectModule, r: Relocation, info: RelocationInfo) -> bool {
    let symbol = emit::all_symbols(m)[info.info as int % 0x100_0000];
    let kind = kind_numbered(info.info as int / 0x1000_0000);
    &&& info.address == object::relocation_at(r)
    // relative to the place, four bytes, of a symbol
    &&& info.info as int / 0x100_0000 % 2 == 1
    &&& info.info as int / 0x200_0000 % 4 == 2
    &&& info.info as int / 0x800_0000 % 2 == 1
    &&& match r {
        Relocation::GlobalAddr(g, _) => kind == Some(RelocationTypeX86_64::Signed) && symbol
            == emit::global_symbol(m, g as int),
        Relocation::FunctionAddr(f, _) => kind == Some(RelocationTypeX86_64::Signed) && symbol
            == emit::function_symbol(m, f.0 as int) && m.functions@[f.0 as int].body is None,
        Relocation::FunctionCall(f, _) => kind == Some(RelocationTypeX86_64::Branch) && symbol
            == emit::function_symbol(m, f.0 as int) && m.functions@[f.0 as int].body is None,
    }
}

/// The place is not filled in already.
pub open spec fn is_left(m: ObjectModule, r: Relocation) -> bool {
    match object::called(r) {
        Some(f) => m.functions@[f as int].body is None,
        None => true,
    }
}

/// The linker is told of every place that is left to it, in the order of the places.
pub proof fn places_are_told(m: ObjectModule, rs: Seq<Relocation>, i: int)
    requires
        0 <= i < rs.len(),
        object::relocation_at(rs[i]) <= u32::MAX,
        match rs[i] {
            Relocation::GlobalAddr(g, _) => g < m.globals@.len(),
            Relocation::FunctionCall(f, _) | Relocation::FunctionAddr(f, _) => f.0
                < m.functions@.len(),
        },
        is_left(m, rs[i]),
        m.functions@.len() + m.globals@.len() < 0x100_0000,
    ensures
        ({
            let k = emit::infos(m, rs.take(i)).len() as int;
            &&& 0 <= k < emit::infos(m, rs).len()
            &&& tells(m, rs[i], emit::infos(m, rs)[k])
        }),
    decreases rs.len(),
{
    let rest = rs.drop_last();
    if i < rs.len() - 1 {
        places_are_told(m, rest, i);
        assert(rest.take(i) =~= rs.take(i));
    } else {
        assert(rest =~= rs.take(i));
        let n = m.functions@.len();
        match rs[i] {
            Relocation::GlobalAddr(g, _) => {
                relocation::packed_fields_read_back(
                    (n + g) as u32,
                    true,
                    RelocationLength::L4,
                    true,
                    1,
                );
                assert(emit::all_symbols(m)[n + g] == emit::global_symbol(m, g as int));
            },
            Relocation::FunctionAddr(f, _) => {
                relocation::packed_fields_read_back(f.0, true, RelocationLength::L4, true, 1);
                assert(emit::all_symbols(m)[f.0 as int] == emit::function_symbol(m, f.0 as int));
            },
            Relocation::FunctionCall(f, _) => {
                relocation::packed_fields_read_back(f.0, true, RelocationLength::L4, true, 2);
                assert(emit::all_symbols(m)[f.0 as int] == emit::function_symbol(m, f.0 as int));
            },
        }
    }
}

/// The linker is told of as many places as are left to it, and of no others.
pub proof fn no_other_places_are_told(m: ObjectModule, rs: Seq<Relocation>)
    ensures
        emit::infos(m, rs).len() == rs.filter(|r: Relocation| is_left(m, r)).len(),
    decreases rs.len(),
{
    reveal(Seq::filter);
    if rs.len() > 0 {
        no_other_places_are_told(m, rs.drop_last());
    }
}

} // verus!
