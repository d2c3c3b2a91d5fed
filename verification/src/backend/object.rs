//! What goes into an object file.
use vstd::prelude::*;

use crate::backend::bytes;
use crate::backend::bytes::{bits_of_i32, push_all, write_u32};
use crate::backend::emit::Relocation;

verus! {

/// The machine code of a function. The places to be filled in are counted from its
/// start.
#[derive(Debug)]
pub struct Body {
    pub code: Vec<u8>,
    pub relocations: Vec<Relocation>,
}

/// A function of a module, with its code unless it is defined elsewhere.
#[derive(Debug)]
pub struct ObjectFunction {
    pub name: String,
    pub body: Option<Body>,
}

#[derive(Debug)]
pub struct ObjectGlobal {
    pub name: String,
    pub readonly: bool,
    pub value: Vec<u8>,
}

/// A module whose functions were compiled.
#[derive(Debug)]
pub struct ObjectModule {
    pub name: String,
    pub functions: Vec<ObjectFunction>,
    pub globals: Vec<ObjectGlobal>,
}

impl ObjectFunction {
    pub open spec fn code(self) -> Seq<u8> {
        match self.body {
            Some(b) => b.code@,
            None => Seq::empty(),
        }
    }

    pub open spec fn relocations(self) -> Seq<Relocation> {
        match self.body {
            Some(b) => b.relocations@,
            None => Seq::empty(),
        }
    }
}

/// The code of functions one after the other.
pub open spec fn text_of(functions: Seq<ObjectFunction>) -> Seq<u8>
    decreases functions.len(),
{
    if functions.len() == 0 {
        Seq::empty()
    } else {
        text_of(functions.drop_last()) + functions.last().code()
    }
}

/// Where the code of a function begins.
pub open spec fn offset_of(functions: Seq<ObjectFunction>, i: int) -> int {
    text_of(functions.take(i)).len() as int
}

/// The place of a relocation, counted from the start of all code.
pub open spec fn shifted(r: Relocation, by: int) -> Relocation {
    match r {
        Relocation::FunctionCall(f, at) => Relocation::FunctionCall(f, (at + by) as u64),
        Relocation::FunctionAddr(f, at) => Relocation::FunctionAddr(f, (at + by) as u64),
        Relocation::GlobalAddr(g, at) => Relocation::GlobalAddr(g, (at + by) as u64),
    }
}

pub open spec fn relocation_at(r: Relocation) -> u64 {
    match r {
        Relocation::FunctionCall(_, at) => at,
        Relocation::FunctionAddr(_, at) => at,
        Relocation::GlobalAddr(_, at) => at,
    }
}

/// The places of all functions that are to be filled in.
pub open spec fn relocations_of(functions: Seq<ObjectFunction>) -> Seq<Relocation>
    decreases functions.len(),
{
    if functions.len() == 0 {
        Seq::empty()
    } else {
        let base = text_of(functions.drop_last()).len() as int;
        relocations_of(functions.drop_last()) + functions.last().relocations().map_values(
            |r: Relocation| shifted(r, base),
        )
    }
}

/// The place and the number that is put there can be written.
pub open spec fn relocation_fits(r: Relocation, module: ObjectModule) -> bool {
    &&& relocation_at(r) + 4 <= text_of(module.functions@).len()
    &&& match r {
        Relocation::FunctionCall(f, _) => f.0 < module.functions@.len(),
        Relocation::FunctionAddr(f, _) => f.0 < module.functions@.len(),
        Relocation::GlobalAddr(g, _) => g < module.globals@.len(),
    }
}

pub proof fn lemma_text_grows(functions: Seq<ObjectFunction>, i: int)
    requires
        0 <= i <= functions.len(),
    ensures
        text_of(functions.take(i)).len() <= text_of(functions).len(),
        text_of(functions).take(text_of(functions.take(i)).len() as int) =~= text_of(
            functions.take(i),
        ),
    decreases functions.len(),
{
    if i < functions.len() {
        assert(functions.drop_last().take(i) =~= functions.take(i));
        lemma_text_grows(functions.drop_last(), i);
    } else {
        assert(functions.take(i) =~= functions);
    }
}

/// The code of a function is found where the function begins.
pub proof fn code_is_at_offset(functions: Seq<ObjectFunction>, i: int)
    requires
        0 <= i < functions.len(),
    ensures
        ({
            let at = offset_of(functions, i);
            let end = at + functions[i].code().len();
            &&& end <= text_of(functions).len()
            &&& text_of(functions).subrange(at, end) =~= functions[i].code()
        }),
{
    lemma_text_grows(functions, i + 1);
    assert(functions.take(i + 1).drop_last() =~= functions.take(i));
    let at = offset_of(functions, i);
    let end = at + functions[i].code().len();
    assert(text_of(functions.take(i + 1)) =~= text_of(functions.take(i)) + functions[i].code());
    assert(text_of(functions).subrange(at, end) =~= text_of(functions.take(i + 1)).subrange(
        at,
        end,
    ));
}

/// Moves the place of a relocation.
pub fn shift(r: Relocation, by: u64) -> (s: Relocation)
    requires
        relocation_at(r) + by <= u64::MAX,
    ensures
        s == shifted(r, by as int),
{
    match r {
        Relocation::FunctionCall(f, at) => Relocation::FunctionCall(f, at + by),
        Relocation::FunctionAddr(f, at) => Relocation::FunctionAddr(f, at + by),
        Relocation::GlobalAddr(g, at) => Relocation::GlobalAddr(g, at + by),
    }
}

pub open spec fn utf8(s: Seq<char>) -> Seq<u8> {
    vstd::utf8::encode_utf8(s)
}

/// The values of the globals that can be written, or of those that cannot, one
/// after the other.
pub open spec fn values_of(globals: Seq<ObjectGlobal>, readonly: bool) -> Seq<u8>
    decreases globals.len(),
{
    if globals.len() == 0 {
        Seq::empty()
    } else {
        let rest = values_of(globals.drop_last(), readonly);
        if globals.last().readonly == readonly {
            rest + globals.last().value@
        } else {
            rest
        }
    }
}

/// The function that a relocation refers to.
pub open spec fn called(r: Relocation) -> Option<u32> {
    match r {
        Relocation::FunctionCall(f, _) => Some(f.0),
        Relocation::FunctionAddr(f, _) => Some(f.0),
        Relocation::GlobalAddr(_, _) => None,
    }
}

/// The distance from behind the place to the function.
pub open spec fn distance(m: ObjectModule, f: u32, at: u64) -> int {
    offset_of(m.functions@, f as int) - at - 4
}

/// The code with the distances to functions of the module filled in.
pub open spec fn patched(m: ObjectModule, text: Seq<u8>, rs: Seq<Relocation>) -> Seq<u8>
    decreases rs.len(),
{
    if rs.len() == 0 {
        text
    } else {
        let before = patched(m, text, rs.drop_last());
        let at = relocation_at(rs.last());
        match called(rs.last()) {
            Some(f) => if m.functions@[f as int].body is Some {
                before.take(at as int) + bytes::le_32(bytes::twos_32(distance(m, f, at)))
                    + before.skip(at + 4)
            } else {
                before
            },
            None => before,
        }
    }
}

/// Every place lies in the code, what it refers to exists, and distances to functions of the
/// module can be written.
pub open spec fn relocations_fit(m: ObjectModule) -> bool {
    let rs = relocations_of(m.functions@);
    forall|i: int|
        0 <= i < rs.len() ==> {
            &&& relocation_fits(#[trigger] rs[i], m)
            &&& called(rs[i]) matches Some(f) ==> (m.functions@[f as int].body is Some
                ==> bytes::fits_i32(distance(m, f, relocation_at(rs[i]))))
        }
}

/// The places of the relocations of single functions can be counted.
pub open spec fn places_fit(m: ObjectModule) -> bool {
    forall|i: int, j: int|
        0 <= i < m.functions@.len() && 0 <= j < m.functions@[i].relocations().len()
            ==> relocation_at(#[trigger] m.functions@[i].relocations()[j])
            + text_of(m.functions@).len() <= u64::MAX
}

fn push_relocations(rs: &mut Vec<Relocation>, new: &Vec<Relocation>, by: u64)
    requires
        forall|j: int|
            0 <= j < new@.len() ==> relocation_at(#[trigger] new@[j]) + by <= u64::MAX,
    ensures
        final(rs)@ == old(rs)@ + new@.map_values(|r: Relocation| shifted(r, by as int)),
{
    let ghost before = rs@;
    let mut j: usize = 0;
    while j < new.len()
        invariant
            j <= new@.len(),
            forall|j: int|
                0 <= j < new@.len() ==> relocation_at(#[trigger] new@[j]) + by
                    <= u64::MAX,
            rs@ =~= before + new@.map_values(|r: Relocation| shifted(r, by as int)).take(
                j as int,
            ),
        decreases new.len() - j,
    {
        rs.push(shift(new[j], by));
        j += 1;
    }
    assert(rs@ =~= before + new@.map_values(|r: Relocation| shifted(r, by as int)));
}

pub proof fn lemma_patched_len(m: ObjectModule, text: Seq<u8>, rs: Seq<Relocation>)
    requires
        forall|i: int|
            0 <= i < rs.len() ==> relocation_at(#[trigger] rs[i]) + 4 <= text.len(),
    ensures
        patched(m, text, rs).len() == text.len(),
    decreases rs.len(),
{
    if rs.len() > 0 {
        let rest = rs.drop_last();
        assert(forall|i: int| 0 <= i < rest.len() ==> rest[i] == rs[i]);
        lemma_patched_len(m, text, rest);
        assert(relocation_at(rs[rs.len() - 1]) + 4 <= text.len());
        if let Some(f) = called(rs.last()) {
            bytes::le_bytes_len(
                bytes::twos_32(distance(m, f, relocation_at(rs.last()))) as int,
                4,
            );
        }
    }
}

/// Where each function begins.
pub open spec fn offsets_of(functions: Seq<ObjectFunction>) -> Seq<u64> {
    Seq::new(functions.len(), |i: int| offset_of(functions, i) as u64)
}

/// The code of a module, the places that are to be filled in and where each function
/// begins.
pub fn lay_out(m: &ObjectModule) -> (r: (Vec<u8>, Vec<Relocation>, Vec<u64>))
    requires
        places_fit(*m),
    ensures
        r.0@ == text_of(m.functions@),
        r.1@ == relocations_of(m.functions@),
        r.2@ == offsets_of(m.functions@),
{
    let ghost fs = m.functions@;
    let mut text: Vec<u8> = Vec::new();
    let mut rs: Vec<Relocation> = Vec::new();
    let mut offsets: Vec<u64> = Vec::new();
    let mut i: usize = 0;
    assert(fs.take(0) =~= Seq::empty());
    while i < m.functions.len()
        invariant
            i <= fs.len(),
            fs == m.functions@,
            places_fit(*m),
            text@ == text_of(fs.take(i as int)),
            rs@ == relocations_of(fs.take(i as int)),
            offsets@ =~= Seq::new(i as nat, |i: int| offset_of(fs, i) as u64),
        decreases m.functions.len() - i,
    {
        let func: &ObjectFunction = &m.functions[i];
        proof {
            assert(fs.take(i + 1).drop_last() =~= fs.take(i as int));
            assert(fs.take(i + 1).last() == fs[i as int]);
            lemma_text_grows(fs, i as int);
        }
        let offset: u64 = text.len() as u64;
        offsets.push(offset);
        match &func.body {
            Some(body) => {
                assert forall|j: int| 0 <= j < body.relocations@.len() implies relocation_at(
                    #[trigger] body.relocations@[j],
                ) + offset <= u64::MAX by {
                    assert(relocation_at(fs[i as int].relocations()[j]) + text_of(fs).len()
                        <= u64::MAX);
                }
                push_relocations(&mut rs, &body.relocations, offset);
                push_all(&mut text, body.code.as_slice());
            },
            None => {
                proof {
                    assert(text@ =~= text@ + Seq::<u8>::empty());
                    assert(rs@ =~= rs@ + func.relocations().map_values(
                        |r: Relocation| shifted(r, offset as int),
                    ));
                }
            },
        }
        i += 1;
    }
    assert(fs.take(i as int) =~= fs);
    (text, rs, offsets)
}

/// Where the value of a global begins in its section.
pub open spec fn global_offset(globals: Seq<ObjectGlobal>, i: int) -> int {
    values_of(globals.take(i), globals[i].readonly).len() as int
}

/// The values of the globals that cannot be written, of those that can, and where
/// each value begins.
pub fn lay_out_globals(m: &ObjectModule) -> (r: (Vec<u8>, Vec<u8>, Vec<u64>))
    ensures
        r.0@ == values_of(m.globals@, true),
        r.1@ == values_of(m.globals@, false),
        r.2@ == Seq::new(m.globals@.len(), |i: int| global_offset(m.globals@, i) as u64),
{
    let ghost gs = m.globals@;
    let mut rodata: Vec<u8> = Vec::new();
    let mut data: Vec<u8> = Vec::new();
    let mut offsets: Vec<u64> = Vec::new();
    let mut i: usize = 0;
    assert(gs.take(0) =~= Seq::empty());
    while i < m.globals.len()
        invariant
            i <= gs.len(),
            gs == m.globals@,
            rodata@ == values_of(gs.take(i as int), true),
            data@ == values_of(gs.take(i as int), false),
            offsets@ =~= Seq::new(i as nat, |i: int| global_offset(gs, i) as u64),
        decreases m.globals.len() - i,
    {
        let global: &ObjectGlobal = &m.globals[i];
        proof {
            assert(gs.take(i + 1).drop_last() =~= gs.take(i as int));
            assert(gs.take(i + 1).last() == gs[i as int]);
        }
        if global.readonly {
            offsets.push(rodata.len() as u64);
            push_all(&mut rodata, global.value.as_slice());
        } else {
            offsets.push(data.len() as u64);
            push_all(&mut data, global.value.as_slice());
        }
        i += 1;
    }
    assert(gs.take(i as int) =~= gs);
    (rodata, data, offsets)
}

/// The value of a global is found where it begins.
pub proof fn value_is_at_offset(globals: Seq<ObjectGlobal>, i: int)
    requires
        0 <= i < globals.len(),
    ensures
        ({
            let all = values_of(globals, globals[i].readonly);
            let at = global_offset(globals, i);
            let end = at + globals[i].value@.len();
            &&& end <= all.len()
            &&& all.subrange(at, end) =~= globals[i].value@
        }),
{
    let readonly = globals[i].readonly;
    lemma_values_grow(globals, readonly, i + 1);
    assert(globals.take(i + 1).drop_last() =~= globals.take(i));
    let at = global_offset(globals, i);
    let end = at + globals[i].value@.len();
    assert(values_of(globals, readonly).subrange(at, end) =~= values_of(
        globals.take(i + 1),
        readonly,
    ).subrange(at, end));
}

proof fn lemma_values_grow(globals: Seq<ObjectGlobal>, readonly: bool, i: int)
    requires
        0 <= i <= globals.len(),
    ensures
        values_of(globals.take(i), readonly).len() <= values_of(globals, readonly).len(),
        values_of(globals, readonly).take(values_of(globals.take(i), readonly).len() as int)
            =~= values_of(globals.take(i), readonly),
    decreases globals.len(),
{
    if i < globals.len() {
        assert(globals.drop_last().take(i) =~= globals.take(i));
        lemma_values_grow(globals.drop_last(), readonly, i);
    } else {
        assert(globals.take(i) =~= globals);
    }
}

/// Fills in the distances to functions of the module.
pub fn patch(m: &ObjectModule, text: &mut Vec<u8>, rs: &Vec<Relocation>, offsets: &Vec<u64>)
    requires
        old(text)@ == text_of(m.functions@),
        rs@ == relocations_of(m.functions@),
        offsets@ == offsets_of(m.functions@),
        relocations_fit(*m),
    ensures
        final(text)@ == patched(*m, text_of(m.functions@), rs@),
{
    let ghost all = rs@;
    let ghost text0 = text@;
    let text_len: usize = text.len();
    let mut i: usize = 0;
    assert(all.take(0) =~= Seq::empty());
    while i < rs.len()
        invariant
            i <= rs@.len(),
            all == rs@,
            rs@ == relocations_of(m.functions@),
            text0 == text_of(m.functions@),
            relocations_fit(*m),
            offsets@ == offsets_of(m.functions@),
            text0.len() == text_len,
            text@ == patched(*m, text0, all.take(i as int)),
        decreases rs.len() - i,
    {
        let r: Relocation = rs[i];
        proof {
            assert(all.take(i + 1).drop_last() =~= all.take(i as int));
            assert(all.take(i + 1).last() == all[i as int]);
            assert(relocation_fits(all[i as int], *m));
            assert forall|j: int| 0 <= j < i implies relocation_at(
                #[trigger] all.take(i as int)[j],
            ) + 4 <= text0.len() by {
                assert(relocation_fits(all[j], *m));
            }
            lemma_patched_len(*m, text0, all.take(i as int));
        }
        let place: Option<(u32, u64)> = match r {
            Relocation::FunctionCall(f, at) => Some((f.0, at)),
            Relocation::FunctionAddr(f, at) => Some((f.0, at)),
            Relocation::GlobalAddr(_, _) => None,
        };
        if let Some((f, at)) = place {
            if m.functions[f as usize].body.is_some() {
                proof {
                    lemma_text_grows(m.functions@, f as int);
                    assert(offsets@[f as int] == offset_of(m.functions@, f as int));
                }
                let distance: i128 = offsets[f as usize] as i128 - at as i128 - 4;
                let offset: i32 = distance as i32;
                write_u32(text, at as usize, bits_of_i32(offset));
            }
        }
        i += 1;
    }
    assert(all.take(i as int) =~= all);
}

/// The number that is stored in four bytes.
pub open spec fn stored_at(text: Seq<u8>, at: int) -> int {
    bytes::signed_32(bytes::le_value(text.subrange(at, at + 4)) as u32)
}

/// Where places do not overlap, each call of a function of the module leads to the
/// start of that function: the distance that is stored counts from behind the place.
pub proof fn calls_reach_their_functions(
    m: ObjectModule,
    text: Seq<u8>,
    rs: Seq<Relocation>,
    i: int,
)
    requires
        0 <= i < rs.len(),
        forall|j: int|
            0 <= j < rs.len() ==> relocation_at(#[trigger] rs[j]) + 4 <= text.len(),
        forall|j: int, k: int|
            0 <= j < k < rs.len() ==> relocation_at(#[trigger] rs[j]) + 4 <= relocation_at(
                #[trigger] rs[k],
            ) || relocation_at(rs[k]) + 4 <= relocation_at(rs[j]),
        called(rs[i]) matches Some(f) && m.functions@[f as int].body is Some && -0x8000_0000
            <= distance(m, f, relocation_at(rs[i])) < 0x8000_0000,
    ensures
        ({
            let at = relocation_at(rs[i]);
            let f = called(rs[i])->Some_0;
            at + 4 + stored_at(patched(m, text, rs), at as int) == offset_of(
                m.functions@,
                f as int,
            )
        }),
    decreases rs.len(),
{
    let rest = rs.drop_last();
    let at = relocation_at(rs[i]);
    let f = called(rs[i])->Some_0;
    assert(forall|j: int| 0 <= j < rest.len() ==> rest[j] == rs[j]);
    lemma_patched_len(m, text, rest);
    let before = patched(m, text, rest);
    if i == rs.len() - 1 {
        let d = bytes::twos_32(distance(m, f, at));
        bytes::le_bytes_len(d as int, 4);
        assert(patched(m, text, rs).subrange(at as int, at + 4) =~= bytes::le_32(d));
        bytes::le_round_trip(d as int, 4);
        bytes::signed_round_trip(distance(m, f, at) as i32, d);
    } else {
        calls_reach_their_functions(m, text, rest, i);
        let last = relocation_at(rs[rs.len() - 1]);
        if let Some(g) = called(rs.last()) {
            bytes::le_bytes_len(bytes::twos_32(distance(m, g, last)) as int, 4);
        }
        assert(patched(m, text, rs).subrange(at as int, at + 4) =~= before.subrange(
            at as int,
            at + 4,
        ));
    }
}

/// The place of the `j`-th relocation of the function `i` is listed, counted from the
/// start of all code.
pub open spec fn is_place_of(m: ObjectModule, i: int, j: int, r: Relocation) -> bool {
    &&& 0 <= i < m.functions@.len()
    &&& 0 <= j < m.functions@[i].relocations().len()
    &&& ({
        let own = m.functions@[i].relocations()[j];
        &&& relocation_at(r) == relocation_at(own) + offset_of(m.functions@, i)
        &&& called(r) == called(own)
        &&& r is FunctionCall == own is FunctionCall
        &&& r matches Relocation::GlobalAddr(g, _) ==> (own matches Relocation::GlobalAddr(h, _)
            && g == h)
    })
}

/// Every relocation of a function is found among those of the module, moved by as much
/// as the code of the function.
pub proof fn relocations_move_with_their_function(m: ObjectModule, i: int, j: int)
    requires
        0 <= i < m.functions@.len(),
        0 <= j < m.functions@[i].relocations().len(),
        places_fit(m),
    ensures
        exists|k: int|
            0 <= k < relocations_of(m.functions@).len() && is_place_of(
                m,
                i,
                j,
                #[trigger] relocations_of(m.functions@)[k],
            ),
{
    lemma_relocation_place(m, m.functions@.len() as int, i, j);
    assert(m.functions@.take(m.functions@.len() as int) =~= m.functions@);
}

proof fn lemma_relocation_place(m: ObjectModule, n: int, i: int, j: int)
    requires
        0 <= i < n <= m.functions@.len(),
        0 <= j < m.functions@[i].relocations().len(),
        places_fit(m),
    ensures
        exists|k: int|
            0 <= k < relocations_of(m.functions@.take(n)).len() && is_place_of(
                m,
                i,
                j,
                #[trigger] relocations_of(m.functions@.take(n))[k],
            ),
    decreases n,
{
    let fs = m.functions@.take(n);
    let all = relocations_of(fs);
    let before = relocations_of(fs.drop_last());
    assert(fs.drop_last() =~= m.functions@.take(n - 1));
    if i < n - 1 {
        lemma_relocation_place(m, n - 1, i, j);
        let k = choose|k: int|
            0 <= k < before.len() && is_place_of(m, i, j, #[trigger] before[k]);
        assert(all[k] == before[k]);
    } else {
        lemma_text_grows(m.functions@, i);
        assert(relocation_at(m.functions@[i].relocations()[j]) + text_of(m.functions@).len()
            <= u64::MAX);
        let k = before.len() + j;
        assert(is_place_of(m, i, j, all[k]));
    }
}

/// No relocation is listed that no function has.
pub proof fn listed_relocations_belong_to_functions(m: ObjectModule, k: int)
    requires
        0 <= k < relocations_of(m.functions@).len(),
        places_fit(m),
    ensures
        exists|i: int, j: int| #[trigger] is_place_of(m, i, j, relocations_of(m.functions@)[k]),
{
    assert(m.functions@.take(m.functions@.len() as int) =~= m.functions@);
    lemma_listed(m, m.functions@.len() as int, k);
}

proof fn lemma_listed(m: ObjectModule, n: int, k: int)
    requires
        0 <= n <= m.functions@.len(),
        0 <= k < relocations_of(m.functions@.take(n)).len(),
        places_fit(m),
    ensures
        exists|i: int, j: int|
            #[trigger] is_place_of(m, i, j, relocations_of(m.functions@.take(n))[k]),
    decreases n,
{
    let fs = m.functions@.take(n);
    let all = relocations_of(fs);
    if n > 0 {
        let before = relocations_of(fs.drop_last());
        assert(fs.drop_last() =~= m.functions@.take(n - 1));
        if k < before.len() {
            lemma_listed(m, n - 1, k);
            assert(all[k] == before[k]);
        } else {
            let (i, j) = (n - 1, k - before.len());
            lemma_text_grows(m.functions@, i);
            assert(relocation_at(m.functions@[i].relocations()[j]) + text_of(m.functions@).len()
                <= u64::MAX);
            assert(is_place_of(m, i, j, all[k]));
        }
    }
}

/// Filling in distances changes the code only at the places of relocations to functions
/// of the module.
pub proof fn patching_changes_only_places(
    m: ObjectModule,
    text: Seq<u8>,
    rs: Seq<Relocation>,
    n: int,
)
    requires
        0 <= n < text.len(),
        forall|i: int|
            0 <= i < rs.len() ==> relocation_at(#[trigger] rs[i]) + 4 <= text.len(),
        forall|i: int|
            0 <= i < rs.len() && relocation_at(#[trigger] rs[i]) <= n < relocation_at(rs[i]) + 4
                ==> (called(rs[i]) matches Some(f) ==> m.functions@[f as int].body is None),
    ensures
        patched(m, text, rs).len() == text.len(),
        patched(m, text, rs)[n] == text[n],
    decreases rs.len(),
{
    lemma_patched_len(m, text, rs);
    if rs.len() > 0 {
        let rest = rs.drop_last();
        assert(forall|i: int| 0 <= i < rest.len() ==> rest[i] == rs[i]);
        patching_changes_only_places(m, text, rest, n);
        let at = relocation_at(rs[rs.len() - 1]);
        assert(at + 4 <= text.len());
        if let Some(f) = called(rs.last()) {
            bytes::le_bytes_len(bytes::twos_32(distance(m, f, at)) as int, 4);
        }
    }
}

} // verus!
