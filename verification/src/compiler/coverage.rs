//! What the covered patterns mean: which values of the matched type they match.
use vstd::prelude::*;

use crate::compiler::exhaust;
use crate::compiler::exhaust::{EnumCase, Exhaustion, MatchedContent, MatchedType, MatchedVariant};
use crate::compiler::types::InvalidTypeError;

verus! {

/// A value as far as patterns can tell values apart. Of a type that is neither an
/// integer, an enum nor a tuple no more than two values can be told apart.
pub enum Value {
    Bool(bool),
    Int(int),
    Variant(Seq<char>, Seq<Value>),
    Tuple(Seq<Value>),
}

/// The answer of a check that could be made.
pub open spec fn says(b: bool) -> Result<bool, InvalidTypeError> {
    Ok(b)
}

/// The value belongs to the type.
pub open spec fn inhabits(v: Value, ty: MatchedType) -> bool
    decreases v,
{
    &&& ty.uninhabited != says(true)
    &&& match (v, ty.content) {
        (Value::Bool(_), MatchedContent::Other) => true,
        (Value::Int(n), MatchedContent::Int(int_ty)) => int_ty.lowest() <= n <= int_ty.highest(),
        (Value::Variant(name, args), MatchedContent::Enum(variants)) => exists|k: int|
            0 <= k < variants@.len() && #[trigger] variants@[k].name@ == name && inhabit(
                args,
                variants@[k].args@,
            ),
        (Value::Tuple(members), MatchedContent::Tuple(types)) => inhabit(members, types@),
        _ => false,
    }
}

/// Each value belongs to the type at its place.
pub open spec fn inhabit(vs: Seq<Value>, types: Seq<MatchedType>) -> bool
    decreases vs,
{
    &&& vs.len() == types.len()
    &&& forall|i: int| 0 <= i < vs.len() ==> inhabits(#[trigger] vs[i], types[i])
}

/// The patterns match the value. Members and arguments are matched one by one.
pub open spec fn matches_value(e: Exhaustion, v: Value) -> bool
    decreases v,
{
    match e {
        Exhaustion::Empty | Exhaustion::Invalid => false,
        Exhaustion::Full => true,
        Exhaustion::UnsignedInt(_) | Exhaustion::SignedInt { .. } => match v {
            Value::Int(n) => e.covers_int(n),
            _ => false,
        },
        Exhaustion::Bool { true_, false_ } => match v {
            Value::Bool(b) => (b && true_) || (!b && false_),
            _ => false,
        },
        Exhaustion::Enum(cases) => match v {
            Value::Variant(name, args) => exists|k: int|
                0 <= k < cases@.len() && #[trigger] cases@[k].name@ == name && match_values(
                    cases@[k].args@,
                    args,
                ),
            _ => false,
        },
        Exhaustion::Tuple(es) => match v {
            Value::Tuple(members) => match_values(es@, members),
            _ => false,
        },
    }
}

/// The patterns match the values at their places.
pub open spec fn match_values(es: Seq<Exhaustion>, vs: Seq<Value>) -> bool
    decreases vs,
{
    forall|i: int| 0 <= i < vs.len() && i < es.len() ==> matches_value(es[i], #[trigger] vs[i])
}

/// The patterns are of the kind of the type: booleans are matched where there is
/// nothing else to match, the variants have names of their own, and no more
/// variants are matched than there are.
pub open spec fn fits(e: Exhaustion, ty: MatchedType) -> bool
    decreases e,
{
    match (e, ty.content) {
        (Exhaustion::Bool { .. }, content) => content is Other,
        (Exhaustion::Enum(cases), MatchedContent::Enum(variants)) => {
            &&& cases@.len() <= variants@.len()
            &&& forall|i: int, j: int|
                0 <= i < j < variants@.len() ==> (#[trigger] variants@[i]).name@ != (
                #[trigger] variants@[j]).name@
            &&& forall|k: int, i: int, j: int|
                #![trigger cases@[k].args@[j], variants@[i].args@[j]]
                0 <= k < cases@.len() && 0 <= i < variants@.len() && cases@[k].name@
                    == variants@[i].name@ && 0 <= j < cases@[k].args@.len() && j
                    < variants@[i].args@.len() ==> fits(
                    cases@[k].args@[j],
                    variants@[i].args@[j],
                )
        },
        (Exhaustion::Tuple(es), MatchedContent::Tuple(types)) => forall|i: int|
            #![trigger es@[i], types@[i]]
            0 <= i < es@.len() && i < types@.len() ==> fits(es@[i], types@[i]),
        _ => true,
    }
}

/// The type and all types in it have values.
pub open spec fn populated(ty: MatchedType) -> bool
    decreases ty,
{
    &&& exists|v: Value| inhabits(v, ty)
    &&& match ty.content {
        MatchedContent::Enum(variants) => forall|k: int, i: int|
            0 <= k < variants@.len() && 0 <= i < variants@[k].args@.len() ==> populated(
                #[trigger] variants@[k].args@[i],
            ),
        MatchedContent::Tuple(types) => forall|i: int|
            0 <= i < types@.len() ==> populated(#[trigger] types@[i]),
        _ => true,
    }
}

proof fn lemma_all(es: Seq<Exhaustion>, types: Seq<MatchedType>, i: nat)
    ensures
        exhaust::all_exhausted(es, types, i) == says(true) ==> forall|j: int|
            #![trigger es[j]]
            i <= j < es.len() && j < types.len() ==> exhaust::exhausted(es[j], types[j]) == says(true),
        exhaust::all_exhausted(es, types, i) == says(false) ==> exists|j: int|
            #![trigger es[j]]
            i <= j < es.len() && j < types.len() && exhaust::exhausted(es[j], types[j]) == says(false),
    decreases es.len() - i,
{
    if i < es.len() && i < types.len() {
        if exhaust::exhausted(es[i as int], types[i as int]) == says(true) {
            lemma_all(es, types, i + 1);
        }
    }
}

proof fn lemma_case(cases: Seq<EnumCase>, name: Seq<char>)
    ensures
        match exhaust::case_index(cases, name) {
            Some(i) => 0 <= i < cases.len() && cases[i].name@ == name,
            None => forall|i: int| 0 <= i < cases.len() ==> (#[trigger] cases[i]).name@ != name,
        },
    decreases cases.len(),
{
    if cases.len() > 0 && cases.last().name@ != name {
        lemma_case(cases.drop_last(), name);
        let rest = cases.drop_last();
        assert(forall|i: int| 0 <= i < rest.len() ==> rest[i] == cases[i]);
    }
}

/// The case of a variant has all its arguments covered.
spec fn variant_done(cases: Seq<EnumCase>, variant: MatchedVariant) -> bool {
    exists|k: int|
        0 <= k < cases.len() && #[trigger] cases[k].name@ == variant.name@
            && exhaust::all_exhausted(cases[k].args@, variant.args@, 0) == says(true)
}

/// The case of a variant has an argument that is not covered.
spec fn variant_open(cases: Seq<EnumCase>, variant: MatchedVariant) -> bool {
    exists|k: int|
        0 <= k < cases.len() && #[trigger] cases[k].name@ == variant.name@
            && exhaust::all_exhausted(cases[k].args@, variant.args@, 0) == says(false)
}

proof fn lemma_variants(cases: Seq<EnumCase>, variants: Seq<MatchedVariant>, i: nat)
    ensures
        exhaust::variants_exhausted(cases, variants, i) == says(true) ==> forall|j: int|
            i <= j < variants.len() ==> variant_done(cases, #[trigger] variants[j]),
        exhaust::variants_exhausted(cases, variants, i) == says(false) ==> exists|j: int|
            i <= j < variants.len() && variant_open(cases, #[trigger] variants[j]),
    decreases variants.len() - i,
{
    if i < variants.len() {
        lemma_case(cases, variants[i as int].name@);
        match exhaust::case_index(cases, variants[i as int].name@) {
            Some(k) => {
                let r = exhaust::all_exhausted(cases[k].args@, variants[i as int].args@, 0);
                if r == says(true) {
                    assert(variant_done(cases, variants[i as int]));
                    lemma_variants(cases, variants, i + 1);
                } else if r == says(false) {
                    assert(variant_open(cases, variants[i as int]));
                }
            },
            None => {},
        }
    }
}

/// Patterns that are said to exhaust a type match each of its values.
pub proof fn exhausted_types_are_matched(e: Exhaustion, ty: MatchedType, v: Value)
    requires
        fits(e, ty),
        exhaust::exhausted(e, ty) == says(true),
        inhabits(v, ty),
    ensures
        matches_value(e, v),
    decreases v,
{
    match e {
        Exhaustion::Enum(cases) => {
            if let MatchedContent::Enum(variants) = ty.content {
                if let Value::Variant(name, args) = v {
                    let n = choose|k: int|
                        0 <= k < variants@.len() && #[trigger] variants@[k].name@ == name
                            && inhabit(args, variants@[k].args@);
                    lemma_variants(cases@, variants@, 0);
                    assert(variant_done(cases@, variants@[n]));
                    let k = choose|k: int|
                        0 <= k < cases@.len() && #[trigger] cases@[k].name@ == variants@[n].name@
                            && exhaust::all_exhausted(cases@[k].args@, variants@[n].args@, 0)
                            == says(true);
                    lemma_all(cases@[k].args@, variants@[n].args@, 0);
                    assert forall|i: int|
                        0 <= i < args.len() && i < cases@[k].args@.len() implies matches_value(
                        cases@[k].args@[i],
                        #[trigger] args[i],
                    ) by {
                        assert(fits(cases@[k].args@[i], variants@[n].args@[i]));
                        exhausted_types_are_matched(
                            cases@[k].args@[i],
                            variants@[n].args@[i],
                            args[i],
                        );
                    }
                    assert(cases@[k].name@ == name);
                }
            }
        },
        Exhaustion::Tuple(es) => {
            if let MatchedContent::Tuple(types) = ty.content {
                if let Value::Tuple(members) = v {
                    lemma_all(es@, types@, 0);
                    assert forall|i: int|
                        0 <= i < members.len() && i < es@.len() implies matches_value(
                        es@[i],
                        #[trigger] members[i],
                    ) by {
                        assert(fits(es@[i], types@[i]));
                        exhausted_types_are_matched(es@[i], types@[i], members[i]);
                    }
                }
            }
        },
        _ => {},
    }
}

proof fn lemma_unmatched_variant(cases: Seq<EnumCase>, variants: Seq<MatchedVariant>) -> (k: int)
    requires
        cases.len() < variants.len(),
        forall|i: int, j: int|
            0 <= i < j < variants.len() ==> (#[trigger] variants[i]).name@ != (
            #[trigger] variants[j]).name@,
    ensures
        0 <= k < variants.len(),
        forall|i: int| 0 <= i < cases.len() ==> (#[trigger] cases[i]).name@ != variants[k].name@,
{
    let names = Seq::new(variants.len(), |i: int| variants[i].name@);
    let seen = Seq::new(cases.len(), |i: int| cases[i].name@);
    assert(names.no_duplicates());
    names.unique_seq_to_set();
    vstd::seq_lib::seq_to_set_is_finite(seen);
    vstd::seq_lib::seq_to_set_is_finite(names);
    seen.lemma_cardinality_of_set();
    if names.to_set().subset_of(seen.to_set()) {
        vstd::set_lib::lemma_len_subset(names.to_set(), seen.to_set());
        assert(false);
    }
    let name = choose|name: Seq<char>| names.to_set().contains(name) && !seen.to_set().contains(name);
    assert(names.contains(name));
    let k = choose|k: int| 0 <= k < names.len() && names[k] == name;
    assert forall|i: int| 0 <= i < cases.len() implies (#[trigger] cases[i]).name@
        != variants[k].name@ by {
        assert(seen[i] == cases[i].name@);
        if cases[i].name@ == name {
            assert(seen.contains(name));
        }
    }
    k
}

/// Any value of a type that has values.
spec fn some_value(ty: MatchedType) -> Value {
    choose|v: Value| inhabits(v, ty)
}

/// Where patterns are said not to exhaust a type that has values, as all types in
/// it have, there is a value of the type that no pattern matches.
pub proof fn types_not_exhausted_have_an_unmatched_value(e: Exhaustion, ty: MatchedType) -> (v:
    Value)
    requires
        e.well_formed(),
        fits(e, ty),
        populated(ty),
        exhaust::exhausted(e, ty) == says(false),
    ensures
        inhabits(v, ty),
        !matches_value(e, v),
    decreases e,
{
    match e {
        Exhaustion::Empty => some_value(ty),
        Exhaustion::Bool { true_, false_ } => Value::Bool(!true_),
        Exhaustion::UnsignedInt(_) | Exhaustion::SignedInt { .. } => match ty.content {
            MatchedContent::Int(int_ty) => {
                let n = choose|n: int|
                    int_ty.lowest() <= n <= int_ty.highest() && !#[trigger] e.covers_int(n);
                Value::Int(n)
            },
            _ => some_value(ty),
        },
        Exhaustion::Enum(cases) => match ty.content {
            MatchedContent::Enum(variants) => if cases@.len() < variants@.len() {
                let k = lemma_unmatched_variant(cases@, variants@);
                let args = Seq::new(
                    variants@[k].args@.len(),
                    |i: int| some_value(variants@[k].args@[i]),
                );
                assert forall|i: int| 0 <= i < args.len() implies inhabits(
                    #[trigger] args[i],
                    variants@[k].args@[i],
                ) by {
                    assert(populated(variants@[k].args@[i]));
                }
                let v = Value::Variant(variants@[k].name@, args);
                assert(variants@[k].name@ == variants@[k].name@);
                v
            } else {
                lemma_variants(cases@, variants@, 0);
                let n = choose|j: int|
                    0 <= j < variants@.len() && variant_open(cases@, #[trigger] variants@[j]);
                let k = choose|k: int|
                    0 <= k < cases@.len() && #[trigger] cases@[k].name@ == variants@[n].name@
                        && exhaust::all_exhausted(cases@[k].args@, variants@[n].args@, 0) == says(false);
                let es = cases@[k].args@;
                let types = variants@[n].args@;
                lemma_all(es, types, 0);
                let j = choose|j: int|
                    #![trigger es[j]]
                    0 <= j < es.len() && j < types.len() && exhaust::exhausted(es[j], types[j])
                        == says(false);
                assert(es[j] == cases@[k].args@[j] && types[j] == variants@[n].args@[j]);
                assert(fits(cases@[k].args@[j], variants@[n].args@[j]));
                assert(populated(variants@[n].args@[j]));
                assert(cases@[k].args@[j].well_formed());
                assert(decreases_to!(e => cases@));
                assert(decreases_to!(cases@ => cases@[k]));
                let w = types_not_exhausted_have_an_unmatched_value(es[j], types[j]);
                let args = Seq::new(
                    types.len(),
                    |i: int|
                        if i == j {
                            w
                        } else {
                            some_value(types[i])
                        },
                );
                assert forall|i: int| 0 <= i < args.len() implies inhabits(
                    #[trigger] args[i],
                    variants@[n].args@[i],
                ) by {
                    assert(populated(variants@[n].args@[i]));
                }
                let v = Value::Variant(variants@[n].name@, args);
                assert(variants@[n].name@ == variants@[n].name@);
                assert(args[j] == w);
                if matches_value(e, v) {
                    let h = choose|h: int|
                        0 <= h < cases@.len() && #[trigger] cases@[h].name@ == variants@[n].name@
                            && match_values(cases@[h].args@, args);
                    assert(exhaust::distinct_names(cases@));
                    if h < k {
                        assert(cases@[h].name@ != cases@[k].name@);
                    } else if k < h {
                        assert(cases@[k].name@ != cases@[h].name@);
                    }
                    assert(h == k);
                    assert(matches_value(cases@[k].args@[j], args[j]));
                    assert(false);
                }
                v
            },
            _ => some_value(ty),
        },
        Exhaustion::Tuple(es) => match ty.content {
            MatchedContent::Tuple(types) => {
                lemma_all(es@, types@, 0);
                let j = choose|j: int|
                    #![trigger es@[j]]
                    0 <= j < es@.len() && j < types@.len() && exhaust::exhausted(es@[j], types@[j])
                        == says(false);
                assert(fits(es@[j], types@[j]));
                assert(populated(types@[j]));
                assert(es@[j].well_formed());
                assert(decreases_to!(e => es@));
                let w = types_not_exhausted_have_an_unmatched_value(es@[j], types@[j]);
                let members = Seq::new(
                    types@.len(),
                    |i: int|
                        if i == j {
                            w
                        } else {
                            some_value(types@[i])
                        },
                );
                assert forall|i: int| 0 <= i < members.len() implies inhabits(
                    #[trigger] members[i],
                    types@[i],
                ) by {
                    assert(populated(types@[i]));
                }
                let v = Value::Tuple(members);
                assert(members[j] == w);
                v
            },
            _ => some_value(ty),
        },
        _ => some_value(ty),
    }
}

/// A boolean pattern adds its boolean to what is matched, and nothing else.
pub proof fn boolean_patterns_match_their_value(e: Exhaustion, b: bool, v: Value)
    requires
        e is Empty || e is Bool || e is Full,
    ensures
        matches_value(e.with_bool(b), v) <==> matches_value(e, v) || v == Value::Bool(b),
{
}

/// A range of integers adds the integers in it to what is matched, and nothing else.
pub proof fn integer_patterns_match_their_values(
    e: Exhaustion,
    start: int,
    end: int,
    after: Exhaustion,
    v: int,
)
    requires
        e is Empty || e is UnsignedInt || e is SignedInt,
        e.well_formed(),
        e.with_range(start, end, after),
    ensures
        matches_value(after, Value::Int(v)) <==> matches_value(e, Value::Int(v)) || start <= v
            <= end,
{
    let (n, p) = (after.negatives(), after.positives());
    assert(exhaust::covers(n, -v) <==> exhaust::covers(e.negatives(), -v)
        || exhaust::is_negative_part(start, end, -v));
    assert(exhaust::covers(p, v) <==> exhaust::covers(e.positives(), v)
        || exhaust::is_positive_part(start, end, v));
}

} // verus!
