//! That what is offered at the cursor is what is known there.
use vstd::prelude::*;

use crate::lsp::complete;
use crate::lsp::complete::{CompletionAnswer, CompletionItemKind, ItemView, MemberTarget};
use crate::lsp::find_in_ast::ScopeContext;
use crate::lsp::index::{Def, Index, ModuleId};
use crate::parser::ast::ScopeId;
use crate::text;

verus! {

/// The scope that is reached when a scope is left `n` times.
pub open spec fn outward(ix: Index, m: ModuleId, scope: ScopeId, n: nat) -> Option<ScopeId>
    decreases n,
{
    if n == 0 {
        Some(scope)
    } else {
        match outward(ix, m, scope, (n - 1) as nat) {
            Some(s) => ix.modules@[m.0 as int].scopes@[s.0 as int].parent,
            None => None,
        }
    }
}

pub open spec fn definitions_of(ix: Index, m: ModuleId, scope: ScopeId) -> Seq<(String, Def)> {
    ix.modules@[m.0 as int].scopes@[scope.0 as int].definitions@
}

/// The name is that of the definition `i` of the scope `n` scopes away.
pub open spec fn is_defined_at(
    ix: Index,
    m: ModuleId,
    scope: ScopeId,
    n: nat,
    i: int,
    name: Seq<char>,
) -> bool {
    outward(ix, m, scope, n) matches Some(s) && 0 <= i < definitions_of(ix, m, s).len()
        && definitions_of(ix, m, s)[i].0@ == name
}

/// A name is defined in the scope or in one around it.
pub open spec fn is_visible(ix: Index, m: ModuleId, scope: ScopeId, name: Seq<char>) -> bool {
    exists|n: nat, i: int|
        n < ix.modules@[m.0 as int].scopes@.len() && #[trigger] is_defined_at(
            ix,
            m,
            scope,
            n,
            i,
            name,
        )
}

/// An item for the name is among the items.
pub open spec fn is_offered(items: Seq<ItemView>, name: Seq<char>) -> bool {
    exists|k: int| 0 <= k < items.len() && (#[trigger] items[k]).label == name
}

proof fn lemma_scope_items(ix: Index, definitions: Seq<(String, Def)>, n: int)
    requires
        0 <= n <= definitions.len(),
    ensures
        complete::scope_items(ix, definitions, n).len() == n,
        forall|i: int|
            0 <= i < n ==> (#[trigger] complete::scope_items(ix, definitions, n)[i]).label
                == definitions[i].0@,
    decreases n,
{
    if n > 0 {
        lemma_scope_items(ix, definitions, n - 1);
    }
}

proof fn lemma_outward(ix: Index, m: ModuleId, scope: ScopeId, parent: ScopeId, n: nat)
    requires
        ix.modules@[m.0 as int].scopes@[scope.0 as int].parent == Some(parent),
    ensures
        outward(ix, m, parent, n) == outward(ix, m, scope, n + 1),
    decreases n,
{
    if n == 0 {
        assert(outward(ix, m, scope, 0) == Some(scope));
    } else {
        lemma_outward(ix, m, scope, parent, (n - 1) as nat);
    }
}

proof fn lemma_no_way_out(ix: Index, m: ModuleId, scope: ScopeId, n: nat)
    requires
        ix.modules@[m.0 as int].scopes@[scope.0 as int].parent is None,
        n > 0,
    ensures
        outward(ix, m, scope, n) is None,
    decreases n,
{
    if n == 1 {
        assert(outward(ix, m, scope, 0) == Some(scope));
    } else {
        lemma_no_way_out(ix, m, scope, (n - 1) as nat);
    }
}

proof fn lemma_offered(
    ix: Index,
    m: ModuleId,
    scope: ScopeId,
    depth: nat,
    n: nat,
    i: int,
)
    requires
        n < depth,
        outward(ix, m, scope, n) matches Some(s) && 0 <= i < definitions_of(ix, m, s).len(),
    ensures
        is_offered(
            complete::enclosing_items(ix, m, scope, depth),
            definitions_of(ix, m, outward(ix, m, scope, n)->Some_0)[i].0@,
        ),
    decreases depth,
{
    let own = definitions_of(ix, m, scope);
    let items = complete::scope_items(ix, own, own.len() as int);
    let all = complete::enclosing_items(ix, m, scope, depth);
    lemma_scope_items(ix, own, own.len() as int);
    if n == 0 {
        assert(all[i] == items[i]);
    } else {
        match ix.modules@[m.0 as int].scopes@[scope.0 as int].parent {
            Some(parent) => {
                lemma_outward(ix, m, scope, parent, (n - 1) as nat);
                lemma_offered(ix, m, parent, (depth - 1) as nat, (n - 1) as nat, i);
                let rest = complete::enclosing_items(ix, m, parent, (depth - 1) as nat);
                let name = definitions_of(ix, m, outward(ix, m, scope, n)->Some_0)[i].0@;
                let k = choose|k: int| 0 <= k < rest.len() && (#[trigger] rest[k]).label == name;
                assert(all[items.len() + k] == rest[k]);
            },
            None => {
                lemma_no_way_out(ix, m, scope, n);
            },
        }
    }
}

proof fn lemma_only(ix: Index, m: ModuleId, scope: ScopeId, depth: nat, k: int) -> (w: (nat, int))
    requires
        0 <= k < complete::enclosing_items(ix, m, scope, depth).len(),
    ensures
        w.0 < depth,
        outward(ix, m, scope, w.0) matches Some(s) && 0 <= w.1 < definitions_of(ix, m, s).len()
            && definitions_of(ix, m, s)[w.1].0@ == complete::enclosing_items(ix, m, scope, depth)[k].label,
    decreases depth,
{
    let own = definitions_of(ix, m, scope);
    let items = complete::scope_items(ix, own, own.len() as int);
    let all = complete::enclosing_items(ix, m, scope, depth);
    lemma_scope_items(ix, own, own.len() as int);
    if k < items.len() {
        assert(all[k] == items[k]);
        assert(outward(ix, m, scope, 0) == Some(scope));
        (0nat, k)
    } else {
        let parent = ix.modules@[m.0 as int].scopes@[scope.0 as int].parent->Some_0;
        let w = lemma_only(ix, m, parent, (depth - 1) as nat, k - items.len());
        lemma_outward(ix, m, scope, parent, w.0);
        ((w.0 + 1) as nat, w.1)
    }
}

/// What is offered around a scope are the names that are defined in it and around it, and no
/// others. Those of the scope itself come first, in their order.
pub proof fn visible_names_are_offered(ix: Index, m: ModuleId, scope: ScopeId, name: Seq<char>)
    requires
        complete::scopes_fit(ix, m),
        scope.0 < ix.modules@[m.0 as int].scopes@.len(),
    ensures
        is_offered(complete::items_around(ix, m, scope), name) <==> is_visible(ix, m, scope, name),
        forall|i: int|
            0 <= i < definitions_of(ix, m, scope).len() ==> i < complete::items_around(
                ix,
                m,
                scope,
            ).len() && complete::items_around(ix, m, scope)[i].label == (
            #[trigger] definitions_of(ix, m, scope)[i]).0@,
{
    let depth = ix.modules@[m.0 as int].scopes@.len();
    let items = complete::items_around(ix, m, scope);
    if is_visible(ix, m, scope, name) {
        let (n, i) = choose|n: nat, i: int|
            n < depth && #[trigger] is_defined_at(ix, m, scope, n, i, name);
        lemma_offered(ix, m, scope, depth, n, i);
    }
    if is_offered(items, name) {
        let k = choose|k: int| 0 <= k < items.len() && (#[trigger] items[k]).label == name;
        let (n, i) = lemma_only(ix, m, scope, depth, k);
        assert(is_defined_at(ix, m, scope, n, i, name));
    }
    let own = definitions_of(ix, m, scope);
    lemma_scope_items(ix, own, own.len() as int);
}

proof fn lemma_variables(variables: Seq<(String, u32)>, types: Seq<String>, n: int)
    requires
        0 <= n <= variables.len(),
    ensures
        complete::variable_items(variables, types, n).len() == n,
        forall|i: int|
            0 <= i < n ==> (#[trigger] complete::variable_items(variables, types, n)[i]).label
                == variables[i].0@,
    decreases n,
{
    if n > 0 {
        lemma_variables(variables, types, n - 1);
    }
}

/// In a function are offered what is visible at the cursor, what is defined everywhere, and
/// the variables.
pub proof fn known_names_are_offered(
    ix: Index,
    m: ModuleId,
    scope: ScopeId,
    function: ScopeId,
    a: CompletionAnswer,
    name: Seq<char>,
)
    requires
        complete::answer_fits(ix, m, scope, a),
        a.has_body,
        a.member_access is None,
    ensures
        is_offered(
            complete::completed(ix, m, scope, ScopeContext::Function(function), a),
            name,
        ) <==> is_visible(ix, m, scope, name) || is_visible(
            ix,
            ix.prelude,
            ix.modules@[ix.prelude.0 as int].top_level,
            name,
        ) || exists|i: int| 0 <= i < a.variables@.len() && (#[trigger] a.variables@[i]).0@ == name,
{
    let top = ix.modules@[ix.prelude.0 as int].top_level;
    visible_names_are_offered(ix, m, scope, name);
    visible_names_are_offered(ix, ix.prelude, top, name);
    let around = complete::items_around(ix, m, scope);
    let known = complete::items_around(ix, ix.prelude, top);
    let vars = complete::variable_items(a.variables@, a.types@, a.variables@.len() as int);
    let all = complete::completed(ix, m, scope, ScopeContext::Function(function), a);
    lemma_variables(a.variables@, a.types@, a.variables@.len() as int);
    assert(all == around + known + vars);
    if is_offered(around, name) {
        let k = choose|k: int| 0 <= k < around.len() && (#[trigger] around[k]).label == name;
        assert(all[k] == around[k]);
    }
    if is_offered(known, name) {
        let k = choose|k: int| 0 <= k < known.len() && (#[trigger] known[k]).label == name;
        assert(all[around.len() + k] == known[k]);
    }
    if exists|i: int| 0 <= i < a.variables@.len() && (#[trigger] a.variables@[i]).0@ == name {
        let k = choose|i: int| 0 <= i < a.variables@.len() && (#[trigger] a.variables@[i]).0@ == name;
        assert(all[around.len() + known.len() + k] == vars[k]);
    }
    if is_offered(all, name) {
        let k = choose|k: int| 0 <= k < all.len() && (#[trigger] all[k]).label == name;
        if k < around.len() {
            assert(all[k] == around[k]);
        } else if k < around.len() + known.len() {
            assert(all[k] == known[k - around.len()]);
        } else {
            let i = k - around.len() - known.len();
            assert(all[k] == vars[i]);
            assert(a.variables@[i].0@ == name);
        }
    }
}

proof fn lemma_members(members: Seq<(String, String)>, n: int)
    requires
        0 <= n <= members.len(),
    ensures
        complete::named_member_items(members, n).len() == n,
        forall|i: int|
            0 <= i < n ==> {
                let item = #[trigger] complete::named_member_items(members, n)[i];
                &&& item.label == members[i].0@
                &&& item.detail == Some(members[i].1@)
                &&& item.kind == Some(CompletionItemKind::Field)
            },
    decreases n,
{
    if n > 0 {
        lemma_members(members, n - 1);
    }
}

proof fn lemma_numbered(members: Seq<String>, n: int)
    requires
        0 <= n <= members.len(),
    ensures
        complete::numbered_items(members, n).len() == n,
        forall|i: int|
            0 <= i < n ==> {
                let item = #[trigger] complete::numbered_items(members, n)[i];
                &&& item.label == text::decimal(i as nat)
                &&& item.detail == Some(members[i]@)
                &&& item.kind == Some(CompletionItemKind::Field)
            },
    decreases n,
{
    if n > 0 {
        lemma_numbered(members, n - 1);
    }
}

/// The members of a tuple are offered in their order with their types: those without a name
/// by their numbers from zero on, then the others.
pub proof fn members_of_tuples_are_offered(
    ix: Index,
    members: Vec<String>,
    named_members: Vec<(String, String)>,
)
    ensures
        ({
            let items = complete::member_items(ix, MemberTarget::Tuple { members, named_members });
            let n = members@.len();
            &&& items.len() == n + named_members@.len()
            &&& forall|i: int|
                0 <= i < items.len() ==> {
                    let item = #[trigger] items[i];
                    &&& item.kind == Some(CompletionItemKind::Field)
                    &&& i < n ==> item.label == text::decimal(i as nat) && item.detail == Some(
                        members@[i]@,
                    )
                    &&& i >= n ==> item.label == named_members@[i - n].0@ && item.detail == Some(
                        named_members@[i - n].1@,
                    )
                }
        }),
{
    lemma_numbered(members@, members@.len() as int);
    lemma_members(named_members@, named_members@.len() as int);
}

} // verus!
