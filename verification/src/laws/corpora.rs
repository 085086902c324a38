//! The definitions of a corpus, and the names that they hold.

use vstd::prelude::*;

use crate::build::corpus;
use crate::build::corpus::Walked;
use crate::text::ast::{CallView, DefinitionView, ExprView, StatementView};
use crate::text::base::Spanned;

verus! {

// ── Names in bodies ──────────────────────────────────────────────────────────

proof fn lemma_exprs(v: Seq<Spanned<ExprView>>, k: int, i: int)
    requires
        0 <= i < k <= v.len(),
    ensures
        corpus::expr_refs(v[i].value).subset_of(corpus::exprs_refs(v, k)),
    decreases k,
{
    if i < k - 1 {
        lemma_exprs(v, k - 1, i);
    }
}

proof fn lemma_body(v: Seq<Spanned<StatementView>>, k: int, i: int)
    requires
        0 <= i < k <= v.len(),
    ensures
        corpus::stmt_refs(v[i].value).subset_of(corpus::body_refs(v, k)),
    decreases k,
{
    if i < k - 1 {
        lemma_body(v, k - 1, i);
    }
}

/// A string and a symbol hold their own name; a constructor, a sum and a union hold what
/// their parts hold, and a number nothing.
pub proof fn expressions_hold_the_names_of_their_parts(
    s: Seq<char>,
    c: CallView,
    v: Seq<Spanned<ExprView>>,
    i: int,
)
    ensures
        corpus::expr_refs(ExprView::String(s)).contains(s),
        corpus::expr_refs(ExprView::Symbol(s)).contains(s),
        forall|t: Seq<char>| !corpus::expr_refs(ExprView::Number(s)).contains(t),
        forall|t: Seq<char>| #[trigger]
            corpus::expr_refs(ExprView::String(s)).contains(t) ==> t == s,
        forall|t: Seq<char>| #[trigger]
            corpus::expr_refs(ExprView::Symbol(s)).contains(t) ==> t == s,
        0 <= i < c.arguments.len() ==> corpus::expr_refs(c.arguments[i].value).subset_of(
            corpus::expr_refs(ExprView::Constructor(c)),
        ),
        0 <= i < v.len() ==> corpus::expr_refs(v[i].value).subset_of(
            corpus::expr_refs(ExprView::BitOr(v)),
        ),
        0 <= i < v.len() ==> corpus::expr_refs(v[i].value).subset_of(
            corpus::expr_refs(ExprView::Add(v)),
        ),
{
    if 0 <= i < c.arguments.len() {
        lemma_exprs(c.arguments, c.arguments.len() as int, i);
    }
    if 0 <= i < v.len() {
        lemma_exprs(v, v.len() as int, i);
    }
}

/// A body holds the names that its statements hold, those in its blocks included.
pub proof fn bodies_hold_the_names_of_their_statements(
    v: Seq<Spanned<StatementView>>,
    i: int,
)
    requires
        0 <= i < v.len(),
    ensures
        ({
            let all = corpus::body_refs(v, v.len() as int);
            match v[i].value {
                StatementView::Field { expr, .. } => corpus::expr_refs(expr.value).subset_of(all),
                StatementView::MethodCall { call, .. } => forall|j: int|
                    0 <= j < call.arguments.len() ==> corpus::expr_refs(
                        (#[trigger] call.arguments[j]).value,
                    ).subset_of(all),
                StatementView::TaggedBlock { body, .. } => corpus::body_refs(
                    body,
                    body.len() as int,
                ).subset_of(all),
            }
        }),
{
    lemma_body(v, v.len() as int, i);
    if let StatementView::MethodCall { call, .. } = v[i].value {
        let all = corpus::body_refs(v, v.len() as int);
        assert forall|j: int| 0 <= j < call.arguments.len() implies corpus::expr_refs(
            (#[trigger] call.arguments[j]).value,
        ).subset_of(all) by {
            lemma_exprs(call.arguments, call.arguments.len() as int, j);
        }
    }
}

// ── Walking definitions ──────────────────────────────────────────────────────

/// Whether the names of every definition that was walked are there.
spec fn sound(defs: Seq<DefinitionView>, w: Walked) -> bool {
    forall|j: int|
        0 <= j < defs.len() && w.visited.contains((#[trigger] defs[j]).name) ==> corpus::body_refs(
            defs[j].body,
            defs[j].body.len() as int,
        ).subset_of(w.refs)
}

proof fn lemma_chain(
    defs: Seq<DefinitionView>,
    names: Map<Seq<char>, usize>,
    i: int,
    w: Walked,
    fuel: nat,
)
    requires
        sound(defs, w),
        forall|a: int, b: int|
            0 <= a < b < defs.len() ==> (#[trigger] defs[a]).name != (#[trigger] defs[b]).name,
    ensures
        ({
            let r = corpus::chain_walked(defs, names, i, w, fuel);
            &&& sound(defs, r)
            &&& w.visited.subset_of(r.visited)
            &&& w.refs.subset_of(r.refs)
            &&& fuel > 0 && 0 <= i < defs.len() ==> r.visited.contains(defs[i].name)
        }),
    decreases fuel,
{
    if fuel > 0 && 0 <= i < defs.len() && !w.visited.contains(defs[i].name) {
        let d = defs[i];
        let next = Walked {
            visited: w.visited.insert(d.name),
            refs: w.refs.union(corpus::body_refs(d.body, d.body.len() as int)),
        };
        assert(sound(defs, next)) by {
            assert forall|j: int|
                0 <= j < defs.len() && next.visited.contains(
                    (#[trigger] defs[j]).name,
                ) implies corpus::body_refs(defs[j].body, defs[j].body.len() as int).subset_of(
                next.refs,
            ) by {
                if j != i {
                    if j < i {
                        assert(defs[j].name != defs[i].name);
                    } else {
                        assert(defs[i].name != defs[j].name);
                    }
                    assert(w.visited.contains(defs[j].name));
                }
            }
        }
        if let Some(parent) = d.specializes {
            if names.contains_key(parent) {
                lemma_chain(defs, names, names[parent] as int, next, (fuel - 1) as nat);
            }
        }
    }
}

proof fn lemma_walked(defs: Seq<DefinitionView>, names: Map<Seq<char>, usize>, k: int)
    requires
        0 <= k <= defs.len(),
        forall|a: int, b: int|
            0 <= a < b < defs.len() ==> (#[trigger] defs[a]).name != (#[trigger] defs[b]).name,
    ensures
        sound(defs, corpus::all_walked(defs, names, k)),
        forall|i: int|
            0 <= i < k ==> corpus::all_walked(defs, names, k).visited.contains(
                (#[trigger] defs[i]).name,
            ),
    decreases k,
{
    if k > 0 {
        lemma_walked(defs, names, k - 1);
        let before = corpus::all_walked(defs, names, k - 1);
        lemma_chain(defs, names, k - 1, before, defs.len() + 1);
    }
}

/// Whatever a definition of the corpus refers to is referred to, where no two have one name.
pub proof fn every_definition_is_walked(
    defs: Seq<DefinitionView>,
    names: Map<Seq<char>, usize>,
    i: int,
)
    requires
        0 <= i < defs.len(),
        forall|a: int, b: int|
            0 <= a < b < defs.len() ==> (#[trigger] defs[a]).name != (#[trigger] defs[b]).name,
    ensures
        corpus::body_refs(defs[i].body, defs[i].body.len() as int).subset_of(
            corpus::all_walked(defs, names, defs.len() as int).refs,
        ),
{
    lemma_walked(defs, names, defs.len() as int);
}

// ── Names of definitions ─────────────────────────────────────────────────────

proof fn lemma_named(
    defs: Seq<DefinitionView>,
    allowed: Seq<Seq<char>>,
    refs: Option<Set<Seq<char>>>,
    k: int,
)
    requires
        0 <= k <= defs.len(),
    ensures
        ({
            let order = corpus::named(defs, allowed, refs, k);
            &&& forall|i: int|
                0 <= i < k && allowed.contains((#[trigger] defs[i]).def_type) && (
                !defs[i].is_template || refs is None || refs->0.contains(defs[i].name))
                    ==> order.contains(defs[i].name)
            &&& forall|p: int|
                0 <= p < order.len() ==> exists|i: int|
                    0 <= i < k && (#[trigger] defs[i]).name == #[trigger] order[p]
                        && allowed.contains(defs[i].def_type) && (!defs[i].is_template || refs is None
                        || refs->0.contains(defs[i].name))
        }),
    decreases k,
{
    if k > 0 {
        lemma_named(defs, allowed, refs, k - 1);
        let before = corpus::named(defs, allowed, refs, k - 1);
        let order = corpus::named(defs, allowed, refs, k);
        assert forall|i: int|
            0 <= i < k && allowed.contains((#[trigger] defs[i]).def_type) && (!defs[i].is_template
                || refs is None || refs->0.contains(defs[i].name)) implies order.contains(
            defs[i].name,
        ) by {
            if i < k - 1 {
                assert(before.contains(defs[i].name));
                let p = choose|p: int| 0 <= p < before.len() && before[p] == defs[i].name;
                assert(order[p] == defs[i].name);
            } else if before.contains(defs[i].name) {
                assert(order == before);
            } else {
                assert(order.last() == defs[i].name);
            }
        }
        assert forall|p: int| 0 <= p < order.len() implies exists|i: int|
            0 <= i < k && (#[trigger] defs[i]).name == #[trigger] order[p] && allowed.contains(
                defs[i].def_type,
            ) && (!defs[i].is_template || refs is None || refs->0.contains(defs[i].name)) by {
            if p < before.len() {
                assert(order[p] == before[p]);
                let i = choose|i: int|
                    0 <= i < k - 1 && (#[trigger] defs[i]).name == before[p] && allowed.contains(
                        defs[i].def_type,
                    ) && (!defs[i].is_template || refs is None || refs->0.contains(defs[i].name));
                assert(defs[i].name == order[p]);
            } else {
                assert(defs[k - 1].name == order[p]);
            }
        }
    }
}

/// A name is among those of a binary exactly where a definition of an allowed class has it
/// that is no template, or a template that something refers to.
pub proof fn templates_are_named_where_they_are_referred_to(
    defs: Seq<DefinitionView>,
    allowed: Seq<Seq<char>>,
    refs: Option<Set<Seq<char>>>,
    name: Seq<char>,
)
    ensures
        corpus::named(defs, allowed, refs, defs.len() as int).contains(name) <==> exists|i: int|
            0 <= i < defs.len() && (#[trigger] defs[i]).name == name && allowed.contains(
                defs[i].def_type,
            ) && (!defs[i].is_template || refs is None || refs->0.contains(name)),
{
    lemma_named(defs, allowed, refs, defs.len() as int);
    let order = corpus::named(defs, allowed, refs, defs.len() as int);
    if order.contains(name) {
        let p = choose|p: int| 0 <= p < order.len() && order[p] == name;
        let i = choose|i: int|
            0 <= i < defs.len() && (#[trigger] defs[i]).name == order[p] && allowed.contains(
                defs[i].def_type,
            ) && (!defs[i].is_template || refs is None || refs->0.contains(defs[i].name));
        assert(defs[i].name == name);
    }
}

proof fn lemma_names(defs: Seq<DefinitionView>, k: int, i: int)
    requires
        0 <= i < k <= defs.len(),
        k <= usize::MAX,
        forall|j: int| i < j < k ==> (#[trigger] defs[j]).name != defs[i].name,
    ensures
        corpus::names_upto(defs, k).contains_key(defs[i].name),
        corpus::names_upto(defs, k)[defs[i].name] == i,
    decreases k,
{
    if i < k - 1 {
        assert(defs[k - 1].name != defs[i].name);
        lemma_names(defs, k - 1, i);
    }
}

/// Of two definitions with one name the later counts: a name stands for the last of them.
pub proof fn a_name_stands_for_the_last_definition(defs: Seq<DefinitionView>, i: int)
    requires
        0 <= i < defs.len() <= usize::MAX,
        forall|j: int| i < j < defs.len() ==> (#[trigger] defs[j]).name != defs[i].name,
    ensures
        corpus::names_upto(defs, defs.len() as int).contains_key(defs[i].name),
        corpus::names_upto(defs, defs.len() as int)[defs[i].name] == i,
{
    lemma_names(defs, defs.len() as int, i);
}

// ── Symbols of the engine ────────────────────────────────────────────────────

/// The engine knows the ways of blending by their numbers where no header does, and changes
/// nothing else.
pub proof fn the_engine_knows_its_symbols(symbols: Map<Seq<char>, i64>, name: Seq<char>)
    ensures
        ({
            let s = corpus::with_engine_enums(symbols);
            &&& symbols.contains_key(name) ==> s.contains_key(name) && s[name] == symbols[name]
            &&& !symbols.contains_key(name) && name == "WATER_BUMP_PC"@ ==> s.contains_key(name)
                && s[name] == 0
            &&& !symbols.contains_key(name) && name == "BLEND_NULL"@ ==> s.contains_key(name)
                && s[name] == 0
            &&& !symbols.contains_key(name) && name == "BLEND_ADDITIVE"@ ==> s.contains_key(name)
                && s[name] == 1
            &&& !symbols.contains_key(name) && name == "BLEND_ALPHA"@ ==> s.contains_key(name)
                && s[name] == 2
            &&& !symbols.contains_key(name) && name == "BLEND_SOLID"@ ==> s.contains_key(name)
                && s[name] == 3
            &&& !symbols.contains_key(name) && name == "BLEND_MULTIPLY"@ ==> s.contains_key(name)
                && s[name] == 4
            &&& !symbols.contains_key(name) && name != "WATER_BUMP_PC"@ && name != "BLEND_NULL"@
                && name != "BLEND_ADDITIVE"@ && name != "BLEND_ALPHA"@ && name != "BLEND_SOLID"@
                && name != "BLEND_MULTIPLY"@ ==> !s.contains_key(name)
        }),
{
    reveal_strlit("WATER_BUMP_PC");
    reveal_strlit("BLEND_NULL");
    reveal_strlit("BLEND_ADDITIVE");
    reveal_strlit("BLEND_ALPHA");
    reveal_strlit("BLEND_SOLID");
    reveal_strlit("BLEND_MULTIPLY");
    assert("WATER_BUMP_PC"@.len() == 13 && "BLEND_NULL"@.len() == 10 && "BLEND_ADDITIVE"@.len()
        == 14 && "BLEND_ALPHA"@.len() == 11 && "BLEND_SOLID"@.len() == 11 && "BLEND_MULTIPLY"@.len()
        == 14);
    assert("BLEND_ADDITIVE"@[6] == 'A' && "BLEND_MULTIPLY"@[6] == 'M');
    assert("BLEND_ALPHA"@[6] == 'A' && "BLEND_SOLID"@[6] == 'S');
}

} // verus!
