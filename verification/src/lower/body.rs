//! The statements that a definition is lowered from.

use vstd::prelude::*;

use crate::lower::env::{LowerError, LowerErrorView};
use crate::name_map::NameMap;
use crate::reader;
use crate::strings::same;
use crate::text::ast;
use crate::text::ast::{
    clone_statement, Definition, DefinitionView, PathSegment, SegmentView, Statement,
    StatementView,
};
use crate::text::base;
use crate::text::base::Spanned;

verus! {

broadcast use base::group_views;

// ── Specialization ───────────────────────────────────────────────────────────

/// Every name is bound to one of the `n` definitions.
pub open spec fn names_defs(names: Map<Seq<char>, usize>, n: int) -> bool {
    forall|name: Seq<char>| names.contains_key(name) ==> (#[trigger] names[name]) < n
}

/// The chain holds definitions, and none of them twice.
pub open spec fn chain_of(chain: Seq<usize>, n: int) -> bool {
    &&& chain.no_duplicates()
    &&& forall|i: int| 0 <= i < chain.len() ==> (#[trigger] chain[i]) < n
}

proof fn lemma_chain_len(chain: Seq<usize>, n: int)
    requires
        chain_of(chain, n),
        n >= 0,
    ensures
        chain.len() <= n,
{
    let all = chain.to_set();
    chain.unique_seq_to_set();
    let numbers = all.map(|x: usize| x as int);
    vstd::set_lib::lemma_map_size(all, numbers, |x: usize| x as int);
    vstd::set_lib::lemma_int_range(0, n);
    vstd::set_lib::lemma_len_subset(numbers, vstd::set_lib::set_int_range(0, n));
}

/// `chain` followed up through the parents of its last definition.
pub open spec fn ancestry(
    defs: Seq<DefinitionView>,
    names: Map<Seq<char>, usize>,
    chain: Seq<usize>,
) -> Result<Seq<usize>, LowerErrorView>
    decreases defs.len() - chain.len(),
    when chain.len() > 0 && chain_of(chain, defs.len() as int) && names_defs(
        names,
        defs.len() as int,
    )
    via ancestry_ends
{
    let current = defs[chain.last() as int];
    match current.specializes {
        None => Ok(chain),
        Some(parent) => if !names.contains_key(parent) {
            Err(
                LowerErrorView::MissingParent {
                    def: defs[chain[0] as int].name,
                    parent,
                    span: current.specializes_span,
                },
            )
        } else if chain.contains(names[parent]) {
            Err(
                LowerErrorView::SpecializationCycle(
                    defs[chain[0] as int].name,
                    current.specializes_span,
                ),
            )
        } else {
            ancestry(defs, names, chain.push(names[parent]))
        },
    }
}

proof fn lemma_chain_push(chain: Seq<usize>, x: usize, n: int)
    requires
        chain_of(chain, n),
        x < n,
        !chain.contains(x),
    ensures
        chain_of(chain.push(x), n),
{
    assert forall|i: int, j: int|
        0 <= i < chain.push(x).len() && 0 <= j < chain.push(x).len() && i
            != j implies chain.push(x)[i] != chain.push(x)[j] by {
        if i == chain.len() {
            assert(chain.contains(chain[j]));
        } else if j == chain.len() {
            assert(chain.contains(chain[i]));
        }
    }
}

#[via_fn]
proof fn ancestry_ends(
    defs: Seq<DefinitionView>,
    names: Map<Seq<char>, usize>,
    chain: Seq<usize>,
) {
    let n = defs.len() as int;
    match defs[chain.last() as int].specializes {
        None => {},
        Some(parent) => if names.contains_key(parent) && !chain.contains(names[parent]) {
            lemma_chain_push(chain, names[parent], n);
            lemma_chain_len(chain.push(names[parent]), n);
        },
    }
}

/// The statements of a chain of definitions, the most distant ancestor's first.
pub open spec fn chained(defs: Seq<DefinitionView>, chain: Seq<usize>) -> Seq<
    Spanned<StatementView>,
>
    decreases chain.len(),
{
    if chain.len() == 0 {
        Seq::empty()
    } else {
        defs[chain.last() as int].body + chained(defs, chain.drop_last())
    }
}

/// The statements of a definition and its ancestors, the most distant ancestor's
/// first.
pub open spec fn flattened(
    defs: Seq<DefinitionView>,
    names: Map<Seq<char>, usize>,
    def: usize,
) -> Result<Seq<Spanned<StatementView>>, LowerErrorView> {
    match ancestry(defs, names, seq![def]) {
        Ok(chain) => Ok(chained(defs, chain)),
        Err(e) => Err(e),
    }
}

/// The view of what lowering to statements gave.
pub open spec fn statements_of(r: Result<Vec<Spanned<Statement>>, LowerError>) -> Result<
    Seq<Spanned<StatementView>>,
    LowerErrorView,
> {
    match r {
        Ok(v) => Ok(base::views(v@)),
        Err(e) => Err(e@),
    }
}

/// The definitions from `def` up to its most distant ancestor.
fn ancestors(def: usize, defs: &Vec<&Definition>, names: &NameMap<usize>) -> (r: Result<
    Vec<usize>,
    LowerError,
>)
    requires
        def < defs@.len(),
        names_defs(names@, defs@.len() as int),
    ensures
        (match r {
            Ok(v) => Ok(v@),
            Err(e) => Err(e@),
        }) == ancestry(base::views(defs@), names@, seq![def]),
        r matches Ok(v) ==> chain_of(v@, defs@.len() as int),
{
    let ghost all = base::views(defs@);
    let mut chain: Vec<usize> = Vec::new();
    chain.push(def);
    let mut current: usize = def;
    assert(chain@ =~= seq![def]);
    loop
        invariant
            all == base::views(defs@),
            def < defs@.len(),
            names_defs(names@, defs@.len() as int),
            chain@.len() > 0,
            chain@[0] == def,
            chain@.last() == current,
            chain_of(chain@, defs@.len() as int),
            ancestry(all, names@, seq![def]) == ancestry(all, names@, chain@),
        decreases defs@.len() - chain@.len(),
    {
        let d = defs[current];
        assert(all[current as int] == d@);
        assert(all[def as int] == defs@[def as int]@);
        match &d.specializes {
            None => return Ok(chain),
            Some(parent) => match names.get(parent.as_str()) {
                None => return Err(
                    LowerError::MissingParent {
                        def: defs[def].name.clone(),
                        parent: parent.clone(),
                        span: d.specializes_span,
                    },
                ),
                Some(p) => {
                    if contains(&chain, p) {
                        return Err(
                            LowerError::SpecializationCycle(
                                defs[def].name.clone(),
                                d.specializes_span,
                            ),
                        );
                    }
                    proof {
                        lemma_chain_push(chain@, p, defs@.len() as int);
                        lemma_chain_len(chain@.push(p), defs@.len() as int);
                    }
                    chain.push(p);
                    current = p;
                },
            },
        }
    }
}

fn contains(v: &Vec<usize>, x: usize) -> (r: bool)
    ensures
        r == v@.contains(x),
{
    let mut i: usize = 0;
    while i < v.len()
        invariant
            i <= v@.len(),
            forall|j: int| 0 <= j < i ==> v@[j] != x,
        decreases v@.len() - i,
    {
        if v[i] == x {
            assert(v@[i as int] == x);
            return true;
        }
        i = i + 1;
    }
    false
}

fn append_statements(out: &mut Vec<Spanned<Statement>>, body: &Vec<Spanned<Statement>>)
    ensures
        base::views(final(out)@) == base::views(old(out)@) + base::views(body@),
{
    let mut i: usize = 0;
    let ghost before = base::views(out@);
    assert(before + base::views(body@).take(0) =~= before);
    while i < body.len()
        invariant
            i <= body@.len(),
            before == base::views(old(out)@),
            base::views(out@) == before + base::views(body@).take(i as int),
        decreases body@.len() - i,
    {
        out.push(clone_statement(&body[i]));
        assert(before + base::views(body@).take(i as int + 1) =~= (before + base::views(body@).take(
            i as int,
        )).push(body@[i as int]@));
        i = i + 1;
    }
    assert(base::views(body@).take(body@.len() as int) =~= base::views(body@));
}

/// The statements of a definition and of what it specializes, the most distant
/// ancestor's first: a later statement overrides an earlier one.
pub fn flatten_specialization(
    def: usize,
    defs: &Vec<&Definition>,
    defs_by_name: &NameMap<usize>,
) -> (r: Result<Vec<Spanned<Statement>>, LowerError>)
    requires
        def < defs@.len(),
        names_defs(defs_by_name@, defs@.len() as int),
    ensures
        statements_of(r) == flattened(base::views(defs@), defs_by_name@, def),
{
    let chain = match ancestors(def, defs, defs_by_name) {
        Ok(c) => c,
        Err(e) => return Err(e),
    };
    let ghost all = base::views(defs@);
    let mut out: Vec<Spanned<Statement>> = Vec::new();
    let mut i: usize = chain.len();
    assert(chain@.take(i as int) =~= chain@);
    assert(base::views(out@) + chained(all, chain@) =~= chained(all, chain@));
    while i > 0
        invariant
            i <= chain@.len(),
            all == base::views(defs@),
            chain_of(chain@, defs@.len() as int),
            base::views(out@) + chained(all, chain@.take(i as int)) == chained(all, chain@),
        decreases i,
    {
        let ghost before = base::views(out@);
        let d = chain[i - 1];
        proof {
            let top = chain@.take(i as int);
            assert(top.last() == d);
            assert(top.drop_last() =~= chain@.take(i - 1));
            assert(all[d as int] == defs@[d as int]@);
            assert(chained(all, top) == all[d as int].body + chained(all, chain@.take(i - 1)));
        }
        append_statements(&mut out, &defs[d].body);
        i = i - 1;
        assert(base::views(out@) + chained(all, chain@.take(i as int)) =~= before + (
        all[d as int].body + chained(all, chain@.take(i as int))));
    }
    assert(chain@.take(0) =~= Seq::<usize>::empty());
    assert(base::views(out@) + chained(all, chain@.take(0)) =~= base::views(out@));
    Ok(out)
}

/// The statements of a definition stand behind those of its ancestors.
pub proof fn own_statements_come_last(defs: Seq<DefinitionView>, chain: Seq<usize>)
    requires
        chain.len() > 0,
    ensures
        chained(defs, chain) == chained(defs, chain.drop_first()) + defs[chain[0] as int].body,
    decreases chain.len(),
{
    if chain.len() == 1 {
        assert(chain.drop_last() =~= Seq::<usize>::empty());
        assert(chain.drop_first() =~= Seq::<usize>::empty());
        assert(chained(defs, chain) =~= chained(defs, chain.drop_first())
            + defs[chain[0] as int].body);
    } else {
        own_statements_come_last(defs, chain.drop_last());
        assert(chain.drop_last().drop_first() =~= chain.drop_first().drop_last());
        assert(chained(defs, chain) =~= chained(defs, chain.drop_first())
            + defs[chain[0] as int].body);
    }
}

// ── Selections ───────────────────────────────────────────────────────────────

/// The statements among the first `k` that `pick` holds of, in order.
pub open spec fn selected(
    body: Seq<Spanned<StatementView>>,
    pick: spec_fn(StatementView) -> bool,
    k: int,
) -> Seq<Spanned<StatementView>>
    decreases k,
{
    if k <= 0 || k > body.len() {
        Seq::empty()
    } else if pick(body[k - 1].value) {
        selected(body, pick, k - 1).push(body[k - 1])
    } else {
        selected(body, pick, k - 1)
    }
}

/// Whether the statement calls a method of `field`.
pub open spec fn calls_field(s: StatementView, field: Seq<char>) -> bool {
    match s {
        StatementView::MethodCall { object, .. } => object.len() == 1 && object[0]
            == SegmentView::Field(field),
        _ => false,
    }
}

/// Whether the statement calls `field.method(…)`.
pub open spec fn calls_method(s: StatementView, field: Seq<char>, method: Seq<char>) -> bool {
    calls_field(s, field) && match s {
        StatementView::MethodCall { call, .. } => call.name == method,
        _ => false,
    }
}

/// The field that a statement is about.
pub open spec fn field_of(s: StatementView) -> Option<Seq<char>> {
    match reader::subject(s) {
        Some(path) => if path.len() > 0 {
            match path[0] {
                SegmentView::Field(n) => Some(n),
                SegmentView::Index(_) => None,
            }
        } else {
            None
        },
        None => None,
    }
}

/// The statements that `calls_method` holds of.
pub open spec fn method_calls(field: Seq<char>, method: Seq<char>) -> spec_fn(
    StatementView,
) -> bool {
    |s: StatementView| calls_method(s, field, method)
}

/// The statements that `calls_method` does not hold of.
pub open spec fn no_method_calls(field: Seq<char>, method: Seq<char>) -> spec_fn(
    StatementView,
) -> bool {
    |s: StatementView| !calls_method(s, field, method)
}

/// The statements that `calls_field` holds of.
pub open spec fn field_calls(field: Seq<char>) -> spec_fn(StatementView) -> bool {
    |s: StatementView| calls_field(s, field)
}

/// The statements that `calls_field` does not hold of.
pub open spec fn no_field_calls(field: Seq<char>) -> spec_fn(StatementView) -> bool {
    |s: StatementView| !calls_field(s, field)
}

/// The statements that are not about `field`.
pub open spec fn not_about(field: Seq<char>) -> spec_fn(StatementView) -> bool {
    |s: StatementView| field_of(s) != Some(field)
}

/// All of the statements that `pick` holds of, in order.
pub open spec fn all_selected(
    body: Seq<Spanned<StatementView>>,
    pick: spec_fn(StatementView) -> bool,
) -> Seq<Spanned<StatementView>> {
    selected(body, pick, body.len() as int)
}

/// Whether the statement calls a method of `field`.
pub fn is_field_call(s: &Statement, field: &str) -> (r: bool)
    ensures
        r == calls_field(s@, field@),
{
    proof {
        ast::lemma_statement_view(*s);
    }
    match s {
        Statement::MethodCall(m) => {
            if m.object.segments.len() == 1 {
                assert(base::views(m.object.segments@)[0] == m.object.segments@[0]@);
                match &m.object.segments[0] {
                    PathSegment::Field(n) => same(n.as_str(), field),
                    PathSegment::Index(_) => false,
                }
            } else {
                false
            }
        },
        _ => false,
    }
}

/// Whether the statement calls `field.method(…)`.
pub fn is_method_call(s: &Statement, field: &str, method: &str) -> (r: bool)
    ensures
        r == calls_method(s@, field@, method@),
{
    proof {
        ast::lemma_statement_view(*s);
    }
    is_field_call(s, field) && match s {
        Statement::MethodCall(m) => same(m.call.name.as_str(), method),
        _ => false,
    }
}

/// The field that a statement is about.
pub fn field_name(s: &Statement) -> (r: Option<&str>)
    ensures
        (match r {
            Some(n) => Some(n@),
            None => None,
        }) == field_of(s@),
{
    proof {
        ast::lemma_statement_view(*s);
    }
    let path = match s {
        Statement::MethodCall(m) => &m.object.segments,
        Statement::Field(f) => &f.path.segments,
        Statement::TaggedBlock(_) => return None,
    };
    if path.len() == 0 {
        return None;
    }
    assert(base::views(path@)[0] == path@[0]@);
    match &path[0] {
        PathSegment::Field(n) => Some(n.as_str()),
        PathSegment::Index(_) => None,
    }
}

/// The calls `field.method(…)`, and a copy of every other statement.
pub fn partition_method_calls<'a>(
    body: &'a Vec<Spanned<Statement>>,
    field: &str,
    method: &str,
) -> (r: (Vec<&'a Spanned<Statement>>, Vec<Spanned<Statement>>))
    ensures
        base::views(r.0@) == all_selected(base::views(body@), method_calls(field@, method@)),
        base::views(r.1@) == all_selected(base::views(body@), no_method_calls(field@, method@)),
{
    let mut matched: Vec<&'a Spanned<Statement>> = Vec::new();
    let mut rest: Vec<Spanned<Statement>> = Vec::new();
    let mut i: usize = 0;
    let ghost all = base::views(body@);
    while i < body.len()
        invariant
            i <= body@.len(),
            all == base::views(body@),
            base::views(matched@) == selected(all, method_calls(field@, method@), i as int),
            base::views(rest@) == selected(all, no_method_calls(field@, method@), i as int),
        decreases body@.len() - i,
    {
        assert(all[i as int] == body@[i as int]@);
        if is_method_call(&body[i].value, field, method) {
            matched.push(&body[i]);
        } else {
            rest.push(clone_statement(&body[i]));
        }
        i = i + 1;
    }
    (matched, rest)
}

/// The calls of methods of `field`, and a copy of every other statement.
pub fn partition_field_calls<'a>(body: &'a Vec<Spanned<Statement>>, field: &str) -> (r: (
    Vec<&'a Spanned<Statement>>,
    Vec<Spanned<Statement>>,
))
    ensures
        base::views(r.0@) == all_selected(base::views(body@), field_calls(field@)),
        base::views(r.1@) == all_selected(base::views(body@), no_field_calls(field@)),
{
    let mut matched: Vec<&'a Spanned<Statement>> = Vec::new();
    let mut rest: Vec<Spanned<Statement>> = Vec::new();
    let mut i: usize = 0;
    let ghost all = base::views(body@);
    while i < body.len()
        invariant
            i <= body@.len(),
            all == base::views(body@),
            base::views(matched@) == selected(all, field_calls(field@), i as int),
            base::views(rest@) == selected(all, no_field_calls(field@), i as int),
        decreases body@.len() - i,
    {
        assert(all[i as int] == body@[i as int]@);
        if is_field_call(&body[i].value, field) {
            matched.push(&body[i]);
        } else {
            rest.push(clone_statement(&body[i]));
        }
        i = i + 1;
    }
    (matched, rest)
}

/// The statements that are not about `field`.
pub fn filter_out_field(body: &Vec<Spanned<Statement>>, field: &str) -> (r: Vec<Spanned<Statement>>)
    ensures
        base::views(r@) == all_selected(base::views(body@), not_about(field@)),
{
    let mut rest: Vec<Spanned<Statement>> = Vec::new();
    let mut i: usize = 0;
    let ghost all = base::views(body@);
    while i < body.len()
        invariant
            i <= body@.len(),
            all == base::views(body@),
            base::views(rest@) == selected(all, not_about(field@), i as int),
        decreases body@.len() - i,
    {
        assert(all[i as int] == body@[i as int]@);
        let about = match field_name(&body[i].value) {
            Some(n) => same(n, field),
            None => false,
        };
        if !about {
            rest.push(clone_statement(&body[i]));
        }
        i = i + 1;
    }
    rest
}

// ── Clearing ─────────────────────────────────────────────────────────────────

/// The field that a statement clears.
pub open spec fn cleared(s: StatementView) -> Option<Seq<char>> {
    match s {
        StatementView::MethodCall { object, call } => if object.len() == 1 && call.name
            == "clear"@ {
            field_of(s)
        } else {
            None
        },
        _ => None,
    }
}

/// Whether a later statement clears the field that statement `i` is about.
pub open spec fn superseded(body: Seq<Spanned<StatementView>>, i: int) -> bool {
    field_of(body[i].value) is Some && exists|j: int|
        i < j < body.len() && cleared((#[trigger] body[j]).value) == field_of(body[i].value)
}

/// The statements among the first `k` that no later one supersedes, in order.
pub open spec fn standing(body: Seq<Spanned<StatementView>>, k: int) -> Seq<Spanned<StatementView>>
    decreases k,
{
    if k <= 0 || k > body.len() {
        Seq::empty()
    } else if superseded(body, k - 1) {
        standing(body, k - 1)
    } else {
        standing(body, k - 1).push(body[k - 1])
    }
}

/// The statements that no later `clear()` supersedes, in order.
pub open spec fn stripped(body: Seq<Spanned<StatementView>>) -> Seq<Spanned<StatementView>> {
    standing(body, body.len() as int)
}

fn cleared_field(s: &Statement) -> (r: Option<&str>)
    ensures
        (match r {
            Some(n) => Some(n@),
            None => None,
        }) == cleared(s@),
{
    proof {
        ast::lemma_statement_view(*s);
    }
    match s {
        Statement::MethodCall(m) => {
            if m.object.segments.len() == 1 && same(m.call.name.as_str(), "clear") {
                field_name(s)
            } else {
                None
            }
        },
        _ => None,
    }
}

/// The places of the statements that clear a field.
fn clear_places(body: &Vec<Spanned<Statement>>) -> (r: Vec<usize>)
    ensures
        forall|k: int| 0 <= k < r@.len() ==> (#[trigger] r@[k]) < body@.len(),
        forall|j: int|
            0 <= j < body@.len() && cleared((#[trigger] base::views(body@)[j]).value) is Some
                ==> r@.contains(j as usize),
{
    let mut out: Vec<usize> = Vec::new();
    let mut i: usize = 0;
    let ghost all = base::views(body@);
    while i < body.len()
        invariant
            i <= body@.len(),
            all == base::views(body@),
            forall|k: int| 0 <= k < out@.len() ==> (#[trigger] out@[k]) < i,
            forall|j: int|
                0 <= j < i && cleared((#[trigger] all[j]).value) is Some ==> out@.contains(
                    j as usize,
                ),
        decreases body@.len() - i,
    {
        assert(all[i as int] == body@[i as int]@);
        match cleared_field(&body[i].value) {
            Some(_) => {
                let ghost before = out@;
                out.push(i);
                proof {
                    assert(out@[out@.len() - 1] == i);
                    assert forall|j: int|
                        0 <= j < i + 1 && cleared(
                            (#[trigger] all[j]).value,
                        ) is Some implies out@.contains(j as usize) by {
                        if j < i {
                            let k = before.index_of(j as usize);
                            assert(out@[k] == j as usize);
                        }
                    }
                }
            },
            None => {},
        }
        i = i + 1;
    }
    out
}

/// Whether one of the statements at `places` supersedes statement `i`.
fn is_superseded(body: &Vec<Spanned<Statement>>, places: &Vec<usize>, i: usize) -> (r: bool)
    requires
        i < body@.len(),
        forall|k: int| 0 <= k < places@.len() ==> (#[trigger] places@[k]) < body@.len(),
        forall|j: int|
            0 <= j < body@.len() && cleared((#[trigger] base::views(body@)[j]).value) is Some
                ==> places@.contains(j as usize),
    ensures
        r == superseded(base::views(body@), i as int),
{
    let ghost all = base::views(body@);
    assert(all[i as int] == body@[i as int]@);
    let field = match field_name(&body[i].value) {
        Some(n) => n,
        None => return false,
    };
    let n: usize = body.len();
    let mut k: usize = 0;
    while k < places.len()
        invariant
            k <= places@.len(),
            i < body@.len(),
            all == base::views(body@),
            Some(field@) == field_of(all[i as int].value),
            forall|m: int| 0 <= m < places@.len() ==> (#[trigger] places@[m]) < body@.len(),
            forall|m: int|
                0 <= m < k ==> !(i < #[trigger] places@[m] && cleared(
                    all[places@[m] as int].value,
                ) == Some(field@)),
        decreases places@.len() - k,
    {
        let j = places[k];
        assert(all[j as int] == body@[j as int]@);
        if j > i {
            match cleared_field(&body[j].value) {
                Some(n) => {
                    if same(n, field) {
                        assert(superseded(all, i as int));
                        return true;
                    }
                },
                None => {},
            }
        }
        k = k + 1;
    }
    proof {
        if superseded(all, i as int) {
            let j = choose|j: int|
                i < j < all.len() && cleared((#[trigger] all[j]).value) == field_of(
                    all[i as int].value,
                );
            assert(all.len() == n);
            let m = places@.index_of(j as usize);
            assert(places@[m] == j as usize);
            assert(all[places@[m] as int] == all[j]);
        }
    }
    false
}

/// `field.clear()` discards what was said of the field before it: drops every
/// statement about a field that a later statement clears. The `clear()` itself
/// stays.
pub fn strip_superseded_by_clear(body: &Vec<Spanned<Statement>>) -> (r: Vec<Spanned<Statement>>)
    ensures
        base::views(r@) == stripped(base::views(body@)),
{
    let places = clear_places(body);
    let mut out: Vec<Spanned<Statement>> = Vec::new();
    let mut i: usize = 0;
    let ghost all = base::views(body@);
    while i < body.len()
        invariant
            i <= body@.len(),
            all == base::views(body@),
            forall|k: int| 0 <= k < places@.len() ==> (#[trigger] places@[k]) < body@.len(),
            forall|j: int|
                0 <= j < body@.len() && cleared((#[trigger] all[j]).value) is Some
                    ==> places@.contains(j as usize),
            base::views(out@) == standing(all, i as int),
        decreases body@.len() - i,
    {
        assert(all[i as int] == body@[i as int]@);
        if !is_superseded(body, &places, i) {
            out.push(clone_statement(&body[i]));
        }
        i = i + 1;
    }
    out
}

// ── Laws ─────────────────────────────────────────────────────────────────────

/// The place in the body of the statement at place `p` of those standing among the
/// first `k`.
spec fn origin(body: Seq<Spanned<StatementView>>, k: int, p: int) -> int
    decreases k,
{
    if k <= 0 || k > body.len() {
        0
    } else if superseded(body, k - 1) {
        origin(body, k - 1, p)
    } else if p == standing(body, k - 1).len() {
        k - 1
    } else {
        origin(body, k - 1, p)
    }
}

proof fn lemma_origin(body: Seq<Spanned<StatementView>>, k: int, p: int)
    requires
        0 <= k <= body.len(),
        0 <= p < standing(body, k).len(),
    ensures
        0 <= origin(body, k, p) < k,
        body[origin(body, k, p)] == standing(body, k)[p],
        !superseded(body, origin(body, k, p)),
    decreases k,
{
    if superseded(body, k - 1) || p < standing(body, k - 1).len() {
        lemma_origin(body, k - 1, p);
    }
}

proof fn lemma_origins_ascend(body: Seq<Spanned<StatementView>>, k: int, p: int, q: int)
    requires
        0 <= k <= body.len(),
        0 <= p < q < standing(body, k).len(),
    ensures
        origin(body, k, p) < origin(body, k, q),
    decreases k,
{
    if superseded(body, k - 1) || q < standing(body, k - 1).len() {
        lemma_origins_ascend(body, k - 1, p, q);
    } else {
        lemma_origin(body, k - 1, p);
    }
}

proof fn lemma_all_stand(body: Seq<Spanned<StatementView>>, k: int)
    requires
        0 <= k <= body.len(),
        forall|i: int| 0 <= i < k ==> !(#[trigger] superseded(body, i)),
    ensures
        standing(body, k) == body.take(k),
    decreases k,
{
    if 0 < k {
        assert(!superseded(body, k - 1));
        lemma_all_stand(body, k - 1);
        assert(body.take(k) =~= body.take(k - 1).push(body[k - 1]));
    } else {
        assert(body.take(k) =~= Seq::empty());
    }
}

/// Once a body is stripped, no statement in it is superseded, every statement comes
/// from the body, and stripping it again changes nothing.
pub proof fn stripping_once_is_enough(body: Seq<Spanned<StatementView>>)
    ensures
        forall|i: int|
            0 <= i < stripped(body).len() ==> !(#[trigger] superseded(stripped(body), i)),
        forall|i: int|
            0 <= i < stripped(body).len() ==> body.contains(#[trigger] stripped(body)[i]),
        stripped(stripped(body)) == stripped(body),
{
    let n = body.len() as int;
    let rest = stripped(body);
    assert forall|i: int| 0 <= i < rest.len() implies !(#[trigger] superseded(rest, i)) by {
        lemma_origin(body, n, i);
        if superseded(rest, i) {
            let j = choose|j: int|
                i < j < rest.len() && cleared((#[trigger] rest[j]).value) == field_of(
                    rest[i].value,
                );
            lemma_origin(body, n, j);
            lemma_origins_ascend(body, n, i, j);
            assert(superseded(body, origin(body, n, i)));
        }
    }
    assert forall|i: int| 0 <= i < rest.len() implies body.contains(#[trigger] rest[i]) by {
        lemma_origin(body, n, i);
    }
    lemma_all_stand(rest, rest.len() as int);
    assert(rest.take(rest.len() as int) =~= rest);
}

} // verus!
