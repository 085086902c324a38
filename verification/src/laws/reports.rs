//! What is said of sources that cannot be used as they are.

use vstd::prelude::*;

use crate::build::diagnostics;
use crate::build::diagnostics::{BuildDiagnostic, DiagnosticView, ReadView};
use crate::build::load;
use crate::build::load::Loading;
use crate::build::render;
use crate::build::reports;
use crate::build::reports::DefPlace;
use crate::lower::env::LowerErrorView;
use crate::order;
use crate::order::Ranked;
use crate::text::ast;
use crate::text::base::{ErrorView, FileId, Span, Spanned};
use crate::text::grammar;
use crate::text::lexer::TextErrorView;
use crate::text::symbols;
use crate::text::symbols::{Evaluation, RedefinitionView, SymbolErrorView};

verus! {

// ── Symbols ──────────────────────────────────────────────────────────────────

/// Binding a name again is recorded, at the name, with what it was bound to and what it is
/// now; binding a new name is not.
pub proof fn redefinitions_are_recorded(st: Evaluation, name: Spanned<Seq<char>>, value: i64)
    ensures
        ({
            let end = symbols::define(st, name, value);
            &&& end.table.contains_key(name.value)
            &&& end.table[name.value] == value
            &&& !st.table.contains_key(name.value) ==> end.redefined == st.redefined
            &&& st.table.contains_key(name.value) ==> {
                let r = end.redefined[st.redefined.len() as int];
                &&& end.redefined.len() == st.redefined.len() + 1
                &&& end.redefined.take(st.redefined.len() as int) == st.redefined
                &&& r.span == name.span
                &&& r.value.name == name.value
                &&& r.value.previous == st.table[name.value]
                &&& r.value.value == value
            }
        }),
{
    let end = symbols::define(st, name, value);
    if st.table.contains_key(name.value) {
        assert(end.redefined.take(st.redefined.len() as int) =~= st.redefined);
    }
}

/// Whether a diagnostic is about the place.
pub open spec fn about(d: DiagnosticView, source: usize, span: Span) -> bool {
    d.primary() == Some((source, span.start, span.end))
}

/// Ten redefinitions of a file are named, each by a warning at its place, and those behind
/// them are counted in one more.
pub proof fn ten_redefinitions_are_named(source: usize, v: Seq<Spanned<RedefinitionView>>, i: int)
    ensures
        ({
            let w = reports::redefinition_warnings(source, v);
            &&& v.len() <= 10 ==> w.len() == v.len()
            &&& v.len() > 10 ==> w.len() == 11
            &&& 0 <= i < w.len() ==> w[i].severity is Warning
            &&& 0 <= i < v.len() && i < 10 ==> about(w[i], source, v[i].span)
            &&& v.len() > 10 ==> w[10].primary() is None
        }),
{
    let w = reports::redefinition_warnings(source, v);
    if 0 <= i < v.len() && i < 10 {
        let l = w[i].labels;
        assert(l[0].primary);
        assert(diagnostics::primary_place(l, 0) == 0);
    }
    if v.len() > 10 {
        assert(w[10].labels.len() == 0);
        assert(diagnostics::primary_place(w[10].labels, 0) == 0);
    }
}

// ── Errors ───────────────────────────────────────────────────────────────────

/// What stops a build is an error, at the place where it is.
pub proof fn errors_are_said_at_their_place(
    source: usize,
    p: ErrorView<TextErrorView>,
    s: Spanned<SymbolErrorView>,
    e: LowerErrorView,
    name: Seq<char>,
    def_type: Seq<char>,
    place: DefPlace,
    text: Seq<char>,
)
    ensures
        reports::parse_error(source, p).severity is Error,
        about(reports::parse_error(source, p), source, p.span),
        reports::symbol_error(source, s).severity is Error,
        about(reports::symbol_error(source, s), source, s.span),
        reports::lowering_error(name, def_type, e, Some(place), text).severity is Error,
        reports::lowering_error(name, def_type, e, None, text).severity is Error,
        reports::lowering_error(name, def_type, e, None, text).primary() is None,
        reports::block_error(def_type, name, e).severity is Error,
        e.place() matches Some(span) ==> about(
            reports::lowering_error(name, def_type, e, Some(place), text),
            span.file.0 as usize,
            span,
        ) && about(reports::block_error(def_type, name, e), span.file.0 as usize, span),
        e.place() is None ==> reports::lowering_error(
            name,
            def_type,
            e,
            Some(place),
            text,
        ).primary() is None,
{
    let a = reports::parse_error(source, p).labels;
    assert(a[0].primary);
    assert(diagnostics::primary_place(a, 0) == 0);
    let b = reports::symbol_error(source, s).labels;
    assert(b[0].primary);
    assert(diagnostics::primary_place(b, 0) == 0);
    let c = reports::lowering_error(name, def_type, e, Some(place), text).labels;
    let d = reports::block_error(def_type, name, e).labels;
    let n = reports::lowering_error(name, def_type, e, None, text).labels;
    assert(n.len() == 0);
    assert(diagnostics::primary_place(n, 0) == 0);
    if e.place() is Some {
        assert(c[0].primary && d[0].primary);
        assert(diagnostics::primary_place(c, 0) == 0);
        assert(diagnostics::primary_place(d, 0) == 0);
    } else {
        assert(c.len() == 0);
        assert(diagnostics::primary_place(c, 0) == 0);
    }
}

proof fn lemma_line(b: Seq<u8>, start: int)
    requires
        0 <= start <= b.len(),
    ensures
        start <= reports::line_end(b, start) <= b.len(),
        forall|i: int| start <= i < reports::line_end(b, start) ==> b[i] != 10,
    decreases b.len() - start,
{
    if start < b.len() && b[start] != 10 {
        lemma_line(b, start + 1);
    }
}

proof fn lemma_name(b: Seq<u8>, name: Seq<u8>, k: int, end: int)
    requires
        0 <= k <= end <= b.len(),
    ensures
        ({
            let at = reports::name_place(b, name, k, end);
            &&& k <= at <= end
            &&& at < end ==> at + name.len() <= end && b.subrange(at, at + name.len()) == name
        }),
    decreases end - k,
{
    if k < end && !(k + name.len() <= end && b.subrange(k, k + name.len()) == name) {
        lemma_name(b, name, k + 1, end);
    }
}

/// The label of a definition is on its name, in the line in which the definition starts.
pub proof fn the_name_of_a_definition_is_labelled(
    name: Seq<char>,
    place: DefPlace,
    text: Seq<char>,
)
    requires
        vstd::utf8::encode_utf8(text).len() <= usize::MAX,
    ensures
        ({
            let b = vstd::utf8::encode_utf8(text);
            let l = reports::name_label(name, place, text);
            l.len() == 0 || {
                let s = l[0].span;
                &&& l.len() == 1
                &&& !l[0].primary
                &&& l[0].source == place.source
                &&& place.span.start <= s.start <= s.end <= b.len()
                &&& b.subrange(s.start as int, s.end as int) == vstd::utf8::encode_utf8(name)
                &&& forall|i: int| place.span.start <= i < s.end ==> b[i] != 10
            }
        }),
{
    let b = vstd::utf8::encode_utf8(text);
    let n = vstd::utf8::encode_utf8(name);
    if place.span.start <= b.len() {
        lemma_line(b, place.span.start as int);
        let end = reports::line_end(b, place.span.start as int);
        lemma_name(b, n, place.span.start as int, end);
    }
}

// ── Reporting ────────────────────────────────────────────────────────────────

/// What is reported is in the order of the places in the sources; what is about no place
/// comes first.
pub proof fn reports_follow_the_sources(raw: Seq<DiagnosticView>, i: int, j: int)
    requires
        0 <= i < j < diagnostics::reported(raw).len(),
    ensures
        ({
            let r = diagnostics::reported(raw);
            match (r[i].primary(), r[j].primary()) {
                (Some(a), Some(b)) => a.0 < b.0 || a.0 == b.0 && a.1 <= b.1,
                (Some(_), None) => false,
                (None, _) => true,
            }
        }),
{
    let all = diagnostics::all_noted(diagnostics::merged(raw, raw.len() as int));
    order::order_keeps_the_values::<BuildDiagnostic>(all);
    let r = diagnostics::reported(raw);
    assert(order::at_most(
        <BuildDiagnostic as Ranked>::rank(r[i]),
        <BuildDiagnostic as Ranked>::rank(r[j]),
    ));
}

/// A diagnostic that is the only one of its mistake is reported as it is, and another
/// message, severity or place is another mistake.
pub proof fn a_mistake_is_a_message_at_a_place(a: DiagnosticView, b: DiagnosticView)
    ensures
        a.same_mistake(a),
        a.same_mistake(b) == b.same_mistake(a),
        a.message != b.message || a.severity != b.severity || a.primary() != b.primary()
            ==> !a.same_mistake(b),
        diagnostics::reported(seq![a]) == seq![a],
        !a.same_mistake(b) ==> diagnostics::reported(seq![a, b]).to_multiset() == seq![a, b]
            .to_multiset(),
        a.same_mistake(b) ==> diagnostics::reported(seq![a, b]).len() == 1,
{
    broadcast use vstd::seq_lib::group_to_multiset_ensures;

    let one = seq![a];
    assert(diagnostics::merged(one, 0).len() == 0);
    let m = diagnostics::merged(one, 1);
    assert(m =~= seq![(diagnostics::Merged { diagnostic: a, repeats: 0 })]);
    assert(diagnostics::all_noted(m) =~= one);
    assert(order::sorted::<BuildDiagnostic>(one, 0).len() == 0);
    assert(order::sorted::<BuildDiagnostic>(one, 1) =~= one);
    let two = seq![a, b];
    assert(diagnostics::merged(two, 0).len() == 0);
    assert(diagnostics::merged(two, 1) =~= m);
    let n = diagnostics::merged(two, 2);
    assert(diagnostics::mistake_place(m, b, 1) == 1);
    assert(n == diagnostics::with_diagnostic(m, b));
    let all = diagnostics::all_noted(n);
    order::order_keeps_the_values::<BuildDiagnostic>(all);
    if a.same_mistake(b) {
        assert(diagnostics::mistake_place(m, b, 0) == 0);
        assert(all.len() == 1);
    } else {
        assert(diagnostics::mistake_place(m, b, 0) == 1);
        assert(all =~= two);
    }
    assert(diagnostics::reported(two).to_multiset().len() == diagnostics::reported(two).len());
    assert(all.to_multiset().len() == all.len());
}

/// A hundred diagnostics are rendered at most, and nothing is said of the others where there
/// are none.
pub proof fn a_hundred_diagnostics_are_rendered(total: int)
    requires
        total >= 0,
    ensures
        total <= 100 ==> render::rendered_count(total) == total && render::not_shown(total).len()
            == 0,
        total > 100 ==> render::rendered_count(total) == 100 && render::not_shown(total).len() > 0,
{
    reveal_strlit("... and ");
    assert("... and "@.len() == 8);
}

// ── Loading ──────────────────────────────────────────────────────────────────

proof fn lemma_places(
    places: Map<Seq<char>, DefPlace>,
    source: usize,
    defs: Seq<Spanned<ast::DefinitionView>>,
    k: int,
    i: int,
)
    requires
        0 <= i < k <= defs.len(),
        forall|j: int| i < j < k ==> (#[trigger] defs[j]).value.name != defs[i].value.name,
    ensures
        ({
            let r = load::places_upto(places, source, defs, k);
            let name = defs[i].value.name;
            r.contains_key(name) && r[name].source == source && r[name].span == defs[i].span
        }),
    decreases k,
{
    if i < k - 1 {
        assert(defs[k - 1].value.name != defs[i].value.name);
        lemma_places(places, source, defs, k - 1, i);
    }
}

/// A file of definitions that parses is added under its path, and the last of its definitions
/// with a name is found in it; what was there stays.
pub proof fn a_file_is_loaded(l: Loading, file: ReadView, i: int)
    requires
        grammar::source(file.text, FileId(l.corpus.sources.len() as u32)) is Ok,
        l.corpus.sources.len() <= usize::MAX,
    ensures
        ({
            let f = grammar::source(file.text, FileId(l.corpus.sources.len() as u32))->Ok_0;
            let r = load::with_file(l, file);
            let defs = ast::definitions_of(f.items);
            &&& r.said == l.said
            &&& r.corpus.symbols == l.corpus.symbols
            &&& r.corpus.files.len() == l.corpus.files.len() + 1
            &&& r.corpus.files.drop_last() == l.corpus.files
            &&& r.corpus.files.last().path == file.path
            &&& r.corpus.files.last().def_file == f
            &&& r.corpus.file_sources.last() == l.corpus.sources.len()
            &&& 0 <= i < defs.len() && (forall|j: int|
                i < j < defs.len() ==> (#[trigger] defs[j]).value.name != defs[i].value.name) ==> {
                let name = defs[i].value.name;
                r.corpus.places.contains_key(name) && r.corpus.places[name].source
                    == l.corpus.sources.len() && r.corpus.places[name].span == defs[i].span
            }
        }),
{
    let f = grammar::source(file.text, FileId(l.corpus.sources.len() as u32))->Ok_0;
    let r = load::with_file(l, file);
    let defs = ast::definitions_of(f.items);
    assert(r.corpus.files.drop_last() =~= l.corpus.files);
    if 0 <= i < defs.len() && (forall|j: int|
        i < j < defs.len() ==> (#[trigger] defs[j]).value.name != defs[i].value.name) {
        lemma_places(
            l.corpus.places,
            l.corpus.sources.len() as usize,
            defs,
            defs.len() as int,
            i,
        );
    }
}

/// A header gives its symbols and no definitions; where a value cannot be computed, that is
/// an error, and else each redefinition a warning.
pub proof fn a_header_gives_its_symbols(l: Loading, file: ReadView)
    requires
        grammar::source(file.text, FileId(l.corpus.sources.len() as u32)) is Ok,
    ensures
        ({
            let f = grammar::source(file.text, FileId(l.corpus.sources.len() as u32))->Ok_0;
            let r = load::with_header(l, file);
            let end = symbols::items_from(symbols::fresh(l.corpus.symbols), f.items, 0);
            &&& r.corpus.symbols == end.table
            &&& r.corpus.files == l.corpus.files
            &&& r.corpus.places == l.corpus.places
            &&& end.error is Some ==> r.said.len() == l.said.len() + 1
                && r.said.last().severity is Error
            &&& end.error is None && end.redefined.len() == 0 ==> r.said == l.said
            &&& end.error is None && end.redefined.len() <= 10 ==> r.said.len() == l.said.len()
                + end.redefined.len()
        }),
{
    let f = grammar::source(file.text, FileId(l.corpus.sources.len() as u32))->Ok_0;
    let r = load::with_header(l, file);
    let end = symbols::items_from(symbols::fresh(l.corpus.symbols), f.items, 0);
    if end.error is None && end.redefined.len() == 0 {
        assert(r.said =~= l.said);
    }
}

} // verus!
