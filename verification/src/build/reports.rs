//! Errors of parsing and lowering, and redefined symbols, as diagnostics.

use vstd::prelude::*;

use crate::build::diagnostics::{
    BuildDiagnostic, DiagnosticLabel, DiagnosticView, Diagnostics, LabelView, Severity,
};
use crate::eval::{EvalError, EvalErrorView};
use crate::lower::env::{LowerError, LowerErrorView};
use crate::reader::{DefReaderError, ReaderErrorView};
use crate::strings;
use crate::strings::{push_int, push_nat, push_text};
use crate::text::base;
use crate::text::base::{ErrorView, Span, Spanned};
use crate::text::cursor::DefParseError;
use crate::text::lexer::{TextErrorView, TextParseErrorKind};
use crate::text::symbols::{Redefinition, RedefinitionView, SymbolErrorView, SymbolEvalError};

verus! {

broadcast use base::group_views;

// ── Parsing ──────────────────────────────────────────────────────────────────

/// What is said of the construct that an error is in: that it is never closed, where
/// that is the error, and else its name.
pub open spec fn construct_message(e: ErrorView<TextErrorView>) -> Seq<char> {
    if e.inner is MissingEndDefinition {
        "this "@ + e.context->0.what + " is never closed"@
    } else {
        e.context->0.label()
    }
}

/// The diagnostic of a file that does not parse: the primary label is the offending
/// token, the other the construct that it is in.
pub open spec fn parse_error(source: usize, e: ErrorView<TextErrorView>) -> DiagnosticView {
    let token = LabelView { source, primary: true, span: e.span, message: None };
    DiagnosticView {
        severity: Severity::Error,
        message: e.inner.message(),
        labels: match e.context {
            Some(c) => seq![
                token,
                LabelView {
                    source,
                    primary: false,
                    span: c.span,
                    message: Some(construct_message(e)),
                },
            ],
            None => seq![token],
        },
        notes: Seq::empty(),
    }
}

/// The diagnostic of a file that does not parse.
pub fn parse_error_diagnostic(source: usize, error: &DefParseError) -> (r: BuildDiagnostic)
    ensures
        r@ == parse_error(source, error@),
{
    let mut labels: Vec<DiagnosticLabel> = Vec::new();
    labels.push(DiagnosticLabel { source, primary: true, span: error.span, message: None });
    match &error.context {
        Some(context) => {
            let note = match &error.inner {
                TextParseErrorKind::MissingEndDefinition => {
                    let mut out = String::new();
                    push_text(&mut out, "this ");
                    push_text(&mut out, context.what);
                    push_text(&mut out, " is never closed");
                    out
                },
                _ => context.label(),
            };
            assert(note@ =~= construct_message(error@));
            labels.push(
                DiagnosticLabel {
                    source,
                    primary: false,
                    span: context.span,
                    message: Some(note),
                },
            );
        },
        None => {},
    }
    let r = BuildDiagnostic {
        severity: Severity::Error,
        message: error.inner.message(),
        labels,
        notes: Vec::new(),
    };
    assert(r@.labels =~= parse_error(source, error@).labels);
    r
}

// ── Redefined symbols ────────────────────────────────────────────────────────

/// How many redefinitions of a file are named.
pub const MAX_REPORTED_REDEFINITIONS: usize = 10;

/// A warning that is about no place.
pub open spec fn warning(message: Seq<char>) -> DiagnosticView {
    DiagnosticView {
        severity: Severity::Warning,
        message,
        labels: Seq::empty(),
        notes: Seq::empty(),
    }
}

/// The warning that a symbol is redefined, at the name that redefines it.
pub open spec fn redefined(source: usize, r: Spanned<RedefinitionView>) -> DiagnosticView {
    let was = strings::int_text(r.value.previous as int);
    let now = strings::int_text(r.value.value as int);
    DiagnosticView {
        severity: Severity::Warning,
        message: "symbol "@ + r.value.name + " redefined: "@ + was + " -> "@ + now
            + " (later definition wins)"@,
        labels: seq![
            LabelView {
                source,
                primary: true,
                span: r.span,
                message: Some("was "@ + was + ", now "@ + now),
            },
        ],
        notes: Seq::empty(),
    }
}

/// The warning that more symbols are redefined.
pub open spec fn more_redefined(n: nat) -> DiagnosticView {
    warning("… and "@ + strings::nat_text(n) + " more symbol(s) redefined in this file"@)
}

/// The warnings on the first `k` redefined symbols.
pub open spec fn redefinitions(
    source: usize,
    v: Seq<Spanned<RedefinitionView>>,
    k: int,
) -> Seq<DiagnosticView> {
    Seq::new(k as nat, |i: int| redefined(source, v[i]))
}

/// The warnings on the redefined symbols of a file: the first ten are named, and the
/// rest counted.
pub open spec fn redefinition_warnings(
    source: usize,
    v: Seq<Spanned<RedefinitionView>>,
) -> Seq<DiagnosticView> {
    if v.len() <= MAX_REPORTED_REDEFINITIONS {
        redefinitions(source, v, v.len() as int)
    } else {
        redefinitions(source, v, MAX_REPORTED_REDEFINITIONS as int).push(
            more_redefined((v.len() - MAX_REPORTED_REDEFINITIONS) as nat),
        )
    }
}

fn redefinition_diagnostic(source: usize, r: &Spanned<Redefinition>) -> (d: BuildDiagnostic)
    ensures
        d@ == redefined(source, r@),
{
    let mut m = String::new();
    push_text(&mut m, "symbol ");
    push_text(&mut m, r.value.name.as_str());
    push_text(&mut m, " redefined: ");
    push_int(&mut m, r.value.previous);
    push_text(&mut m, " -> ");
    push_int(&mut m, r.value.value);
    push_text(&mut m, " (later definition wins)");
    let mut at = String::new();
    push_text(&mut at, "was ");
    push_int(&mut at, r.value.previous);
    push_text(&mut at, ", now ");
    push_int(&mut at, r.value.value);
    let mut labels: Vec<DiagnosticLabel> = Vec::new();
    labels.push(DiagnosticLabel { source, primary: true, span: r.span, message: Some(at) });
    let d = BuildDiagnostic { severity: Severity::Warning, message: m, labels, notes: Vec::new() };
    assert(at@ =~= redefined(source, r@).labels[0].message->0);
    assert(d@.labels =~= redefined(source, r@).labels);
    assert(d@.notes =~= redefined(source, r@).notes);
    d
}

/// Warns of redefined symbols in a source: the first ten are named, and the rest counted.
pub fn report_redefinitions(
    source: usize,
    redefined: &Vec<Spanned<Redefinition>>,
    diagnostics: &mut Diagnostics,
)
    ensures
        final(diagnostics)@ == old(diagnostics)@ + redefinition_warnings(
            source,
            base::views(redefined@),
        ),
{
    let ghost all = base::views(redefined@);
    let ghost before = diagnostics@;
    let n: usize = redefined.len();
    let named: usize = if n < MAX_REPORTED_REDEFINITIONS {
        n
    } else {
        MAX_REPORTED_REDEFINITIONS
    };
    let mut k: usize = 0;
    assert(before + redefinitions(source, all, 0) =~= before);
    while k < named
        invariant
            k <= named <= n,
            n == redefined@.len(),
            all == base::views(redefined@),
            before == old(diagnostics)@,
            diagnostics@ == before + redefinitions(source, all, k as int),
        decreases named - k,
    {
        assert(all[k as int] == redefined@[k as int]@);
        diagnostics.push(redefinition_diagnostic(source, &redefined[k]));
        assert(diagnostics@ =~= before + redefinitions(source, all, k as int + 1));
        k = k + 1;
    }
    if n > MAX_REPORTED_REDEFINITIONS {
        let mut m = String::new();
        push_text(&mut m, "… and ");
        push_nat(&mut m, (n - MAX_REPORTED_REDEFINITIONS) as u64);
        push_text(&mut m, " more symbol(s) redefined in this file");
        diagnostics.push(BuildDiagnostic::bare(Severity::Warning, m));
    }
    assert(diagnostics@ =~= before + redefinition_warnings(source, all));
}

/// The diagnostic of a declaration whose value cannot be computed, at the offending
/// expression.
pub open spec fn symbol_error(source: usize, e: Spanned<SymbolErrorView>) -> DiagnosticView {
    DiagnosticView {
        severity: Severity::Error,
        message: match e.value {
            SymbolErrorView::UnknownSymbol(name) => "unknown symbol "@ + name,
            SymbolErrorView::InvalidShift(n) => "invalid shift by "@ + strings::int_text(n as int),
        },
        labels: seq![LabelView { source, primary: true, span: e.span, message: None }],
        notes: Seq::empty(),
    }
}

/// The diagnostic of a declaration whose value cannot be computed, at the offending
/// expression.
pub fn symbol_eval_diagnostic(source: usize, error: &Spanned<SymbolEvalError>) -> (r:
    BuildDiagnostic)
    ensures
        r@ == symbol_error(source, error@),
{
    let mut m = String::new();
    match &error.value {
        SymbolEvalError::UnknownSymbol(name) => {
            push_text(&mut m, "unknown symbol ");
            push_text(&mut m, name.as_str());
        },
        SymbolEvalError::InvalidShift(n) => {
            push_text(&mut m, "invalid shift by ");
            push_int(&mut m, *n);
        },
    }
    assert(m@ =~= symbol_error(source, error@).message);
    let mut labels: Vec<DiagnosticLabel> = Vec::new();
    labels.push(DiagnosticLabel { source, primary: true, span: error.span, message: None });
    let r = BuildDiagnostic { severity: Severity::Error, message: m, labels, notes: Vec::new() };
    assert(r@.labels =~= symbol_error(source, error@).labels);
    assert(r@.notes =~= symbol_error(source, error@).notes);
    r
}

// ── Lowering ─────────────────────────────────────────────────────────────────

/// Where the line at `start` ends.
pub open spec fn line_end(b: Seq<u8>, start: int) -> int
    decreases b.len() - start,
{
    if start < 0 || start >= b.len() || b[start] == 10 {
        start
    } else {
        line_end(b, start + 1)
    }
}

/// The first place at or behind `k` at which `name` stands before `end`; `end` if there
/// is none.
pub open spec fn name_place(b: Seq<u8>, name: Seq<u8>, k: int, end: int) -> int
    decreases end - k,
{
    if k < 0 || k >= end {
        end
    } else if k + name.len() <= end && b.subrange(k, k + name.len()) == name {
        k
    } else {
        name_place(b, name, k + 1, end)
    }
}

fn find_line_end(b: &[u8], start: usize) -> (r: usize)
    requires
        start <= b@.len(),
    ensures
        start <= r <= b@.len(),
        r == line_end(b@, start as int),
{
    let mut k: usize = start;
    while k < b.len() && b[k] != 10
        invariant
            start <= k <= b@.len(),
            line_end(b@, start as int) == line_end(b@, k as int),
        decreases b@.len() - k,
    {
        k = k + 1;
    }
    k
}

fn bytes_at(b: &[u8], name: &[u8], at: usize, end: usize) -> (r: bool)
    requires
        at <= end <= b@.len(),
    ensures
        r == (at + name@.len() <= end && b@.subrange(at as int, at + name@.len()) == name@),
{
    if name.len() > end - at {
        return false;
    }
    let mut k: usize = 0;
    while k < name.len()
        invariant
            k <= name@.len(),
            at + name@.len() <= end <= b@.len(),
            end <= usize::MAX,
            forall|j: int| 0 <= j < k ==> b@[at + j] == name@[j],
        decreases name@.len() - k,
    {
        if b[at + k] != name[k] {
            assert(b@.subrange(at as int, at + name@.len())[k as int] != name@[k as int]);
            return false;
        }
        k = k + 1;
    }
    assert(b@.subrange(at as int, at + name@.len()) =~= name@);
    true
}

fn find_name(b: &[u8], name: &[u8], start: usize, end: usize) -> (r: usize)
    requires
        start <= end <= b@.len(),
    ensures
        r == name_place(b@, name@, start as int, end as int),
        start <= r <= end,
        r < end ==> r + name@.len() <= end,
{
    let mut k: usize = start;
    while k < end
        invariant
            start <= k <= end <= b@.len(),
            name_place(b@, name@, start as int, end as int) == name_place(
                b@,
                name@,
                k as int,
                end as int,
            ),
        decreases end - k,
    {
        if bytes_at(b, name, k, end) {
            return k;
        }
        k = k + 1;
    }
    end
}

/// Where a definition stands: its file, and its place there.
#[derive(Debug, Clone, Copy, PartialEq, Eq, Structural)]
pub struct DefPlace {
    pub source: usize,
    pub span: Span,
}

/// The label of the name of a definition, in its first line.
pub open spec fn name_label(name: Seq<char>, place: DefPlace, text: Seq<char>) -> Seq<LabelView> {
    let b = vstd::utf8::encode_utf8(text);
    let n = vstd::utf8::encode_utf8(name);
    if place.span.start > b.len() {
        Seq::empty()
    } else {
        let end = line_end(b, place.span.start as int);
        let at = name_place(b, n, place.span.start as int, end);
        if at < end {
            seq![
                LabelView {
                    source: place.source,
                    primary: false,
                    span: Span {
                        file: place.span.file,
                        start: at as usize,
                        end: (at + n.len()) as usize,
                    },
                    message: Some("in this definition"@),
                },
            ]
        } else {
            Seq::empty()
        }
    }
}

/// The label of the place of an error.
pub open spec fn error_label(e: LowerErrorView) -> Seq<LabelView> {
    match e.place() {
        Some(span) => seq![
            LabelView { source: span.file.0 as usize, primary: true, span, message: None },
        ],
        None => Seq::empty(),
    }
}

/// What explains an error: names live in two places that look alike where they are used.
pub open spec fn explanation(e: LowerErrorView) -> Seq<Seq<char>> {
    match e {
        LowerErrorView::Reader(ReaderErrorView::Eval(EvalErrorView::UnknownSymbol(_), _)) => seq![
            "constants come from `enum` / `#define` declarations"@,
        ],
        LowerErrorView::UnresolvedReference(_, _) => seq![
            "no `#definition` with this name is in scope for this binary"@,
        ],
        _ => Seq::empty(),
    }
}

/// The diagnostic of a definition that cannot be lowered. The span of the error names
/// its own file: a statement may come from an ancestor elsewhere. The definition is
/// labelled only where the statement is its own.
pub open spec fn lowering_error(
    name: Seq<char>,
    def_type: Seq<char>,
    e: LowerErrorView,
    place: Option<DefPlace>,
    text: Seq<char>,
) -> DiagnosticView {
    match place {
        None => DiagnosticView {
            severity: Severity::Error,
            message: def_type + " "@ + name + ": "@ + e.message(),
            labels: Seq::empty(),
            notes: Seq::empty(),
        },
        Some(place) => DiagnosticView {
            severity: Severity::Error,
            message: e.message(),
            labels: error_label(e) + (match e.place() {
                Some(span) => if place.span.covers(span) {
                    name_label(name, place, text)
                } else {
                    Seq::empty()
                },
                None => Seq::empty(),
            }),
            notes: explanation(e),
        },
    }
}

fn label_name(name: &str, place: DefPlace, text: &str) -> (r: Option<DiagnosticLabel>)
    ensures
        (match r {
            Some(l) => seq![l@],
            None => Seq::empty(),
        }) == name_label(name@, place, text@),
{
    let b = text.as_bytes();
    let n = name.as_bytes();
    if place.span.start > b.len() {
        return None;
    }
    let end = find_line_end(b, place.span.start);
    let at = find_name(b, n, place.span.start, end);
    if at < end {
        let l = DiagnosticLabel {
            source: place.source,
            primary: false,
            span: Span { file: place.span.file, start: at, end: at + n.len() },
            message: Some("in this definition".to_owned()),
        };
        assert(seq![l@] =~= name_label(name@, place, text@));
        Some(l)
    } else {
        None
    }
}

/// The diagnostic of a definition that cannot be lowered; `text` is the file of the
/// definition.
pub fn lowering_error_diagnostic(
    def_name: &str,
    def_type: &str,
    error: &LowerError,
    place: Option<DefPlace>,
    text: &str,
) -> (r: BuildDiagnostic)
    ensures
        r@ == lowering_error(def_name@, def_type@, error@, place, text@),
{
    let place = match place {
        Some(p) => p,
        None => {
            let mut m = String::new();
            push_text(&mut m, def_type);
            push_text(&mut m, " ");
            push_text(&mut m, def_name);
            push_text(&mut m, ": ");
            push_text(&mut m, error.message().as_str());
            return BuildDiagnostic::bare(Severity::Error, m);
        },
    };
    let mut labels: Vec<DiagnosticLabel> = Vec::new();
    match error.primary_span() {
        Some(span) => {
            labels.push(
                DiagnosticLabel { source: span.file.0 as usize, primary: true, span, message: None },
            );
            assert(base::views(labels@) =~= error_label(error@));
            if place.span.contains(span) {
                match label_name(def_name, place, text) {
                    Some(l) => {
                        proof {
                            assert(seq![l@][0] == l@);
                        }
                        labels.push(l);
                    },
                    None => {},
                }
            }
        },
        None => {},
    }
    let mut notes: Vec<String> = Vec::new();
    match error {
        LowerError::Reader(DefReaderError::Eval(EvalError::UnknownSymbol(_), _)) => notes.push(
            "constants come from `enum` / `#define` declarations".to_owned(),
        ),
        LowerError::UnresolvedReference(_, _) => notes.push(
            "no `#definition` with this name is in scope for this binary".to_owned(),
        ),
        _ => {},
    }
    let r = BuildDiagnostic {
        severity: Severity::Error,
        message: error.message(),
        labels,
        notes,
    };
    proof {
        let all = lowering_error(def_name@, def_type@, error@, Some(place), text@);
        assert(r@.labels =~= all.labels);
        assert(r@.notes =~= all.notes);
    }
    r
}

/// The diagnostic of a tagged block of a definition that cannot be lowered.
pub open spec fn block_error(tag: Seq<char>, name: Seq<char>, e: LowerErrorView) -> DiagnosticView {
    DiagnosticView {
        severity: Severity::Error,
        message: "in <"@ + tag + "> of "@ + name + ": "@ + e.message(),
        labels: error_label(e),
        notes: Seq::empty(),
    }
}

/// The diagnostic of a tagged block of a definition that cannot be lowered.
pub fn block_error_diagnostic(tag: &str, name: &str, error: &LowerError) -> (r: BuildDiagnostic)
    ensures
        r@ == block_error(tag@, name@, error@),
{
    let mut m = String::new();
    push_text(&mut m, "in <");
    push_text(&mut m, tag);
    push_text(&mut m, "> of ");
    push_text(&mut m, name);
    push_text(&mut m, ": ");
    push_text(&mut m, error.message().as_str());
    let mut labels: Vec<DiagnosticLabel> = Vec::new();
    match error.primary_span() {
        Some(span) => labels.push(
            DiagnosticLabel { source: span.file.0 as usize, primary: true, span, message: None },
        ),
        None => {},
    }
    assert(base::views(labels@) =~= error_label(error@));
    BuildDiagnostic { severity: Severity::Error, message: m, labels, notes: Vec::new() }
}

} // verus!
