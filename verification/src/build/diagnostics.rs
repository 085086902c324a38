//! What there is to say about the sources: errors and warnings, each with the places
//! that it is about.

use vstd::prelude::*;

use crate::order;
use crate::order::{sort, Ranked};
use crate::strings;
use crate::strings::{push_nat, push_text, same};
use crate::text::base;
use crate::text::base::Span;

verus! {

broadcast use base::group_views;

/// A source file that was read.
#[derive(Debug)]
pub struct SourceFile {
    /// The path, with `/` between its parts.
    pub path: String,
    pub text: String,
}

/// What a [`SourceFile`] holds.
pub struct ReadView {
    pub path: Seq<char>,
    pub text: Seq<char>,
}

impl View for SourceFile {
    type V = ReadView;

    open spec fn view(&self) -> ReadView {
        ReadView { path: self.path@, text: self.text@ }
    }
}

#[derive(Debug, Clone, Copy, PartialEq, Eq, Structural)]
pub enum Severity {
    Warning,
    Error,
}

/// A place in a source file, with a message.
#[derive(Debug)]
pub struct DiagnosticLabel {
    /// The number of the file.
    pub source: usize,
    /// Whether the diagnostic is about this place.
    pub primary: bool,
    pub span: Span,
    pub message: Option<String>,
}

/// What a [`DiagnosticLabel`] says.
pub struct LabelView {
    pub source: usize,
    pub primary: bool,
    pub span: Span,
    pub message: Option<Seq<char>>,
}

impl View for DiagnosticLabel {
    type V = LabelView;

    open spec fn view(&self) -> LabelView {
        LabelView {
            source: self.source,
            primary: self.primary,
            span: self.span,
            message: base::opt_text(self.message),
        }
    }
}

/// One thing to say about the sources. Without labels it is about no place in them.
#[derive(Debug)]
pub struct BuildDiagnostic {
    pub severity: Severity,
    pub message: String,
    pub labels: Vec<DiagnosticLabel>,
    /// Explanations that follow.
    pub notes: Vec<String>,
}

/// What a [`BuildDiagnostic`] says.
pub struct DiagnosticView {
    pub severity: Severity,
    pub message: Seq<char>,
    pub labels: Seq<LabelView>,
    pub notes: Seq<Seq<char>>,
}

impl View for BuildDiagnostic {
    type V = DiagnosticView;

    open spec fn view(&self) -> DiagnosticView {
        DiagnosticView {
            severity: self.severity,
            message: self.message@,
            labels: base::views(self.labels@),
            notes: base::views(self.notes@),
        }
    }
}

/// The first primary label at or behind `k`; the length if there is none.
pub open spec fn primary_place(labels: Seq<LabelView>, k: int) -> int
    decreases labels.len() - k,
{
    if k < 0 || k >= labels.len() || labels[k].primary {
        k
    } else {
        primary_place(labels, k + 1)
    }
}

impl DiagnosticView {
    /// The place that the diagnostic is about: the file, the start and the end.
    pub open spec fn primary(self) -> Option<(usize, usize, usize)> {
        let i = primary_place(self.labels, 0);
        if i < self.labels.len() {
            Some((self.labels[i].source, self.labels[i].span.start, self.labels[i].span.end))
        } else {
            None
        }
    }

    /// Whether two diagnostics are about one mistake: the same message, at the same
    /// place, of the same severity.
    pub open spec fn same_mistake(self, other: DiagnosticView) -> bool {
        self.severity == other.severity && self.message == other.message && self.primary()
            == other.primary()
    }
}

impl BuildDiagnostic {
    /// A diagnostic that is about no place in the sources.
    pub fn bare(severity: Severity, message: String) -> (r: Self)
        ensures
            r@ == (DiagnosticView {
                severity,
                message: message@,
                labels: Seq::empty(),
                notes: Seq::empty(),
            }),
    {
        BuildDiagnostic { severity, message, labels: Vec::new(), notes: Vec::new() }
    }

    fn primary(&self) -> (r: Option<(usize, usize, usize)>)
        ensures
            r == self@.primary(),
    {
        let ghost all = base::views(self.labels@);
        let mut i: usize = 0;
        while i < self.labels.len()
            invariant
                i <= self.labels@.len(),
                all == base::views(self.labels@),
                primary_place(all, 0) == primary_place(all, i as int),
            decreases self.labels@.len() - i,
        {
            assert(all[i as int] == self.labels@[i as int]@);
            if self.labels[i].primary {
                let l = &self.labels[i];
                return Some((l.source, l.span.start, l.span.end));
            }
            i = i + 1;
        }
        None
    }

    fn is_same_mistake(&self, other: &BuildDiagnostic) -> (r: bool)
        ensures
            r == self@.same_mistake(other@),
    {
        let places = match (self.primary(), other.primary()) {
            (Some(a), Some(b)) => a.0 == b.0 && a.1 == b.1 && a.2 == b.2,
            (None, None) => true,
            _ => false,
        };
        self.severity == other.severity && places && same(
            self.message.as_str(),
            other.message.as_str(),
        )
    }
}

/// Diagnostics are ordered by the place that they are about; those about no place come
/// first.
impl Ranked for BuildDiagnostic {
    open spec fn rank(v: DiagnosticView) -> (int, int) {
        match v.primary() {
            Some((source, start, _)) => (source as int, start as int),
            None => (-1, 0),
        }
    }

    fn rank_of(&self) -> (r: (i128, i128)) {
        match self.primary() {
            Some((source, start, _)) => (source as i128, start as i128),
            None => (-1, 0),
        }
    }
}

// ── Collecting ───────────────────────────────────────────────────────────────

/// A diagnostic, and how often its mistake was said again.
pub struct Merged {
    pub diagnostic: DiagnosticView,
    pub repeats: nat,
}

/// The first place at or behind `k` of the same mistake; the length if there is none.
pub open spec fn mistake_place(v: Seq<Merged>, d: DiagnosticView, k: int) -> int
    decreases v.len() - k,
{
    if k < 0 || k >= v.len() || v[k].diagnostic.same_mistake(d) {
        k
    } else {
        mistake_place(v, d, k + 1)
    }
}

/// The diagnostics with one more: a mistake that was said already is counted.
pub open spec fn with_diagnostic(v: Seq<Merged>, d: DiagnosticView) -> Seq<Merged> {
    let i = mistake_place(v, d, 0);
    if i < v.len() {
        v.update(i, Merged { diagnostic: v[i].diagnostic, repeats: v[i].repeats + 1 })
    } else {
        v.push(Merged { diagnostic: d, repeats: 0 })
    }
}

/// The first `k` diagnostics, each mistake once.
pub open spec fn merged(raw: Seq<DiagnosticView>, k: int) -> Seq<Merged>
    decreases k,
{
    if k <= 0 || k > raw.len() {
        Seq::empty()
    } else {
        with_diagnostic(merged(raw, k - 1), raw[k - 1])
    }
}

/// A diagnostic with a note on how often its mistake was said again.
pub open spec fn noted(m: Merged) -> DiagnosticView {
    if m.repeats > 0 {
        DiagnosticView {
            notes: m.diagnostic.notes.push(
                strings::nat_text(m.repeats)
                    + " other definition(s) inherit this and fail for the same reason"@,
            ),
            ..m.diagnostic
        }
    } else {
        m.diagnostic
    }
}

/// Diagnostics with their notes.
pub open spec fn all_noted(v: Seq<Merged>) -> Seq<DiagnosticView> {
    Seq::new(v.len(), |i: int| noted(v[i]))
}

/// What is reported of some diagnostics: each mistake once, in the order of the places
/// that they are about.
pub open spec fn reported(raw: Seq<DiagnosticView>) -> Seq<DiagnosticView> {
    order::in_order::<BuildDiagnostic>(all_noted(merged(raw, raw.len() as int)))
}

/// The diagnostics of a build.
#[derive(Debug)]
pub struct Diagnostics {
    pub items: Vec<BuildDiagnostic>,
}

impl View for Diagnostics {
    type V = Seq<DiagnosticView>;

    open spec fn view(&self) -> Seq<DiagnosticView> {
        base::views(self.items@)
    }
}

struct Counted {
    diagnostic: BuildDiagnostic,
    repeats: usize,
}

impl View for Counted {
    type V = Merged;

    closed spec fn view(&self) -> Merged {
        Merged { diagnostic: self.diagnostic@, repeats: self.repeats as nat }
    }
}

/// How many of the first `k` diagnostics have the severity.
pub open spec fn of_severity(v: Seq<DiagnosticView>, severity: Severity, k: int) -> nat
    decreases k,
{
    if k <= 0 || k > v.len() {
        0
    } else if v[k - 1].severity == severity {
        of_severity(v, severity, k - 1) + 1
    } else {
        of_severity(v, severity, k - 1)
    }
}

impl Diagnostics {
    /// No diagnostics.
    pub fn new() -> (r: Diagnostics)
        ensures
            r@ == Seq::<DiagnosticView>::empty(),
    {
        Diagnostics { items: Vec::new() }
    }

    /// Adds a diagnostic.
    pub fn push(&mut self, diag: BuildDiagnostic)
        ensures
            final(self)@ == old(self)@.push(diag@),
    {
        self.items.push(diag);
    }

    /// Takes the diagnostics out: each mistake once, in the order of the places that
    /// they are about.
    pub fn take(&mut self) -> (r: Vec<BuildDiagnostic>)
        ensures
            base::views(r@) == reported(old(self)@),
            final(self)@ == Seq::<DiagnosticView>::empty(),
    {
        let ghost all = self@;
        let mut raw: Vec<BuildDiagnostic> = Vec::new();
        std::mem::swap(&mut raw, &mut self.items);
        let n: usize = raw.len();
        assert(all.skip(0) =~= all);
        let mut out: Vec<Counted> = Vec::new();
        let ghost mut k: int = 0;
        while raw.len() > 0
            invariant
                0 <= k <= all.len(),
                base::views(raw@) == all.skip(k),
                base::views(out@) == merged(all, k),
                forall|i: int| 0 <= i < out@.len() ==> (#[trigger] out@[i]).repeats < k,
                raw@.len() + k == n,
            decreases raw@.len(),
        {
            let ghost before = raw@;
            proof {
                assert(base::views(before).len() == before.len());
                assert(all.skip(k).len() == all.len() - k);
                assert(base::views(before)[0] == all.skip(k)[0]);
            }
            let d = raw.remove(0);
            proof {
                assert forall|j: int| 0 <= j < raw@.len() implies (#[trigger] raw@[j])@
                    == all.skip(k + 1)[j] by {
                    assert(raw@[j] == before[j + 1]);
                    assert(base::views(before)[j + 1] == all.skip(k)[j + 1]);
                }
                assert(base::views(raw@) =~= all.skip(k + 1));
            }
            add_counted(&mut out, d, Ghost(k));
            proof {
                k = k + 1;
            }
        }
        let done = note_all(out);
        sort(done)
    }

    /// How many diagnostics have the severity.
    pub fn count(&self, severity: Severity) -> (r: usize)
        ensures
            r == of_severity(self@, severity, self@.len() as int),
    {
        let ghost all = self@;
        let mut n: usize = 0;
        let mut k: usize = 0;
        while k < self.items.len()
            invariant
                k <= self.items@.len(),
                all == base::views(self.items@),
                n <= k,
                n == of_severity(all, severity, k as int),
            decreases self.items@.len() - k,
        {
            assert(all[k as int] == self.items@[k as int]@);
            if self.items[k].severity == severity {
                n = n + 1;
            }
            k = k + 1;
        }
        n
    }
}

fn add_counted(v: &mut Vec<Counted>, d: BuildDiagnostic, bound: Ghost<int>)
    requires
        bound@ < usize::MAX,
        forall|i: int| 0 <= i < old(v)@.len() ==> (#[trigger] old(v)@[i]).repeats < bound@,
        bound@ >= 0,
    ensures
        base::views(final(v)@) == with_diagnostic(base::views(old(v)@), d@),
        forall|i: int| 0 <= i < final(v)@.len() ==> (#[trigger] final(v)@[i]).repeats < bound@ + 1,
{
    let ghost before = base::views(v@);
    let mut i: usize = 0;
    while i < v.len()
        invariant
            i <= v@.len(),
            v@ == old(v)@,
            before == base::views(v@),
            bound@ < usize::MAX,
            forall|i: int| 0 <= i < v@.len() ==> (#[trigger] v@[i]).repeats < bound@,
            mistake_place(before, d@, 0) == mistake_place(before, d@, i as int),
        decreases v@.len() - i,
    {
        assert(before[i as int] == v@[i as int]@);
        if v[i].diagnostic.is_same_mistake(&d) {
            let n: usize = v[i].repeats + 1;
            v[i].repeats = n;
            assert(base::views(v@) =~= with_diagnostic(before, d@));
            return;
        }
        i = i + 1;
    }
    v.push(Counted { diagnostic: d, repeats: 0 });
}

fn note_all(v: Vec<Counted>) -> (r: Vec<BuildDiagnostic>)
    ensures
        base::views(r@) == all_noted(base::views(v@)),
{
    let ghost all = base::views(v@);
    let mut rest = v;
    let mut out: Vec<BuildDiagnostic> = Vec::new();
    let ghost mut k: int = 0;
    assert(all.skip(0) =~= all);
    while rest.len() > 0
        invariant
            0 <= k <= all.len(),
            base::views(rest@) == all.skip(k),
            base::views(out@) =~= all_noted(all).take(k),
        decreases rest@.len(),
    {
        let ghost before = rest@;
        proof {
            assert(base::views(before).len() == before.len());
            assert(all.skip(k).len() == all.len() - k);
            assert(base::views(before)[0] == all.skip(k)[0]);
        }
        let c = rest.remove(0);
        proof {
            assert forall|j: int| 0 <= j < rest@.len() implies (#[trigger] rest@[j])@ == all.skip(
                k + 1,
            )[j] by {
                assert(rest@[j] == before[j + 1]);
                assert(base::views(before)[j + 1] == all.skip(k)[j + 1]);
            }
            assert(base::views(rest@) =~= all.skip(k + 1));
        }
        let Counted { diagnostic, repeats } = c;
        let mut d = diagnostic;
        if repeats > 0 {
            let mut note = String::new();
            push_nat(&mut note, repeats as u64);
            push_text(
                &mut note,
                " other definition(s) inherit this and fail for the same reason",
            );
            d.notes.push(note);
        }
        assert(d@ == noted(all[k]));
        out.push(d);
        proof {
            k = k + 1;
        }
    }
    out
}

// ── Laws ─────────────────────────────────────────────────────────────────────

/// How many diagnostics some merged ones stand for.
pub open spec fn said(v: Seq<Merged>, k: int) -> nat
    decreases k,
{
    if k <= 0 || k > v.len() {
        0
    } else {
        said(v, k - 1) + 1 + v[k - 1].repeats
    }
}

proof fn lemma_mistake_place(v: Seq<Merged>, d: DiagnosticView, k: int)
    requires
        0 <= k <= v.len(),
    ensures
        k <= mistake_place(v, d, k) <= v.len(),
        forall|i: int|
            k <= i < mistake_place(v, d, k) ==> !(#[trigger] v[i]).diagnostic.same_mistake(d),
        mistake_place(v, d, k) < v.len() ==> v[mistake_place(v, d, k)].diagnostic.same_mistake(d),
    decreases v.len() - k,
{
    if k < v.len() && !v[k].diagnostic.same_mistake(d) {
        lemma_mistake_place(v, d, k + 1);
    }
}

proof fn lemma_said(a: Seq<Merged>, b: Seq<Merged>, k: int)
    requires
        0 <= k <= a.len(),
        k <= b.len(),
        forall|i: int| 0 <= i < k ==> a[i].repeats == b[i].repeats,
    ensures
        said(a, k) == said(b, k),
    decreases k,
{
    if k > 0 {
        lemma_said(a, b, k - 1);
    }
}

proof fn lemma_said_more(a: Seq<Merged>, b: Seq<Merged>, i: int, k: int)
    requires
        0 <= i < k <= a.len(),
        a.len() == b.len(),
        b[i].repeats == a[i].repeats + 1,
        forall|j: int| 0 <= j < a.len() && j != i ==> a[j].repeats == b[j].repeats,
    ensures
        said(b, k) == said(a, k) + 1,
    decreases k,
{
    if k == i + 1 {
        lemma_said(a, b, i);
    } else {
        lemma_said_more(a, b, i, k - 1);
    }
}

proof fn lemma_merged(raw: Seq<DiagnosticView>, k: int)
    requires
        0 <= k <= raw.len(),
    ensures
        said(merged(raw, k), merged(raw, k).len() as int) == k,
        forall|i: int, j: int|
            0 <= i < j < merged(raw, k).len() ==> !(#[trigger] merged(raw, k)[i]).diagnostic
                .same_mistake((#[trigger] merged(raw, k)[j]).diagnostic),
        forall|i: int|
            0 <= i < k ==> mistake_place(merged(raw, k), #[trigger] raw[i], 0) < merged(
                raw,
                k,
            ).len(),
    decreases k,
{
    if k > 0 {
        lemma_merged(raw, k - 1);
        let before = merged(raw, k - 1);
        let after = merged(raw, k);
        let d = raw[k - 1];
        lemma_mistake_place(before, d, 0);
        let at = mistake_place(before, d, 0);
        let n = before.len() as int;
        if at < before.len() {
            lemma_said_more(before, after, at, n);
        } else {
            lemma_said(before, after, n);
        }
        assert forall|i: int, j: int| 0 <= i < j < after.len() implies !(
        #[trigger] after[i]).diagnostic.same_mistake((#[trigger] after[j]).diagnostic) by {
            assert(after[i].diagnostic == before[i].diagnostic);
            if j < n {
                assert(after[j].diagnostic == before[j].diagnostic);
            }
        }
        assert forall|i: int| 0 <= i < k implies mistake_place(after, #[trigger] raw[i], 0)
            < after.len() by {
            lemma_mistake_place(after, raw[i], 0);
            if i < k - 1 {
                lemma_mistake_place(before, raw[i], 0);
                let j = mistake_place(before, raw[i], 0);
                assert(after[j].diagnostic == before[j].diagnostic);
                assert(after[j].diagnostic.same_mistake(raw[i]));
            } else if at < before.len() {
                assert(after[at].diagnostic == before[at].diagnostic);
                assert(after[at].diagnostic.same_mistake(d));
            } else {
                assert(after[n].diagnostic.same_mistake(d));
            }
        }
    }
}

/// Merging loses no mistake and says none twice, and the counts add up to how often
/// mistakes were said.
pub proof fn every_mistake_is_reported_once(raw: Seq<DiagnosticView>)
    ensures
        said(
            merged(raw, raw.len() as int),
            merged(raw, raw.len() as int).len() as int,
        ) == raw.len(),
        forall|i: int, j: int|
            0 <= i < j < merged(raw, raw.len() as int).len() ==> !(#[trigger] merged(
                raw,
                raw.len() as int,
            )[i]).diagnostic.same_mistake((#[trigger] merged(raw, raw.len() as int)[j]).diagnostic),
        forall|i: int|
            0 <= i < raw.len() ==> exists|j: int|
                0 <= j < merged(raw, raw.len() as int).len() && (#[trigger] merged(
                    raw,
                    raw.len() as int,
                )[j]).diagnostic.same_mistake(#[trigger] raw[i]),
{
    let all = merged(raw, raw.len() as int);
    lemma_merged(raw, raw.len() as int);
    assert forall|i: int| 0 <= i < raw.len() implies exists|j: int|
        0 <= j < all.len() && (#[trigger] all[j]).diagnostic.same_mistake(#[trigger] raw[i]) by {
        lemma_mistake_place(all, raw[i], 0);
        let j = mistake_place(all, raw[i], 0);
        assert(all[j].diagnostic.same_mistake(raw[i]));
    }
}

} // verus!
