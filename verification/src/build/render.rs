//! Diagnostics as plain text: the message first, then the place, then the line with
//! carets under what is meant.

use codespan_reporting::diagnostic::{Diagnostic, Label, LabelStyle};
use codespan_reporting::files::SimpleFiles;
use codespan_reporting::term;
use vstd::prelude::*;

use crate::build::diagnostics::{
    BuildDiagnostic, DiagnosticView, ReadView, Severity, SourceFile,
};
use crate::build::paths;
use crate::build::paths::strip_root;
use crate::strings;
use crate::strings::{push_nat, push_text};
use crate::text::base;

verus! {

broadcast use base::group_views;

/// How many diagnostics are rendered. A mistake that runs through all sources gives
/// thousands, and nobody reads a log that long.
pub const MAX_RENDERED: usize = 100;

/// The text that `codespan_reporting::term::emit_into_string` gives for a diagnostic in
/// its default configuration; nothing where it fails.
pub uninterp spec fn rendered(sources: Seq<ReadView>, d: DiagnosticView) -> Option<Seq<char>>;

/// Whether every label starts before the last position that there is.
pub open spec fn in_range(d: DiagnosticView) -> bool {
    forall|i: int| 0 <= i < d.labels.len() ==> (#[trigger] d.labels[i]).span.start < usize::MAX
}

/// Whether every label is about one of `n` sources.
pub open spec fn about_sources(d: DiagnosticView, n: int) -> bool {
    forall|i: int| 0 <= i < d.labels.len() ==> (#[trigger] d.labels[i]).source < n
}

/// The view of a text that may be missing.
pub open spec fn opt_view(r: Option<String>) -> Option<Seq<char>> {
    match r {
        Some(s) => Some(s@),
        None => None,
    }
}

/// Renders a diagnostic with `codespan_reporting::term::emit_into_string`, over a
/// database of the sources. Claimed is that the text depends on the sources and on the
/// diagnostic alone, and that rendering fails exactly where a label is about a source
/// that is not there. What the text looks like is left unsaid. A label at the very last
/// position that a number can hold is left out, since the column behind it would be
/// computed.
#[verifier::external_body]
fn emit_diagnostic(sources: &Vec<SourceFile>, d: &BuildDiagnostic) -> (r: Option<String>)
    requires
        in_range(d@),
    ensures
        opt_view(r) == rendered(base::views(sources@), d@),
        r is Some == about_sources(d@, sources@.len() as int),
{
    let mut files = SimpleFiles::new();
    for s in sources { files.add(s.path.as_str(), s.text.as_str()); }
    let report = match d.severity {
        Severity::Warning => Diagnostic::warning(),
        Severity::Error => Diagnostic::error(),
    }.with_message(&d.message).with_notes(d.notes.clone());
    let labels = d.labels.iter().map(|l| {
        let style = match l.primary { true => LabelStyle::Primary, false => LabelStyle::Secondary };
        Label::new(style, l.source, l.span.start..l.span.end).with_message(l.message.as_deref().unwrap_or(""))
    });
    term::emit_into_string(&term::Config::default(), &files, &report.with_labels_iter(labels)).ok()
}

/// The sources with their paths below `root`.
pub open spec fn shown(sources: Seq<ReadView>, root: Seq<char>) -> Seq<ReadView> {
    Seq::new(
        sources.len(),
        |i: int| ReadView { path: paths::below_root(sources[i].path, root), text: sources[i].text },
    )
}

/// How many diagnostics of `total` are rendered.
pub open spec fn rendered_count(total: int) -> int {
    if total < MAX_RENDERED {
        total
    } else {
        MAX_RENDERED as int
    }
}

/// The texts of the first `k` diagnostics.
pub open spec fn texts(
    sources: Seq<ReadView>,
    diagnostics: Seq<DiagnosticView>,
    k: int,
) -> Seq<Option<Seq<char>>> {
    Seq::new(k as nat, |i: int| rendered(sources, diagnostics[i]))
}

/// The first `k` texts, one behind the other.
pub open spec fn joined(parts: Seq<Option<Seq<char>>>, k: int) -> Seq<char>
    decreases k,
{
    if k <= 0 || k > parts.len() {
        Seq::empty()
    } else {
        match parts[k - 1] {
            Some(t) => joined(parts, k - 1) + t,
            None => joined(parts, k - 1),
        }
    }
}

/// What is said of the diagnostics that are not rendered.
pub open spec fn not_shown(total: int) -> Seq<char> {
    if total > MAX_RENDERED {
        "... and "@ + strings::nat_text((total - MAX_RENDERED) as nat)
            + " more diagnostic(s) not shown\n"@
    } else {
        Seq::empty()
    }
}

/// Texts as views.
pub open spec fn part_views(parts: Seq<Option<String>>) -> Seq<Option<Seq<char>>> {
    Seq::new(parts.len(), |i: int| opt_view(parts[i]))
}

/// The log of a build: the texts of the diagnostics that were rendered, and how many of
/// `total` were not.
pub fn join_rendered(parts: &Vec<Option<String>>, total: usize) -> (r: String)
    ensures
        r@ == joined(part_views(parts@), parts@.len() as int) + not_shown(total as int),
{
    let ghost all = part_views(parts@);
    let mut log = String::new();
    let mut k: usize = 0;
    while k < parts.len()
        invariant
            k <= parts@.len(),
            all == part_views(parts@),
            log@ == joined(all, k as int),
        decreases parts@.len() - k,
    {
        assert(all[k as int] == opt_view(parts@[k as int]));
        match &parts[k] {
            Some(t) => push_text(&mut log, t.as_str()),
            None => {},
        }
        k = k + 1;
    }
    let ghost text = log@;
    if total > MAX_RENDERED {
        push_text(&mut log, "... and ");
        push_nat(&mut log, (total - MAX_RENDERED) as u64);
        push_text(&mut log, " more diagnostic(s) not shown\n");
        assert(log@ =~= text + not_shown(total as int));
    } else {
        assert(log@ =~= text + not_shown(total as int));
    }
    log
}

fn show_sources(sources: &Vec<SourceFile>, root: &str) -> (r: Vec<SourceFile>)
    ensures
        base::views(r@) == shown(base::views(sources@), root@),
{
    let ghost all = base::views(sources@);
    let mut out: Vec<SourceFile> = Vec::new();
    let mut k: usize = 0;
    while k < sources.len()
        invariant
            k <= sources@.len(),
            all == base::views(sources@),
            base::views(out@) == shown(all, root@).take(k as int),
        decreases sources@.len() - k,
    {
        assert(all[k as int] == sources@[k as int]@);
        let s = &sources[k];
        out.push(SourceFile { path: strip_root(s.path.as_str(), root), text: s.text.clone() });
        assert(shown(all, root@).take(k as int + 1) =~= shown(all, root@).take(k as int).push(
            shown(all, root@)[k as int],
        ));
        k = k + 1;
    }
    assert(shown(all, root@).take(k as int) =~= shown(all, root@));
    assert(base::views(out@) =~= shown(all, root@));
    out
}

/// The log of a build: each diagnostic as text, with paths below `root`. The first
/// hundred are rendered, and the rest counted.
pub fn render_diagnostics(
    sources: &Vec<SourceFile>,
    diagnostics: &Vec<BuildDiagnostic>,
    root: &str,
) -> (r: String)
    requires
        forall|i: int| 0 <= i < diagnostics@.len() ==> in_range((#[trigger] diagnostics@[i])@),
    ensures
        r@ == ({
            let n = rendered_count(diagnostics@.len() as int);
            let parts = texts(
                shown(base::views(sources@), root@),
                base::views(diagnostics@),
                n,
            );
            joined(parts, n) + not_shown(diagnostics@.len() as int)
        }),
{
    let files = show_sources(sources, root);
    let ghost seen = shown(base::views(sources@), root@);
    let ghost all = base::views(diagnostics@);
    let total: usize = diagnostics.len();
    let n: usize = if total < MAX_RENDERED {
        total
    } else {
        MAX_RENDERED
    };
    let mut parts: Vec<Option<String>> = Vec::new();
    let mut k: usize = 0;
    assert(part_views(parts@) =~= texts(seen, all, 0));
    while k < n
        invariant
            k <= n <= diagnostics@.len(),
            all == base::views(diagnostics@),
            seen == base::views(files@),
            parts@.len() == k,
            part_views(parts@) == texts(seen, all, k as int),
            forall|i: int|
                0 <= i < diagnostics@.len() ==> in_range((#[trigger] diagnostics@[i])@),
        decreases n - k,
    {
        assert(all[k as int] == diagnostics@[k as int]@);
        let ghost before = parts@;
        parts.push(emit_diagnostic(&files, &diagnostics[k]));
        proof {
            assert(part_views(parts@) =~= part_views(before).push(opt_view(parts@[k as int])));
            assert(texts(seen, all, k as int + 1) =~= texts(seen, all, k as int).push(
                rendered(seen, all[k as int]),
            ));
        }
        k = k + 1;
    }
    join_rendered(&parts, total)
}

// ── Laws ─────────────────────────────────────────────────────────────────────

/// A build that has nothing to say has an empty log.
pub proof fn nothing_said_is_nothing_rendered(sources: Seq<ReadView>)
    ensures
        joined(texts(sources, Seq::empty(), rendered_count(0)), rendered_count(0)) + not_shown(0)
            == Seq::<char>::empty(),
{
}

} // verus!
