//! Paths, headers, class indices and chunks.

use def_compiler::build::chunks::split_chunks;
use def_compiler::build::diagnostics::{
    BuildDiagnostic, DiagnosticLabel, Diagnostics, Severity,
};
use def_compiler::build::emit::{failure_message, next_class_index};
use def_compiler::build::paths::{
    collect_h_files, contains_text, has_extension, is_deprecated, log_prefix, normalize_path,
    normalize_separators, path_ends_with, select_header_set, strip_root, walk_def_files,
};
use def_compiler::name_map::NameMap;
use def_compiler::text::base::{FileId, Span};

/// The engine treats `ClassIndex 0` as "no such def": an unset `DefIndex` is
/// `0`, resolves to whichever NULLDEF sits at global index 0, and call sites
/// test the resulting class index against `0`. So each class's NULLDEF must
/// be `0` and its first real entry must be `1`.
#[test]
fn class_index_is_zero_based_and_continuous_across_passes() {
    let mut counters: NameMap<u32> = NameMap::new();
    // NULLDEF pass, then the named pass, then anonymous sub-defs — one
    // continuous run per class, in global-index order.
    assert_eq!(next_class_index(&mut counters, "LOCAL_DETAIL_GENERATOR"), 0);
    assert_eq!(next_class_index(&mut counters, "LOCAL_DETAIL_GENERATOR"), 1);
    assert_eq!(next_class_index(&mut counters, "LOCAL_DETAIL_GENERATOR"), 2);
    // Counters are per class, not global.
    assert_eq!(next_class_index(&mut counters, "ARMOUR"), 0);
    assert_eq!(next_class_index(&mut counters, "LOCAL_DETAIL_GENERATOR"), 3);

    // `CONTROL_SCHEME` has *two* NULLDEF entries in frontend.bin, so they
    // take 0 and 1 and named entries start at 2.
    let mut cs: NameMap<u32> = NameMap::new();
    assert_eq!(next_class_index(&mut cs, "CONTROL_SCHEME"), 0);
    assert_eq!(next_class_index(&mut cs, "CONTROL_SCHEME"), 1);
    assert_eq!(next_class_index(&mut cs, "CONTROL_SCHEME"), 2);
}

#[test]
fn path_matching_respects_path_boundaries() {
    // Two names that end alike.
    assert!(path_ends_with("x/Defs/controls.def", "controls.def"));
    assert!(!path_ends_with("x/Defs/pc_controls.def", "controls.def"));
    assert!(path_ends_with(
        "x/Defs/FrontEndDefs/engine.def",
        "FrontEndDefs/engine.def"
    ));
    assert!(!path_ends_with(
        "x/Defs/engine.def",
        "FrontEndDefs/engine.def"
    ));
    // A bare relative path with no leading directory still matches at root.
    assert!(path_ends_with("ui_dialogs.def", "ui_dialogs.def"));
}

#[test]
fn windows_separators_normalize_to_forward_slashes() {
    let path = normalize_path(r"C:\Fable\Data\Defs\FrontEndDefs\engine.def");
    assert_eq!(path, "C:/Fable/Data/Defs/FrontEndDefs/engine.def");
    // The scoping rules are written against `/`, so they work on
    // paths that came from a Windows filesystem too.
    assert!(path_ends_with(&path, "FrontEndDefs/engine.def"));
    assert!(normalize_path(r"a\Defs\ScriptDefs\quest.def").contains("ScriptDefs/"));
    assert!(normalize_path(r"a\DevHeaders\xbox\gfx.h").contains("/xbox/"));
}

/// Whether one of the files lies in the directory, directly below the root.
fn has_directory(root: &str, files: &[String], directory: &str) -> bool {
    let start = format!("{root}/{directory}/");
    files.iter().any(|f| f.starts_with(&start))
}

/// The headers that are read of a corpus, relative to its root and sorted.
fn selected_headers(root: &str, names: &[&str]) -> Vec<String> {
    let files: Vec<String> = names.iter().map(|n| format!("{root}/{n}")).collect();
    let mut diagnostics = Diagnostics::new();
    let set = select_header_set(
        has_directory(root, &files, "RetailHeaders"),
        has_directory(root, &files, "DevHeaders"),
        &mut diagnostics,
    );
    let mut rel: Vec<String> = collect_h_files(&files, root, set)
        .iter()
        .map(|p| p.strip_prefix(root).unwrap().trim_start_matches('/').to_string())
        .collect();
    rel.sort();
    rel
}

/// `Data/Defs` ships two complete variants of the same header set, and reading
/// both unions two copies of every symbol into one namespace.
#[test]
fn retail_header_set_wins_over_dev() {
    assert_eq!(
        selected_headers(
            "/tmp/both",
            &[
                "meshdata_shared.h",
                "DevHeaders/meshdata.h",
                "DevHeaders/pc/textures.h",
                "RetailHeaders/meshdata.h",
                "RetailHeaders/pc/textures.h",
            ],
        ),
        vec![
            "RetailHeaders/meshdata.h",
            "RetailHeaders/pc/textures.h",
            // Headers outside every variant root are shared, never skipped.
            "meshdata_shared.h",
        ]
    );
}

/// Where only `DevHeaders/` is there, nothing is left out.
#[test]
fn lone_dev_header_set_is_used() {
    assert_eq!(
        selected_headers("/tmp/devonly", &["action_def.h", "DevHeaders/meshdata.h"]),
        vec!["DevHeaders/meshdata.h", "action_def.h"]
    );
}

/// Platform variants are the same problem one level down.
#[test]
fn xbox_platform_variant_is_skipped() {
    assert_eq!(
        selected_headers(
            "/tmp/xbox",
            &["DevHeaders/pc/textures.h", "DevHeaders/xbox/textures.h"],
        ),
        vec!["DevHeaders/pc/textures.h"]
    );
}

/// A corpus with no variant roots at all keeps the plain recursive scan.
#[test]
fn corpus_without_variant_roots_reads_everything() {
    assert_eq!(
        selected_headers("/tmp/flat", &["a.h", "sub/b.h"]),
        vec!["a.h", "sub/b.h"]
    );
}

/// Variant matching is relative to the corpus root. Matching the absolute
/// path would make the result depend on where the corpus lives.
#[test]
fn variant_matching_ignores_directories_above_the_corpus_root() {
    assert_eq!(
        selected_headers("/tmp/nested/xbox/DevHeaders/Defs", &["action_def.h"]),
        vec!["action_def.h"]
    );
}

/// A mod that patches the ignored set must get a signal.
#[test]
fn ignored_header_set_is_reported() {
    let mut diagnostics = Diagnostics::new();
    select_header_set(true, true, &mut diagnostics);
    let diags = diagnostics.take();
    assert_eq!(diags.len(), 1);
    assert_eq!(diags[0].severity, Severity::Warning);
    assert!(diags[0].message.contains("DevHeaders/"), "{:?}", diags[0]);
}

/// One set present means nothing is being ignored, so nothing to report.
#[test]
fn single_header_set_reports_nothing() {
    let mut diagnostics = Diagnostics::new();
    select_header_set(false, true, &mut diagnostics);
    assert!(diagnostics.take().is_empty());
}

#[test]
fn a_log_is_cut_between_characters() {
    assert_eq!(log_prefix("error", 100), 5);
    assert_eq!(log_prefix("error", 4), 3);
    // `é` takes two bytes: the cut falls before it.
    assert_eq!(log_prefix("aé", 3), 1);
    assert_eq!(log_prefix("aé", 4), 3);
    assert_eq!(log_prefix("é", 1), 0);
}

#[test]
fn paths_are_normalized_and_stripped() {
    assert_eq!(normalize_separators(r"a\b\"), "a/b");
    assert_eq!(normalize_separators("a/b//"), "a/b");
    assert_eq!(normalize_path(&normalize_path(r"a\b/c")), "a/b/c");
    assert_eq!(strip_root("/root/Defs/a.def", "/root/Defs"), "a.def");
    assert_eq!(strip_root("/other/a.def", "/root"), "/other/a.def");
    assert_eq!(strip_root("/root", "/root"), "/root");
    // What merely begins like the root lies outside.
    assert_eq!(strip_root("/d/DefsExtra/x.def", "/d/Defs"), "/d/DefsExtra/x.def");
    assert_eq!(strip_root("/d/Defs//x.def", "/d/Defs/"), "x.def");
    assert_eq!(strip_root("a.def", ""), "a.def");
    assert!(contains_text("abc", "bc"));
    assert!(!contains_text("abc", "cb"));
    assert!(has_extension("a/b.def", "def"));
    assert!(!has_extension("a/.def", "def"));
    assert!(!has_extension("a.def/b", "def"));
    assert!(is_deprecated("a/old_deprecated.def"));
    assert!(!is_deprecated("a_deprecated.d/new.def"));
}

/// Files come in order of their parts, so that a directory stands together.
#[test]
fn definition_files_come_in_order() {
    let files: Vec<String> = ["r/b.def", "r/a-b.def", "r/a/z.tpl", "r/c.txt", "r/a/b.def"]
        .iter()
        .map(|s| s.to_string())
        .collect();
    assert_eq!(
        walk_def_files(&files),
        vec!["r/a/b.def", "r/a/z.tpl", "r/a-b.def", "r/b.def"]
    );
}

#[test]
fn chunks_close_once_they_are_full() {
    assert_eq!(split_chunks(&vec![]), Vec::<usize>::new());
    assert_eq!(split_chunks(&vec![10, 20]), vec![2]);
    assert_eq!(split_chunks(&vec![16384, 1, 1]), vec![1, 3]);
    assert_eq!(split_chunks(&vec![1, 20000, 5]), vec![1, 2, 3]);
    assert_eq!(split_chunks(&vec![8192, 8192, 0, 1]), vec![3, 4]);
}

#[test]
fn a_failure_counts_what_failed() {
    assert_eq!(failure_message(1, "definition"), "1 definition failed to compile");
    assert_eq!(failure_message(12, "definition"), "12 definitions failed to compile");
}

fn place(start: usize) -> DiagnosticLabel {
    DiagnosticLabel {
        source: 0,
        primary: true,
        span: Span { file: FileId(0), start, end: start + 1 },
        message: None,
    }
}

/// The same mistake is reported once, with a note on how often it came.
#[test]
fn repeated_diagnostics_are_merged() {
    let mut diagnostics = Diagnostics::new();
    for start in [7, 3, 7] {
        diagnostics.push(BuildDiagnostic {
            severity: Severity::Error,
            message: "bad".to_string(),
            labels: vec![place(start)],
            notes: vec![],
        });
    }
    diagnostics.push(BuildDiagnostic::bare(Severity::Warning, "odd".to_string()));
    assert_eq!(diagnostics.count(Severity::Error), 3);
    assert_eq!(diagnostics.count(Severity::Warning), 1);
    let all = diagnostics.take();
    let starts: Vec<Option<usize>> =
        all.iter().map(|d| d.labels.first().map(|l| l.span.start)).collect();
    // What is about no place comes first, then the order of the places.
    assert_eq!(starts, vec![None, Some(3), Some(7)]);
    assert!(all[1].notes.is_empty());
    assert_eq!(
        all[2].notes,
        vec!["1 other definition(s) inherit this and fail for the same reason"]
    );
    assert!(diagnostics.take().is_empty());
}
