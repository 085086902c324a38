//! From parsed files to entries.

use def_compiler::build::attach::{attach_blocks, store_blocks};
use def_compiler::build::bin::lower_bin;
use def_compiler::build::blocks::{
    lower_blocks, merge_blocks, move_behind, StoredBlock, SubDefRecord, SubDefs,
};
use def_compiler::build::corpus::{
    collect_body_references, collect_named, definitions_in, defs_by_name, frontend_file_scope,
    game_file_scope, inject_engine_enums, script_file_scope, ParsedFile,
};
use def_compiler::build::diagnostics::{
    BuildDiagnostic, DiagnosticLabel, Diagnostics, Severity, SourceFile,
};
use def_compiler::build::emit::{build_nulldefs, find_null, Entries};
use def_compiler::build::linking::{lower_interning, Indexed, Linked};
use def_compiler::build::load::{load_failure_message, Corpus};
use def_compiler::build::render::{join_rendered, render_diagnostics};
use def_compiler::build::reports::{
    block_error_diagnostic, lowering_error_diagnostic, parse_error_diagnostic,
    report_redefinitions, symbol_eval_diagnostic, DefPlace,
};
use def_compiler::crc32::crc_text;
use def_compiler::lower::controls::ControlEnums;
use def_compiler::lower::def::{DefBody, DefType, DefTypes};
use def_compiler::lower::env::{LowerEnv, LowerError, NoEnv};
use def_compiler::lower::extra::Extra;
use def_compiler::name_map::NameMap;
use def_compiler::names::NamesBuilder;
use def_compiler::text::ast::{Definition, Item, Statement};
use def_compiler::text::base::{FileId, Span, Spanned};
use def_compiler::text::parser::parse_source;
use def_compiler::text::symbols::{Redefinition, SymbolTable};
use def_compiler::value::{number_of, Member, Record, Scalar, Value};

fn file(path: &str, text: &str) -> ParsedFile {
    ParsedFile { path: path.to_string(), def_file: parse_source(text, FileId(0)).unwrap() }
}

fn corpus() -> Vec<ParsedFile> {
    vec![
        file("r/a.def", "#definition T A\nN 1;\n#end_definition\n"),
        file("r/ScriptDefs/q.def", "#definition CScriptDef Q\n#end_definition\n"),
        file("r/controls.def", "#definition T C\n#end_definition\n"),
        file("r/FrontEndDefs/other.def", "#definition T O\n#end_definition\n"),
        file("r/FrontEndDefs/engine.def", "#definition T E\n#end_definition\n"),
        file("r/pc_controls.def", "#definition T P\n#end_definition\n"),
    ]
}

#[test]
fn each_binary_has_its_files() {
    let corpus = corpus();
    assert_eq!(game_file_scope(&corpus), [0, 1, 2, 3, 4, 5]);
    assert_eq!(script_file_scope(&corpus), [1]);
    // The list of the front end first, in its order, then what else lies there.
    assert_eq!(frontend_file_scope(&corpus), [4, 2, 5, 3]);
}

#[test]
fn definitions_come_in_the_order_of_the_files() {
    let corpus = corpus();
    let defs = definitions_in(&corpus, &vec![2, 0]);
    let names: Vec<&str> = defs.iter().map(|d| d.name.as_str()).collect();
    assert_eq!(names, ["C", "A"]);
    assert_eq!(defs_by_name(&defs).get("A"), Some(1));
    assert_eq!(defs_by_name(&defs).get("Z"), None);
}

/// Names are numbered behind the null definitions, and each is numbered once.
#[test]
fn named_definitions_are_numbered_in_order() {
    let files = vec![file(
        "r/a.def",
        "#definition T A\n#end_definition\n#definition U X\n#end_definition\n\
         #definition T B\n#end_definition\n#definition T A\n#end_definition\n",
    )];
    let defs = definitions_in(&files, &vec![0]);
    let (order, numbers) = collect_named(&defs, &vec!["T"], None, 7);
    assert_eq!(order, ["A", "B"]);
    assert_eq!(numbers.get("A"), Some(7));
    assert_eq!(numbers.get("B"), Some(8));
    assert_eq!(numbers.get("X"), None);
}

#[test]
fn references_are_found_in_bodies() {
    let files = vec![file(
        "r/a.def",
        "#definition T A\nF B;\n#end_definition\n#definition T B\n#end_definition\n",
    )];
    let defs = definitions_in(&files, &vec![0]);
    let refs = collect_body_references(&defs, &defs_by_name(&defs));
    assert_eq!(refs.get("B"), Some(true));
    assert_eq!(refs.get("Z"), None);
}

/// A symbol that a header defines keeps its value.
#[test]
fn headers_keep_priority() {
    let mut symbols = SymbolTable::new();
    symbols.insert("BLEND_ALPHA", 99);
    inject_engine_enums(&mut symbols);
    assert_eq!(symbols.lookup("BLEND_ALPHA"), Some(99));
    assert_eq!(symbols.lookup("BLEND_MULTIPLY"), Some(4));
    assert_eq!(symbols.lookup("WATER_BUMP_PC"), Some(0));
}

// ── Entries ──────────────────────────────────────────────────────────────────

fn types() -> DefTypes {
    DefTypes {
        types: vec![DefType {
            name: "T".to_string(),
            default: DefBody {
                kind: "TDef".to_string(),
                record: Record {
                    fields: vec![Member {
                        name: "N".to_string(),
                        value: Value::Scalar(Scalar::I32(5)),
                    }],
                },
                extra: Extra::Nothing,
            },
        }],
        controls: ControlEnums {
            game_action: vec![],
            controller_type: vec![],
            input_key: vec![],
            xbox_button: vec![],
            mouse_button: vec![],
        },
    }
}

#[test]
fn null_definitions_are_built_once_for_each_class() {
    let (symbols, mut table) = (SymbolTable::new(), NamesBuilder::new());
    let nulls = build_nulldefs(&types(), &vec!["T", "T"], &symbols, &NoEnv, &mut table).unwrap();
    assert_eq!(nulls.len(), 1);
    assert_eq!(number_of(&find_null(&nulls, "T").unwrap().record.fields[0].value), 5);
    assert!(find_null(&nulls, "U").is_none());
    let message = build_nulldefs(&types(), &vec!["U"], &symbols, &NoEnv, &mut table).unwrap_err();
    assert_eq!(message, "NULLDEF lowering failed for U: no lowering for def type U");
}

#[test]
fn entries_are_counted_in_their_class() {
    let (symbols, mut table) = (SymbolTable::new(), NamesBuilder::new());
    let types = types();
    let nulls = build_nulldefs(&types, &vec!["T"], &symbols, &NoEnv, &mut table).unwrap();
    let files = vec![file(
        "r/a.def",
        "#definition T A\nN 1;\n#end_definition\n\
         #definition T B specialises A\n#end_definition\n\
         #definition T BAD specialises NONE\n#end_definition\n",
    )];
    let defs = definitions_in(&files, &vec![0]);
    let names = defs_by_name(&defs);
    let mut entries = Entries::new();
    entries.emit_nulldefs(&vec!["T"], &nulls, &vec!["T"], &mut table).unwrap();
    let mut diagnostics = Diagnostics::new();
    let order = ["A", "B", "BAD", "GONE"].map(|s| s.to_string()).to_vec();
    let places: NameMap<DefPlace> = NameMap::new();
    let sources: Vec<SourceFile> = vec![];
    let failed = entries.emit_named(
        &order,
        &types,
        &vec!["T"],
        &nulls,
        &defs,
        &names,
        &places,
        &sources,
        &symbols,
        &NoEnv,
        &mut table,
        &mut diagnostics,
    );
    assert_eq!(failed, 2);
    assert_eq!(diagnostics.count(Severity::Error), 2);
    let counters: Vec<u32> = entries.entries.iter().map(|e| e.counter).collect();
    assert_eq!(counters, [0, 1, 2]);
    let values: Vec<i128> =
        entries.entries.iter().map(|e| number_of(&e.body.record.fields[0].value)).collect();
    assert_eq!(values, [5, 1, 1]);
    assert!(!entries.entries[0].preamble.is_real);
    assert!(entries.entries[1].preamble.is_real);
    assert_eq!(entries.entries[0].def_name_off, entries.entries[1].def_name_off);
    let message =
        entries.emit_nulldefs(&vec!["U"], &nulls, &vec!["T"], &mut table).unwrap_err();
    assert_eq!(message, "NULLDEF body missing for U");
}

#[test]
fn a_binary_has_every_definition() {
    let (symbols, mut table) = (SymbolTable::new(), NamesBuilder::new());
    let types = types();
    let files = vec![file(
        "r/a.def",
        "#definition T A\n<T>\nN 1;\n<\\T>\n#end_definition\n#definition T B\n#end_definition\n",
    )];
    let defs = definitions_in(&files, &vec![0]);
    let names = defs_by_name(&defs);
    let places: NameMap<DefPlace> = NameMap::new();
    let mut lower = |order: &[&str], diagnostics: &mut Diagnostics| {
        let order: Vec<String> = order.iter().map(|s| s.to_string()).collect();
        lower_bin(
            &vec!["T"],
            &types,
            &defs,
            &names,
            &order,
            &vec!["T"],
            &places,
            &vec![],
            &symbols,
            &NoEnv,
            &mut table,
            diagnostics,
        )
    };
    let mut diagnostics = Diagnostics::new();
    let (entries, owned) = lower(&["A", "B"], &mut diagnostics).unwrap();
    assert_eq!(entries.entries.len(), 3);
    assert_eq!(owned.len(), 1);
    assert_eq!((owned[0].owner, owned[0].blocks.len()), (1, 1));
    assert!(diagnostics.take().is_empty());
    match lower(&["A", "GONE"], &mut diagnostics) {
        Err(m) => assert_eq!(m, "1 definition failed to compile"),
        Ok(_) => panic!("no error"),
    }
    assert_eq!(diagnostics.count(Severity::Error), 1);
}

// ── Blocks ───────────────────────────────────────────────────────────────────

fn definition<'a>(files: &'a Vec<ParsedFile>) -> &'a Definition {
    definitions_in(files, &vec![0])[0]
}

/// Blocks of one tag are one, and blocks stand in ascending order of checksum.
#[test]
fn blocks_ascend() {
    let files = vec![file(
        "r/a.def",
        "#definition T A\n<T>\nN 1;\n<\\T>\n<U>\n<\\U>\n<T>\nN 2;\n<\\T>\n#end_definition\n",
    )];
    let blocks = merge_blocks(&definition(&files).body);
    let mut expected = vec![(crc_text("T"), 2), (crc_text("U"), 0)];
    expected.sort();
    assert_eq!(
        blocks.iter().map(|b| (b.crc, b.body.len())).collect::<Vec<_>>(),
        expected
    );

    let (symbols, mut table) = (SymbolTable::new(), NamesBuilder::new());
    let mut diagnostics = Diagnostics::new();
    let (lowered, failed) =
        lower_blocks(&types(), &vec![], "A", &blocks, &symbols, &NoEnv, &mut table, &mut diagnostics);
    assert_eq!((lowered.len(), failed), (1, 1));
    assert_eq!(table.lookup("T"), Some(lowered[0].def_name_off));
    assert_eq!(table.lookup("U"), None);
    assert_eq!(diagnostics.count(Severity::Error), 1);
}

fn body(kind: &str) -> DefBody {
    DefBody {
        kind: kind.to_string(),
        record: Record { fields: vec![] },
        extra: Extra::Nothing,
    }
}

#[test]
fn equal_definitions_share_a_place() {
    let mut counters: NameMap<u32> = NameMap::new();
    counters.insert("T", 4);
    let mut subs = SubDefs::new();
    let block = |crc: u32, tag: &str, bytes: &[u8]| StoredBlock {
        crc,
        tag: tag.to_string(),
        def_name_off: 4,
        bytes: bytes.to_vec(),
        body: body(tag),
    };
    let first = vec![block(10, "T", &[1, 2]), block(11, "U", &[1, 2])];
    let second = vec![block(10, "T", &[1]), block(11, "U", &[1, 2])];
    let mut one = subs.table(7, &first, &mut counters);
    let two = subs.table(8, &second, &mut counters);
    let records = |t: &Vec<SubDefRecord>| -> Vec<(u32, u32, u32)> {
        t.iter().map(|r| (r.name_crc, r.def_index, r.owner_index)).collect()
    };
    assert_eq!(records(&one), [(10, 0, 7), (11, 1, 7)]);
    assert_eq!(records(&two), [(10, 2, 8), (11, 1, 8)]);
    // The index in the class goes on where the entries with names ended.
    let counted: Vec<(&str, u32)> =
        subs.entries.iter().map(|e| (e.tag.as_str(), e.counter)).collect();
    assert_eq!(counted, [("T", 4), ("U", 0), ("T", 5)]);
    move_behind(&mut one, 100);
    assert_eq!(records(&one), [(10, 100, 7), (11, 101, 7)]);
}

/// Each owner gets a table, and the blocks stand behind the named entries, each once.
#[test]
fn tables_point_at_their_blocks() {
    let (symbols, mut table) = (SymbolTable::new(), NamesBuilder::new());
    let types = types();
    let files = vec![file(
        "r/a.def",
        "#definition T A\n<T>\nN 1;\n<\\T>\n#end_definition\n\
         #definition T B\n<T>\nN 1;\n<\\T>\n#end_definition\n",
    )];
    let defs = definitions_in(&files, &vec![0]);
    let names = defs_by_name(&defs);
    let mut diagnostics = Diagnostics::new();
    let tables = vec!["T"];
    let (mut entries, owned) = lower_bin(
        &vec!["T"],
        &types,
        &defs,
        &names,
        &vec!["A".to_string(), "B".to_string()],
        &tables,
        &NameMap::new(),
        &vec![],
        &symbols,
        &NoEnv,
        &mut table,
        &mut diagnostics,
    )
    .unwrap();
    let stored = store_blocks(&owned, &vec![vec![vec![7]], vec![vec![7]]]);
    assert_eq!(stored.iter().map(|o| o.owner).collect::<Vec<_>>(), [1, 2]);
    let added = attach_blocks(&mut entries, &stored, &tables);
    assert_eq!(added, 1);
    assert_eq!(entries.entries.len(), 4);
    let record = |owner: u32| SubDefRecord {
        name_crc: crc_text("T"),
        def_index: 3,
        owner_index: owner,
    };
    assert_eq!(entries.entries[0].sub_defs, Some(vec![]));
    assert_eq!(entries.entries[1].sub_defs, Some(vec![record(1)]));
    assert_eq!(entries.entries[2].sub_defs, Some(vec![record(2)]));
    let block = &entries.entries[3];
    assert_eq!((block.file_name_off, block.counter), (u32::MAX, 3));
    assert_eq!(block.def_name_off, entries.entries[0].def_name_off);
    assert_eq!(number_of(&block.body.record.fields[0].value), 1);
}

#[test]
fn linking_finds_what_the_table_holds() {
    let mut names = NamesBuilder::new();
    names.intern("ENG_ARIAL_16");
    let mut indices: NameMap<u32> = NameMap::new();
    indices.insert("A", 5);
    let base = Indexed::new(&indices, &NoEnv);
    let env = Linked::new(&base, &names);
    assert_eq!(env.def_index("A"), Some(5));
    assert_eq!(env.def_index("B"), None);
    assert_eq!(env.def_string_offset("ENG_ARIAL_16"), Some(4));
    assert_eq!(env.def_string_offset("gone"), None);
    // With one more string the table is as if it had been added.
    let env = Linked::with(&base, &names, "more");
    assert_eq!(env.def_string_offset("ENG_ARIAL_16"), Some(4));
    assert_eq!(env.def_string_offset("more"), Some(4 + 12 + 1 + 4));
    assert_eq!(env.def_string_offset("gone"), None);
    assert_eq!(names.intern("more"), 4 + 12 + 1 + 4);
}

// ── The order of the table ───────────────────────────────────────────────────

fn text_member(name: &str) -> Member {
    Member { name: name.to_string(), value: Value::Scalar(Scalar::DefString(-1)) }
}

fn type_of(name: &str, kind: &str, fields: Vec<Member>) -> DefType {
    DefType {
        name: name.to_string(),
        default: DefBody {
            kind: kind.to_string(),
            record: Record { fields },
            extra: Extra::Nothing,
        },
    }
}

fn types_with(list: Vec<DefType>) -> DefTypes {
    let mut all = types();
    all.types = list;
    all
}

/// The strings of a table in the order of their offsets.
fn in_order(table: NamesBuilder) -> Vec<String> {
    table.finalize([0; 20]).map.into_values().map(|e| e.string).collect()
}

fn text_of(lowered: &DefBody, i: usize) -> i128 {
    number_of(&lowered.record.fields[i].value)
}

/// A class comes before the name of its null definition, the class of a definition before
/// its name, the name before the strings of the body, and the strings of a block before its
/// tag.
#[test]
fn a_binary_adds_what_it_asks_for() {
    let types = types_with(vec![
        type_of("T", "TDef", vec![text_member("S"), text_member("R")]),
        type_of("V", "VDef", vec![text_member("S")]),
    ]);
    let files = vec![file(
        "r/a.def",
        "#definition T A\nS \"one\";\nR \"two\";\n<V>\nS \"four\";\n<\\V>\n#end_definition\n\
         #definition T B specialises A\nR \"three\";\n#end_definition\n",
    )];
    let defs = definitions_in(&files, &vec![0]);
    let names = defs_by_name(&defs);
    let mut table = NamesBuilder::new();
    let mut diagnostics = Diagnostics::new();
    let (entries, owned) = lower_bin(
        &vec!["T"],
        &types,
        &defs,
        &names,
        &vec!["A".to_string(), "B".to_string()],
        &vec!["T"],
        &NameMap::new(),
        &vec![],
        &SymbolTable::new(),
        &NoEnv,
        &mut table,
        &mut diagnostics,
    )
    .unwrap();
    let offset = |s: &str| table.lookup(s).unwrap();
    assert_eq!(entries.entries[1].def_name_off, offset("T"));
    assert_eq!(entries.entries[1].file_name_off, offset("A"));
    assert_eq!(text_of(&entries.entries[1].body, 1), offset("two") as i128);
    assert_eq!(text_of(&entries.entries[2].body, 0), offset("one") as i128);
    assert_eq!(text_of(&entries.entries[2].body, 1), offset("three") as i128);
    assert_eq!(owned[0].blocks[0].def_name_off, offset("V"));
    assert_eq!(
        in_order(table),
        ["T", "NULLDEF_T", "A", "one", "two", "B", "three", "four", "V"]
    );
}

fn statements(text: &str) -> Vec<Spanned<Statement>> {
    let text = format!("#definition X Y\n{text}\n#end_definition\n");
    match parse_source(&text, FileId(0)).unwrap().items.remove(0) {
        Item::Definition(d) => d.value.body,
        _ => panic!("no definition"),
    }
}

fn interned(name: &str, kind: &str, fields: Vec<Member>, text: &str) -> Vec<String> {
    let types = types_with(vec![type_of(name, kind, fields)]);
    let mut table = NamesBuilder::new();
    let symbols = SymbolTable::new();
    let body = statements(text);
    lower_interning(&types, name, None, &body, &symbols, &NoEnv, &mut table).unwrap();
    in_order(table)
}

/// The strings that calls ask for come before those of the fields, and those of the
/// components of a thing behind them.
#[test]
fn families_ask_before_or_behind_their_fields() {
    let text = || vec![text_member("S")];
    assert_eq!(
        interned(
            "CAnimatingObjectDef",
            "AnimatingObjectDef",
            text(),
            "S \"field\";\nAnimation.StartGroup(\"group\");\n\
             Animation.Add(\"key\", 1, NextAnimFilter(\"filter\"), Delay(2));\n\
             Animation.SetDefaultGroupName(\"rest\");",
        ),
        ["group", "key", "filter", "rest", "field"]
    );
    assert_eq!(
        interned(
            "CEntitySoundDef",
            "EntitySoundDef",
            text(),
            "S \"field\";\nSoundMap.AddCriteria(\"a\", \"criterion\");\n\
             SoundMap.AddCriteria(\"b\");\nSoundMap.AddSingle(\"c\", 1);",
        ),
        ["criterion", "", "field"]
    );
    assert_eq!(
        interned(
            "CFlammableDef",
            "FlammableDef",
            text(),
            "S \"field\";\nEffectCreationSet.Add(\"fire\", 3);\nEffectCreationSet.Add(\"no\");",
        ),
        ["fire", "field"]
    );
    assert_eq!(
        interned(
            "CHeroMorphDef",
            "HeroMorphDef",
            text(),
            "S \"field\";\nIdleParticleMorphs.AddBlend(1, 2, 3, 0, 0, 4, \"blend\", 5);\n\
             ParticleMorphs.Add(1, 2, 0, 0, 3, \"place\", 4);",
        ),
        ["blend", "place", "field"]
    );
    assert_eq!(
        interned(
            "THING",
            "ThingBaseDef",
            text(),
            "Components.Add(\"one\");\nComponents.Add(\"two\");\nS \"field\";\n\
             Components.Remove(\"one\");",
        ),
        ["field", "two"]
    );
}

/// Strings that are added later change nothing of a definition that was lowered.
#[test]
fn a_lowered_definition_stays() {
    let types = types_with(vec![type_of(
        "CFlammableDef",
        "FlammableDef",
        vec![text_member("S"), text_member("R")],
    )]);
    let body = statements("S \"one\";\nEffectCreationSet.Add(\"fire\", 3);\nR \"two\";");
    let symbols = SymbolTable::new();
    let mut table = NamesBuilder::new();
    let lower = |table: &mut NamesBuilder| {
        let body =
            lower_interning(&types, "CFlammableDef", None, &body, &symbols, &NoEnv, table).unwrap();
        let fire = match &body.extra {
            Extra::Fire(v) => v.iter().map(|f| f.name).collect::<Vec<_>>(),
            _ => panic!("no fire"),
        };
        (text_of(&body, 0), text_of(&body, 1), fire)
    };
    let first = lower(&mut table);
    assert_eq!(first, (13, 21, vec![4]));
    table.intern("later");
    table.intern("latest");
    assert_eq!(lower(&mut table), first);
    assert_eq!(in_order(table), ["fire", "one", "two", "later", "latest"]);
}

/// Lowering that fails keeps what it asked for before, and a definition that is not there
/// is no string.
#[test]
fn a_missing_definition_is_no_string() {
    let reference = Member { name: "D".to_string(), value: Value::Scalar(Scalar::DefIndex(0)) };
    let types = types_with(vec![type_of("T", "TDef", vec![text_member("S"), reference])]);
    let mut table = NamesBuilder::new();
    let symbols = SymbolTable::new();
    let body = statements("S \"one\";\nD \"GONE\";");
    match lower_interning(&types, "T", None, &body, &symbols, &NoEnv, &mut table) {
        Err(LowerError::UnresolvedReference(name, _)) => assert_eq!(name, "GONE"),
        _ => panic!("no error"),
    }
    assert_eq!(in_order(table), ["one"]);
}

// ── Loading ──────────────────────────────────────────────────────────────────

/// Bytes that are no UTF-8 are read as U+FFFD.
#[test]
fn raw_files_are_decoded() {
    let mut corpus = Corpus::new();
    let mut diagnostics = Diagnostics::new();
    let raw = b"// \xff\n#definition T A\nN \"\xc3\xa4\";\n#end_definition\n";
    assert_eq!(corpus.add_raw_file("r/a.def".to_string(), raw, &mut diagnostics), Some(1));
    assert!(corpus.sources[0].text.starts_with("// \u{fffd}\n"));
    assert!(corpus.sources[0].text.contains("\u{e4}"));
    assert_eq!(corpus.add_raw_file("r/b.def".to_string(), b"#definition", &mut diagnostics), None);
    assert_eq!(diagnostics.count(Severity::Error), 1);
}

#[test]
fn sources_are_loaded_and_numbered() {
    let mut corpus = Corpus::new();
    let mut diagnostics = Diagnostics::new();
    let text = |s: &str| s.to_string();
    corpus.add_header(text("r/a.h"), text("enum E { A, B };"), &mut diagnostics);
    corpus.add_header(text("r/b.h"), text("enum E { A = 5, X = GONE, };"), &mut diagnostics);
    corpus.add_header(text("r/c.h"), text("/* never closed x"), &mut diagnostics);
    corpus.add_engine_enums();
    assert_eq!(corpus.symbols.lookup("A"), Some(5));
    assert_eq!(corpus.symbols.lookup("B"), Some(1));
    assert_eq!(corpus.symbols.lookup("BLEND_ALPHA"), Some(2));
    assert_eq!(diagnostics.count(Severity::Error), 2);

    let good = "#definition T ONE\n#end_definition\n#definition T TWO\n#end_definition\n\
                enum F { B = 9 };";
    assert_eq!(corpus.add_file(text("r/d.def"), text(good), &mut diagnostics), Some(2));
    let open = "#definition T THREE\n";
    assert_eq!(corpus.add_file(text("r/e.def"), text(open), &mut diagnostics), None);
    assert_eq!(diagnostics.count(Severity::Error), 3);
    assert_eq!(corpus.sources.len(), 5);
    assert_eq!(corpus.files.len(), 1);
    assert_eq!(corpus.file_sources, [3]);
    assert_eq!(corpus.places.get("TWO").map(|p| p.source), Some(3));
    assert_eq!(corpus.places.get("THREE"), None);

    corpus.evaluate_files(&mut diagnostics);
    assert_eq!(corpus.symbols.lookup("B"), Some(9));
    assert_eq!(diagnostics.count(Severity::Warning), 1);
    let errors: Vec<String> = diagnostics
        .take()
        .into_iter()
        .filter(|d| d.severity == Severity::Error)
        .map(|d| d.message)
        .collect();
    assert_eq!(
        errors,
        ["unknown symbol GONE", "unterminated block comment", "missing #end_definition"]
    );
    assert_eq!(load_failure_message(1), "1 source file failed to load");
    assert_eq!(load_failure_message(3), "3 source files failed to load");
}

// ── Rendering ────────────────────────────────────────────────────────────────

fn sources() -> Vec<SourceFile> {
    vec![SourceFile {
        path: "/root/FrontEndDefs/broken.def".to_string(),
        text: "#definition UI SOME_UI\n    Material 12 34;\n#end_definition\n".to_string(),
    }]
}

/// The message comes first, the path is below the root, and the line has carets.
#[test]
fn a_diagnostic_is_rendered_with_its_line() {
    let sources = sources();
    let error = parse_source(&sources[0].text, FileId(0)).unwrap_err();
    let diagnostics = vec![parse_error_diagnostic(0, &error)];
    let log = render_diagnostics(&sources, &diagnostics, "/root");
    assert!(log.starts_with("error: "), "{log}");
    assert!(log.contains("FrontEndDefs/broken.def:2:"), "{log}");
    assert!(!log.contains("/root"), "{log}");
    assert!(log.contains("Material 12 34;"), "{log}");
    assert!(log.contains('^'), "{log}");
}

#[test]
fn a_diagnostic_about_no_place_is_its_message_and_notes() {
    let mut d = BuildDiagnostic::bare(Severity::Warning, "odd".to_string());
    d.notes.push("why".to_string());
    let log = render_diagnostics(&vec![], &vec![d], "/root");
    assert_eq!(log, "warning: odd\n = why\n\n");
    assert_eq!(render_diagnostics(&sources(), &vec![], "/root"), "");
}

#[test]
fn a_label_about_a_source_that_is_not_there_renders_nothing() {
    let mut d = BuildDiagnostic::bare(Severity::Error, "lost".to_string());
    d.labels.push(DiagnosticLabel {
        source: 3,
        primary: true,
        span: Span { file: FileId(3), start: 0, end: 1 },
        message: None,
    });
    assert_eq!(render_diagnostics(&sources(), &vec![d], ""), "");
}

#[test]
fn a_log_stops_at_a_hundred_diagnostics() {
    let all: Vec<BuildDiagnostic> = (0..103)
        .map(|i| BuildDiagnostic::bare(Severity::Error, format!("no {i}")))
        .collect();
    let log = render_diagnostics(&vec![], &all, "");
    assert_eq!(log.matches("error: no ").count(), 100);
    assert!(log.ends_with("... and 3 more diagnostic(s) not shown\n"));
    let parts = vec![Some("a".to_string()), None, Some("b".to_string())];
    assert_eq!(join_rendered(&parts, 3), "ab");
    assert_eq!(join_rendered(&parts, 101), "ab... and 1 more diagnostic(s) not shown\n");
}

// ── Reports ──────────────────────────────────────────────────────────────────

#[test]
fn a_parse_error_names_its_construct() {
    let error = parse_source("#definition T A\nN 1 2;\n#end_definition\n", FileId(0)).unwrap_err();
    let d = parse_error_diagnostic(3, &error);
    assert_eq!(d.severity, Severity::Error);
    assert!(!d.message.is_empty());
    assert_eq!(d.labels[0].source, 3);
    assert!(d.labels[0].primary);
    assert!(d.labels.iter().skip(1).all(|l| !l.primary && l.message.is_some()));

    let open = parse_source("#definition T A\nN 1;\n", FileId(0)).unwrap_err();
    let d = parse_error_diagnostic(0, &open);
    let last = d.labels.last().unwrap();
    assert_eq!(last.message.as_deref(), Some("this definition is never closed"));
}

#[test]
fn redefinitions_are_warnings() {
    let mut diagnostics = Diagnostics::new();
    report_redefinitions(0, &vec![], &mut diagnostics);
    assert_eq!(diagnostics.count(Severity::Warning), 0);
    let redefined: Vec<Spanned<Redefinition>> = (0..12)
        .map(|i| Spanned {
            span: Span { file: FileId(4), start: i, end: i + 1 },
            value: Redefinition { name: format!("N{i}"), previous: 1, value: 2 },
        })
        .collect();
    report_redefinitions(4, &redefined, &mut diagnostics);
    assert_eq!(diagnostics.items.len(), 11);
    assert_eq!(diagnostics.count(Severity::Error), 0);
    let first = &diagnostics.items[0];
    assert_eq!(first.message, "symbol N0 redefined: 1 -> 2 (later definition wins)");
    assert_eq!(first.labels.len(), 1);
    assert_eq!((first.labels[0].source, first.labels[0].primary), (4, true));
    assert_eq!(first.labels[0].span, redefined[0].span);
    assert_eq!(first.labels[0].message.as_deref(), Some("was 1, now 2"));
    let rest = &diagnostics.items[10];
    assert_eq!(rest.message, "… and 2 more symbol(s) redefined in this file");
    assert!(rest.labels.is_empty());
}

/// An expression that cannot be evaluated is pointed at.
#[test]
fn a_symbol_error_points_at_the_expression() {
    let located = |text: &str| {
        let items = parse_source(text, FileId(2)).unwrap().items;
        let error = SymbolTable::new().evaluate_located(&items).unwrap_err();
        symbol_eval_diagnostic(2, &error)
    };
    let text = "enum E { A = 1, B = 1 | GONE };";
    let d = located(text);
    assert_eq!(d.message, "unknown symbol GONE");
    assert_eq!((d.labels[0].source, d.labels[0].primary), (2, true));
    assert_eq!(&text[d.labels[0].span.start..d.labels[0].span.end], "GONE");
    let text = "enum E { A = 1 << 64 };";
    let d = located(text);
    assert_eq!(d.message, "invalid shift by 64");
    assert_eq!(&text[d.labels[0].span.start..d.labels[0].span.end], "64");

    let text = "enum E { A = 1 };\nenum F { A = 2 };";
    let items = parse_source(text, FileId(2)).unwrap().items;
    let redefined = SymbolTable::new().evaluate_located(&items).unwrap();
    assert_eq!(redefined.len(), 1);
    assert_eq!(redefined[0].span.start, text.rfind('A').unwrap());
}

#[test]
fn a_lowering_error_points_at_the_statement_and_the_definition() {
    let text = "#definition T NAME\nF GONE;\n#end_definition\n";
    let ast = parse_source(text, FileId(0)).unwrap();
    let def = ast.definitions()[0];
    let place = DefPlace { source: 0, span: def.span };
    let statement = def.value.body[0].span;
    let error = LowerError::UnresolvedReference("GONE".to_string(), Some(statement));
    let d = lowering_error_diagnostic("NAME", "T", &error, Some(place), text);
    assert_eq!(d.severity, Severity::Error);
    assert_eq!(d.message, "unresolved reference: GONE");
    assert_eq!(d.labels.len(), 2);
    assert!(d.labels[0].primary);
    assert_eq!(d.labels[0].span, statement);
    assert_eq!(&text[d.labels[1].span.start..d.labels[1].span.end], "NAME");
    assert_eq!(d.labels[1].message.as_deref(), Some("in this definition"));
    assert_eq!(d.notes, ["no `#definition` with this name is in scope for this binary"]);

    // A statement that was inherited from another file is not in this definition.
    let other = Span { file: FileId(1), start: statement.start, end: statement.end };
    let inherited = LowerError::UnresolvedReference("GONE".to_string(), Some(other));
    let d = lowering_error_diagnostic("NAME", "T", &inherited, Some(place), text);
    assert_eq!(d.labels.len(), 1);
    assert_eq!(d.labels[0].source, 1);

    let bare = lowering_error_diagnostic("NAME", "T", &error, None, "");
    assert_eq!(bare.message, "T NAME: unresolved reference: GONE");
    assert!(bare.labels.is_empty());
    assert!(!block_error_diagnostic("TAG", "NAME", &error).message.is_empty());
}

#[test]
fn nothing_resolves_without_an_environment() {
    assert_eq!(NoEnv.def_index("A"), None);
    assert_eq!(NoEnv.def_string_offset("A"), None);
}
