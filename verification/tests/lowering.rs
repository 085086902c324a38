//! Lowering of definitions.

use std::collections::HashMap;

use def_compiler::crc32::{crc, crc_text};
use def_compiler::eval::{EvalError, Evaluator};
use def_compiler::lower::body::{flatten_specialization, strip_superseded_by_clear};
use def_compiler::lower::controls::ControlEnums;
use def_compiler::lower::def::{lower_def, DefBody, DefType, DefTypes};
use def_compiler::lower::construct::apply_struct_from_expr;
use def_compiler::lower::env::{
    resolve_ref, resolve_ref_i32, Fields, LowerEnv, LowerError, NoEnv, Text,
};
use def_compiler::lower::extra::Extra;
use def_compiler::lower::fields::lower_generic;
use def_compiler::name_map::NameMap;
use def_compiler::reader::{DefReader, DefReaderError};
use def_compiler::text::ast::{Definition, Item, SourceAst, Statement};
use def_compiler::text::base::{FileId, Spanned};
use def_compiler::text::parser::{parse_expr_str, parse_source};
use def_compiler::text::symbols::SymbolTable;
use def_compiler::value::{
    find_member, same_value, Case, Choice, Compound, List, Mapping, Member, Pair, Record, Scalar,
    Value,
};

/// An environment with a few definitions and strings.
struct Env {
    defs: HashMap<String, u32>,
    strings: HashMap<String, u32>,
}

impl LowerEnv for Env {
    fn index_of(&self, _name: Text) -> Option<u32> {
        None
    }

    fn offset_of(&self, _string: Text) -> Option<u32> {
        None
    }

    fn with_reactions(&self, fields: Fields) -> Fields {
        fields
    }

    fn with_opinions(&self, fields: Fields) -> Fields {
        fields
    }

    fn def_index(&self, name: &str) -> Option<u32> {
        self.defs.get(name).copied()
    }

    fn def_string_offset(&self, string: &str) -> Option<u32> {
        self.strings.get(string).copied()
    }

    fn derive_binary_reactions(&self, record: Record) -> Record {
        record
    }

    fn derive_binary_opinions(&self, record: Record) -> Record {
        record
    }
}

fn env(defs: &[(&str, u32)], strings: &[(&str, u32)]) -> Env {
    Env {
        defs: defs.iter().map(|(n, i)| (n.to_string(), *i)).collect(),
        strings: strings.iter().map(|(n, i)| (n.to_string(), *i)).collect(),
    }
}

fn source(text: &str) -> SourceAst {
    parse_source(text, FileId(0)).unwrap()
}

fn body_of(statements: &str) -> Vec<Spanned<Statement>> {
    let text = format!("#definition X Y\n{statements}\n#end_definition\n");
    match source(&text).items.remove(0) {
        Item::Definition(d) => d.value.body,
        _ => panic!("no definition"),
    }
}

fn member(name: &str, value: Value) -> Member {
    Member { name: name.to_string(), value }
}

fn number(n: i32) -> Value {
    Value::Scalar(Scalar::I32(n))
}

fn list(element: Value) -> Value {
    Value::List(List { element: Box::new(element), items: vec![] })
}

fn record(fields: Vec<Member>) -> Record {
    Record { fields }
}

fn get<'a>(r: &'a Record, name: &str) -> &'a Value {
    &r.fields[find_member(&r.fields, name).unwrap()].value
}

fn lowered(fields: Vec<Member>, statements: &str) -> Result<Record, LowerError> {
    let symbols = SymbolTable::new();
    lower_generic(&record(fields), &body_of(statements), &symbols, &NoEnv).map(|(r, _)| r)
}

fn numbers(v: &Value) -> Vec<i128> {
    match v {
        Value::List(l) => l.items.iter().map(def_compiler::value::number_of).collect(),
        _ => panic!("no list"),
    }
}

// ── Fields ───────────────────────────────────────────────────────────────────

#[test]
fn fields_are_set_and_others_keep_their_values() {
    let r = lowered(vec![member("A", number(1)), member("B", number(2))], "B 7;").unwrap();
    assert!(same_value(get(&r, "A"), &number(1)));
    assert!(same_value(get(&r, "B"), &number(7)));
}

#[test]
fn no_statements_change_nothing() {
    let symbols = SymbolTable::new();
    let base = record(vec![member("A", number(1)), member("L", list(number(0)))]);
    let (r, rest) = lower_generic(&base, &vec![], &symbols, &NoEnv).unwrap();
    assert!(same_value(get(&r, "A"), &number(1)));
    assert_eq!(numbers(get(&r, "L")), Vec::<i128>::new());
    assert!(rest.is_empty());
}

#[test]
fn the_last_statement_about_a_field_wins() {
    let r = lowered(vec![member("A", number(1))], "A 2; A 3;").unwrap();
    assert!(same_value(get(&r, "A"), &number(3)));
}

#[test]
fn statements_about_no_field_are_given_back() {
    let symbols = SymbolTable::new();
    let base = record(vec![member("A", number(1))]);
    let (_, rest) = lower_generic(&base, &body_of("B 1; A 2;"), &symbols, &NoEnv).unwrap();
    assert_eq!(rest.len(), 1);
}

#[test]
fn scalars_are_checked_against_their_range() {
    let fields = || vec![member("A", Value::Scalar(Scalar::U8(0)))];
    assert!(same_value(get(&lowered(fields(), "A 255;").unwrap(), "A"), &Value::Scalar(Scalar::U8(255))));
    let flag = vec![member("A", Value::Scalar(Scalar::Bool(false)))];
    assert!(same_value(get(&lowered(flag, "A TRUE;").unwrap(), "A"), &Value::Scalar(Scalar::Bool(true))));
    let text = vec![member("A", Value::Scalar(Scalar::Str(String::new())))];
    assert!(same_value(
        get(&lowered(text, "A \"hi\";").unwrap(), "A"),
        &Value::Scalar(Scalar::Str("hi".to_string()))
    ));
}

#[test]
fn lists_are_cleared_grown_added_to_and_indexed() {
    let fields = || vec![member("L", list(number(0)))];
    assert_eq!(numbers(get(&lowered(fields(), "L.Add(4); L.Add(5);").unwrap(), "L")), [4, 5]);
    assert_eq!(numbers(get(&lowered(fields(), "L[2] 9;").unwrap(), "L")), [0, 0, 9]);
    assert_eq!(numbers(get(&lowered(fields(), "L.resize(2);").unwrap(), "L")), [0, 0]);
    // A later `clear()` supersedes what stands before it.
    assert_eq!(numbers(get(&lowered(fields(), "L.Add(4); L.clear(); L.Add(6);").unwrap(), "L")), [6]);
    assert!(lowered(fields(), "L.resize(-1);").is_err());
}

#[test]
fn maps_hold_a_key_once() {
    let map = Value::Mapping(Mapping {
        ordered: true,
        key: Box::new(number(0)),
        value: Box::new(number(0)),
        entries: vec![],
    });
    let r = lowered(vec![member("M", map)], "M[5] 1; M[2] 3; M[5] 4;").unwrap();
    let entries: Vec<(i128, i128)> = match get(&r, "M") {
        Value::Mapping(m) => m
            .entries
            .iter()
            .map(|Pair { key, value }| {
                (def_compiler::value::number_of(key), def_compiler::value::number_of(value))
            })
            .collect(),
        _ => panic!("no map"),
    };
    assert_eq!(entries, [(2, 3), (5, 4)]);
}

#[test]
fn compounds_are_set_by_members_without_regard_to_case() {
    let pair = Value::Struct(Compound {
        class: "Pair".to_string(),
        named: false,
        members: vec![member("MinValue", number(1)), member("MaxValue", number(2))],
    });
    let r = lowered(vec![member("P", pair)], "P.max_value 9;").unwrap();
    match get(&r, "P") {
        Value::Struct(s) => {
            assert!(same_value(&s.members[0].value, &number(1)));
            assert!(same_value(&s.members[1].value, &number(9)));
        },
        _ => panic!("no compound"),
    }
}

#[test]
fn colours_are_packed() {
    let colour = || {
        Value::Struct(Compound {
            class: "RGBColour".to_string(),
            named: false,
            members: vec![member("value", Value::Scalar(Scalar::U32(0)))],
        })
    };
    let packed = |r: &Record| match get(r, "C") {
        Value::Struct(s) => def_compiler::value::number_of(&s.members[0].value),
        _ => panic!("no colour"),
    };
    let r = lowered(vec![member("C", colour())], "C.R 1; C.G 2; C.B 3; C.A 4;").unwrap();
    assert_eq!(packed(&r), 0x04010203);
}

#[test]
fn what_no_statement_can_set_is_an_error() {
    for value in [Value::Complex, Value::Array] {
        match lowered(vec![member("X", value)], "") {
            Err(LowerError::Reader(DefReaderError::Semantic(_, None))) => {},
            _ => panic!("no error"),
        }
    }
}

#[test]
fn references_are_resolved() {
    let e = env(&[("SWORD", 12)], &[("hello", 40)]);
    let symbols = SymbolTable::new();
    let base = record(vec![
        member("D", Value::Scalar(Scalar::DefIndex(0))),
        member("S", Value::Scalar(Scalar::DefString(-1))),
    ]);
    let (r, _) = lower_generic(&base, &body_of("D SWORD; S \"hello\";"), &symbols, &e).unwrap();
    assert!(same_value(get(&r, "D"), &Value::Scalar(Scalar::DefIndex(12))));
    assert!(same_value(get(&r, "S"), &Value::Scalar(Scalar::DefString(40))));
    match lower_generic(&base, &body_of("D AXE;"), &symbols, &e) {
        Err(LowerError::UnresolvedReference(name, Some(_))) => assert_eq!(name, "AXE"),
        _ => panic!("no error"),
    }
}

#[test]
fn a_choice_takes_the_case_that_is_constructed() {
    let choice = Choice {
        class: "Shape".to_string(),
        tag: 0,
        members: vec![],
        cases: vec![Case { tag: 0, members: vec![] }],
    };
    match lowered(vec![member("V", Value::Variant(choice))], "V Unknown(1);") {
        Err(e) => assert!(!e.message().is_empty()),
        Ok(r) => assert!(matches!(get(&r, "V"), Value::Variant(_))),
    }
}

/// A field whose kind nothing can set is an error even without statements.
#[test]
fn an_unhandled_field_is_an_error() {
    assert!(lowered(vec![member("A", number(1))], "").is_ok());
    assert!(lowered(vec![member("A", number(1)), member("B", Value::Complex)], "").is_err());
    assert!(lowered(vec![member("B", Value::Array), member("A", number(1))], "A 2;").is_err());
}

/// Only a bare symbol that has no value is a reference.
#[test]
fn a_reference_is_a_bare_symbol_or_a_string() {
    let symbols = SymbolTable::new();
    let eval = Evaluator::new(&symbols);
    let env = env(&[("FOO", 5)], &[]);
    let expr = |s: &str| parse_expr_str(s).unwrap();
    assert_eq!(resolve_ref(&eval, &env, &expr("FOO")).unwrap(), 5);
    assert_eq!(resolve_ref(&eval, &env, &expr("\"FOO\"")).unwrap(), 5);
    assert_eq!(resolve_ref(&eval, &env, &expr("1 | 2")).unwrap(), 3);
    assert_eq!(resolve_ref_i32(&eval, &env, &expr("FOO")).unwrap(), 5);
    assert_eq!(resolve_ref_i32(&eval, &env, &expr("\"\"")).unwrap(), 0);
    for text in ["1 | FOO", "FOO + 1"] {
        let unknown = |e: &LowerError| {
            matches!(
                e,
                LowerError::Reader(DefReaderError::Eval(EvalError::UnknownSymbol(n), _))
                    if n == "FOO"
            )
        };
        assert!(unknown(&resolve_ref(&eval, &env, &expr(text)).unwrap_err()));
        assert!(unknown(&resolve_ref_i32(&eval, &env, &expr(text)).unwrap_err()));
    }
    assert!(matches!(
        resolve_ref(&eval, &env, &expr("BAR")),
        Err(LowerError::UnresolvedReference(n, Some(_))) if n == "BAR"
    ));
}

/// A colour takes three or four channels; with any other number it stays as it was.
#[test]
fn a_colour_is_set_as_a_whole() {
    let symbols = SymbolTable::new();
    let eval = Evaluator::new(&symbols);
    let set = |text: &str| {
        let mut colour = Compound {
            class: "RGBColour".to_string(),
            named: false,
            members: vec![member("Packed", Value::Scalar(Scalar::U32(0)))],
        };
        let r = apply_struct_from_expr(&mut colour, &parse_expr_str(text).unwrap(), &eval, &NoEnv);
        (r, def_compiler::value::number_of(&colour.members[0].value))
    };
    assert!(matches!(set("CRGBColour(1, 2, 3)"), (Ok(()), 0xFF010203)));
    assert!(matches!(set("CRGBColour(1, 2, 3, 4)"), (Ok(()), 0x04010203)));
    assert!(matches!(
        set("CRGBColour(1, 2)"),
        (Err(LowerError::Reader(DefReaderError::Semantic(_, None))), 0)
    ));
    assert!(matches!(set("CRGBColour(1, GONE, 3)"), (Err(_), 0)));
}

/// What comes before a failing argument is set, and what comes behind is not.
#[test]
fn a_failure_leaves_what_was_set_before() {
    let symbols = SymbolTable::new();
    let eval = Evaluator::new(&symbols);
    let mut pair = Compound {
        class: "Pair".to_string(),
        named: false,
        members: vec![member("A", number(0)), member("B", number(0)), member("C", number(0))],
    };
    let expr = parse_expr_str("P(1, GONE, 3)").unwrap();
    assert!(apply_struct_from_expr(&mut pair, &expr, &eval, &NoEnv).is_err());
    let values: Vec<i128> =
        pair.members.iter().map(|m| def_compiler::value::number_of(&m.value)).collect();
    assert_eq!(values, [1, 0, 0]);
}

/// An error on a statement that is not expected is at the statement.
#[test]
fn an_unexpected_statement_has_a_place() {
    let statement = body_of("Stray 1;").remove(0);
    let span = statement.span;
    let error = LowerError::Reader(DefReaderError::UnexpectedStatement(statement));
    assert_eq!(error.primary_span(), Some(span));
    assert_eq!(LowerError::Unsupported("X".to_string()).primary_span(), None);
}

// ── Stripping and specialization ─────────────────────────────────────────────

#[test]
fn stripping_once_is_enough() {
    let body = body_of("A 1; A.clear(); A 2; B 3;");
    let once = strip_superseded_by_clear(&body);
    assert_eq!(once.len(), 3);
    assert_eq!(strip_superseded_by_clear(&once).len(), 3);
}

fn flat(text: &str, def: usize) -> Result<Vec<Spanned<Statement>>, LowerError> {
    let ast = source(text);
    let defs: Vec<&Definition> = ast.definitions().iter().map(|d| &d.value).collect();
    let mut names: NameMap<usize> = NameMap::new();
    for (i, d) in defs.iter().enumerate() {
        names.insert(&d.name, i);
    }
    flatten_specialization(def, &defs, &names)
}

#[test]
fn own_statements_come_behind_those_of_the_parent() {
    let text = "#definition T A\nX 1;\n#end_definition\n\
                #definition T B specialises A\nX 2;\n#end_definition\n";
    let body = flat(text, 1).unwrap();
    let symbols = SymbolTable::new();
    let mut reader = DefReader::new(&body, &symbols);
    assert_eq!(body.len(), 2);
    assert_eq!(reader.opt_i32("X").unwrap(), Some(2));
    // What has been read is not read again.
    assert_eq!(reader.opt_i32("X").unwrap(), None);
    assert!(reader.finish().is_ok());
}

#[test]
fn a_missing_parent_and_a_cycle_are_errors() {
    match flat("#definition T A specialises Z\n#end_definition\n", 0) {
        Err(LowerError::MissingParent { def, parent, span }) => {
            assert_eq!((def.as_str(), parent.as_str()), ("A", "Z"));
            assert!(span.is_some());
        },
        _ => panic!("no error"),
    }
    let cycle = "#definition T A specialises B\n#end_definition\n\
                 #definition T B specialises A\n#end_definition\n";
    match flat(cycle, 0) {
        Err(e) => {
            assert!(matches!(e, LowerError::SpecializationCycle(_, _)));
            assert!(e.message().starts_with("specialization cycle detected at "));
        },
        _ => panic!("no error"),
    }
}

// ── The reader ───────────────────────────────────────────────────────────────

#[test]
fn what_is_not_read_is_unexpected() {
    let symbols = SymbolTable::new();
    let body = body_of("A 1; B \"x\";");
    let mut reader = DefReader::new(&body, &symbols);
    assert_eq!(reader.opt_i32("A").unwrap(), Some(1));
    assert_eq!(reader.remaining_statements().len(), 1);
    match reader.finish() {
        Err(e) => assert_eq!(e.message(), "unexpected statement"),
        Ok(()) => panic!("no error"),
    }
}

#[test]
fn groups_come_by_index_in_ascending_order() {
    let symbols = SymbolTable::new();
    let body = body_of("L[3].X 1; L[1].X 2; L[3].Y 4;");
    let mut reader = DefReader::new(&body, &symbols);
    let groups = reader.indexed_sparse("L").unwrap();
    let indices: Vec<usize> = groups.iter().map(|(i, _)| *i).collect();
    assert_eq!(indices, [1, 3]);
    assert!(reader.finish().is_ok());
}

#[test]
fn keys_come_once_in_the_order_in_which_they_came() {
    let symbols = SymbolTable::new();
    let body = body_of("M[B] 1; M[A] 2; M[B] 3;");
    let mut reader = DefReader::new(&body, &symbols);
    let keys: Vec<String> = reader.keyed("M").iter().map(|(k, _)| k.value.text()).collect();
    assert_eq!(keys, ["B", "A"]);
}

#[test]
fn arguments_are_read_by_position() {
    let symbols = SymbolTable::new();
    let body = body_of("F.Add(1, \"two\", TRUE);");
    let mut reader = DefReader::new(&body, &symbols);
    let calls = reader.calls("F", "Add");
    assert_eq!(calls.len(), 1);
    assert_eq!(calls[0].i32(0).unwrap(), 1);
    assert_eq!(calls[0].string(1).unwrap(), "two");
    assert!(calls[0].bool(2).unwrap());
    match calls[0].i32(3) {
        Err(e) => assert_eq!(e.message(), "missing argument at index 3"),
        Ok(_) => panic!("no error"),
    }
    match calls[0].i32(1) {
        Err(DefReaderError::Eval(_, _)) => {},
        _ => panic!("no error"),
    }
}

// ── Types of definitions ─────────────────────────────────────────────────────

fn types(kinds: &[(&str, &str, Vec<Member>)]) -> DefTypes {
    DefTypes {
        types: kinds
            .iter()
            .map(|(name, kind, fields)| DefType {
                name: name.to_string(),
                default: DefBody {
                    kind: kind.to_string(),
                    record: Record { fields: def_compiler::value::copy_members(fields) },
                    extra: Extra::Nothing,
                },
            })
            .collect(),
        controls: ControlEnums {
            game_action: vec![1, 2],
            controller_type: vec![0, 1, 2],
            input_key: vec![0, 30],
            xbox_button: vec![0, 1],
            mouse_button: vec![0, 1],
        },
    }
}

fn extra_of(name: &str, kind: &str, fields: Vec<Member>, statements: &str, e: &Env) -> Extra {
    let t = types(&[(name, kind, fields)]);
    let symbols = SymbolTable::new();
    let (body, _) = lower_def(&t, name, None, &body_of(statements), &symbols, e).unwrap();
    assert_eq!(body.kind, kind);
    body.extra
}

#[test]
fn a_type_without_a_default_is_unsupported() {
    let t = types(&[]);
    let symbols = SymbolTable::new();
    for name in ["NOTHING", "CCreatureDef"] {
        match lower_def(&t, name, None, &vec![], &symbols, &NoEnv) {
            Err(e) => assert_eq!(e.message(), format!("no lowering for def type {name}")),
            Ok(_) => panic!("no error"),
        }
    }
}

#[test]
fn a_plain_type_starts_from_its_default_or_its_base() {
    let t = types(&[("ARMOUR", "ArmourDef", vec![member("A", number(1)), member("B", number(2))])]);
    let symbols = SymbolTable::new();
    let (first, _) = lower_def(&t, "ARMOUR", None, &body_of("A 5;"), &symbols, &NoEnv).unwrap();
    assert!(same_value(get(&first.record, "A"), &number(5)));
    let (second, _) =
        lower_def(&t, "ARMOUR", Some(&first), &body_of("B 6;"), &symbols, &NoEnv).unwrap();
    assert!(same_value(get(&second.record, "A"), &number(5)));
    assert!(same_value(get(&second.record, "B"), &number(6)));
}

#[test]
fn special_effects_come_once_and_in_order() {
    let statements = "SpecialEffects.Add(\"b\", 1); SpecialEffects.Add(\"a\", 2); \
                      SpecialEffects.Add(\"b\", 3);";
    let extra =
        extra_of("CSpecialEffectsDef", "SpecialEffectsDef", vec![], statements, &env(&[], &[]));
    let mut expected = vec![(crc_text("b"), 1), (crc_text("a"), 2)];
    expected.sort();
    match extra {
        Extra::Effects(v) => {
            assert_eq!(v.iter().map(|e| (e.key, e.effect)).collect::<Vec<_>>(), expected)
        },
        _ => panic!("no effects"),
    }
}

#[test]
fn a_removed_component_is_gone() {
    let statements = "Components.Add(\"CTCDRumble\"); Components.Add(\"CTCOther\", TRUE); \
                      Components.Remove(\"CTCDRumble\");";
    let e = env(&[], &[("CTCDRumble", 10), ("CTCOther", 20)]);
    match extra_of("THING", "ThingBaseDef", vec![], statements, &e) {
        Extra::Components(c) => {
            let v = c.entries;
            assert_eq!(v.len(), 1);
            assert_eq!((v[0].name, v[0].driver_type, v[0].over), (20, 0, true));
            assert_eq!(c.trailing, 28_011_726);
        },
        _ => panic!("no components"),
    }
}

#[test]
fn drivers_have_their_types() {
    let e = env(&[], &[("CTCDRumble", 10), ("CTCDExplosiveTrail", 30)]);
    let statements = "Components.Add(\"CTCDRumble\"); Components.Add(\"CTCDExplosiveTrail\");";
    match extra_of("OBJECT", "ThingObjectDef", vec![], statements, &e) {
        Extra::Components(c) => {
            assert_eq!(c.entries.iter().map(|c| c.driver_type).collect::<Vec<_>>(), [28, 30])
        },
        _ => panic!("no components"),
    }
}

#[test]
fn an_augmentation_has_one_trail() {
    let statements = "WeaponTrails[7] Set(1, 2); WeaponTrails[3] Set(5, 6); WeaponTrails[7] Set(3, 4);";
    match extra_of("CWeaponDef", "WeaponDef", vec![], statements, &env(&[], &[])) {
        Extra::Trails(v) => assert_eq!(
            v.iter().map(|t| (t.attack, t.knockdown, t.augmentation)).collect::<Vec<_>>(),
            [(3, 5, 6), (7, 3, 4)]
        ),
        _ => panic!("no trails"),
    }
}

#[test]
fn degradations_take_the_graphic_type() {
    let fields = vec![member("GraphicType", Value::Scalar(Scalar::U8(0)))];
    let statements = "GraphicType 3; Degradations.Add(0.5, 11, 12, TRUE);";
    match extra_of("CDegradableDef", "DegradableDef", fields, statements, &env(&[], &[])) {
        Extra::Degradations(v) => {
            assert_eq!(v.len(), 1);
            assert_eq!(f32::from_bits(v[0].health_percentage.bits), 0.5);
            assert_eq!(f32::from_bits(v[0].render_size_x.bits), 1.0);
            assert_eq!((v[0].bank_index, v[0].smash_particle_emitter), (11, 12));
            assert_eq!((v[0].type_, v[0].blocks_navigation), (3, true));
        },
        _ => panic!("no degradations"),
    }
}

#[test]
fn meshes_and_graphics_are_added() {
    match extra_of(
        "CReplaceableMeshDef",
        "ReplaceableMeshDef",
        vec![],
        "Meshes.Add(2, 77);",
        &env(&[], &[]),
    ) {
        Extra::Meshes(v) => assert_eq!((v[0].graphic_type, v[0].bank_index), (2, 77)),
        _ => panic!("no meshes"),
    }
    match extra_of(
        "CAppearanceModifierDef",
        "AppearanceModifierDef",
        vec![],
        "Graphics.Add(1, 2, 1.0, 4, 0.0, 0.0);",
        &env(&[], &[]),
    ) {
        Extra::Graphics(v) => {
            let expected: Vec<u8> = [1u32, 4, 2, 0x3f800000, 0, 0]
                .iter()
                .flat_map(|w| w.to_le_bytes())
                .collect();
            assert_eq!(v[0].data, expected);
        },
        _ => panic!("no graphics"),
    }
}

#[test]
fn deeds_have_two_arguments_or_five() {
    let name = "OPINION_DEED_EFFECTS";
    let kind = "OpinionDeedEffectsDef";
    let statements = "Effects.Add(4, 0.5); Effects.Add(5, 1.0, 2.0, 3.0, 4.0);";
    let t = types(&[(name, kind, vec![])]);
    let symbols = SymbolTable::new();
    match lower_def(&t, name, None, &body_of(statements), &symbols, &NoEnv) {
        Ok((body, _)) => match body.extra {
            Extra::Deeds(v) => {
                assert_eq!(v.len(), 2);
                assert_eq!((v[0].opinion, v[0].peak.bits), (4, 0));
                assert_eq!(f32::from_bits(v[0].persist.bits), 0.5);
                assert_eq!(f32::from_bits(v[1].run_out_secs.bits), 3.0);
            },
            _ => panic!("no deeds"),
        },
        Err(e) => panic!("{}", e.message()),
    }
    match lower_def(&t, name, None, &body_of("Effects.Add(4);"), &symbols, &NoEnv) {
        Err(LowerError::Reader(DefReaderError::MissingArg(1, _))) => {},
        _ => panic!("no error"),
    }
}

#[test]
fn blocked_weapons_are_a_set() {
    let name = "CCombatAbilityBlockUnarmedAttackDef";
    let t = types(&[(name, "CombatAbilityBlockDefBase", vec![member("ValidBlockWeaponTypes", list(number(0)))])]);
    let symbols = SymbolTable::new();
    let statements = "ValidBlockWeaponTypes.Add(5); ValidBlockWeaponTypes.Add(2); \
                      ValidBlockWeaponTypes.Add(5);";
    let (body, _) = lower_def(&t, name, None, &body_of(statements), &symbols, &NoEnv).unwrap();
    assert_eq!(numbers(get(&body.record, "ValidBlockWeaponTypes")), [2, 5]);
}

#[test]
fn fire_effects_are_ordered_by_name() {
    let e = env(&[], &[("smoke", 9), ("flame", 4)]);
    let statements = "EffectCreationSet.Add(\"smoke\", 1); EffectCreationSet.Add(\"flame\", 2);";
    match extra_of("CFlammableDef", "FlammableDef", vec![], statements, &e) {
        Extra::Fire(v) => {
            assert_eq!(v.iter().map(|f| (f.name, f.effect)).collect::<Vec<_>>(), [(4, 2), (9, 1)])
        },
        _ => panic!("no effects"),
    }
}

#[test]
fn checksums_have_their_known_value() {
    assert_eq!(crc(b"123456789"), 0xcbf43926);
    assert_eq!(crc_text(""), 0);
}
