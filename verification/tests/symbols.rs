//! Symbols of enumerations and macros.

use def_compiler::text::base::FileId;
use def_compiler::text::parser::parse_source;
use def_compiler::text::symbols::{Redefinition, SymbolEvalError, SymbolTable};

fn eval(table: &mut SymbolTable, src: &str) -> Vec<Redefinition> {
    let header = parse_source(src, FileId::anonymous()).expect("header parses");
    table
        .evaluate_items(&header.items)
        .expect("header evaluates")
}

#[test]
fn last_definition_wins() {
    let mut t = SymbolTable::new();
    eval(&mut t, "enum E { A = 1 };");
    let redefined = eval(&mut t, "enum E { A = 2 };");
    assert_eq!(t.lookup("A"), Some(2));
    assert_eq!(
        redefined,
        vec![Redefinition {
            name: "A".into(),
            previous: 1,
            value: 2
        }]
    );
}

/// A duplicate does not end the evaluation of the file: a mod that re-declares
/// an enum to append symbols keeps the symbols it adds.
#[test]
fn duplicate_does_not_discard_the_rest_of_the_file() {
    let mut t = SymbolTable::new();
    eval(&mut t, "enum EMeshType2 { MESH_A = 1, MESH_B = 2 };");
    eval(
        &mut t,
        "enum EMeshType2 { MESH_A = 1, MESH_B = 2, MESH_NEW = 3 };",
    );
    assert_eq!(t.lookup("MESH_NEW"), Some(3), "symbol after the duplicate");
    assert_eq!(t.lookup("MESH_A"), Some(1));
    assert_eq!(t.lookup("MESH_B"), Some(2));
}

/// Redefinition must not be reported for a fresh name, or every additive
/// header would drown the log.
#[test]
fn new_symbols_are_not_redefinitions() {
    let mut t = SymbolTable::new();
    let redefined = eval(&mut t, "enum E { A = 1, B = 2 };");
    assert!(redefined.is_empty());
}

/// Auto-increment numbering follows the enum being read, not the table, so
/// a redefinition mid-enum does not shift the variants after it.
#[test]
fn auto_increment_unaffected_by_redefinition() {
    let mut t = SymbolTable::new();
    eval(&mut t, "enum E { A = 40 };");
    eval(&mut t, "enum F { A = 1, B, C };");
    assert_eq!(t.lookup("A"), Some(1));
    assert_eq!(t.lookup("B"), Some(2));
    assert_eq!(t.lookup("C"), Some(3));
}

#[test]
fn unknown_symbol_in_enum_expression_is_still_an_error() {
    let mut t = SymbolTable::new();
    let header = parse_source("enum E { A = NOPE };", FileId::anonymous()).unwrap();
    assert!(matches!(
        t.evaluate_items(&header.items),
        Err(SymbolEvalError::UnknownSymbol(n)) if n == "NOPE"
    ));
}

#[test]
fn insert_reports_the_replaced_value() {
    let mut t = SymbolTable::new();
    assert_eq!(t.insert("A", 1), None);
    assert_eq!(t.insert("A", 2), Some(1));
    assert_eq!(t.lookup("A"), Some(2));
}

/// Evaluating two headers one after the other is evaluating them as one.
#[test]
fn lists_evaluate_one_after_the_other() {
    let (one, two) = ("enum A { X = 3, Y };", "#define Z 7\nenum B { Y = 9, W };");
    let mut apart = SymbolTable::new();
    let mut redefined = eval(&mut apart, one);
    redefined.extend(eval(&mut apart, two));
    let mut together = SymbolTable::new();
    let all = eval(&mut together, &format!("{one}\n{two}"));
    assert_eq!(redefined.len(), all.len());
    assert_eq!(
        redefined.iter().map(|r| (r.name.as_str(), r.previous, r.value)).collect::<Vec<_>>(),
        [("Y", 4, 9)]
    );
    for name in ["X", "Y", "Z", "W"] {
        assert_eq!(apart.lookup(name), together.lookup(name));
    }
    assert_eq!(together.lookup("W"), Some(10));
}
