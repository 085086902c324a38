//! What is wrong with a text, a symbol or an expression, and what holds of all of them.

use def_compiler::eval::{EvalError, Evaluator};
use def_compiler::order::{sort, Ranked};
use def_compiler::single::Single;
use def_compiler::text::base::{FileId, Span, Spanned};
use def_compiler::text::lexer::{lex, LexErrorKind, TextParseErrorKind, TokenKind};
use def_compiler::text::parser::{parse_expr_str, parse_source};
use def_compiler::text::symbols::{SymbolEvalError, SymbolTable};
use def_compiler::value::{List, Mapping, Scalar, Value};

fn parse_error(text: &str) -> String {
    parse_source(text, FileId(0)).unwrap_err().inner.message()
}

#[test]
fn parse_errors_have_their_messages() {
    assert_eq!(parse_error("#definition T A\nN 1;\n"), "missing #end_definition");
    assert_eq!(parse_error("/* never closed x"), "unterminated block comment");
    assert_eq!(
        parse_error("#definition T A\nN \"x\n#end_definition\n"),
        "unterminated string"
    );
    assert_eq!(
        parse_error("#definition T A\n<U>\n<\\V>\n#end_definition\n"),
        "mismatched tag: opened <U>, closed <\\V>"
    );
    assert_eq!(parse_error("namespace N {\n"), "unterminated namespace");
    assert_eq!(parse_error("#ifdef _WINDOWS\n"), "unterminated conditional");
    assert!(matches!(
        parse_source("#definition T A\nN 1 2;\n#end_definition\n", FileId(0)).unwrap_err().inner,
        TextParseErrorKind::UnexpectedToken { .. }
    ));
}

#[test]
fn tokens_stand_in_the_text() {
    let text = "/* é */ Field.Sub[3] \"é\" -1.5f ; // end";
    let tokens = lex(text, FileId(4)).unwrap();
    let mut at = 0;
    for t in &tokens {
        assert_eq!(t.span.file, FileId(4));
        assert!(at <= t.span.start && t.span.start <= t.span.end);
        assert_eq!(&text[t.span.start..t.span.end], t.source);
        at = t.span.end;
    }
    assert_eq!(tokens.last().unwrap().kind, TokenKind::Eof);
    let error = lex("a \"b", FileId(4)).unwrap_err();
    assert_eq!(error.kind, LexErrorKind::UnterminatedString);
    assert_eq!((error.span.start, error.span.end), (2, 4));
}

fn evaluated(text: &str, table: &mut SymbolTable) -> Result<usize, SymbolEvalError> {
    let items = parse_source(text, FileId(0)).unwrap().items;
    table.evaluate_items(&items).map(|redefined| redefined.len())
}

#[test]
fn symbols_that_cannot_be_evaluated_are_errors() {
    let mut table = SymbolTable::new();
    match evaluated("enum E { A = MISSING, };", &mut table) {
        Err(SymbolEvalError::UnknownSymbol(name)) => assert_eq!(name, "MISSING"),
        _ => panic!("no error"),
    }
    match evaluated("enum E { A = 1 << 64, };", &mut table) {
        Err(SymbolEvalError::InvalidShift(n)) => assert_eq!(n, 64),
        _ => panic!("no error"),
    }
}

#[test]
fn evaluating_unbinds_nothing_and_the_last_definition_wins() {
    let mut table = SymbolTable::new();
    table.insert("OLD", 3);
    assert_eq!(evaluated("enum E { A, B, C };\nenum F { B = 9, D };", &mut table).unwrap(), 1);
    assert_eq!(table.lookup("OLD"), Some(3));
    assert_eq!(table.lookup("A"), Some(0));
    assert_eq!(table.lookup("B"), Some(9));
    assert_eq!(table.lookup("C"), Some(2));
    assert_eq!(table.lookup("D"), Some(10));
    // A `#define` without a value binds nothing.
    assert_eq!(evaluated("#define GUARD\n", &mut table).unwrap(), 0);
    assert_eq!(table.lookup("GUARD"), None);
}

#[test]
fn evaluation_errors_say_what_is_wrong() {
    let mut table = SymbolTable::new();
    table.insert("BIG", 1 << 40);
    let eval = Evaluator::new(&table);
    let expr = |s: &str| parse_expr_str(s).unwrap();
    assert!(matches!(eval.i32(&expr("NOPE")), Err(EvalError::UnknownSymbol(n)) if n == "NOPE"));
    assert!(matches!(eval.i32(&expr("BIG")), Err(EvalError::OutOfRange(n)) if n == 1 << 40));
    assert!(matches!(
        eval.i32(&expr("99999999999999999999")),
        Err(EvalError::InvalidNumber(_))
    ));
    assert!(matches!(eval.i32(&expr("\"x\"")), Err(EvalError::TypeMismatch { .. })));
    assert!(matches!(
        eval.call(&expr("1"), "Set"),
        Err(EvalError::ExpectedConstructor { .. })
    ));
    assert!(matches!(
        eval.call(&expr("Get(1)"), "Set"),
        Err(EvalError::WrongConstructor { .. })
    ));
    assert!(matches!(eval.i32(&expr("2147483647 + 1")), Err(EvalError::Overflow)));
    assert_eq!(eval.i32(&expr("NULL")).unwrap(), 0);
    assert_eq!(eval.u32(&expr("NULL")).unwrap(), 0);
}

/// Values are equal wherever they stand.
#[test]
fn a_span_does_not_count_in_a_comparison() {
    let at = |start: usize, value: i32| Spanned {
        span: Span { file: FileId(0), start, end: start + 1 },
        value,
    };
    assert!(at(1, 7) == at(5, 7));
    assert!(at(1, 7) != at(1, 8));
}

// ── Values and order ─────────────────────────────────────────────────────────

fn number(n: i32) -> Value {
    Value::Scalar(Scalar::I32(n))
}

#[test]
fn values_are_put_in_order() {
    let sorted = sort(vec![number(3), number(-1), number(2)]);
    let ranks: Vec<i128> = sorted.iter().map(|v| v.rank_of().0).collect();
    assert_eq!(ranks, [-1, 2, 3]);
}

#[test]
fn growing_keeps_the_elements() {
    let mut l = List { element: Box::new(number(7)), items: vec![number(1)] };
    l.grow(3);
    let items: Vec<i128> = l.items.iter().map(def_compiler::value::number_of).collect();
    assert_eq!(items, [1, 7, 7]);
    l.grow(2);
    assert_eq!(l.items.len(), 3);
}

#[test]
fn a_map_without_an_order_keeps_the_order_of_its_keys() {
    let mut m = Mapping {
        ordered: false,
        key: Box::new(number(0)),
        value: Box::new(number(0)),
        entries: vec![],
    };
    m.put(number(5), number(1));
    m.put(number(2), number(2));
    m.put(number(5), number(3));
    let entries: Vec<(i128, i128)> = m
        .entries
        .iter()
        .map(|p| (def_compiler::value::number_of(&p.key), def_compiler::value::number_of(&p.value)))
        .collect();
    assert_eq!(entries, [(5, 3), (2, 2)]);
}

/// Decimal text is rounded to the nearest number, ties to even.
#[test]
fn numbers_are_rounded_to_the_nearest() {
    for text in ["0.1", "1e10", "16777217", "3.4028235e38", "1e-45", "0.3333333333", "-2.5"] {
        let expected: f32 = text.parse().unwrap();
        assert_eq!(Single::parse(text).unwrap().bits, expected.to_bits(), "{text}");
    }
    assert_eq!(Single::from_i64(16777219).bits, 16777219f32.to_bits());
    let sum = Single::parse("0.1").unwrap().plus(Single::parse("0.2").unwrap());
    assert_eq!(sum.bits, (0.1f32 + 0.2f32).to_bits());
    assert_eq!(Single::parse("-7.9").unwrap().to_i32(), -7);
    assert!(Single::parse("x").is_none());
}
