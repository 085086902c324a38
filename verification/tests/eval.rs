//! Evaluation of expressions.

use def_compiler::eval::Evaluator;
use def_compiler::single::Single;
use def_compiler::text::ast::Expr;
use def_compiler::text::base::{Span, Spanned};
use def_compiler::text::parser::parse_expr_str;
use def_compiler::text::symbols::SymbolTable;

fn syms() -> Evaluator<'static> {
    let table = SymbolTable::new();
    Evaluator::new(Box::leak(Box::new(table)))
}

fn populated_syms(symbols: &[(&str, i64)]) -> Evaluator<'static> {
    let mut table = SymbolTable::new();
    for &(name, value) in symbols {
        table.insert(name, value);
    }
    Evaluator::new(Box::leak(Box::new(table)))
}

fn parse_expr(s: &str) -> Spanned<Expr> {
    parse_expr_str(s).unwrap()
}

fn no_span<T>(value: T) -> Spanned<T> {
    Spanned {
        span: Span::synthetic(),
        value,
    }
}

fn value_of(s: Single) -> f32 {
    f32::from_bits(s.bits)
}

fn expr_number(s: &str) -> Spanned<Expr> {
    no_span(Expr::Number(s.to_string()))
}

fn expr_symbol(s: &str) -> Spanned<Expr> {
    no_span(Expr::Symbol(s.to_string()))
}

fn expr_bool(b: bool) -> Spanned<Expr> {
    no_span(Expr::Bool(b))
}

fn expr_string(s: &str) -> Spanned<Expr> {
    no_span(Expr::String(s.to_string()))
}

#[test]
fn eval_i32() {
    assert_eq!(syms().i32(&parse_expr("42")).unwrap(), 42);
    assert_eq!(syms().i32(&parse_expr("-42")).unwrap(), -42);
}

#[test]
fn eval_u32_negative() {
    let e = parse_expr("-1");
    assert!(syms().u32(&e).is_err());
}

#[test]
fn eval_f32() {
    assert_eq!(value_of(syms().single(&parse_expr("64")).unwrap()), 64.0);
    assert_eq!(value_of(syms().single(&parse_expr("3.25")).unwrap()), 3.25);
}

#[test]
fn eval_bit_or() {
    let expr = parse_expr("1 | 2 | 4");
    assert_eq!(syms().u32(&expr).unwrap(), 7);
}

#[test]
fn eval_bit_or_on_float_is_error() {
    assert!(syms().single(&parse_expr("1 | 2")).is_err());
}

// ── Edges ────────────────────────────────────────────────────────────────────

#[test]
fn eval_bool_true() {
    assert!(syms().bool(&expr_bool(true)).unwrap());
}

#[test]
fn eval_bool_false() {
    assert!(!syms().bool(&expr_bool(false)).unwrap());
}

#[test]
fn eval_bool_true_symbol() {
    assert!(syms().bool(&expr_symbol("TRUE")).unwrap());
}

#[test]
fn eval_bool_false_symbol() {
    assert!(!syms().bool(&expr_symbol("FALSE")).unwrap());
}

#[test]
fn eval_bool_lowercase_true_symbol() {
    assert!(syms().bool(&expr_symbol("true")).unwrap());
}

#[test]
fn eval_bool_lowercase_false_symbol() {
    assert!(!syms().bool(&expr_symbol("false")).unwrap());
}

#[test]
fn eval_bool_btrue() {
    assert!(syms().bool(&parse_expr("BTRUE")).unwrap());
}

#[test]
fn eval_bool_bfalse() {
    assert!(!syms().bool(&parse_expr("BFALSE")).unwrap());
}

#[test]
fn eval_bool_number_is_error() {
    assert!(syms().bool(&expr_number("1")).is_err());
}

#[test]
fn eval_string_literal() {
    assert_eq!(syms().string(&expr_string("hello")).unwrap(), "hello");
}

#[test]
fn eval_string_symbol_returns_name_as_is() {
    assert_eq!(syms().string(&expr_symbol("MY_NAME")).unwrap(), "MY_NAME");
}

#[test]
fn eval_string_error_on_number() {
    assert!(syms().string(&expr_number("42")).is_err());
}

#[test]
fn eval_usize_positive() {
    assert_eq!(syms().usize(&expr_number("42")).unwrap(), 42);
}

#[test]
fn eval_usize_null_to_zero() {
    assert_eq!(syms().usize(&expr_symbol("NULL")).unwrap(), 0);
}

#[test]
fn eval_usize_error_on_negative() {
    assert!(syms().usize(&parse_expr("-1")).is_err());
}

#[test]
fn eval_i32_symbol_resolution() {
    let e = populated_syms(&[("PLAYER", 421), ("MAX_HEALTH", 100)]);
    assert_eq!(e.i32(&expr_symbol("PLAYER")).unwrap(), 421);
    assert_eq!(e.i32(&expr_symbol("MAX_HEALTH")).unwrap(), 100);
}

#[test]
fn eval_i32_unknown_symbol_error() {
    assert!(syms().i32(&expr_symbol("MISSING")).is_err());
}

#[test]
fn eval_i32_null_to_zero() {
    assert_eq!(syms().i32(&expr_symbol("NULL")).unwrap(), 0);
}

#[test]
fn eval_i32_float_truncation() {
    assert_eq!(syms().i32(&expr_number("3.14")).unwrap(), 3);
}

#[test]
fn eval_i32_negative_float_truncation() {
    assert_eq!(syms().i32(&expr_number("-2.9")).unwrap(), -2);
}

#[test]
fn eval_f32_trailing_f() {
    assert_eq!(value_of(syms().single(&expr_number("1.0f")).unwrap()), 1.0f32);
}

#[test]
fn eval_f32_rejects_null() {
    assert!(syms().single(&expr_symbol("NULL")).is_err());
}

#[test]
fn eval_f32_symbol_resolution() {
    let e = populated_syms(&[("SOME_VALUE", 7)]);
    assert_eq!(value_of(e.single(&expr_symbol("SOME_VALUE")).unwrap()), 7.0f32);
}

#[test]
fn eval_u32_null_to_zero() {
    assert_eq!(syms().u32(&expr_symbol("NULL")).unwrap(), 0);
}

#[test]
fn eval_u32_symbol_resolution() {
    let e = populated_syms(&[("FLAG_ONE", 1), ("FLAG_TWO", 2)]);
    assert_eq!(e.u32(&expr_symbol("FLAG_ONE")).unwrap(), 1);
    assert_eq!(e.u32(&expr_symbol("FLAG_TWO")).unwrap(), 2);
}
