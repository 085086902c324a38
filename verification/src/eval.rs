//! Evaluation of expressions.
//!
//! How an expression is read depends on the type of the field it is for. Each
//! reading has a spec function from the bound symbols and the expression to the
//! value or the error.

use vstd::prelude::*;

use crate::single;
use crate::single::Single;
use crate::strings;
use crate::strings::{chars_of, parse_i64, push_int, push_text, same, text_between};
use crate::text::ast;
use crate::text::ast::{number_is_float, Call, CallView, Expr, ExprView};
use crate::text::base;
use crate::text::base::Spanned;
use crate::text::symbols;
use crate::text::symbols::SymbolTable;

verus! {

broadcast use base::group_views;

/// Bound symbols.
pub type Symbols = Map<Seq<char>, i64>;

/// Why an expression cannot be read as a type.
#[derive(Debug)]
pub enum EvalError {
    UnknownSymbol(String),
    OutOfRange(i64),
    Overflow,
    /// A numeric literal that is not a number of the wanted kind, such as an
    /// integer that is too large.
    InvalidNumber(String),
    /// The expression's shape is not one that the field's type accepts.
    TypeMismatch { expected: &'static str, found: &'static str },
    ExpectedConstructor { found: &'static str },
    WrongConstructor { expected: String, found: String },
}

/// What an [`EvalError`] says.
#[allow(inconsistent_fields)]
pub enum EvalErrorView {
    UnknownSymbol(Seq<char>),
    OutOfRange(i64),
    Overflow,
    InvalidNumber(Seq<char>),
    TypeMismatch { expected: Seq<char>, found: Seq<char> },
    ExpectedConstructor { found: Seq<char> },
    WrongConstructor { expected: Seq<char>, found: Seq<char> },
}

impl View for EvalError {
    type V = EvalErrorView;

    open spec fn view(&self) -> EvalErrorView {
        match *self {
            EvalError::UnknownSymbol(s) => EvalErrorView::UnknownSymbol(s@),
            EvalError::OutOfRange(n) => EvalErrorView::OutOfRange(n),
            EvalError::Overflow => EvalErrorView::Overflow,
            EvalError::InvalidNumber(s) => EvalErrorView::InvalidNumber(s@),
            EvalError::TypeMismatch { expected, found } => EvalErrorView::TypeMismatch {
                expected: expected@,
                found: found@,
            },
            EvalError::ExpectedConstructor { found } => EvalErrorView::ExpectedConstructor {
                found: found@,
            },
            EvalError::WrongConstructor { expected, found } => EvalErrorView::WrongConstructor {
                expected: expected@,
                found: found@,
            },
        }
    }
}

impl EvalErrorView {
    /// The message of the error.
    pub open spec fn message(self) -> Seq<char> {
        match self {
            EvalErrorView::UnknownSymbol(s) => "unknown symbol "@ + s,
            EvalErrorView::OutOfRange(n) => "value "@ + strings::int_text(n as int)
                + " out of range"@,
            EvalErrorView::Overflow => "arithmetic overflow"@,
            EvalErrorView::InvalidNumber(s) => "invalid number "@ + s,
            EvalErrorView::TypeMismatch { expected, found } => "expected "@ + expected + ", found "@
                + found,
            EvalErrorView::ExpectedConstructor { found } => "expected a constructor, found "@
                + found,
            EvalErrorView::WrongConstructor { expected, found } => "expected constructor "@
                + expected + ", found "@ + found,
        }
    }
}

impl EvalError {
    /// The message of the error.
    pub fn message(&self) -> (r: String)
        ensures
            r@ == self@.message(),
    {
        let mut out = String::new();
        match self {
            EvalError::UnknownSymbol(s) => {
                push_text(&mut out, "unknown symbol ");
                push_text(&mut out, s.as_str());
            },
            EvalError::OutOfRange(n) => {
                push_text(&mut out, "value ");
                push_int(&mut out, *n);
                push_text(&mut out, " out of range");
            },
            EvalError::Overflow => push_text(&mut out, "arithmetic overflow"),
            EvalError::InvalidNumber(s) => {
                push_text(&mut out, "invalid number ");
                push_text(&mut out, s.as_str());
            },
            EvalError::TypeMismatch { expected, found } => {
                push_text(&mut out, "expected ");
                push_text(&mut out, expected);
                push_text(&mut out, ", found ");
                push_text(&mut out, found);
            },
            EvalError::ExpectedConstructor { found } => {
                push_text(&mut out, "expected a constructor, found ");
                push_text(&mut out, found);
            },
            EvalError::WrongConstructor { expected, found } => {
                push_text(&mut out, "expected constructor ");
                push_text(&mut out, expected.as_str());
                push_text(&mut out, ", found ");
                push_text(&mut out, found.as_str());
            },
        }
        assert(out@ =~= self@.message());
        out
    }
}

// ── Readings, mathematically ─────────────────────────────────────────────────

/// A short name for an expression's shape.
pub open spec fn kind_name(e: ExprView) -> Seq<char> {
    match e {
        ExprView::Number(_) => "a number"@,
        ExprView::Bool(_) => "a boolean"@,
        ExprView::String(_) => "a string literal"@,
        ExprView::Symbol(_) => "a symbol"@,
        ExprView::Constructor(_) => "a constructor"@,
        ExprView::BitOr(_) => "a bitwise-or expression"@,
        ExprView::Add(_) => "an additive expression"@,
    }
}

pub open spec fn mismatch(expected: Seq<char>, e: ExprView) -> EvalErrorView {
    EvalErrorView::TypeMismatch { expected, found: kind_name(e) }
}

/// Whether `name` is the "no reference" sentinel, which every integer reading
/// takes for 0.
pub open spec fn is_null(name: Seq<char>) -> bool {
    name == "NULL"@
}

/// `s` without the `f`s that it ends in.
pub open spec fn without_suffix(s: Seq<char>) -> Seq<char>
    decreases s.len(),
{
    if s.len() > 0 && s.last() == 'f' {
        without_suffix(s.drop_last())
    } else {
        s
    }
}

/// An integer literal.
pub open spec fn integer_literal(s: Seq<char>) -> Result<i64, EvalErrorView> {
    match strings::i64_text(s) {
        Some(n) => Ok(n),
        None => Err(EvalErrorView::InvalidNumber(s)),
    }
}

/// A real literal.
pub open spec fn real_literal(s: Seq<char>) -> Result<Single, EvalErrorView> {
    match single::single_text(without_suffix(s)) {
        Some(x) => Ok(x),
        None => Err(EvalErrorView::InvalidNumber(s)),
    }
}

pub open spec fn fit_i32(n: i64) -> Result<i32, EvalErrorView> {
    if i32::MIN <= n <= i32::MAX {
        Ok(n as i32)
    } else {
        Err(EvalErrorView::OutOfRange(n))
    }
}

pub open spec fn fit_u32(n: i64) -> Result<u32, EvalErrorView> {
    if 0 <= n <= u32::MAX {
        Ok(n as u32)
    } else {
        Err(EvalErrorView::OutOfRange(n))
    }
}

/// The number that a symbol is bound to.
pub open spec fn symbol(syms: Symbols, name: Seq<char>) -> Result<i64, EvalErrorView> {
    match symbols::found(syms, name) {
        Some(n) => Ok(n),
        None => Err(EvalErrorView::UnknownSymbol(name)),
    }
}

/// The expression read as an `i32`. A float-shaped literal loses its fraction.
pub open spec fn as_i32(syms: Symbols, e: ExprView) -> Result<i32, EvalErrorView>
    decreases e, 0nat,
{
    match e {
        ExprView::Number(s) => if ast::float_shaped(s) {
            match real_literal(s) {
                Ok(x) => Ok(x.truncated()),
                Err(e) => Err(e),
            }
        } else {
            match integer_literal(s) {
                Ok(n) => fit_i32(n),
                Err(e) => Err(e),
            }
        },
        ExprView::Bool(b) => Ok(
            if b {
                1
            } else {
                0
            },
        ),
        ExprView::Symbol(name) => if is_null(name) {
            Ok(0)
        } else {
            match symbol(syms, name) {
                Ok(n) => fit_i32(n),
                Err(e) => Err(e),
            }
        },
        ExprView::BitOr(v) => union_i32(syms, v, 0, 0),
        ExprView::Add(v) => sum_i32(syms, v, 0, 0),
        _ => Err(mismatch("a number"@, e)),
    }
}

pub open spec fn union_i32(syms: Symbols, v: Seq<Spanned<ExprView>>, k: int, acc: i32) -> Result<
    i32,
    EvalErrorView,
>
    decreases v, v.len() - k,
{
    if k < 0 || k >= v.len() {
        Ok(acc)
    } else {
        match as_i32(syms, v[k].value) {
            Ok(n) => union_i32(syms, v, k + 1, acc | n),
            Err(e) => Err(e),
        }
    }
}

pub open spec fn sum_i32(syms: Symbols, v: Seq<Spanned<ExprView>>, k: int, acc: i32) -> Result<
    i32,
    EvalErrorView,
>
    decreases v, v.len() - k,
{
    if k < 0 || k >= v.len() {
        Ok(acc)
    } else {
        match as_i32(syms, v[k].value) {
            Ok(n) => if i32::MIN <= acc + n <= i32::MAX {
                sum_i32(syms, v, k + 1, (acc + n) as i32)
            } else {
                Err(EvalErrorView::Overflow)
            },
            Err(e) => Err(e),
        }
    }
}

/// The expression read as a `u32`. A float-shaped literal has no such reading.
pub open spec fn as_u32(syms: Symbols, e: ExprView) -> Result<u32, EvalErrorView>
    decreases e, 0nat,
{
    match e {
        ExprView::Number(s) => if ast::float_shaped(s) {
            Err(mismatch("a number"@, e))
        } else {
            match integer_literal(s) {
                Ok(n) => fit_u32(n),
                Err(e) => Err(e),
            }
        },
        ExprView::Bool(b) => Ok(
            if b {
                1
            } else {
                0
            },
        ),
        ExprView::Symbol(name) => if is_null(name) {
            Ok(0)
        } else {
            match symbol(syms, name) {
                Ok(n) => fit_u32(n),
                Err(e) => Err(e),
            }
        },
        ExprView::BitOr(v) => union_u32(syms, v, 0, 0),
        ExprView::Add(v) => sum_u32(syms, v, 0, 0),
        _ => Err(mismatch("a number"@, e)),
    }
}

pub open spec fn union_u32(syms: Symbols, v: Seq<Spanned<ExprView>>, k: int, acc: u32) -> Result<
    u32,
    EvalErrorView,
>
    decreases v, v.len() - k,
{
    if k < 0 || k >= v.len() {
        Ok(acc)
    } else {
        match as_u32(syms, v[k].value) {
            Ok(n) => union_u32(syms, v, k + 1, acc | n),
            Err(e) => Err(e),
        }
    }
}

pub open spec fn sum_u32(syms: Symbols, v: Seq<Spanned<ExprView>>, k: int, acc: u32) -> Result<
    u32,
    EvalErrorView,
>
    decreases v, v.len() - k,
{
    if k < 0 || k >= v.len() {
        Ok(acc)
    } else {
        match as_u32(syms, v[k].value) {
            Ok(n) => if acc + n <= u32::MAX {
                sum_u32(syms, v, k + 1, (acc + n) as u32)
            } else {
                Err(EvalErrorView::Overflow)
            },
            Err(e) => Err(e),
        }
    }
}

/// The expression read as a single-precision number. There is no "no reference"
/// here: `NULL` is a symbol like any other.
pub open spec fn as_single(syms: Symbols, e: ExprView) -> Result<Single, EvalErrorView>
    decreases e, 0nat,
{
    match e {
        ExprView::Number(s) => if ast::float_shaped(s) {
            real_literal(s)
        } else {
            match integer_literal(s) {
                Ok(n) => Ok(single::of_integer(n as int)),
                Err(e) => Err(e),
            }
        },
        ExprView::Symbol(name) => match symbol(syms, name) {
            Ok(n) => Ok(single::of_integer(n as int)),
            Err(e) => Err(e),
        },
        ExprView::Add(v) => sum_single(syms, v, 0, Single { bits: 0 }),
        _ => Err(mismatch("a number"@, e)),
    }
}

pub open spec fn sum_single(
    syms: Symbols,
    v: Seq<Spanned<ExprView>>,
    k: int,
    acc: Single,
) -> Result<Single, EvalErrorView>
    decreases v, v.len() - k,
{
    if k < 0 || k >= v.len() {
        Ok(acc)
    } else {
        match as_single(syms, v[k].value) {
            Ok(x) => sum_single(syms, v, k + 1, acc.sum(x)),
            Err(e) => Err(e),
        }
    }
}

/// The expression read as a truth value.
pub open spec fn as_bool(e: ExprView) -> Result<bool, EvalErrorView> {
    match e {
        ExprView::Bool(b) => Ok(b),
        ExprView::Symbol(s) => if s == "true"@ || s == "TRUE"@ {
            Ok(true)
        } else if s == "false"@ || s == "FALSE"@ {
            Ok(false)
        } else {
            Err(mismatch("a boolean"@, e))
        },
        _ => Err(mismatch("a boolean"@, e)),
    }
}

/// The expression read as a string. A symbol stands for its own name.
pub open spec fn as_string(e: ExprView) -> Result<Seq<char>, EvalErrorView> {
    match e {
        ExprView::String(s) => Ok(s),
        ExprView::Symbol(s) => Ok(s),
        _ => Err(mismatch("a string"@, e)),
    }
}

/// The expression read as an index.
pub open spec fn as_usize(syms: Symbols, e: ExprView) -> Result<usize, EvalErrorView> {
    match as_i32(syms, e) {
        Ok(n) => if n >= 0 {
            Ok(n as usize)
        } else {
            Err(EvalErrorView::OutOfRange(n as i64))
        },
        Err(e) => Err(e),
    }
}

/// The expression read as the constructor `name`.
pub open spec fn as_call(e: ExprView, name: Seq<char>) -> Result<CallView, EvalErrorView> {
    match e {
        ExprView::Constructor(c) => if c.name == name {
            Ok(c)
        } else {
            Err(EvalErrorView::WrongConstructor { expected: name, found: c.name })
        },
        _ => Err(EvalErrorView::ExpectedConstructor { found: "not a constructor"@ }),
    }
}

/// The view of what an evaluation gave, where the value is its own view.
pub open spec fn evaluated<T>(r: Result<T, EvalError>) -> Result<T, EvalErrorView> {
    match r {
        Ok(v) => Ok(v),
        Err(e) => Err(e@),
    }
}

/// The value of an evaluation, or `default` where there is none.
pub open spec fn value_or<T>(r: Result<T, EvalErrorView>, default: T) -> T {
    match r {
        Ok(v) => v,
        Err(_) => default,
    }
}

// ── The evaluator ────────────────────────────────────────────────────────────

/// Whether `name` is the "no reference" sentinel.
pub fn is_null_ref(name: &str) -> (r: bool)
    ensures
        r == is_null(name@),
{
    same(name, "NULL")
}

/// Read an integer literal.
fn parse_number_i64(s: &str) -> (r: Result<i64, EvalError>)
    ensures
        evaluated(r) == integer_literal(s@),
{
    match parse_i64(s) {
        Some(n) => Ok(n),
        None => Err(EvalError::InvalidNumber(s.to_owned())),
    }
}

/// Read a real literal, without the `f` that it may end in.
fn parse_number_real(s: &str) -> (r: Result<Single, EvalError>)
    ensures
        evaluated(r) == real_literal(s@),
{
    let chars = chars_of(s);
    let mut n: usize = chars.len();
    assert(chars@.take(n as int) == s@);
    while n > 0 && chars[n - 1] == 'f'
        invariant
            n <= chars@.len(),
            without_suffix(chars@.take(n as int)) == without_suffix(s@),
        decreases n,
    {
        assert(chars@.take(n as int).drop_last() == chars@.take(n as int - 1));
        n = n - 1;
    }
    assert(chars@.take(n as int) == chars@.subrange(0, n as int));
    let text = text_between(&chars, 0, n);
    match Single::parse(text.as_str()) {
        Some(x) => Ok(x),
        None => Err(EvalError::InvalidNumber(s.to_owned())),
    }
}

/// A short name for an expression's shape.
pub fn expr_kind_name(e: &Expr) -> (r: &'static str)
    ensures
        r@ == kind_name(e@),
{
    match e {
        Expr::Number(_) => "a number",
        Expr::Bool(_) => "a boolean",
        Expr::String(_) => "a string literal",
        Expr::Symbol(_) => "a symbol",
        Expr::Constructor(_) => "a constructor",
        Expr::BitOr(_) => "a bitwise-or expression",
        Expr::Add(_) => "an additive expression",
    }
}

/// Reads expressions against a table of symbols.
#[derive(Clone, Copy)]
pub struct Evaluator<'s> {
    symbols: &'s SymbolTable,
}

impl<'s> View for Evaluator<'s> {
    type V = Symbols;

    closed spec fn view(&self) -> Symbols {
        self.symbols@
    }
}

fn number_expected(e: &Expr) -> (r: EvalError)
    ensures
        r@ == mismatch("a number"@, e@),
{
    EvalError::TypeMismatch { expected: "a number", found: expr_kind_name(e) }
}

impl<'s> Evaluator<'s> {
    pub fn new(symbols: &'s SymbolTable) -> (r: Self)
        ensures
            r@ == symbols@,
    {
        Evaluator { symbols }
    }

    fn lookup(&self, name: &str) -> (r: Result<i64, EvalError>)
        ensures
            evaluated(r) == symbol(self@, name@),
    {
        match self.symbols.lookup(name) {
            Some(n) => Ok(n),
            None => Err(EvalError::UnknownSymbol(name.to_owned())),
        }
    }

    pub fn i32(&self, expr: &Spanned<Expr>) -> (r: Result<i32, EvalError>)
        ensures
            evaluated(r) == as_i32(self@, expr@.value),
        decreases expr,
    {
        proof {
            ast::lemma_expr_view(expr.value);
        }
        match &expr.value {
            Expr::Number(s) => {
                if number_is_float(s.as_str()) {
                    match parse_number_real(s.as_str()) {
                        Ok(x) => Ok(x.to_i32()),
                        Err(e) => Err(e),
                    }
                } else {
                    match parse_number_i64(s.as_str()) {
                        Ok(n) => i32_in_range(n),
                        Err(e) => Err(e),
                    }
                }
            },
            Expr::Bool(b) => Ok(
                if *b {
                    1
                } else {
                    0
                },
            ),
            Expr::Symbol(name) => if is_null_ref(name.as_str()) {
                Ok(0)
            } else {
                match self.lookup(name.as_str()) {
                    Ok(n) => i32_in_range(n),
                    Err(e) => Err(e),
                }
            },
            Expr::BitOr(parts) => {
                let ghost v = base::views(parts@);
                let mut acc: i32 = 0;
                let mut k: usize = 0;
                while k < parts.len()
                    invariant
                        k <= parts@.len(),
                        v == base::views(parts@),
                        expr.value == Expr::BitOr(*parts),
                        union_i32(self@, v, k as int, acc) == union_i32(self@, v, 0, 0),
                        as_i32(self@, expr@.value) == union_i32(self@, v, 0, 0),
                    decreases parts@.len() - k,
                {
                    assert(v[k as int] == parts@[k as int]@);
                    match self.i32(&parts[k]) {
                        Ok(n) => {
                            acc = acc | n;
                        },
                        Err(e) => return Err(e),
                    }
                    k = k + 1;
                }
                Ok(acc)
            },
            Expr::Add(parts) => {
                let ghost v = base::views(parts@);
                let mut acc: i32 = 0;
                let mut k: usize = 0;
                while k < parts.len()
                    invariant
                        k <= parts@.len(),
                        v == base::views(parts@),
                        expr.value == Expr::Add(*parts),
                        sum_i32(self@, v, k as int, acc) == sum_i32(self@, v, 0, 0),
                        as_i32(self@, expr@.value) == sum_i32(self@, v, 0, 0),
                    decreases parts@.len() - k,
                {
                    assert(v[k as int] == parts@[k as int]@);
                    match self.i32(&parts[k]) {
                        Ok(n) => {
                            let total: i64 = acc as i64 + n as i64;
                            if total < i32::MIN as i64 || total > i32::MAX as i64 {
                                return Err(EvalError::Overflow);
                            }
                            acc = total as i32;
                        },
                        Err(e) => return Err(e),
                    }
                    k = k + 1;
                }
                Ok(acc)
            },
            _ => Err(number_expected(&expr.value)),
        }
    }

    pub fn u32(&self, expr: &Spanned<Expr>) -> (r: Result<u32, EvalError>)
        ensures
            evaluated(r) == as_u32(self@, expr@.value),
        decreases expr,
    {
        proof {
            ast::lemma_expr_view(expr.value);
        }
        match &expr.value {
            Expr::Number(s) => {
                if number_is_float(s.as_str()) {
                    Err(number_expected(&expr.value))
                } else {
                    match parse_number_i64(s.as_str()) {
                        Ok(n) => u32_in_range(n),
                        Err(e) => Err(e),
                    }
                }
            },
            Expr::Bool(b) => Ok(
                if *b {
                    1
                } else {
                    0
                },
            ),
            Expr::Symbol(name) => if is_null_ref(name.as_str()) {
                Ok(0)
            } else {
                match self.lookup(name.as_str()) {
                    Ok(n) => u32_in_range(n),
                    Err(e) => Err(e),
                }
            },
            Expr::BitOr(parts) => {
                let ghost v = base::views(parts@);
                let mut acc: u32 = 0;
                let mut k: usize = 0;
                while k < parts.len()
                    invariant
                        k <= parts@.len(),
                        v == base::views(parts@),
                        expr.value == Expr::BitOr(*parts),
                        union_u32(self@, v, k as int, acc) == union_u32(self@, v, 0, 0),
                        as_u32(self@, expr@.value) == union_u32(self@, v, 0, 0),
                    decreases parts@.len() - k,
                {
                    assert(v[k as int] == parts@[k as int]@);
                    match self.u32(&parts[k]) {
                        Ok(n) => {
                            acc = acc | n;
                        },
                        Err(e) => return Err(e),
                    }
                    k = k + 1;
                }
                Ok(acc)
            },
            Expr::Add(parts) => {
                let ghost v = base::views(parts@);
                let mut acc: u32 = 0;
                let mut k: usize = 0;
                while k < parts.len()
                    invariant
                        k <= parts@.len(),
                        v == base::views(parts@),
                        expr.value == Expr::Add(*parts),
                        sum_u32(self@, v, k as int, acc) == sum_u32(self@, v, 0, 0),
                        as_u32(self@, expr@.value) == sum_u32(self@, v, 0, 0),
                    decreases parts@.len() - k,
                {
                    assert(v[k as int] == parts@[k as int]@);
                    match self.u32(&parts[k]) {
                        Ok(n) => {
                            let total: u64 = acc as u64 + n as u64;
                            if total > u32::MAX as u64 {
                                return Err(EvalError::Overflow);
                            }
                            acc = total as u32;
                        },
                        Err(e) => return Err(e),
                    }
                    k = k + 1;
                }
                Ok(acc)
            },
            _ => Err(number_expected(&expr.value)),
        }
    }

    pub fn single(&self, expr: &Spanned<Expr>) -> (r: Result<Single, EvalError>)
        ensures
            evaluated(r) == as_single(self@, expr@.value),
        decreases expr,
    {
        proof {
            ast::lemma_expr_view(expr.value);
        }
        match &expr.value {
            Expr::Number(s) => {
                if number_is_float(s.as_str()) {
                    parse_number_real(s.as_str())
                } else {
                    match parse_number_i64(s.as_str()) {
                        Ok(n) => Ok(Single::from_i64(n)),
                        Err(e) => Err(e),
                    }
                }
            },
            Expr::Symbol(name) => match self.lookup(name.as_str()) {
                Ok(n) => Ok(Single::from_i64(n)),
                Err(e) => Err(e),
            },
            Expr::Add(parts) => {
                let ghost v = base::views(parts@);
                let mut acc = Single { bits: 0 };
                let mut k: usize = 0;
                while k < parts.len()
                    invariant
                        k <= parts@.len(),
                        v == base::views(parts@),
                        expr.value == Expr::Add(*parts),
                        sum_single(self@, v, k as int, acc) == as_single(self@, expr@.value),
                    decreases parts@.len() - k,
                {
                    assert(v[k as int] == parts@[k as int]@);
                    match self.single(&parts[k]) {
                        Ok(x) => {
                            acc = acc.plus(x);
                        },
                        Err(e) => return Err(e),
                    }
                    k = k + 1;
                }
                Ok(acc)
            },
            _ => Err(number_expected(&expr.value)),
        }
    }

    pub fn bool(&self, expr: &Spanned<Expr>) -> (r: Result<bool, EvalError>)
        ensures
            evaluated(r) == as_bool(expr@.value),
    {
        match &expr.value {
            Expr::Bool(b) => return Ok(*b),
            Expr::Symbol(s) => {
                if same(s.as_str(), "true") || same(s.as_str(), "TRUE") {
                    return Ok(true);
                }
                if same(s.as_str(), "false") || same(s.as_str(), "FALSE") {
                    return Ok(false);
                }
            },
            _ => {},
        }
        Err(EvalError::TypeMismatch { expected: "a boolean", found: expr_kind_name(&expr.value) })
    }

    pub fn string<'e>(&self, expr: &'e Spanned<Expr>) -> (r: Result<&'e str, EvalError>)
        ensures
            (match r {
                Ok(s) => Ok(s@),
                Err(e) => Err(e@),
            }) == as_string(expr@.value),
    {
        match &expr.value {
            Expr::String(s) => Ok(s.as_str()),
            Expr::Symbol(s) => Ok(s.as_str()),
            _ => Err(
                EvalError::TypeMismatch {
                    expected: "a string",
                    found: expr_kind_name(&expr.value),
                },
            ),
        }
    }

    /// Read an index.
    pub fn usize(&self, expr: &Spanned<Expr>) -> (r: Result<usize, EvalError>)
        ensures
            evaluated(r) == as_usize(self@, expr@.value),
    {
        match self.i32(expr) {
            Ok(n) => if n >= 0 {
                Ok(n as usize)
            } else {
                Err(EvalError::OutOfRange(n as i64))
            },
            Err(e) => Err(e),
        }
    }

    /// The call that `expr` is, which must be of the constructor `name`.
    pub fn call<'e>(&self, expr: &'e Spanned<Expr>, name: &str) -> (r: Result<&'e Call, EvalError>)
        ensures
            (match r {
                Ok(c) => Ok(c@),
                Err(e) => Err(e@),
            }) == as_call(expr@.value, name@),
    {
        proof {
            ast::lemma_expr_view(expr.value);
        }
        match &expr.value {
            Expr::Constructor(call) => if same(call.name.as_str(), name) {
                Ok(call)
            } else {
                Err(
                    EvalError::WrongConstructor {
                        expected: name.to_owned(),
                        found: call.name.clone(),
                    },
                )
            },
            _ => Err(EvalError::ExpectedConstructor { found: "not a constructor" }),
        }
    }

    /// Argument `idx` as an `i32`, or `default` where there is none.
    pub fn arg_i32_or(&self, args: &Vec<Spanned<Expr>>, idx: usize, default: i32) -> (r: i32)
        ensures
            r == arg_i32(self@, base::views(args@), idx as int, default),
    {
        if idx < args.len() {
            match self.i32(&args[idx]) {
                Ok(v) => v,
                Err(_) => default,
            }
        } else {
            default
        }
    }

    /// Argument `idx` as a real number, or `default` where there is none.
    pub fn arg_single_or(&self, args: &Vec<Spanned<Expr>>, idx: usize, default: Single) -> (r: Single)
        ensures
            r == arg_single(self@, base::views(args@), idx as int, default),
    {
        if idx < args.len() {
            match self.single(&args[idx]) {
                Ok(v) => v,
                Err(_) => default,
            }
        } else {
            default
        }
    }

    /// Argument `idx` as a `u32`, or `default` where there is none.
    pub fn arg_u32_or(&self, args: &Vec<Spanned<Expr>>, idx: usize, default: u32) -> (r: u32)
        ensures
            r == arg_u32(self@, base::views(args@), idx as int, default),
    {
        if idx < args.len() {
            match self.u32(&args[idx]) {
                Ok(v) => v,
                Err(_) => default,
            }
        } else {
            default
        }
    }

    /// Argument `idx` as a truth value, or `default` where there is none.
    pub fn arg_bool_or(&self, args: &Vec<Spanned<Expr>>, idx: usize, default: bool) -> (r: bool)
        ensures
            r == arg_bool(base::views(args@), idx as int, default),
    {
        if idx < args.len() {
            match self.bool(&args[idx]) {
                Ok(v) => v,
                Err(_) => default,
            }
        } else {
            default
        }
    }

    /// Argument `idx` as a string, or `default` where there is none.
    pub fn arg_string_or(&self, args: &Vec<Spanned<Expr>>, idx: usize, default: &str) -> (r: String)
        ensures
            r@ == (match arg_string(base::views(args@), idx as int) {
                Some(s) => s,
                None => default@,
            }),
    {
        match self.arg_string_opt(args, idx) {
            Some(s) => s,
            None => default.to_owned(),
        }
    }

    /// Argument `idx` as a string, if it is one.
    pub fn arg_string_opt(&self, args: &Vec<Spanned<Expr>>, idx: usize) -> (r: Option<String>)
        ensures
            base::opt_text(r) == arg_string(base::views(args@), idx as int),
    {
        if idx < args.len() {
            match self.string(&args[idx]) {
                Ok(s) => Some(s.to_owned()),
                Err(_) => None,
            }
        } else {
            None
        }
    }
}

// ── Positional arguments, mathematically ─────────────────────────────────────

/// Argument `i` read as an `i32`, or `default` where there is none or it has no
/// such reading.
pub open spec fn arg_i32(
    syms: Symbols,
    args: Seq<Spanned<ExprView>>,
    i: int,
    default: i32,
) -> i32 {
    if 0 <= i < args.len() {
        value_or(as_i32(syms, args[i].value), default)
    } else {
        default
    }
}

pub open spec fn arg_u32(
    syms: Symbols,
    args: Seq<Spanned<ExprView>>,
    i: int,
    default: u32,
) -> u32 {
    if 0 <= i < args.len() {
        value_or(as_u32(syms, args[i].value), default)
    } else {
        default
    }
}

pub open spec fn arg_single(
    syms: Symbols,
    args: Seq<Spanned<ExprView>>,
    i: int,
    default: Single,
) -> Single {
    if 0 <= i < args.len() {
        value_or(as_single(syms, args[i].value), default)
    } else {
        default
    }
}

pub open spec fn arg_bool(args: Seq<Spanned<ExprView>>, i: int, default: bool) -> bool {
    if 0 <= i < args.len() {
        value_or(as_bool(args[i].value), default)
    } else {
        default
    }
}

pub open spec fn arg_string(args: Seq<Spanned<ExprView>>, i: int) -> Option<Seq<char>> {
    if 0 <= i < args.len() {
        match as_string(args[i].value) {
            Ok(s) => Some(s),
            Err(_) => None,
        }
    } else {
        None
    }
}

fn i32_in_range(n: i64) -> (r: Result<i32, EvalError>)
    ensures
        evaluated(r) == fit_i32(n),
{
    if n < i32::MIN as i64 || n > i32::MAX as i64 {
        Err(EvalError::OutOfRange(n))
    } else {
        Ok(n as i32)
    }
}

fn u32_in_range(n: i64) -> (r: Result<u32, EvalError>)
    ensures
        evaluated(r) == fit_u32(n),
{
    if n < 0 || n > u32::MAX as i64 {
        Err(EvalError::OutOfRange(n))
    } else {
        Ok(n as u32)
    }
}

// ── Laws ─────────────────────────────────────────────────────────────────────

/// `NULL` is the number 0 wherever an integer is read, whether or not the table binds
/// it.
pub proof fn null_is_zero(syms: Symbols)
    ensures
        as_i32(syms, ExprView::Symbol("NULL"@)) == Ok::<i32, EvalErrorView>(0i32),
        as_u32(syms, ExprView::Symbol("NULL"@)) == Ok::<u32, EvalErrorView>(0u32),
        as_usize(syms, ExprView::Symbol("NULL"@)) == Ok::<usize, EvalErrorView>(0usize),
{
}

} // verus!
