//! References to definitions and to strings.

use vstd::prelude::*;

use crate::eval;
use crate::eval::EvalErrorView;
use crate::lower::env;
use crate::lower::env::{Context, LowerErrorView};
use crate::text::ast::ExprView;
use crate::text::base::Spanned;

verus! {

/// A string, and a symbol without a value, stand for the definition of that name, signed or
/// not; where there is none, the reference is unresolved, at its place.
pub proof fn a_reference_finds_its_definition(cx: Context, e: Spanned<ExprView>, name: Seq<char>)
    requires
        e.value == ExprView::String(name) || (e.value == ExprView::Symbol(name)
            && !cx.symbols.contains_key(name) && eval::as_u32(cx.symbols, e.value) == Err::<
            u32,
            EvalErrorView,
        >(EvalErrorView::UnknownSymbol(name)) && eval::as_i32(cx.symbols, e.value) == Err::<
            i32,
            EvalErrorView,
        >(EvalErrorView::UnknownSymbol(name))),
        name.len() > 0,
    ensures
        (cx.defs)(name) matches Some(o) ==> env::reference(cx, e) == Ok::<u32, LowerErrorView>(o)
            && env::reference_i32(cx, e) == Ok::<i32, LowerErrorView>(o as i32),
        (cx.defs)(name) is None ==> env::reference(cx, e) == Err::<u32, LowerErrorView>(
            LowerErrorView::UnresolvedReference(name, Some(e.span)),
        ) && env::reference_i32(cx, e) == Err::<i32, LowerErrorView>(
            LowerErrorView::UnresolvedReference(name, Some(e.span)),
        ),
{
}

/// What has a value is that number, whatever definitions there are; the empty string is the
/// reference to nothing.
pub proof fn a_number_is_no_reference(cx: Context, e: Spanned<ExprView>)
    ensures
        !(e.value is String) ==> (eval::as_u32(cx.symbols, e.value) matches Ok(n)
            ==> env::reference(cx, e) == Ok::<u32, LowerErrorView>(n)),
        !(e.value is String) ==> (eval::as_i32(cx.symbols, e.value) matches Ok(n)
            ==> env::reference_i32(cx, e) == Ok::<i32, LowerErrorView>(n)),
        !(e.value is String) ==> (eval::as_i32(cx.symbols, e.value) matches Ok(n)
            ==> env::string_offset(cx, e) == Ok::<i32, LowerErrorView>(n)),
        (e.value matches ExprView::String(s) && s.len() == 0) ==> env::reference_i32(cx, e) == Ok::<
            i32,
            LowerErrorView,
        >(0i32) && env::string_offset(cx, e) == Ok::<i32, LowerErrorView>(-1i32),
{
}

/// A string stands for its offset in the table of names; one that the table does not hold is
/// unresolved.
pub proof fn a_string_stands_for_its_offset(cx: Context, e: Spanned<ExprView>, s: Seq<char>)
    requires
        e.value == ExprView::String(s),
        s.len() > 0,
    ensures
        (cx.strings)(s) matches Some(o) ==> env::string_offset(cx, e) == Ok::<i32, LowerErrorView>(
            o as i32,
        ),
        (cx.strings)(s) is None ==> env::string_offset(cx, e) == Err::<i32, LowerErrorView>(
            LowerErrorView::UnresolvedReference(s, Some(e.span)),
        ),
{
}

} // verus!
