//! Setting a value from an expression.

use vstd::prelude::*;

use crate::eval;
use crate::eval::Evaluator;
use crate::lower::env;
use crate::lower::env::{
    eval_def_string, resolve_ref_i32, semantic_error, Context, LowerEnv, LowerError, LowerErrorView,
};
use crate::reader;
use crate::reader::ReaderErrorView;
use crate::single::Single;
use crate::strings::same;
use crate::text::ast;
use crate::text::ast::{CallView, Expr, ExprView};
use crate::text::base;
use crate::text::base::{Span, Spanned};
use crate::value;
use crate::value::{
    copy_bytes, copy_members, copy_numbers, CaseView, Choice, ChoiceView, Compound, List, ListView,
    MapView, Mapping, Member, MemberView, Scalar, ScalarView, StructView, Value, ValueView,
};

verus! {

broadcast use base::group_views;

// ── Scalars ──────────────────────────────────────────────────────────────────

/// An integer within bounds.
pub open spec fn ranged(
    cx: Context,
    e: Spanned<ExprView>,
    lo: int,
    hi: int,
    message: Seq<char>,
) -> Result<i32, LowerErrorView> {
    match reader::located(eval::as_i32(cx.symbols, e.value), e.span) {
        Ok(v) => if lo <= v <= hi {
            Ok(v)
        } else {
            env::semantic(message)
        },
        Err(e) => Err(LowerErrorView::Reader(e)),
    }
}

/// One of the values of an enumeration.
pub open spec fn tabled(allowed: Seq<i32>, v: i32) -> Result<ScalarView, LowerErrorView> {
    if allowed.contains(v) {
        Ok(ScalarView::Enum { allowed, value: v })
    } else {
        env::semantic("enum value out of table"@)
    }
}

/// A scalar of the kind of `s` that holds what `e` says.
pub open spec fn scalar_from(cx: Context, s: ScalarView, e: Spanned<ExprView>) -> Result<
    ScalarView,
    LowerErrorView,
> {
    match s {
        ScalarView::Single(_) => match reader::located(
            eval::as_single(cx.symbols, e.value),
            e.span,
        ) {
            Ok(v) => Ok(ScalarView::Single(v)),
            Err(x) => Err(LowerErrorView::Reader(x)),
        },
        ScalarView::I32(_) => match reader::located(eval::as_i32(cx.symbols, e.value), e.span) {
            Ok(v) => Ok(ScalarView::I32(v)),
            Err(x) => Err(LowerErrorView::Reader(x)),
        },
        ScalarView::U32(_) => match reader::located(eval::as_u32(cx.symbols, e.value), e.span) {
            Ok(v) => Ok(ScalarView::U32(v)),
            Err(x) => Err(LowerErrorView::Reader(x)),
        },
        ScalarView::Bool(_) => match reader::located(eval::as_bool(e.value), e.span) {
            Ok(v) => Ok(ScalarView::Bool(v)),
            Err(x) => Err(LowerErrorView::Reader(x)),
        },
        ScalarView::Str(_) => match reader::located(eval::as_string(e.value), e.span) {
            Ok(v) => Ok(ScalarView::Str(v)),
            Err(x) => Err(LowerErrorView::Reader(x)),
        },
        ScalarView::WStr(_) => match reader::located(eval::as_string(e.value), e.span) {
            Ok(v) => Ok(ScalarView::WStr(v)),
            Err(x) => Err(LowerErrorView::Reader(x)),
        },
        ScalarView::PString(_) => match reader::located(eval::as_string(e.value), e.span) {
            Ok(v) => Ok(ScalarView::PString(vstd::utf8::encode_utf8(v))),
            Err(x) => Err(LowerErrorView::Reader(x)),
        },
        ScalarView::Enum { allowed, .. } => match env::reference_i32(cx, e) {
            Ok(v) => tabled(allowed, v),
            Err(x) => Err(x),
        },
        ScalarView::Flags(_) => match env::reference_i32(cx, e) {
            Ok(v) => Ok(ScalarView::Flags(v)),
            Err(x) => Err(x),
        },
        ScalarView::DefString(_) => match env::string_offset(cx, e) {
            Ok(v) => Ok(ScalarView::DefString(v)),
            Err(x) => Err(x),
        },
        ScalarView::DefIndex(_) => match env::reference_i32(cx, e) {
            Ok(v) => Ok(ScalarView::DefIndex(v)),
            Err(x) => Err(x),
        },
        ScalarView::U8(_) => match ranged(
            cx,
            e,
            0,
            255,
            "i32 value out of range for u8 (0..=255)"@,
        ) {
            Ok(v) => Ok(ScalarView::U8(v as u8)),
            Err(x) => Err(x),
        },
        ScalarView::U16(_) => match ranged(
            cx,
            e,
            0,
            65535,
            "i32 value out of range for u16 (0..=65535)"@,
        ) {
            Ok(v) => Ok(ScalarView::U16(v as u16)),
            Err(x) => Err(x),
        },
        ScalarView::U64(_) => match reader::located(eval::as_i32(cx.symbols, e.value), e.span) {
            Ok(v) => Ok(ScalarView::U64(v as u64)),
            Err(x) => Err(LowerErrorView::Reader(x)),
        },
        ScalarView::I8(_) => match ranged(
            cx,
            e,
            -128,
            127,
            "i32 value out of range for i8 (-128..=127)"@,
        ) {
            Ok(v) => Ok(ScalarView::I8(v as i8)),
            Err(x) => Err(x),
        },
        ScalarView::I16(_) => match ranged(
            cx,
            e,
            -32768,
            32767,
            "i32 value out of range for i16 (-32768..=32767)"@,
        ) {
            Ok(v) => Ok(ScalarView::I16(v as i16)),
            Err(x) => Err(x),
        },
    }
}

/// What setting a value gave, without what a failure left.
pub open spec fn outcome<T>(r: Result<(), LowerError>, v: T) -> Result<T, LowerErrorView> {
    match r {
        Ok(_) => Ok(v),
        Err(e) => Err(e@),
    }
}

/// A value that was set; or what a failure left of it, and the error.
pub type Applied<T> = Result<T, (T, LowerErrorView)>;

/// What setting a value gave.
pub open spec fn applied<T>(r: Result<(), LowerError>, v: T) -> Applied<T> {
    match r {
        Ok(_) => Ok(v),
        Err(e) => Err((v, e@)),
    }
}

/// A value that cannot be set in this way, and stays as it is.
pub open spec fn refused<T>(v: T, message: Seq<char>) -> Applied<T> {
    Err((v, LowerErrorView::Reader(ReaderErrorView::Semantic(message, None))))
}

fn ranged_i32(
    eval: &Evaluator,
    expr: &Spanned<Expr>,
    lo: i32,
    hi: i32,
    message: &'static str,
    cx: Ghost<Context>,
) -> (r: Result<i32, LowerError>)
    requires
        cx@.symbols == eval@,
    ensures
        env::lowered(r) == ranged(cx@, expr@, lo as int, hi as int, message@),
{
    match eval.eval_i32(expr) {
        Ok(v) => {
            if lo <= v && v <= hi {
                Ok(v)
            } else {
                Err(semantic_error(message))
            }
        },
        Err(e) => Err(LowerError::Reader(e)),
    }
}

/// Whether a number is in a table.
pub fn in_table(allowed: &Vec<i32>, v: i32) -> (r: bool)
    ensures
        r == allowed@.contains(v),
{
    let mut i: usize = 0;
    while i < allowed.len()
        invariant
            i <= allowed@.len(),
            forall|j: int| 0 <= j < i ==> allowed@[j] != v,
        decreases allowed@.len() - i,
    {
        if allowed[i] == v {
            assert(allowed@[i as int] == v);
            return true;
        }
        i = i + 1;
    }
    false
}

/// A scalar of the kind of `s` that holds what `expr` says.
pub fn read_scalar<E: LowerEnv>(
    s: &Scalar,
    expr: &Spanned<Expr>,
    eval: &Evaluator,
    env: &E,
) -> (r: Result<Scalar, LowerError>)
    ensures
        (match r {
            Ok(v) => Ok(v@),
            Err(e) => Err(e@),
        }) == scalar_from(env::context(eval@, env), s@, expr@),
{
    let ghost cx = env::context(eval@, env);
    match s {
        Scalar::Single(_) => match eval.eval_single(expr) {
            Ok(v) => Ok(Scalar::Single(v)),
            Err(e) => Err(LowerError::Reader(e)),
        },
        Scalar::I32(_) => match eval.eval_i32(expr) {
            Ok(v) => Ok(Scalar::I32(v)),
            Err(e) => Err(LowerError::Reader(e)),
        },
        Scalar::U32(_) => match eval.eval_u32(expr) {
            Ok(v) => Ok(Scalar::U32(v)),
            Err(e) => Err(LowerError::Reader(e)),
        },
        Scalar::Bool(_) => match eval.eval_bool(expr) {
            Ok(v) => Ok(Scalar::Bool(v)),
            Err(e) => Err(LowerError::Reader(e)),
        },
        Scalar::Str(_) => match eval.eval_string(expr) {
            Ok(v) => Ok(Scalar::Str(v)),
            Err(e) => Err(LowerError::Reader(e)),
        },
        Scalar::WStr(_) => match eval.eval_string(expr) {
            Ok(v) => Ok(Scalar::WStr(v)),
            Err(e) => Err(LowerError::Reader(e)),
        },
        Scalar::PString(_) => match eval.eval_string(expr) {
            Ok(v) => Ok(Scalar::PString(copy_bytes(v.as_str().as_bytes()))),
            Err(e) => Err(LowerError::Reader(e)),
        },
        Scalar::Enum { allowed, .. } => match resolve_ref_i32(eval, env, expr) {
            Ok(v) => {
                if in_table(allowed, v) {
                    Ok(Scalar::Enum { allowed: copy_numbers(allowed), value: v })
                } else {
                    Err(semantic_error("enum value out of table"))
                }
            },
            Err(e) => Err(e),
        },
        Scalar::Flags(_) => match resolve_ref_i32(eval, env, expr) {
            Ok(v) => Ok(Scalar::Flags(v)),
            Err(e) => Err(e),
        },
        Scalar::DefString(_) => match eval_def_string(eval, env, expr) {
            Ok(v) => Ok(Scalar::DefString(v)),
            Err(e) => Err(e),
        },
        Scalar::DefIndex(_) => match resolve_ref_i32(eval, env, expr) {
            Ok(v) => Ok(Scalar::DefIndex(v)),
            Err(e) => Err(e),
        },
        Scalar::U8(_) => match ranged_i32(
            eval,
            expr,
            0,
            255,
            "i32 value out of range for u8 (0..=255)",
            Ghost(cx),
        ) {
            Ok(v) => Ok(Scalar::U8(v as u8)),
            Err(e) => Err(e),
        },
        Scalar::U16(_) => match ranged_i32(
            eval,
            expr,
            0,
            65535,
            "i32 value out of range for u16 (0..=65535)",
            Ghost(cx),
        ) {
            Ok(v) => Ok(Scalar::U16(v as u16)),
            Err(e) => Err(e),
        },
        Scalar::U64(_) => match eval.eval_i32(expr) {
            Ok(v) => Ok(Scalar::U64(v as u64)),
            Err(e) => Err(LowerError::Reader(e)),
        },
        Scalar::I8(_) => match ranged_i32(
            eval,
            expr,
            -128,
            127,
            "i32 value out of range for i8 (-128..=127)",
            Ghost(cx),
        ) {
            Ok(v) => Ok(Scalar::I8(v as i8)),
            Err(e) => Err(e),
        },
        Scalar::I16(_) => match ranged_i32(
            eval,
            expr,
            -32768,
            32767,
            "i32 value out of range for i16 (-32768..=32767)",
            Ghost(cx),
        ) {
            Ok(v) => Ok(Scalar::I16(v as i16)),
            Err(e) => Err(e),
        },
    }
}

// ── Values that are no constructor ───────────────────────────────────────────

/// `v` set from an expression that is no constructor.
pub open spec fn from_plain(cx: Context, v: ValueView, e: Spanned<ExprView>) -> Applied<ValueView> {
    match v {
        ValueView::Scalar(s) => match scalar_from(cx, s, e) {
            Ok(s) => Ok(ValueView::Scalar(s)),
            Err(x) => Err((v, x)),
        },
        ValueView::Struct(_) => refused(v, "compound expects a constructor"@),
        ValueView::Variant(_) => refused(v, "variant expects a constructor naming its case"@),
        ValueView::List(_) => refused(v, "container field from single expression"@),
        ValueView::Mapping(_) => refused(v, "container field from single expression"@),
        ValueView::Complex => refused(v, "unhandled complex field"@),
        ValueView::Array => refused(v, "unhandled array field"@),
    }
}

/// A literal that stands for an argument that was left out.
pub open spec fn literal(text: Seq<char>) -> Spanned<ExprView> {
    Spanned { span: Span::nowhere(), value: ExprView::Number(text) }
}

fn apply_plain<E: LowerEnv>(
    v: &mut Value,
    expr: &Spanned<Expr>,
    eval: &Evaluator,
    env: &E,
) -> (r: Result<(), LowerError>)
    ensures
        applied(r, final(v)@) == from_plain(env::context(eval@, env), old(v)@, expr@),
{
    proof {
        value::lemma_value_view(*v);
    }
    let result = match &*v {
        Value::Scalar(s) => match read_scalar(s, expr, eval, env) {
            Ok(s) => s,
            Err(e) => return Err(e),
        },
        Value::Struct(_) => return Err(semantic_error("compound expects a constructor")),
        Value::Variant(_) => return Err(
            semantic_error("variant expects a constructor naming its case"),
        ),
        Value::List(_) => return Err(semantic_error("container field from single expression")),
        Value::Mapping(_) => return Err(semantic_error("container field from single expression")),
        Value::Complex => return Err(semantic_error("unhandled complex field")),
        Value::Array => return Err(semantic_error("unhandled array field")),
    };
    *v = Value::Scalar(result);
    proof {
        value::lemma_value_view(*v);
    }
    Ok(())
}

// ── Variants ─────────────────────────────────────────────────────────────────

/// The case that a constructor names.
pub open spec fn case_tag(class: Seq<char>, ctor: Seq<char>) -> Option<u32> {
    if class == "PhysicalPrimitiveInitType"@ {
        if ctor == "CPhysicalPrimitiveNull"@ {
            Some(0u32)
        } else if ctor == "CPhysicalPrimitiveSphere"@ {
            Some(1u32)
        } else if ctor == "CPhysicalPrimitiveCylinder"@ {
            Some(2u32)
        } else if ctor == "CPhysicalPrimitiveMesh"@ {
            Some(3u32)
        } else {
            None
        }
    } else if class == "ReactionMatchListElementsEntry"@ {
        if ctor == "Secondary"@ {
            Some(0u32)
        } else if ctor == "SecondaryCentred"@ {
            Some(1u32)
        } else if ctor == "Pyramid"@ {
            Some(2u32)
        } else if ctor == "MRBlob"@ {
            Some(3u32)
        } else {
            None
        }
    } else {
        None
    }
}

/// The case that a constructor names.
pub fn variant_tag_from_ctor(class: &str, ctor: &str) -> (r: Option<u32>)
    ensures
        r == case_tag(class@, ctor@),
{
    if same(class, "PhysicalPrimitiveInitType") {
        if same(ctor, "CPhysicalPrimitiveNull") {
            Some(0)
        } else if same(ctor, "CPhysicalPrimitiveSphere") {
            Some(1)
        } else if same(ctor, "CPhysicalPrimitiveCylinder") {
            Some(2)
        } else if same(ctor, "CPhysicalPrimitiveMesh") {
            Some(3)
        } else {
            None
        }
    } else if same(class, "ReactionMatchListElementsEntry") {
        if same(ctor, "Secondary") {
            Some(0)
        } else if same(ctor, "SecondaryCentred") {
            Some(1)
        } else if same(ctor, "Pyramid") {
            Some(2)
        } else if same(ctor, "MRBlob") {
            Some(3)
        } else {
            None
        }
    } else {
        None
    }
}

/// Minus one.
pub const MINUS_ONE: u32 = 0xBF80_0000;

/// The members with member `i` set, where it is there and is a single.
pub open spec fn with_single(v: Seq<MemberView>, i: int, x: Single) -> Seq<MemberView> {
    if 0 <= i < v.len() && v[i].value is Scalar && v[i].value->Scalar_0 is Single {
        v.update(
            i,
            MemberView { name: v[i].name, value: ValueView::Scalar(ScalarView::Single(x)) },
        )
    } else {
        v
    }
}

/// The members with member `i` set, where it is there and is an `i32`.
pub open spec fn with_i32(v: Seq<MemberView>, i: int, x: i32) -> Seq<MemberView> {
    if 0 <= i < v.len() && v[i].value is Scalar && v[i].value->Scalar_0 is I32 {
        v.update(
            i,
            MemberView { name: v[i].name, value: ValueView::Scalar(ScalarView::I32(x)) },
        )
    } else {
        v
    }
}

/// What the constructor of the case's class leaves in the members.
pub open spec fn class_defaults(class: Seq<char>, tag: u32, v: Seq<MemberView>) -> Seq<MemberView> {
    if class == "PhysicalPrimitiveInitType"@ && (tag == 1 || tag == 2) {
        let minus_one = Single { bits: MINUS_ONE };
        let set = with_single(with_i32(v, 0, -1i32), 1, minus_one);
        if tag == 2 {
            with_single(set, 2, minus_one)
        } else {
            set
        }
    } else {
        v
    }
}

/// The first place at or behind `k` of a case with the tag; the length if there is
/// none.
pub open spec fn case_place(cases: Seq<CaseView>, tag: u32, k: int) -> int
    decreases cases.len() - k,
{
    if k < 0 || k >= cases.len() || cases[k].tag == tag {
        k
    } else {
        case_place(cases, tag, k + 1)
    }
}

/// The choice with the case of the tag selected. The members of a case that is
/// selected already stay as they are.
pub open spec fn with_case(c: ChoiceView, tag: u32) -> Applied<ChoiceView> {
    if c.tag == tag {
        Ok(c)
    } else {
        let k = case_place(c.cases, tag, 0);
        if k < c.cases.len() {
            Ok(
                ChoiceView {
                    tag,
                    members: class_defaults(c.class, tag, c.cases[k].members),
                    ..c
                },
            )
        } else {
            refused(c, "variant tag out of range"@)
        }
    }
}

fn set_single(v: &mut Vec<Member>, i: usize, x: Single)
    ensures
        base::views(final(v)@) == with_single(base::views(old(v)@), i as int, x),
{
    let ghost before = base::views(v@);
    if i < v.len() {
        assert(before[i as int] == v@[i as int]@);
        proof {
            value::lemma_value_view(v@[i as int].value);
        }
        let hit = match &v[i].value {
            Value::Scalar(Scalar::Single(_)) => true,
            _ => false,
        };
        if hit {
            v[i].value = Value::Scalar(Scalar::Single(x));
            proof {
                value::lemma_value_view(v@[i as int].value);
                assert(base::views(v@) =~= with_single(before, i as int, x));
            }
        }
    }
}

fn set_i32(v: &mut Vec<Member>, i: usize, x: i32)
    ensures
        base::views(final(v)@) == with_i32(base::views(old(v)@), i as int, x),
{
    let ghost before = base::views(v@);
    if i < v.len() {
        assert(before[i as int] == v@[i as int]@);
        proof {
            value::lemma_value_view(v@[i as int].value);
        }
        let hit = match &v[i].value {
            Value::Scalar(Scalar::I32(_)) => true,
            _ => false,
        };
        if hit {
            v[i].value = Value::Scalar(Scalar::I32(x));
            proof {
                value::lemma_value_view(v@[i as int].value);
                assert(base::views(v@) =~= with_i32(before, i as int, x));
            }
        }
    }
}

fn apply_class_defaults(class: &str, tag: u32, v: &mut Vec<Member>)
    ensures
        base::views(final(v)@) == class_defaults(class@, tag, base::views(old(v)@)),
{
    if same(class, "PhysicalPrimitiveInitType") && (tag == 1 || tag == 2) {
        set_i32(v, 0, -1);
        set_single(v, 1, Single { bits: MINUS_ONE });
        if tag == 2 {
            set_single(v, 2, Single { bits: MINUS_ONE });
        }
    }
}

fn select_case(c: &mut Choice, tag: u32) -> (r: Result<(), LowerError>)
    ensures
        applied(r, final(c)@) == with_case(old(c)@, tag),
{
    if c.tag == tag {
        return Ok(());
    }
    let ghost cases = base::views(c.cases@);
    let mut k: usize = 0;
    while k < c.cases.len() && c.cases[k].tag != tag
        invariant
            k <= c.cases@.len(),
            *c == *old(c),
            cases == base::views(c.cases@),
            case_place(cases, tag, 0) == case_place(cases, tag, k as int),
        decreases c.cases@.len() - k,
    {
        assert(cases[k as int] == c.cases@[k as int]@);
        k = k + 1;
    }
    if k < c.cases.len() {
        assert(cases[k as int] == c.cases@[k as int]@);
        let mut members = copy_members(&c.cases[k].members);
        apply_class_defaults(c.class.as_str(), tag, &mut members);
        c.members = members;
        c.tag = tag;
        Ok(())
    } else {
        Err(semantic_error("variant tag out of range"))
    }
}

// ── Constructors ─────────────────────────────────────────────────────────────

/// The name and arguments of a constructor.
pub open spec fn constructor(e: ExprView) -> Option<CallView> {
    match e {
        ExprView::Constructor(c) => Some(c),
        _ => None,
    }
}

/// Whether an expression adds to a container with at least `n` arguments.
pub open spec fn is_add(e: ExprView, n: int) -> bool {
    match e {
        ExprView::Constructor(c) => c.name == "Add"@ && c.arguments.len() >= n,
        _ => false,
    }
}

/// The members with the value of member `i` replaced.
pub open spec fn with_value(v: Seq<MemberView>, i: int, x: ValueView) -> Seq<MemberView> {
    v.update(i, MemberView { name: v[i].name, value: x })
}

/// `v` set from `e`.
pub open spec fn from_expr(cx: Context, v: ValueView, e: Spanned<ExprView>) -> Applied<ValueView>
    decreases e, 3nat,
{
    match v {
        ValueView::Struct(s) => match struct_from(cx, s, e) {
            Ok(s) => Ok(ValueView::Struct(s)),
            Err((s, x)) => Err((ValueView::Struct(s), x)),
        },
        ValueView::Variant(c) => match variant_from(cx, c, e) {
            Ok(c) => Ok(ValueView::Variant(c)),
            Err((c, x)) => Err((ValueView::Variant(c), x)),
        },
        _ => from_plain(cx, v, e),
    }
}

/// Member `i` set from `e`.
pub open spec fn member_from(
    cx: Context,
    v: Seq<MemberView>,
    i: int,
    e: Spanned<ExprView>,
) -> Applied<Seq<MemberView>>
    decreases e, 4nat,
{
    match from_expr(cx, v[i].value, e) {
        Ok(x) => Ok(with_value(v, i, x)),
        Err((x, error)) => Err((with_value(v, i, x), error)),
    }
}

/// The choice that a constructor selects: the case that it names, with its
/// arguments for the first members.
pub open spec fn variant_from(cx: Context, c: ChoiceView, e: Spanned<ExprView>) -> Applied<ChoiceView>
    decreases e, 1nat,
{
    match e.value {
        ExprView::Constructor(call) => match case_tag(c.class, call.name) {
            Some(tag) => match with_case(c, tag) {
                Ok(c) => match in_turn(cx, c.members, call.arguments, 0) {
                    Ok(members) => Ok(ChoiceView { members, ..c }),
                    Err((members, x)) => Err((ChoiceView { members, ..c }, x)),
                },
                Err(x) => Err(x),
            },
            None => refused(c, "unknown variant constructor"@),
        },
        _ => refused(c, "variant expects a constructor naming its case"@),
    }
}

/// The members from `i` on set from the arguments from `i` on.
pub open spec fn in_turn(
    cx: Context,
    v: Seq<MemberView>,
    args: Seq<Spanned<ExprView>>,
    i: int,
) -> Applied<Seq<MemberView>>
    decreases args, v.len() - i,
{
    if i < 0 || i >= v.len() || i >= args.len() {
        Ok(v)
    } else {
        match from_expr(cx, v[i].value, args[i]) {
            Ok(x) => in_turn(cx, with_value(v, i, x), args, i + 1),
            Err((x, error)) => Err((with_value(v, i, x), error)),
        }
    }
}

/// The compound that a constructor gives.
pub open spec fn struct_from(cx: Context, s: StructView, e: Spanned<ExprView>) -> Applied<StructView>
    decreases e, 2nat,
{
    match e.value {
        ExprView::Constructor(call) => {
            let members = match by_class(cx, s.class, s.members, call.arguments) {
                Some(r) => r,
                None => if s.members.len() == 1 && s.members[0].value is Variant {
                    match variant_from(cx, s.members[0].value->Variant_0, e) {
                        Ok(c) => Ok(with_value(s.members, 0, ValueView::Variant(c))),
                        Err((c, x)) => Err((with_value(s.members, 0, ValueView::Variant(c)), x)),
                    }
                } else {
                    positional(cx, s.members, call.arguments, 0)
                },
            };
            match members {
                Ok(members) => Ok(StructView { members, ..s }),
                Err((members, x)) => Err((StructView { members, ..s }, x)),
            }
        },
        _ => refused(s, "compound expects a constructor"@),
    }
}

/// The members of a class whose constructor does not take them in turn.
pub open spec fn by_class(
    cx: Context,
    class: Seq<char>,
    v: Seq<MemberView>,
    args: Seq<Spanned<ExprView>>,
) -> Option<Applied<Seq<MemberView>>>
    decreases args, args.len() + 8,
{
    if class == "RGBColour"@ {
        Some(colour(cx, v, args))
    } else if class == "BlendedParticleEffectSet"@ && args.len() == 4 {
        Some(
            mapped(
                cx,
                v,
                args,
                seq![(0int, 0int), (2, 1), (1, 2), (3, 3)],
                0,
                "BlendedParticleEffectSet member out of range"@,
            ),
        )
    } else if class == "ObjectAugmentationParticleSet"@ {
        Some(augmentation(cx, v, args))
    } else if class == "ExplosionRing"@ && args.len() >= 2 {
        Some(
            mapped(
                cx,
                v,
                args,
                seq![(0int, 1int), (1, 0), (2, 2), (3, 3)],
                0,
                "ExplosionRing member out of range"@,
            ),
        )
    } else if class == "ParticleAttachmentInfo"@ && args.len() >= 2 {
        Some(
            mapped(
                cx,
                v,
                args,
                seq![(0int, 1int), (1, 0), (2, 2), (3, 3)],
                0,
                "ParticleAttachmentInfo member out of range"@,
            ),
        )
    } else if class == "AttackHistoryCombo"@ && args.len() > 0 {
        Some(combo(cx, v, args))
    } else {
        None
    }
}

/// One channel of a colour.
pub open spec fn channel(cx: Context, e: Spanned<ExprView>) -> Result<u32, LowerErrorView> {
    match reader::located(eval::as_i32(cx.symbols, e.value), e.span) {
        Ok(v) => Ok(v as u32),
        Err(x) => Err(LowerErrorView::Reader(x)),
    }
}

/// Four channels in one number: alpha, red, green, blue.
pub open spec fn packed(r: u32, g: u32, b: u32, a: u32) -> u32 {
    (a << 24u32) | (r << 16u32) | (g << 8u32) | b
}

/// The colour that red, green, blue and maybe alpha give.
pub open spec fn packed_colour(cx: Context, args: Seq<Spanned<ExprView>>) -> Result<
    u32,
    LowerErrorView,
> {
    match channel(cx, args[0]) {
        Err(x) => Err(x),
        Ok(r) => match channel(cx, args[1]) {
            Err(x) => Err(x),
            Ok(g) => match channel(cx, args[2]) {
                Err(x) => Err(x),
                Ok(b) => if args.len() == 4 {
                    match channel(cx, args[3]) {
                        Err(x) => Err(x),
                        Ok(a) => Ok(packed(r, g, b, a)),
                    }
                } else {
                    Ok(packed(r, g, b, 255u32))
                },
            },
        },
    }
}

/// Whether member `i` is a `u32`.
pub open spec fn is_u32(v: Seq<MemberView>, i: int) -> bool {
    0 <= i < v.len() && v[i].value is Scalar && v[i].value->Scalar_0 is U32
}

/// A colour, which holds its channels in one number.
pub open spec fn colour(
    cx: Context,
    v: Seq<MemberView>,
    args: Seq<Spanned<ExprView>>,
) -> Applied<Seq<MemberView>> {
    if args.len() == 3 || args.len() == 4 {
        match packed_colour(cx, args) {
            Ok(n) => if is_u32(v, 0) {
                Ok(with_value(v, 0, ValueView::Scalar(ScalarView::U32(n))))
            } else {
                refused(v, "RGBColour member is not a u32"@)
            },
            Err(x) => Err((v, x)),
        }
    } else {
        refused(v, "RGBColour expects 3 or 4 constructor arguments"@)
    }
}

/// Members set from arguments in another order: each of `pairs` from `k` on is a
/// member and its argument, and an argument that was left out sets nothing.
pub open spec fn mapped(
    cx: Context,
    v: Seq<MemberView>,
    args: Seq<Spanned<ExprView>>,
    pairs: Seq<(int, int)>,
    k: int,
    message: Seq<char>,
) -> Applied<Seq<MemberView>>
    decreases args, pairs.len() - k,
{
    if k < 0 || k >= pairs.len() {
        Ok(v)
    } else {
        let (m, a) = pairs[k];
        if a < 0 || a >= args.len() {
            mapped(cx, v, args, pairs, k + 1, message)
        } else if m < 0 || m >= v.len() {
            refused(v, message)
        } else {
            match from_expr(cx, v[m].value, args[a]) {
                Ok(x) => mapped(cx, with_value(v, m, x), args, pairs, k + 1, message),
                Err((x, error)) => Err((with_value(v, m, x), error)),
            }
        }
    }
}

/// The particles of an augmentation: a period, the number of pairs of points,
/// four effects, and the points.
pub open spec fn augmentation(
    cx: Context,
    v: Seq<MemberView>,
    args: Seq<Spanned<ExprView>>,
) -> Applied<Seq<MemberView>>
    decreases args, args.len() + 7,
{
    match augmentation_effects(cx, v, args, 0) {
        Ok(v) => augmentation_points(
            cx,
            v,
            args,
            eval::arg_i32(cx.symbols, args, 1, 0i32) as int,
            0,
        ),
        Err(x) => Err(x),
    }
}

/// A number as an `i32` or a `u32`; another member keeps its value.
pub open spec fn as_number(v: ValueView, n: i32) -> ValueView {
    match v {
        ValueView::Scalar(ScalarView::I32(_)) => ValueView::Scalar(ScalarView::I32(n)),
        ValueView::Scalar(ScalarView::U32(_)) => ValueView::Scalar(ScalarView::U32(n as u32)),
        _ => v,
    }
}

/// The argument of member `k` of an augmentation: the number of pairs is no member.
pub open spec fn augmentation_arg(k: int) -> int {
    if k == 0 {
        0
    } else {
        k + 1
    }
}

/// The first five members of an augmentation from `k` on.
pub open spec fn augmentation_effects(
    cx: Context,
    v: Seq<MemberView>,
    args: Seq<Spanned<ExprView>>,
    k: int,
) -> Applied<Seq<MemberView>>
    decreases args, 5 - k,
{
    if k < 0 || k >= 5 {
        Ok(v)
    } else {
        let a = augmentation_arg(k);
        if a >= args.len() {
            augmentation_effects(cx, v, args, k + 1)
        } else if k >= v.len() {
            refused(v, "ObjectAugmentationParticleSet member out of range"@)
        } else if k == 0 {
            match from_expr(cx, v[k].value, args[a]) {
                Ok(x) => augmentation_effects(cx, with_value(v, k, x), args, k + 1),
                Err((x, error)) => Err((with_value(v, k, x), error)),
            }
        } else {
            match env::string_offset(cx, args[a]) {
                Ok(n) => augmentation_effects(
                    cx,
                    with_value(v, k, as_number(v[k].value, n)),
                    args,
                    k + 1,
                ),
                Err(x) => Err((v, x)),
            }
        }
    }
}

/// `e` added to the list that is member `i`; another member keeps its value.
pub open spec fn point_added(
    cx: Context,
    v: Seq<MemberView>,
    i: int,
    e: Spanned<ExprView>,
) -> Applied<Seq<MemberView>>
    decreases e, 4nat,
{
    if i < v.len() && v[i].value is List {
        let list = v[i].value->List_0;
        match from_expr(cx, *list.element, e) {
            Ok(x) => Ok(
                with_value(
                    v,
                    i,
                    ValueView::List(ListView { items: list.items.push(x), ..list }),
                ),
            ),
            Err((x, error)) => Err(
                (
                    with_value(
                        v,
                        i,
                        ValueView::List(ListView { items: list.items.push(x), ..list }),
                    ),
                    error,
                ),
            ),
        }
    } else {
        Ok(v)
    }
}

/// The points of an augmentation from pair `p` on.
pub open spec fn augmentation_points(
    cx: Context,
    v: Seq<MemberView>,
    args: Seq<Spanned<ExprView>>,
    n: int,
    p: int,
) -> Applied<Seq<MemberView>>
    decreases args, args.len() - p,
{
    if p < 0 || p >= n || 6 + 2 * p >= args.len() {
        Ok(v)
    } else {
        match point_added(cx, v, 5, args[6 + 2 * p]) {
            Ok(v) => if 7 + 2 * p >= args.len() {
                Ok(v)
            } else {
                match point_added(cx, v, 6, args[7 + 2 * p]) {
                    Ok(v) => augmentation_points(cx, v, args, n, p + 1),
                    Err(x) => Err(x),
                }
            },
            Err(x) => Err(x),
        }
    }
}

/// A combo: the multiplier comes first and is the second member, the attacks are
/// added to the first.
pub open spec fn combo(
    cx: Context,
    v: Seq<MemberView>,
    args: Seq<Spanned<ExprView>>,
) -> Applied<Seq<MemberView>>
    decreases args, args.len() + 1,
{
    if v.len() < 2 {
        refused(v, "AttackHistoryCombo member 1 out of range"@)
    } else if args.len() == 0 {
        Ok(v)
    } else {
        match from_expr(cx, v[1].value, args[0]) {
            Err((x, error)) => Err((with_value(v, 1, x), error)),
            Ok(x) => {
                let set = with_value(v, 1, x);
                match set[0].value {
                    ValueView::List(list) => match combo_attacks(cx, list, args, 1) {
                        Ok(list) => Ok(with_value(set, 0, ValueView::List(list))),
                        Err((list, x)) => Err((with_value(set, 0, ValueView::List(list)), x)),
                    },
                    _ => Ok(set),
                }
            },
        }
    }
}

/// The attacks of a combo from argument `j` on.
pub open spec fn combo_attacks(
    cx: Context,
    list: ListView,
    args: Seq<Spanned<ExprView>>,
    j: int,
) -> Applied<ListView>
    decreases args, args.len() - j,
{
    if j < 0 || j >= args.len() {
        Ok(list)
    } else if !is_add(args[j].value, 0) {
        combo_attacks(cx, list, args, j + 1)
    } else {
        match combo_attack(cx, *list.element, args[j].value->Constructor_0.arguments) {
            Ok(x) => combo_attacks(
                cx,
                ListView { items: list.items.push(x), ..list },
                args,
                j + 1,
            ),
            Err((x, error)) => Err((ListView { items: list.items.push(x), ..list }, error)),
        }
    }
}

/// One attack of a combo: its type and its attribute, 0 and -1 where they are
/// left out.
pub open spec fn combo_attack(cx: Context, v: ValueView, args: Seq<Spanned<ExprView>>) -> Applied<ValueView>
    decreases args, 0nat,
{
    match v {
        ValueView::Struct(s) => {
            let first = if s.members.len() == 0 {
                Ok(s.members)
            } else {
                match if args.len() > 0 {
                    from_expr(cx, s.members[0].value, args[0])
                } else {
                    from_plain(cx, s.members[0].value, literal("0"@))
                } {
                    Ok(x) => Ok(with_value(s.members, 0, x)),
                    Err((x, error)) => Err((with_value(s.members, 0, x), error)),
                }
            };
            match first {
                Err((m, x)) => Err((ValueView::Struct(StructView { members: m, ..s }), x)),
                Ok(m) => if m.len() < 2 {
                    Ok(ValueView::Struct(StructView { members: m, ..s }))
                } else {
                    match if args.len() > 1 {
                        from_expr(cx, m[1].value, args[1])
                    } else {
                        from_plain(cx, m[1].value, literal("-1"@))
                    } {
                        Ok(x) => Ok(
                            ValueView::Struct(StructView { members: with_value(m, 1, x), ..s }),
                        ),
                        Err((x, error)) => Err(
                            (
                                ValueView::Struct(
                                    StructView { members: with_value(m, 1, x), ..s },
                                ),
                                error,
                            ),
                        ),
                    }
                },
            }
        },
        _ => Ok(v),
    }
}

/// Members from `i` on set from the arguments from `i` on. `Add(…)` for a
/// container adds to it, and so do all the arguments behind.
pub open spec fn positional(
    cx: Context,
    v: Seq<MemberView>,
    args: Seq<Spanned<ExprView>>,
    i: int,
) -> Applied<Seq<MemberView>>
    decreases args, args.len() + v.len() - i + 1,
{
    if i < 0 || i >= v.len() || i >= args.len() {
        Ok(v)
    } else if v[i].value is Mapping && is_add(args[i].value, 2) {
        match entries_added(cx, v[i].value->Mapping_0, args, i) {
            Ok(m) => Ok(with_value(v, i, ValueView::Mapping(m))),
            Err((m, x)) => Err((with_value(v, i, ValueView::Mapping(m)), x)),
        }
    } else if v[i].value is List && is_add(args[i].value, 0) {
        match items_added(cx, v[i].value->List_0, args, i) {
            Ok(l) => Ok(with_value(v, i, ValueView::List(l))),
            Err((l, x)) => Err((with_value(v, i, ValueView::List(l)), x)),
        }
    } else {
        match from_expr(cx, v[i].value, args[i]) {
            Ok(x) => positional(cx, with_value(v, i, x), args, i + 1),
            Err((x, error)) => Err((with_value(v, i, x), error)),
        }
    }
}

/// The map with each `Add(key, value)` from argument `j` on.
pub open spec fn entries_added(
    cx: Context,
    m: MapView,
    args: Seq<Spanned<ExprView>>,
    j: int,
) -> Applied<MapView>
    decreases args, args.len() - j,
{
    if j < 0 || j >= args.len() {
        Ok(m)
    } else if !is_add(args[j].value, 2) {
        entries_added(cx, m, args, j + 1)
    } else {
        let inner = args[j].value->Constructor_0.arguments;
        match from_expr(cx, *m.key, inner[0]) {
            Err((_, x)) => Err((m, x)),
            Ok(key) => match from_expr(cx, *m.value, inner[1]) {
                Err((_, x)) => Err((m, x)),
                Ok(value) => entries_added(cx, m.put(key, value), args, j + 1),
            },
        }
    }
}

/// The list with each `Add(item)` from argument `j` on.
pub open spec fn items_added(
    cx: Context,
    l: ListView,
    args: Seq<Spanned<ExprView>>,
    j: int,
) -> Applied<ListView>
    decreases args, args.len() - j,
{
    if j < 0 || j >= args.len() {
        Ok(l)
    } else if !is_add(args[j].value, 0) {
        items_added(cx, l, args, j + 1)
    } else {
        let inner = args[j].value->Constructor_0.arguments;
        if inner.len() == 0 {
            items_added(cx, ListView { items: l.items.push(*l.element), ..l }, args, j + 1)
        } else {
            match from_expr(cx, *l.element, inner[0]) {
                Err((x, error)) => Err((ListView { items: l.items.push(x), ..l }, error)),
                Ok(x) => items_added(cx, ListView { items: l.items.push(x), ..l }, args, j + 1),
            }
        }
    }
}

// ── Applying expressions ─────────────────────────────────────────────────────

/// What setting members gave, without what a failure left.
pub open spec fn outcome_members(r: Result<(), LowerError>, v: Seq<Member>) -> Result<
    Seq<MemberView>,
    LowerErrorView,
> {
    match r {
        Ok(_) => Ok(base::views(v)),
        Err(e) => Err(e@),
    }
}

/// What setting members gave.
pub open spec fn applied_members(r: Result<(), LowerError>, v: Seq<Member>) -> Applied<
    Seq<MemberView>,
> {
    applied(r, base::views(v))
}

/// Whether an expression adds to a container with at least `n` arguments.
fn adds(e: &Expr, n: usize) -> (r: bool)
    ensures
        r == is_add(e@, n as int),
{
    proof {
        ast::lemma_expr_view(*e);
    }
    match e {
        Expr::Constructor(c) => same(c.name.as_str(), "Add") && c.arguments.len() >= n,
        _ => false,
    }
}

/// Sets `v` from `expr`.
pub fn apply_expr<E: LowerEnv>(
    v: &mut Value,
    expr: &Spanned<Expr>,
    eval: &Evaluator,
    env: &E,
) -> (r: Result<(), LowerError>)
    ensures
        applied(r, final(v)@) == from_expr(env::context(eval@, env), old(v)@, expr@),
    decreases expr, 3nat,
{
    proof {
        value::lemma_value_view(*v);
    }
    match v {
        Value::Struct(s) => {
            let r = apply_struct_from_expr(s, expr, eval, env);
            proof {
                value::lemma_value_view(*v);
            }
            r
        },
        Value::Variant(c) => {
            let r = apply_variant_from_expr(c, expr, eval, env);
            proof {
                value::lemma_value_view(*v);
            }
            r
        },
        _ => apply_plain(v, expr, eval, env),
    }
}

/// Sets member `i` from `expr`.
pub(crate) fn apply_member<E: LowerEnv>(
    v: &mut Vec<Member>,
    i: usize,
    expr: &Spanned<Expr>,
    eval: &Evaluator,
    env: &E,
) -> (r: Result<(), LowerError>)
    requires
        i < old(v)@.len(),
    ensures
        applied_members(r, final(v)@) == member_from(
            env::context(eval@, env),
            base::views(old(v)@),
            i as int,
            expr@,
        ),
    decreases expr, 4nat,
{
    let ghost before = base::views(v@);
    assert(before[i as int] == v@[i as int]@);
    let r = apply_expr(&mut v[i].value, expr, eval, env);
    assert(base::views(v@) =~= with_value(before, i as int, v@[i as int].value@));
    r
}

/// Sets a choice from a constructor.
pub fn apply_variant_from_expr<E: LowerEnv>(
    c: &mut Choice,
    expr: &Spanned<Expr>,
    eval: &Evaluator,
    env: &E,
) -> (r: Result<(), LowerError>)
    ensures
        applied(r, final(c)@) == variant_from(env::context(eval@, env), old(c)@, expr@),
    decreases expr, 1nat,
{
    proof {
        ast::lemma_expr_view(expr.value);
    }
    match &expr.value {
        Expr::Constructor(call) => {
            match variant_tag_from_ctor(c.class.as_str(), call.name.as_str()) {
                Some(tag) => {
                    match select_case(c, tag) {
                        Ok(_) => {},
                        Err(e) => return Err(e),
                    }
                    apply_in_turn(&mut c.members, &call.arguments, eval, env)
                },
                None => Err(semantic_error("unknown variant constructor")),
            }
        },
        _ => Err(semantic_error("variant expects a constructor naming its case")),
    }
}

/// Sets members from arguments, in turn.
pub(crate) fn apply_in_turn<E: LowerEnv>(
    v: &mut Vec<Member>,
    args: &Vec<Spanned<Expr>>,
    eval: &Evaluator,
    env: &E,
) -> (r: Result<(), LowerError>)
    ensures
        applied_members(r, final(v)@) == in_turn(
            env::context(eval@, env),
            base::views(old(v)@),
            base::views(args@),
            0,
        ),
    decreases args, 0nat,
{
    let ghost cx = env::context(eval@, env);
    let ghost all = base::views(args@);
    let ghost whole = in_turn(cx, base::views(v@), all, 0);
    let mut i: usize = 0;
    while i < v.len() && i < args.len()
        invariant
            cx == env::context(eval@, env),
            all == base::views(args@),
            whole == in_turn(cx, base::views(old(v)@), all, 0),
            whole == in_turn(cx, base::views(v@), all, i as int),
        decreases v@.len() - i,
    {
        assert(all[i as int] == args@[i as int]@);
        let ghost before = v@.len();
        match apply_member(v, i, &args[i], eval, env) {
            Ok(_) => {},
            Err(e) => return Err(e),
        }
        assert(base::views(v@).len() == before);
        i = i + 1;
    }
    Ok(())
}

/// Sets a compound from a constructor.
pub fn apply_struct_from_expr<E: LowerEnv>(
    s: &mut Compound,
    expr: &Spanned<Expr>,
    eval: &Evaluator,
    env: &E,
) -> (r: Result<(), LowerError>)
    ensures
        applied(r, final(s)@) == struct_from(env::context(eval@, env), old(s)@, expr@),
    decreases expr, 2nat,
{
    proof {
        ast::lemma_expr_view(expr.value);
    }
    let call = match &expr.value {
        Expr::Constructor(call) => call,
        _ => return Err(semantic_error("compound expects a constructor")),
    };
    match apply_by_class(s.class.as_str(), &mut s.members, &call.arguments, eval, env) {
        Some(r) => return r,
        None => {},
    }
    if s.members.len() == 1 {
        let ghost before = base::views(s.members@);
        proof {
            assert(before[0] == s.members@[0]@);
            value::lemma_value_view(s.members@[0].value);
        }
        match &mut s.members[0].value {
            Value::Variant(c) => {
                let r = apply_variant_from_expr(c, expr, eval, env);
                proof {
                    value::lemma_value_view(s.members@[0].value);
                    assert(base::views(s.members@) =~= with_value(
                        before,
                        0,
                        s.members@[0].value@,
                    ));
                }
                return r;
            },
            _ => {},
        }
        assert(base::views(s.members@) =~= before);
    }
    apply_positional(&mut s.members, &call.arguments, eval, env)
}

/// Sets the members of a class whose constructor does not take them in turn.
fn apply_by_class<E: LowerEnv>(
    class: &str,
    v: &mut Vec<Member>,
    args: &Vec<Spanned<Expr>>,
    eval: &Evaluator,
    env: &E,
) -> (r: Option<Result<(), LowerError>>)
    ensures
        (match r {
            Some(r) => Some(applied_members(r, final(v)@)),
            None => None,
        }) == by_class(
            env::context(eval@, env),
            class@,
            base::views(old(v)@),
            base::views(args@),
        ),
        r is None ==> final(v)@ == old(v)@,
    decreases args, 2nat,
{
    let n: usize = args.len();
    if same(class, "RGBColour") {
        return Some(apply_colour(v, args, eval, env));
    }
    if same(class, "BlendedParticleEffectSet") && n == 4 {
        let mut pairs: Vec<(usize, usize)> = Vec::new();
        pairs.push((0, 0));
        pairs.push((2, 1));
        pairs.push((1, 2));
        pairs.push((3, 3));
        assert(places(pairs@) =~= seq![(0int, 0int), (2, 1), (1, 2), (3, 3)]);
        let message = "BlendedParticleEffectSet member out of range";
        return Some(apply_mapped(v, args, &pairs, message, eval, env));
    }
    if same(class, "ObjectAugmentationParticleSet") {
        return Some(apply_augmentation(v, args, eval, env));
    }
    if same(class, "ExplosionRing") && n >= 2 {
        let pairs = swapped_pairs();
        let message = "ExplosionRing member out of range";
        return Some(apply_mapped(v, args, &pairs, message, eval, env));
    }
    if same(class, "ParticleAttachmentInfo") && n >= 2 {
        let pairs = swapped_pairs();
        let message = "ParticleAttachmentInfo member out of range";
        return Some(apply_mapped(v, args, &pairs, message, eval, env));
    }
    if same(class, "AttackHistoryCombo") && n > 0 {
        return Some(apply_combo(v, args, eval, env));
    }
    None
}

/// Pairs of members and arguments.
spec fn places(v: Seq<(usize, usize)>) -> Seq<(int, int)> {
    Seq::new(v.len(), |i: int| (v[i].0 as int, v[i].1 as int))
}

/// Four members, of which the first two take their arguments the other way round.
fn swapped_pairs() -> (r: Vec<(usize, usize)>)
    ensures
        places(r@) == seq![(0int, 1int), (1, 0), (2, 2), (3, 3)],
{
    let mut pairs: Vec<(usize, usize)> = Vec::new();
    pairs.push((0, 1));
    pairs.push((1, 0));
    pairs.push((2, 2));
    pairs.push((3, 3));
    assert(places(pairs@) =~= seq![(0int, 1int), (1, 0), (2, 2), (3, 3)]);
    pairs
}

fn read_channel(eval: &Evaluator, expr: &Spanned<Expr>, cx: Ghost<Context>) -> (r: Result<
    u32,
    LowerError,
>)
    requires
        cx@.symbols == eval@,
    ensures
        env::lowered(r) == channel(cx@, expr@),
{
    match eval.eval_i32(expr) {
        Ok(v) => Ok(v as u32),
        Err(e) => Err(LowerError::Reader(e)),
    }
}

fn read_colour(eval: &Evaluator, args: &Vec<Spanned<Expr>>, cx: Ghost<Context>) -> (r: Result<
    u32,
    LowerError,
>)
    requires
        cx@.symbols == eval@,
        args@.len() == 3 || args@.len() == 4,
    ensures
        env::lowered(r) == packed_colour(cx@, base::views(args@)),
{
    proof {
        let all = base::views(args@);
        assert(all[0] == args@[0]@ && all[1] == args@[1]@ && all[2] == args@[2]@);
    }
    let r = match read_channel(eval, &args[0], cx) {
        Ok(v) => v,
        Err(e) => return Err(e),
    };
    let g = match read_channel(eval, &args[1], cx) {
        Ok(v) => v,
        Err(e) => return Err(e),
    };
    let b = match read_channel(eval, &args[2], cx) {
        Ok(v) => v,
        Err(e) => return Err(e),
    };
    let a = if args.len() == 4 {
        assert(base::views(args@)[3] == args@[3]@);
        match read_channel(eval, &args[3], cx) {
            Ok(v) => v,
            Err(e) => return Err(e),
        }
    } else {
        255
    };
    Ok((a << 24u32) | (r << 16u32) | (g << 8u32) | b)
}

pub(crate) fn member_is_u32(v: &Vec<Member>, i: usize) -> (r: bool)
    ensures
        r == is_u32(base::views(v@), i as int),
{
    if i < v.len() {
        proof {
            assert(base::views(v@)[i as int] == v@[i as int]@);
            value::lemma_value_view(v@[i as int].value);
        }
        match &v[i].value {
            Value::Scalar(Scalar::U32(_)) => true,
            _ => false,
        }
    } else {
        false
    }
}

pub(crate) fn replace_member(v: &mut Vec<Member>, i: usize, x: Value)
    requires
        i < old(v)@.len(),
    ensures
        base::views(final(v)@) == with_value(base::views(old(v)@), i as int, x@),
{
    let ghost before = base::views(v@);
    let ghost new = x@;
    assert(before[i as int] == v@[i as int]@);
    v[i].value = x;
    assert(base::views(v@) =~= with_value(before, i as int, new));
}

fn apply_colour<E: LowerEnv>(
    v: &mut Vec<Member>,
    args: &Vec<Spanned<Expr>>,
    eval: &Evaluator,
    env: &E,
) -> (r: Result<(), LowerError>)
    ensures
        applied_members(r, final(v)@) == colour(
            env::context(eval@, env),
            base::views(old(v)@),
            base::views(args@),
        ),
{
    let n: usize = args.len();
    if n == 3 || n == 4 {
        match read_colour(eval, args, Ghost(env::context(eval@, env))) {
            Ok(packed) => {
                if member_is_u32(v, 0) {
                    let x = Value::Scalar(Scalar::U32(packed));
                    proof {
                        value::lemma_value_view(x);
                    }
                    replace_member(v, 0, x);
                    Ok(())
                } else {
                    Err(semantic_error("RGBColour member is not a u32"))
                }
            },
            Err(e) => Err(e),
        }
    } else {
        Err(semantic_error("RGBColour expects 3 or 4 constructor arguments"))
    }
}

fn apply_mapped<E: LowerEnv>(
    v: &mut Vec<Member>,
    args: &Vec<Spanned<Expr>>,
    pairs: &Vec<(usize, usize)>,
    message: &'static str,
    eval: &Evaluator,
    env: &E,
) -> (r: Result<(), LowerError>)
    ensures
        applied_members(r, final(v)@) == mapped(
            env::context(eval@, env),
            base::views(old(v)@),
            base::views(args@),
            places(pairs@),
            0,
            message@,
        ),
    decreases args, 0nat,
{
    let ghost cx = env::context(eval@, env);
    let ghost all = base::views(args@);
    let ghost order = places(pairs@);
    let ghost whole = mapped(cx, base::views(v@), all, order, 0, message@);
    let mut k: usize = 0;
    while k < pairs.len()
        invariant
            k <= pairs@.len(),
            cx == env::context(eval@, env),
            all == base::views(args@),
            order == places(pairs@),
            whole == mapped(cx, base::views(old(v)@), all, order, 0, message@),
            whole == mapped(cx, base::views(v@), all, order, k as int, message@),
        decreases pairs@.len() - k,
    {
        let m = pairs[k].0;
        let a = pairs[k].1;
        assert(order[k as int] == (m as int, a as int));
        if a < args.len() {
            if m >= v.len() {
                return Err(semantic_error(message));
            }
            assert(all[a as int] == args@[a as int]@);
            match apply_member(v, m, &args[a], eval, env) {
                Ok(_) => {},
                Err(e) => return Err(e),
            }
        }
        k = k + 1;
    }
    Ok(())
}

fn apply_augmentation<E: LowerEnv>(
    v: &mut Vec<Member>,
    args: &Vec<Spanned<Expr>>,
    eval: &Evaluator,
    env: &E,
) -> (r: Result<(), LowerError>)
    ensures
        applied_members(r, final(v)@) == augmentation(
            env::context(eval@, env),
            base::views(old(v)@),
            base::views(args@),
        ),
    decreases args, 1nat,
{
    match apply_augmentation_effects(v, args, eval, env) {
        Ok(_) => {},
        Err(e) => return Err(e),
    }
    apply_augmentation_points(v, args, eval.arg_i32_or(args, 1, 0), eval, env)
}

fn apply_augmentation_effects<E: LowerEnv>(
    v: &mut Vec<Member>,
    args: &Vec<Spanned<Expr>>,
    eval: &Evaluator,
    env: &E,
) -> (r: Result<(), LowerError>)
    ensures
        applied_members(r, final(v)@) == augmentation_effects(
            env::context(eval@, env),
            base::views(old(v)@),
            base::views(args@),
            0,
        ),
    decreases args, 0nat,
{
    let ghost cx = env::context(eval@, env);
    let ghost all = base::views(args@);
    let ghost whole = augmentation_effects(cx, base::views(v@), all, 0);
    let mut k: usize = 0;
    while k < 5
        invariant
            k <= 5,
            cx == env::context(eval@, env),
            all == base::views(args@),
            whole == augmentation_effects(cx, base::views(old(v)@), all, 0),
            whole == augmentation_effects(cx, base::views(v@), all, k as int),
        decreases 5 - k,
    {
        let a: usize = if k == 0 {
            0
        } else {
            k + 1
        };
        if a < args.len() {
            if k >= v.len() {
                return Err(semantic_error("ObjectAugmentationParticleSet member out of range"));
            }
            assert(all[a as int] == args@[a as int]@);
            if k == 0 {
                match apply_member(v, k, &args[a], eval, env) {
                    Ok(_) => {},
                    Err(e) => return Err(e),
                }
            } else {
                match eval_def_string(eval, env, &args[a]) {
                    Ok(n) => set_number(v, k, n),
                    Err(e) => return Err(e),
                }
            }
        }
        k = k + 1;
    }
    Ok(())
}

fn set_number(v: &mut Vec<Member>, i: usize, n: i32)
    requires
        i < old(v)@.len(),
    ensures
        base::views(final(v)@) == with_value(
            base::views(old(v)@),
            i as int,
            as_number(base::views(old(v)@)[i as int].value, n),
        ),
{
    proof {
        assert(base::views(v@)[i as int] == v@[i as int]@);
        value::lemma_value_view(v@[i as int].value);
    }
    let x = match &v[i].value {
        Value::Scalar(Scalar::I32(_)) => Value::Scalar(Scalar::I32(n)),
        Value::Scalar(Scalar::U32(_)) => Value::Scalar(Scalar::U32(n as u32)),
        other => other.clone(),
    };
    proof {
        value::lemma_value_view(x);
    }
    replace_member(v, i, x);
}

fn add_point<E: LowerEnv>(
    v: &mut Vec<Member>,
    i: usize,
    expr: &Spanned<Expr>,
    eval: &Evaluator,
    env: &E,
) -> (r: Result<(), LowerError>)
    ensures
        applied_members(r, final(v)@) == point_added(
            env::context(eval@, env),
            base::views(old(v)@),
            i as int,
            expr@,
        ),
    decreases expr, 4nat,
{
    if i >= v.len() {
        return Ok(());
    }
    let ghost before = base::views(v@);
    proof {
        assert(before[i as int] == v@[i as int]@);
        value::lemma_value_view(v@[i as int].value);
    }
    let r = match &mut v[i].value {
        Value::List(list) => {
            let mut x = (&*list.element).clone();
            let r = apply_expr(&mut x, expr, eval, env);
            list.items.push(x);
            r
        },
        _ => {
            assert(base::views(v@) =~= before);
            return Ok(());
        },
    };
    proof {
        value::lemma_value_view(v@[i as int].value);
        assert(base::views(v@) =~= with_value(before, i as int, v@[i as int].value@));
    }
    r
}

fn apply_augmentation_points<E: LowerEnv>(
    v: &mut Vec<Member>,
    args: &Vec<Spanned<Expr>>,
    pairs: i32,
    eval: &Evaluator,
    env: &E,
) -> (r: Result<(), LowerError>)
    ensures
        applied_members(r, final(v)@) == augmentation_points(
            env::context(eval@, env),
            base::views(old(v)@),
            base::views(args@),
            pairs as int,
            0,
        ),
    decreases args, 0nat,
{
    let ghost cx = env::context(eval@, env);
    let ghost all = base::views(args@);
    let ghost whole = augmentation_points(cx, base::views(v@), all, pairs as int, 0);
    let n: usize = args.len();
    let mut p: i32 = 0;
    let mut a: usize = 6;
    while p < pairs && a < n
        invariant
            cx == env::context(eval@, env),
            all == base::views(args@),
            n == args@.len(),
            0 <= p,
            a == 6 + 2 * p || a == n == 6 + 2 * p + 1,
            whole == augmentation_points(cx, base::views(old(v)@), all, pairs as int, 0),
            a == 6 + 2 * p ==> whole == augmentation_points(
                cx,
                base::views(v@),
                all,
                pairs as int,
                p as int,
            ),
            a != 6 + 2 * p ==> whole == Ok::<Seq<MemberView>, (Seq<MemberView>, LowerErrorView)>(
                base::views(v@),
            ),
        decreases n - a,
    {
        assert(all[a as int] == args@[a as int]@);
        match add_point(v, 5, &args[a], eval, env) {
            Ok(_) => {},
            Err(e) => return Err(e),
        }
        a = a + 1;
        if a < n {
            assert(all[a as int] == args@[a as int]@);
            match add_point(v, 6, &args[a], eval, env) {
                Ok(_) => {},
                Err(e) => return Err(e),
            }
            a = a + 1;
            p = p + 1;
        }
    }
    Ok(())
}

fn apply_combo<E: LowerEnv>(
    v: &mut Vec<Member>,
    args: &Vec<Spanned<Expr>>,
    eval: &Evaluator,
    env: &E,
) -> (r: Result<(), LowerError>)
    requires
        args@.len() > 0,
    ensures
        applied_members(r, final(v)@) == combo(
            env::context(eval@, env),
            base::views(old(v)@),
            base::views(args@),
        ),
    decreases args, 1nat,
{
    if v.len() < 2 {
        return Err(semantic_error("AttackHistoryCombo member 1 out of range"));
    }
    assert(base::views(args@)[0] == args@[0]@);
    match apply_member(v, 1, &args[0], eval, env) {
        Ok(_) => {},
        Err(e) => return Err(e),
    }
    let ghost set = base::views(v@);
    proof {
        assert(set.len() == v@.len());
        assert(set[0] == v@[0]@);
        value::lemma_value_view(v@[0].value);
    }
    let r = match &mut v[0].value {
        Value::List(list) => apply_combo_attacks(list, args, eval, env),
        _ => {
            assert(base::views(v@) =~= set);
            return Ok(());
        },
    };
    proof {
        value::lemma_value_view(v@[0].value);
        assert(base::views(v@) =~= with_value(set, 0, v@[0].value@));
    }
    r
}

fn apply_combo_attacks<E: LowerEnv>(
    list: &mut List,
    args: &Vec<Spanned<Expr>>,
    eval: &Evaluator,
    env: &E,
) -> (r: Result<(), LowerError>)
    requires
        args@.len() > 0,
    ensures
        applied(r, final(list)@) == combo_attacks(
            env::context(eval@, env),
            old(list)@,
            base::views(args@),
            1,
        ),
    decreases args, 0nat,
{
    let ghost cx = env::context(eval@, env);
    let ghost all = base::views(args@);
    let ghost whole = combo_attacks(cx, list@, all, 1);
    let mut j: usize = 1;
    while j < args.len()
        invariant
            1 <= j <= args@.len(),
            cx == env::context(eval@, env),
            all == base::views(args@),
            whole == combo_attacks(cx, old(list)@, all, 1),
            whole == combo_attacks(cx, list@, all, j as int),
        decreases args@.len() - j,
    {
        proof {
            assert(all[j as int] == args@[j as int]@);
            ast::lemma_expr_view(args@[j as int].value);
        }
        if adds(&args[j].value, 0) {
            match &args[j].value {
                Expr::Constructor(inner) => {
                    let mut x = (&*list.element).clone();
                    let r = apply_combo_attack(&mut x, &inner.arguments, eval, env);
                    list.items.push(x);
                    match r {
                        Ok(_) => {},
                        Err(e) => return Err(e),
                    }
                },
                _ => {},
            }
        }
        j = j + 1;
    }
    Ok(())
}

/// A literal that stands for an argument that was left out.
fn literal_expr(text: &str) -> (r: Spanned<Expr>)
    ensures
        r@ == literal(text@),
{
    let r = Spanned { span: Span::synthetic(), value: Expr::Number(text.to_owned()) };
    proof {
        ast::lemma_expr_view(r.value);
    }
    r
}

fn apply_combo_attack<E: LowerEnv>(
    v: &mut Value,
    args: &Vec<Spanned<Expr>>,
    eval: &Evaluator,
    env: &E,
) -> (r: Result<(), LowerError>)
    ensures
        applied(r, final(v)@) == combo_attack(
            env::context(eval@, env),
            old(v)@,
            base::views(args@),
        ),
    decreases args, 0nat,
{
    proof {
        value::lemma_value_view(*v);
        let all = base::views(args@);
        if args@.len() > 0 {
            assert(all[0] == args@[0]@);
        }
        if args@.len() > 1 {
            assert(all[1] == args@[1]@);
        }
    }
    match v {
        Value::Struct(s) => {
            let ghost before = base::views(s.members@);
            if s.members.len() > 0 {
                assert(before[0] == s.members@[0]@);
                let r = if args.len() > 0 {
                    apply_expr(&mut s.members[0].value, &args[0], eval, env)
                } else {
                    apply_plain(&mut s.members[0].value, &literal_expr("0"), eval, env)
                };
                assert(base::views(s.members@) =~= with_value(before, 0, s.members@[0].value@));
                match r {
                    Ok(_) => {},
                    Err(e) => {
                        proof {
                            value::lemma_value_view(*v);
                        }
                        return Err(e);
                    },
                }
            }
            let ghost mid = base::views(s.members@);
            if s.members.len() > 1 {
                assert(mid[1] == s.members@[1]@);
                let r = if args.len() > 1 {
                    apply_expr(&mut s.members[1].value, &args[1], eval, env)
                } else {
                    apply_plain(&mut s.members[1].value, &literal_expr("-1"), eval, env)
                };
                assert(base::views(s.members@) =~= with_value(mid, 1, s.members@[1].value@));
                match r {
                    Ok(_) => {},
                    Err(e) => {
                        proof {
                            value::lemma_value_view(*v);
                        }
                        return Err(e);
                    },
                }
            }
        },
        _ => {},
    }
    proof {
        value::lemma_value_view(*v);
    }
    Ok(())
}

fn apply_positional<E: LowerEnv>(
    v: &mut Vec<Member>,
    args: &Vec<Spanned<Expr>>,
    eval: &Evaluator,
    env: &E,
) -> (r: Result<(), LowerError>)
    ensures
        applied_members(r, final(v)@) == positional(
            env::context(eval@, env),
            base::views(old(v)@),
            base::views(args@),
            0,
        ),
    decreases args, 1nat,
{
    let ghost cx = env::context(eval@, env);
    let ghost all = base::views(args@);
    let ghost whole = positional(cx, base::views(v@), all, 0);
    let mut i: usize = 0;
    while i < v.len() && i < args.len()
        invariant
            cx == env::context(eval@, env),
            all == base::views(args@),
            whole == positional(cx, base::views(old(v)@), all, 0),
            whole == positional(cx, base::views(v@), all, i as int),
        decreases v@.len() - i,
    {
        let ghost before = base::views(v@);
        proof {
            assert(all[i as int] == args@[i as int]@);
            assert(before[i as int] == v@[i as int]@);
            value::lemma_value_view(v@[i as int].value);
        }
        match &mut v[i].value {
            Value::Mapping(m) => {
                if adds(&args[i].value, 2) {
                    let r = add_entries(m, args, i, eval, env);
                    proof {
                        value::lemma_value_view(v@[i as int].value);
                        assert(base::views(v@) =~= with_value(
                            before,
                            i as int,
                            v@[i as int].value@,
                        ));
                    }
                    return r;
                }
            },
            Value::List(l) => {
                if adds(&args[i].value, 0) {
                    let r = add_items(l, args, i, eval, env);
                    proof {
                        value::lemma_value_view(v@[i as int].value);
                        assert(base::views(v@) =~= with_value(
                            before,
                            i as int,
                            v@[i as int].value@,
                        ));
                    }
                    return r;
                }
            },
            _ => {},
        }
        assert(base::views(v@) =~= before);
        match apply_member(v, i, &args[i], eval, env) {
            Ok(_) => {},
            Err(e) => return Err(e),
        }
        assert(base::views(v@).len() == before.len());
        i = i + 1;
    }
    Ok(())
}

fn add_entries<E: LowerEnv>(
    m: &mut Mapping,
    args: &Vec<Spanned<Expr>>,
    from: usize,
    eval: &Evaluator,
    env: &E,
) -> (r: Result<(), LowerError>)
    requires
        from <= args@.len(),
    ensures
        applied(r, final(m)@) == entries_added(
            env::context(eval@, env),
            old(m)@,
            base::views(args@),
            from as int,
        ),
    decreases args, 0nat,
{
    let ghost cx = env::context(eval@, env);
    let ghost all = base::views(args@);
    let ghost whole = entries_added(cx, m@, all, from as int);
    let mut j: usize = from;
    while j < args.len()
        invariant
            j <= args@.len(),
            cx == env::context(eval@, env),
            all == base::views(args@),
            whole == entries_added(cx, old(m)@, all, from as int),
            whole == entries_added(cx, m@, all, j as int),
        decreases args@.len() - j,
    {
        proof {
            assert(all[j as int] == args@[j as int]@);
            ast::lemma_expr_view(args@[j as int].value);
        }
        if adds(&args[j].value, 2) {
            match &args[j].value {
                Expr::Constructor(inner) => {
                    proof {
                        let a = base::views(inner.arguments@);
                        assert(a[0] == inner.arguments@[0]@ && a[1] == inner.arguments@[1]@);
                    }
                    let mut key = (&*m.key).clone();
                    match apply_expr(&mut key, &inner.arguments[0], eval, env) {
                        Ok(_) => {},
                        Err(e) => return Err(e),
                    }
                    let mut value = (&*m.value).clone();
                    match apply_expr(&mut value, &inner.arguments[1], eval, env) {
                        Ok(_) => {},
                        Err(e) => return Err(e),
                    }
                    m.put(key, value);
                },
                _ => {},
            }
        }
        j = j + 1;
    }
    Ok(())
}

fn add_items<E: LowerEnv>(
    l: &mut List,
    args: &Vec<Spanned<Expr>>,
    from: usize,
    eval: &Evaluator,
    env: &E,
) -> (r: Result<(), LowerError>)
    requires
        from <= args@.len(),
    ensures
        applied(r, final(l)@) == items_added(
            env::context(eval@, env),
            old(l)@,
            base::views(args@),
            from as int,
        ),
    decreases args, 0nat,
{
    let ghost cx = env::context(eval@, env);
    let ghost all = base::views(args@);
    let ghost whole = items_added(cx, l@, all, from as int);
    let mut j: usize = from;
    while j < args.len()
        invariant
            j <= args@.len(),
            cx == env::context(eval@, env),
            all == base::views(args@),
            whole == items_added(cx, old(l)@, all, from as int),
            whole == items_added(cx, l@, all, j as int),
        decreases args@.len() - j,
    {
        proof {
            assert(all[j as int] == args@[j as int]@);
            ast::lemma_expr_view(args@[j as int].value);
        }
        if adds(&args[j].value, 0) {
            match &args[j].value {
                Expr::Constructor(inner) => {
                    let mut x = (&*l.element).clone();
                    let r = if inner.arguments.len() > 0 {
                        assert(base::views(inner.arguments@)[0] == inner.arguments@[0]@);
                        apply_expr(&mut x, &inner.arguments[0], eval, env)
                    } else {
                        Ok(())
                    };
                    l.items.push(x);
                    match r {
                        Ok(_) => {},
                        Err(e) => return Err(e),
                    }
                },
                _ => {},
            }
        }
        j = j + 1;
    }
    Ok(())
}

} // verus!
