//! Parsing of definition files and headers.

use def_compiler::text::ast::{
    number_is_float, Definition, EnumExpr, Expr, Item, PathSegment, PropertyPath, SourceAst,
    Statement,
};
use def_compiler::text::base::{FileId, Spanned};
use def_compiler::text::lexer::TextParseErrorKind;
use def_compiler::text::parser::{parse_expr_str, parse_source};
use def_compiler::text::symbols::SymbolTable;

fn first_definition(ast: SourceAst) -> Spanned<Definition> {
    ast.items
        .into_iter()
        .find_map(|item| match item {
            Item::Definition(d) => Some(d),
            _ => None,
        })
        .unwrap()
}

fn parse_def(body: &str) -> Spanned<Definition> {
    let input = format!("#definition OBJECT T\n{body}\n#end_definition");
    first_definition(parse_source(&input, FileId::anonymous()).unwrap())
}

fn parse_first_def(input: &str) -> Spanned<Definition> {
    first_definition(parse_source(input, FileId::anonymous()).unwrap())
}

fn parse_err(input: &str) -> TextParseErrorKind {
    parse_source(input, FileId::anonymous()).unwrap_err().inner
}

fn parse_stmt(stmt: &str) -> Spanned<Statement> {
    parse_def(stmt).value.body.pop().unwrap()
}

fn parse_expr_test(value: &str) -> Spanned<Expr> {
    match parse_stmt(&format!("X {value};")).value {
        Statement::Field(f) => f.expr,
        other => panic!("expected Field, got {other:?}"),
    }
}

fn parse_path(path: &str) -> PropertyPath {
    let Spanned {
        value: Statement::Field(f),
        ..
    } = parse_stmt(&format!("{path} 0;"))
    else {
        panic!()
    };
    f.path
}

fn number(value: &str) -> String {
    match parse_expr_test(value).value {
        Expr::Number(s) => s,
        other => panic!("expected Number, got {other:?}"),
    }
}

// --- numbers stay raw (interpretation is deferred to evaluation) -----------

#[test]
fn integer() {
    assert_eq!(number("42"), "42");
    assert_eq!(number("42282949"), "42282949");
}

#[test]
fn negative_integer() {
    assert_eq!(number("-42"), "-42");
    assert_eq!(number("-42282949"), "-42282949");
}

#[test]
fn float_keeps_source() {
    // Every float form is preserved verbatim.
    assert_eq!(number("4.2"), "4.2");
    assert_eq!(number("4.2f"), "4.2f");
    assert_eq!(number("4."), "4.");
    assert_eq!(number("-4.2"), "-4.2");
    assert_eq!(number("-4.2f"), "-4.2f");
    assert_eq!(number("-4."), "-4.");
}

#[test]
fn number_shape_classification() {
    assert!(!number_is_float("42"));
    assert!(!number_is_float("-42"));
    assert!(number_is_float("4.2"));
    assert!(number_is_float("4."));
    assert!(number_is_float("4.2f"));
}

#[test]
fn string() {
    let Expr::String(s) = parse_expr_test(r#""Hello, World!""#).value else {
        panic!()
    };
    assert_eq!(s, "Hello, World!");
}

#[test]
fn bool_test() {
    assert!(matches!(parse_expr_test("TRUE").value, Expr::Bool(true)));
    assert!(matches!(parse_expr_test("FALSE").value, Expr::Bool(false)));
}

#[test]
fn bool_b_prefix() {
    assert!(matches!(parse_expr_test("BTRUE").value, Expr::Bool(true)));
    assert!(matches!(parse_expr_test("BFALSE").value, Expr::Bool(false)));
}

#[test]
fn add_n_ary() {
    let Expr::Add(terms) = &parse_expr_test("1 + 2 + 3").value else {
        panic!()
    };
    assert_eq!(terms.len(), 3);
}

#[test]
fn bitor_n_ary() {
    let Expr::BitOr(terms) = &parse_expr_test("A | B | C").value else {
        panic!()
    };
    assert_eq!(terms.len(), 3);
}

#[test]
fn bitor_precedence_lower_than_add() {
    let Expr::BitOr(terms) = &parse_expr_test("A | B + C").value else {
        panic!()
    };
    assert_eq!(terms.len(), 2);
    assert!(matches!(&terms[0].value, Expr::Symbol(s) if s == "A"));
    let Expr::Add(add_terms) = &terms[1].value else {
        panic!()
    };
    assert_eq!(add_terms.len(), 2);
}

#[test]
fn constructor_with_args() {
    let Expr::Constructor(c) = &parse_expr_test("CRGBColour(255, 128, 64, 255)").value else {
        panic!()
    };
    assert_eq!(c.name, "CRGBColour");
    assert_eq!(c.arguments.len(), 4);
}

#[test]
fn empty_constructor() {
    let Expr::Constructor(c) = &parse_expr_test("CRGBColour()").value else {
        panic!()
    };
    assert!(c.arguments.is_empty());
}

#[test]
fn identifier() {
    let Expr::Symbol(s) = parse_expr_test("GRAPHIC_NULL").value else {
        panic!()
    };
    assert_eq!(s, "GRAPHIC_NULL");
}

#[test]
fn simple_path() {
    let p = parse_path("Health");
    assert_eq!(p.segments.len(), 1);
    assert!(matches!(&p.segments[0], PathSegment::Field(s) if s == "Health"));
}

#[test]
fn nested_path() {
    let p = parse_path("Stats.ExperienceWorth");
    assert_eq!(p.segments.len(), 2);
}

#[test]
fn integer_index() {
    let p = parse_path("Time[0]");
    assert!(matches!(
        &p.segments[1],
        PathSegment::Index(spanned) if matches!(&spanned.value, Expr::Number(s) if s == "0")
    ));
}

#[test]
fn negative_index() {
    let p = parse_path("Time[-1]");
    assert!(matches!(
        &p.segments[1],
        PathSegment::Index(spanned) if matches!(&spanned.value, Expr::Number(s) if s == "-1")
    ));
}

#[test]
fn ident_index() {
    let p = parse_path("Foo[BAR_CONST]");
    let PathSegment::Index(spanned) = &p.segments[1] else {
        panic!()
    };
    let Expr::Symbol(s) = &spanned.value else {
        panic!()
    };
    assert_eq!(s, "BAR_CONST");
}

#[test]
fn string_index() {
    let p = parse_path("Map[\"DAY\"]");
    let PathSegment::Index(spanned) = &p.segments[1] else {
        panic!()
    };
    let Expr::String(s) = &spanned.value else {
        panic!()
    };
    assert_eq!(s, "DAY");
}

#[test]
fn expression_index() {
    let p = parse_path("States[STATE + 1]");
    assert!(matches!(
        &p.segments[1],
        PathSegment::Index(spanned) if matches!(spanned.value, Expr::Add(_))
    ));
}

#[test]
fn nested_field_and_index() {
    let p = parse_path("Time[0].SkyTexture0");
    assert_eq!(p.segments.len(), 3);
    assert!(matches!(&p.segments[0], PathSegment::Field(s) if s == "Time"));
    assert!(matches!(
        &p.segments[1],
        PathSegment::Index(spanned) if matches!(&spanned.value, Expr::Number(s) if s == "0")
    ));
    assert!(matches!(&p.segments[2], PathSegment::Field(s) if s == "SkyTexture0"));
}

#[test]
fn field_assignment() {
    let Spanned {
        value: Statement::Field(f),
        ..
    } = parse_stmt("Health 100;")
    else {
        panic!()
    };
    assert_eq!(f.path.segments.len(), 1);
    assert!(matches!(&f.expr.value, Expr::Number(s) if s == "100"));
}

#[test]
fn method_call() {
    let Spanned {
        value: Statement::MethodCall(mc),
        ..
    } = parse_stmt("Components.Add(\"CTCPhysicsStandard\");")
    else {
        panic!()
    };
    assert_eq!(mc.call.name, "Add");
    assert_eq!(mc.call.arguments.len(), 1);
}

#[test]
fn tagged_block() {
    let Spanned {
        value: Statement::TaggedBlock(tb),
        ..
    } = parse_stmt("<CCreatureDef>\n  Health 100;\n<\\CCreatureDef>")
    else {
        panic!()
    };
    assert_eq!(tb.tag, "CCreatureDef");
    assert_eq!(tb.body.len(), 1);
}

#[test]
fn template_flag() {
    let def = parse_first_def("#definition_template OBJECT T\n#end_definition");
    assert!(def.value.is_template);
}

#[test]
fn specialises() {
    let def = parse_first_def(
        "#definition OBJECT CHILD specialises PARENT\n  Health 50;\n#end_definition",
    );
    assert_eq!(def.value.specializes.as_deref(), Some("PARENT"));
}

#[test]
fn end_definition_trailing_semicolon() {
    let file = parse_source(
        "#definition OBJECT T\n  Health 100;\n#end_definition;",
        FileId::anonymous(),
    )
    .unwrap();
    assert_eq!(file.definitions().len(), 1);
}

#[test]
fn multiple_definitions_preserve_order() {
    let file = parse_source(
        r#"
    #definition OBJECT FIRST
    #end_definition

    #definition OBJECT SECOND
    #end_definition
    "#,
        FileId::anonymous(),
    )
    .unwrap();
    assert_eq!(file.definitions().len(), 2);
    assert_eq!(file.definitions()[0].value.name, "FIRST");
    assert_eq!(file.definitions()[1].value.name, "SECOND");
    let by_name = file.definitions_by_name();
    assert_eq!(by_name.get("FIRST"), Some(0));
    assert_eq!(by_name.get("SECOND"), Some(1));
}

#[test]
fn line_comment_in_body() {
    let def = parse_def("// just a comment\nHealth 100;");
    assert_eq!(def.value.body.len(), 1);
}

#[test]
fn block_comment_in_body() {
    let def = parse_def("/* block comment */\nHealth 100;");
    assert_eq!(def.value.body.len(), 1);
}

#[test]
fn block_comment_inline() {
    let def = parse_def("Name /* inline */ \"Test\";");
    assert_eq!(def.value.body.len(), 1);
    let Spanned {
        value: Statement::Field(f),
        ..
    } = &def.value.body[0]
    else {
        panic!()
    };
    let Expr::String(s) = &f.expr.value else {
        panic!()
    };
    assert_eq!(s, "Test");
}

#[test]
fn block_comment_multiline() {
    let def = parse_def("/* multi\n   line\n   comment */\nHealth 100;");
    assert_eq!(def.value.body.len(), 1);
}

#[test]
fn missing_semicolon_tolerated() {
    // The `;` terminator is optional: a rule of the grammar, not recovery.
    let def = parse_def("  Health 100");
    assert_eq!(def.value.body.len(), 1);
}

// --- strict errors (no recovery) -------------------------------------------

#[test]
fn err_unterminated_block_comment() {
    // A `/*` with real content and no closer is a lex error, surfaced as the
    // file's single parse error: no line is skipped to recover.
    let kind = parse_err("#definition OBJECT T\n  Health /* never closes\n#end_definition");
    assert!(matches!(kind, TextParseErrorKind::UnterminatedBlockComment));
}

#[test]
fn err_unterminated_string() {
    let kind = parse_err("#definition OBJECT T\n  Name \"no close\n#end_definition");
    assert!(matches!(kind, TextParseErrorKind::UnterminatedString));
}

#[test]
fn err_mismatched_tag() {
    // A mismatched close tag is a hard error, not a dropped statement.
    let kind = parse_err("#definition OBJECT T\n  <A>\n  <\\B>\n#end_definition");
    assert!(matches!(kind, TextParseErrorKind::MismatchedTag { .. }));
}

#[test]
fn err_missing_end_definition() {
    let kind = parse_err("#definition OBJECT T\n  Health 100;\n");
    assert!(matches!(kind, TextParseErrorKind::MissingEndDefinition));
}

#[test]
fn missing_end_definition_does_not_swallow_next_def() {
    // A def missing its `#end_definition` must fail *precisely* on that def,
    // not silently eat the following one. The whole file errors (one error
    // per file), and the error is `missing #end_definition`.
    let input = [
        "#definition OBJECT FIRST\n",
        "  Health 100;\n",
        "#definition OBJECT SECOND\n",
        "  Health 200;\n",
        "#end_definition\n",
    ]
    .concat();
    let err = parse_source(&input, FileId::anonymous()).unwrap_err();
    assert!(matches!(
        err.inner,
        TextParseErrorKind::MissingEndDefinition
    ));
    // The error is anchored at the second `#definition` (the token that
    // revealed FIRST was never closed), not swallowed away.
    assert_eq!(
        err.span.start,
        input.find("#definition OBJECT SECOND").unwrap()
    );
}

#[test]
fn empty_file() {
    let f = parse_source("", FileId::anonymous()).unwrap();
    assert!(f.items.is_empty());
    assert!(f.ignored.is_empty());
}

#[test]
fn whitespace_only() {
    assert!(
        parse_source("   \n\t  \n  ", FileId::anonymous())
            .unwrap()
            .definitions()
            .is_empty()
    );
}

#[test]
fn comments_only() {
    let input = "// line comment\n/* block\n   comment */\n";
    assert!(
        parse_source(input, FileId::anonymous())
            .unwrap()
            .definitions()
            .is_empty()
    );
}

#[test]
fn skips_between_def_junk() {
    // The lexer strips commented-out defs and decorative banner lines; the
    // parser skips stray tokens between top-level items and reads the
    // file-local `enum`. Two defs survive.
    let input = r#"
    //#definition OBJECT COMMENTED_OUT_NEVER_PARSED
    //   Health 999;
    //#end_definition

    enum EFoo { A = 1, B = 2 };

    ****************************************

    #definition OBJECT FIRST
        Health 100;
    #end_definition

    stray_identifier;

    #definition OBJECT SECOND
        Health 200;
    #end_definition;
    "#;
    let file = parse_source(input, FileId::anonymous()).unwrap();
    assert_eq!(file.definitions().len(), 2);
    assert_eq!(file.definitions()[0].value.name, "FIRST");
    assert_eq!(file.definitions()[1].value.name, "SECOND");
    assert_eq!(
        file.items
            .iter()
            .filter(|i| matches!(i, Item::Enum(_)))
            .count(),
        1
    );
}

// ── Declaration items ─────────────────────────────────────────────────
fn parse_h(input: &str) -> SourceAst {
    parse_source(input, FileId::anonymous()).expect("header parse ok")
}

fn parse_h_err(input: &str) -> TextParseErrorKind {
    parse_source(input, FileId::anonymous()).unwrap_err().inner
}

/// An include guard is ordinary structure, not a prologue to skip: a
/// `#pragma once` item and an `#ifndef` conditional wrapping the file.
///
/// It evaluates correctly on its own — the guard name is undefined, the
/// condition is inverted, so the branch is taken. The guard's own valueless
/// `#define` contributes no symbol, so guard names never reach the table.
#[test]
fn include_guard_is_an_ordinary_conditional() {
    let h = parse_h("#pragma once\n#ifndef __FOO_H__\n#define __FOO_H__\n#endif");
    assert_eq!(h.items.len(), 2);
    assert!(matches!(h.items[0], Item::PragmaOnce(_)));
    let Item::Conditional(ifdef) = &h.items[1] else {
        panic!("expected the guard to parse as a conditional")
    };
    assert!(ifdef.inverted);
    assert_eq!(ifdef.condition, "__FOO_H__");
    assert_eq!(ifdef.if_branch.len(), 1);
    assert!(h.ignored.is_empty());

    let mut t = SymbolTable::new();
    t.evaluate_items(&h.items).expect("guard evaluates");
    assert_eq!(
        t.lookup("__FOO_H__"),
        None,
        "valueless define binds nothing"
    );
}

#[test]
fn named_enum() {
    let h = parse_h("enum EFoo { A = 1, B = 2 };");
    assert_eq!(h.items.len(), 1);
    let Item::Enum(decl) = &h.items[0] else {
        panic!()
    };
    assert_eq!(decl.name.as_ref().map(|n| n.value.as_str()), Some("EFoo"));
    assert_eq!(decl.variants.len(), 2);
    assert_eq!(decl.variants[0].name.value, "A");
    assert!(matches!(
        decl.variants[0].value,
        Some(EnumExpr::Int(Spanned { value: 1, .. }))
    ));
    assert_eq!(decl.variants[1].name.value, "B");
    assert!(matches!(
        decl.variants[1].value,
        Some(EnumExpr::Int(Spanned { value: 2, .. }))
    ));
}

#[test]
fn anonymous_enum() {
    let h = parse_h("enum { A = 1, B = 2 };");
    let Item::Enum(decl) = &h.items[0] else {
        panic!()
    };
    assert!(decl.name.is_none());
    assert_eq!(decl.variants.len(), 2);
}

#[test]
fn auto_increment() {
    let h = parse_h("enum EFoo { A = 1, B, C = 5, D };");
    let Item::Enum(decl) = &h.items[0] else {
        panic!()
    };
    assert!(matches!(
        decl.variants[0].value,
        Some(EnumExpr::Int(Spanned { value: 1, .. }))
    ));
    assert!(decl.variants[1].value.is_none()); // B = 2 (auto)
    assert!(matches!(
        decl.variants[2].value,
        Some(EnumExpr::Int(Spanned { value: 5, .. }))
    ));
    assert!(decl.variants[3].value.is_none()); // D = 6 (auto)
}

#[test]
fn enum_with_ident_value() {
    let h = parse_h("enum EFoo { A = NO_SOUND_TYPES };");
    let Item::Enum(decl) = &h.items[0] else {
        panic!()
    };
    assert!(matches!(
        &decl.variants[0].value,
        Some(EnumExpr::Ident(s)) if s.value == "NO_SOUND_TYPES"
    ));
}

#[test]
fn enum_with_bitor_expression() {
    let h = parse_h("enum EFoo { A = 1 | 2 | 4 };");
    let Item::Enum(decl) = &h.items[0] else {
        panic!()
    };
    assert!(
        matches!(&decl.variants[0].value, Some(EnumExpr::BitOr(terms)) if terms.len() == 3)
    );
}

#[test]
fn enum_with_shift_expression() {
    let h = parse_h("enum EFoo { A = 1 << 0, B = 1 << 1 };");
    let Item::Enum(decl) = &h.items[0] else {
        panic!()
    };
    assert!(
        matches!(&decl.variants[0].value, Some(EnumExpr::Shift(terms)) if terms.len() == 2)
    );
}

#[test]
fn enum_trailing_comma() {
    let h = parse_h("enum EFoo { A = 1, B = 2, };");
    let Item::Enum(decl) = &h.items[0] else {
        panic!()
    };
    assert_eq!(decl.variants.len(), 2);
}

#[test]
fn enum_no_trailing_semicolon() {
    let h = parse_h("enum EFoo { A = 1 }");
    assert_eq!(h.items.len(), 1);
}

#[test]
fn define_positive() {
    let h = parse_h("#define FOO 42");
    let Item::Define(d) = &h.items[0] else {
        panic!()
    };
    assert_eq!(d.name.value, "FOO");
    assert_eq!(d.value, Some(42));
}

#[test]
fn define_negative() {
    let h = parse_h("#define FOO -42");
    let Item::Define(d) = &h.items[0] else {
        panic!()
    };
    assert_eq!(d.value, Some(-42));
}

#[test]
fn namespace_with_enums() {
    let h = parse_h("namespace NFoo { enum EA { X = 1 }; }");
    let Item::Namespace(ns) = &h.items[0] else {
        panic!()
    };
    assert_eq!(ns.name, "NFoo");
    assert_eq!(ns.items.len(), 1);
}

#[test]
fn ifdef_with_else() {
    let h = parse_h("#ifdef _WINDOWS\n#define FOO 1\n#else\n#define FOO 2\n#endif");
    let Item::Conditional(ifdef) = &h.items[0] else {
        panic!()
    };
    assert_eq!(ifdef.condition, "_WINDOWS");
    assert_eq!(ifdef.if_branch.len(), 1);
    assert_eq!(ifdef.else_branch.as_ref().unwrap().len(), 1);
    assert!(!ifdef.inverted);
}

#[test]
fn ifndef_as_item() {
    // An `#ifndef` inside a namespace is an item as any other.
    let h = parse_h("namespace N { #ifndef _WINDOWS\n#define FOO 1\n#endif }");
    let Item::Namespace(ns) = &h.items[0] else {
        panic!()
    };
    assert_eq!(ns.items.len(), 1);
    let Item::Conditional(ifdef) = &ns.items[0] else {
        panic!()
    };
    assert!(ifdef.inverted);
    assert_eq!(ifdef.if_branch.len(), 1);
}

#[test]
fn full_header_file() {
    let h = parse_h(
        "#pragma once\n\
         #ifndef __FOO_H__\n\
         #define __FOO_H__\n\
         #define MAX_THINGS 100\n\
         enum EFoo { A = 1, B = 2 };\n\
         #endif",
    );
    // The guard wraps the items: MAX_THINGS and EFoo stand in its branch.
    assert_eq!(h.items.len(), 2);
}

#[test]
fn file_with_no_guard() {
    let h = parse_h("#define FOO 1\nenum EBar { A };\n");
    assert_eq!(h.items.len(), 2);
}

// --- error cases ---

#[test]
fn err_unterminated_enum() {
    let kind = parse_h_err("enum EFoo { A = 1");
    assert!(matches!(kind, TextParseErrorKind::UnexpectedToken { .. }));
}

#[test]
fn err_unterminated_enum_eof_after_comma() {
    // EOF after a comma is a genuine UnterminatedEnum.
    let kind = parse_h_err("enum EFoo { A = 1,");
    assert!(matches!(kind, TextParseErrorKind::UnterminatedEnum));
}

#[test]
fn err_unterminated_namespace() {
    let kind = parse_h_err("namespace NFoo { enum EA { X = 1 };");
    assert!(matches!(kind, TextParseErrorKind::UnterminatedNamespace));
}

#[test]
fn err_unterminated_ifdef() {
    let kind = parse_h_err("#ifdef _WINDOWS\n#define FOO 1\n");
    assert!(matches!(kind, TextParseErrorKind::UnterminatedIfDef));
}

/// Text matching no item is recorded as ignored rather than erroring: what
/// is left over from a commented-out definition must not fail a build.
#[test]
fn unknown_top_level_text_is_ignored_not_an_error() {
    let h = parse_h("foo bar");
    assert!(h.items.is_empty());
    assert_eq!(h.ignored.len(), 1);
}

/// `#define FOO abc` is a non-numeric macro, which this grammar does not
/// model. `FOO` binds nothing and `abc` becomes
/// ignored text the builder warns about — the same rule as any other
/// unrecognized top-level token, rather than a special case.
#[test]
fn non_numeric_define_value_is_ignored_text() {
    let h = parse_h("#define FOO abc");
    let Item::Define(d) = &h.items[0] else {
        panic!()
    };
    assert_eq!(d.name.value, "FOO");
    assert_eq!(d.value, None);
    assert_eq!(h.ignored.len(), 1);
}

#[test]
fn stray_guard_name_after_endif_consumed() {
    // `#endif __GUARD__` (no `//`): the name behind the directive is consumed.
    let h = parse_h("#define FOO 1\n#endif __GUARD_NAME__");
    assert_eq!(h.items.len(), 1); // FOO
}

/// Every span names the file that the text was read from.
#[test]
fn spans_bear_their_file() {
    let text = "stray\n#definition OBJECT A\nHealth 1;\nName \"x\";\n#end_definition\n";
    let f = parse_source(text, FileId(7)).unwrap();
    assert_eq!(f.ignored.len(), 1);
    assert_eq!(f.ignored[0].file, FileId(7));
    let Item::Definition(d) = &f.items[0] else {
        panic!()
    };
    assert_eq!(d.span.file, FileId(7));
    assert_eq!(d.value.body.len(), 2);
    for statement in &d.value.body {
        assert_eq!(statement.span.file, FileId(7));
    }
}

/// The source form of an expression parses to the same expression.
#[test]
fn an_expression_reads_back() {
    for text in [
        "1",
        "-2.5f",
        "5.",
        "BTRUE",
        "\"a | b, c)\"",
        "SYMBOL",
        "a|b+c|d",
        "C()",
        "C( 1 ,Add(\"x\", -1),a|b )",
        "1 /* gone */ + F(TRUE , FALSE)",
    ] {
        let e = parse_expr_str(text).unwrap();
        let again = parse_expr_str(&e.value.text()).unwrap();
        assert_eq!(again, e);
    }
    assert_eq!(parse_expr_str("a|b+c").unwrap().value.text(), "a | b + c");
    assert_eq!(parse_expr_str("C( 1 ,BFALSE)").unwrap().value.text(), "C(1, FALSE)");
}

/// Definitions and ignored text stand in the order of the file, and do not overlap.
#[test]
fn definitions_and_ignored_text_do_not_overlap() {
    let text = "stray one\n#definition A B\nN 1;\n#end_definition\nstray two\n\
                #definition A C\n#end_definition;\nstray three\n";
    let f = parse_source(text, FileId(0)).unwrap();
    let mut spans: Vec<(usize, usize)> = f.ignored.iter().map(|s| (s.start, s.end)).collect();
    spans.extend(f.items.iter().map(|item| match item {
        Item::Definition(d) => (d.span.start, d.span.end),
        _ => panic!("no definition"),
    }));
    assert_eq!(spans.len(), 5);
    assert!(spans[..3].windows(2).all(|w| w[0].1 <= w[1].0));
    assert!(spans[3].1 <= spans[4].0);
    spans.sort();
    assert!(spans.windows(2).all(|w| w[0].1 <= w[1].0));
    assert_eq!(spans[0], (0, 9));
}
