//! Which files belong to a binary, and which definitions of theirs it names.

use vstd::prelude::*;

use crate::build::paths;
use crate::build::paths::{contains_text, path_ends_with};
use crate::name_map::NameMap;
use crate::strings::same;
use crate::text::ast;
use crate::text::ast::{
    Definition, DefinitionView, Expr, ExprView, SourceAst, SourceView, Statement, StatementView,
};
use crate::text::base;
use crate::text::base::Spanned;
use crate::text::symbols::SymbolTable;

verus! {

broadcast use base::group_views;

/// A parsed source file.
#[derive(Debug)]
pub struct ParsedFile {
    /// The path, with `/` between its parts.
    pub path: String,
    pub def_file: SourceAst,
}

/// What a [`ParsedFile`] holds.
pub struct FileView {
    pub path: Seq<char>,
    pub def_file: SourceView,
}

impl View for ParsedFile {
    type V = FileView;

    open spec fn view(&self) -> FileView {
        FileView { path: self.path@, def_file: self.def_file@ }
    }
}

// ── Scopes ───────────────────────────────────────────────────────────────────

/// The first `n` numbers.
pub open spec fn all_files(n: int) -> Seq<usize> {
    Seq::new(n as nat, |i: int| i as usize)
}

/// The files of the game: all of them.
pub fn game_file_scope(corpus: &Vec<ParsedFile>) -> (r: Vec<usize>)
    ensures
        r@ == all_files(corpus@.len() as int),
{
    let mut out: Vec<usize> = Vec::new();
    let mut i: usize = 0;
    while i < corpus.len()
        invariant
            i <= corpus@.len(),
            out@ =~= all_files(i as int),
        decreases corpus@.len() - i,
    {
        out.push(i);
        i = i + 1;
    }
    out
}

/// The files of the front end that have their own place in its order.
pub open spec fn frontend_files() -> Seq<Seq<char>> {
    seq![
        "ui_dialogs.def"@,
        "FrontEndDefs/engine.def"@,
        "FrontEndDefs/engine_video_options.def"@,
        "FrontEndDefs/front_end.def"@,
        "FrontEndDefs/frontend_test.def"@,
        "FrontEndDefs/pc_frontend.def"@,
        "config_options_defaults.def"@,
        "controls.def"@,
        "pc_controls.def"@,
    ]
}

fn frontend_def_files() -> (r: Vec<&'static str>)
    ensures
        base::views(r@) == frontend_files(),
{
    let mut v: Vec<&'static str> = Vec::new();
    v.push("ui_dialogs.def");
    v.push("FrontEndDefs/engine.def");
    v.push("FrontEndDefs/engine_video_options.def");
    v.push("FrontEndDefs/front_end.def");
    v.push("FrontEndDefs/frontend_test.def");
    v.push("FrontEndDefs/pc_frontend.def");
    v.push("config_options_defaults.def");
    v.push("controls.def");
    v.push("pc_controls.def");
    assert(base::views(v@) =~= frontend_files());
    v
}

/// The first file at or behind `k` whose path ends with `rel`; the length if there is
/// none.
pub open spec fn file_place(corpus: Seq<FileView>, rel: Seq<char>, k: int) -> int
    decreases corpus.len() - k,
{
    if k < 0 || k >= corpus.len() || paths::path_end(corpus[k].path, rel) {
        k
    } else {
        file_place(corpus, rel, k + 1)
    }
}

/// The files that the first `k` of some relative paths name, in the order of the list.
pub open spec fn listed(corpus: Seq<FileView>, list: Seq<Seq<char>>, k: int) -> Seq<usize>
    decreases k,
{
    if k <= 0 || k > list.len() {
        Seq::empty()
    } else {
        let i = file_place(corpus, list[k - 1], 0);
        if i < corpus.len() {
            listed(corpus, list, k - 1).push(i as usize)
        } else {
            listed(corpus, list, k - 1)
        }
    }
}

/// `scoped` with those of the first `k` files that lie under `FrontEndDefs/` and are
/// not in it.
pub open spec fn with_others(corpus: Seq<FileView>, scoped: Seq<usize>, k: int) -> Seq<usize>
    decreases k,
{
    if k <= 0 || k > corpus.len() {
        scoped
    } else {
        let before = with_others(corpus, scoped, k - 1);
        if paths::holds(corpus[k - 1].path, "/FrontEndDefs/"@) && !before.contains(
            (k - 1) as usize,
        ) {
            before.push((k - 1) as usize)
        } else {
            before
        }
    }
}

/// The files of the front end: those of its list in the order of the list, and then
/// any others under `FrontEndDefs/`.
pub open spec fn frontend_scope(corpus: Seq<FileView>) -> Seq<usize> {
    with_others(
        corpus,
        listed(corpus, frontend_files(), frontend_files().len() as int),
        corpus.len() as int,
    )
}

fn find_file(corpus: &Vec<ParsedFile>, rel: &str) -> (r: Option<usize>)
    ensures
        match r {
            Some(i) => i < corpus@.len() && i == file_place(base::views(corpus@), rel@, 0),
            None => file_place(base::views(corpus@), rel@, 0) == corpus@.len(),
        },
{
    let ghost all = base::views(corpus@);
    let mut i: usize = 0;
    while i < corpus.len()
        invariant
            i <= corpus@.len(),
            all == base::views(corpus@),
            file_place(all, rel@, 0) == file_place(all, rel@, i as int),
        decreases corpus@.len() - i,
    {
        assert(all[i as int] == corpus@[i as int]@);
        if path_ends_with(corpus[i].path.as_str(), rel) {
            return Some(i);
        }
        i = i + 1;
    }
    None
}

fn has_number(v: &Vec<usize>, n: usize) -> (r: bool)
    ensures
        r == v@.contains(n),
{
    let mut i: usize = 0;
    while i < v.len()
        invariant
            i <= v@.len(),
            forall|j: int| 0 <= j < i ==> v@[j] != n,
        decreases v@.len() - i,
    {
        if v[i] == n {
            assert(v@[i as int] == n);
            return true;
        }
        i = i + 1;
    }
    false
}

/// The files of the front end: those of its list in the order of the list, and then
/// any others under `FrontEndDefs/`.
pub fn frontend_file_scope(corpus: &Vec<ParsedFile>) -> (r: Vec<usize>)
    ensures
        r@ == frontend_scope(base::views(corpus@)),
{
    let ghost all = base::views(corpus@);
    let list = frontend_def_files();
    let ghost names = frontend_files();
    let mut scoped: Vec<usize> = Vec::new();
    let mut k: usize = 0;
    while k < list.len()
        invariant
            k <= list@.len(),
            all == base::views(corpus@),
            names == base::views(list@),
            scoped@ == listed(all, names, k as int),
        decreases list@.len() - k,
    {
        assert(names[k as int] == list@[k as int]@);
        match find_file(corpus, list[k]) {
            Some(i) => scoped.push(i),
            None => {},
        }
        k = k + 1;
    }
    assert(names.len() == list@.len());
    let ghost first = scoped@;
    let mut k: usize = 0;
    while k < corpus.len()
        invariant
            k <= corpus@.len(),
            all == base::views(corpus@),
            scoped@ == with_others(all, first, k as int),
        decreases corpus@.len() - k,
    {
        assert(all[k as int] == corpus@[k as int]@);
        if contains_text(corpus[k].path.as_str(), "/FrontEndDefs/") && !has_number(&scoped, k) {
            scoped.push(k);
        }
        k = k + 1;
    }
    scoped
}

/// Those of the first `k` files that lie under `ScriptDefs/`.
pub open spec fn script_files(corpus: Seq<FileView>, k: int) -> Seq<usize>
    decreases k,
{
    if k <= 0 || k > corpus.len() {
        Seq::empty()
    } else if paths::holds(corpus[k - 1].path, "ScriptDefs/"@) {
        script_files(corpus, k - 1).push((k - 1) as usize)
    } else {
        script_files(corpus, k - 1)
    }
}

/// The files of the scripts: those under `ScriptDefs/`.
pub fn script_file_scope(corpus: &Vec<ParsedFile>) -> (r: Vec<usize>)
    ensures
        r@ == script_files(base::views(corpus@), corpus@.len() as int),
{
    let ghost all = base::views(corpus@);
    let mut out: Vec<usize> = Vec::new();
    let mut k: usize = 0;
    while k < corpus.len()
        invariant
            k <= corpus@.len(),
            all == base::views(corpus@),
            out@ == script_files(all, k as int),
        decreases corpus@.len() - k,
    {
        assert(all[k as int] == corpus@[k as int]@);
        if contains_text(corpus[k].path.as_str(), "ScriptDefs/") {
            out.push(k);
        }
        k = k + 1;
    }
    out
}

// ── Definitions ──────────────────────────────────────────────────────────────

/// The definitions without their places.
pub open spec fn values_of(v: Seq<Spanned<DefinitionView>>) -> Seq<DefinitionView> {
    Seq::new(v.len(), |i: int| v[i].value)
}

/// The definitions of the first `k` files of a scope, in order.
pub open spec fn scoped_defs(corpus: Seq<FileView>, scope: Seq<usize>, k: int) -> Seq<
    DefinitionView,
>
    decreases k,
{
    if k <= 0 || k > scope.len() {
        Seq::empty()
    } else if scope[k - 1] < corpus.len() {
        scoped_defs(corpus, scope, k - 1) + values_of(
            ast::definitions_of(corpus[scope[k - 1] as int].def_file.items),
        )
    } else {
        scoped_defs(corpus, scope, k - 1)
    }
}

fn append_definitions<'a>(out: &mut Vec<&'a Definition>, file: &'a ParsedFile)
    ensures
        base::views(final(out)@) == base::views(old(out)@) + values_of(
            ast::definitions_of(file@.def_file.items),
        ),
{
    let ghost before = base::views(out@);
    let defs = file.def_file.definitions();
    let ghost all = ast::definitions_of(file@.def_file.items);
    let mut i: usize = 0;
    assert(before + values_of(all).take(0) =~= before);
    while i < defs.len()
        invariant
            i <= defs@.len(),
            all == base::views(defs@),
            base::views(out@) == before + values_of(all).take(i as int),
        decreases defs@.len() - i,
    {
        let d: &'a Spanned<Definition> = defs[i];
        out.push(&d.value);
        proof {
            assert(all[i as int] == d@);
            assert(values_of(all).take(i as int + 1) =~= values_of(all).take(i as int).push(
                d.value@,
            ));
            assert(base::views(out@) =~= before + values_of(all).take(i as int + 1));
        }
        i = i + 1;
    }
    assert(values_of(all).take(defs@.len() as int) =~= values_of(all));
}

/// The definitions of the files of a scope, in order.
pub fn definitions_in<'a>(corpus: &'a Vec<ParsedFile>, scope: &Vec<usize>) -> (r: Vec<
    &'a Definition,
>)
    ensures
        base::views(r@) == scoped_defs(base::views(corpus@), scope@, scope@.len() as int),
{
    let ghost all = base::views(corpus@);
    let mut out: Vec<&'a Definition> = Vec::new();
    let mut k: usize = 0;
    while k < scope.len()
        invariant
            k <= scope@.len(),
            all == base::views(corpus@),
            base::views(out@) == scoped_defs(all, scope@, k as int),
        decreases scope@.len() - k,
    {
        let i = scope[k];
        if i < corpus.len() {
            assert(all[i as int] == corpus@[i as int]@);
            append_definitions(&mut out, &corpus[i]);
        }
        k = k + 1;
    }
    out
}

/// The places of the names of the first `k` definitions; of two definitions with one
/// name, the later counts.
pub open spec fn names_upto(defs: Seq<DefinitionView>, k: int) -> Map<Seq<char>, usize>
    decreases k,
{
    if k <= 0 || k > defs.len() {
        Map::empty()
    } else {
        names_upto(defs, k - 1).insert(defs[k - 1].name, (k - 1) as usize)
    }
}

/// The places of the names of definitions; of two definitions with one name, the later
/// counts.
pub fn defs_by_name(defs: &Vec<&Definition>) -> (r: NameMap<usize>)
    ensures
        r@ == names_upto(base::views(defs@), defs@.len() as int),
        crate::lower::body::names_defs(r@, defs@.len() as int),
{
    let ghost all = base::views(defs@);
    let mut out: NameMap<usize> = NameMap::new();
    let mut k: usize = 0;
    while k < defs.len()
        invariant
            k <= defs@.len(),
            all == base::views(defs@),
            out@ == names_upto(all, k as int),
            crate::lower::body::names_defs(out@, k as int),
        decreases defs@.len() - k,
    {
        assert(all[k as int] == defs@[k as int]@);
        out.insert(defs[k].name.as_str(), k);
        k = k + 1;
    }
    out
}

// ── References ───────────────────────────────────────────────────────────────

/// The names that an expression holds: its strings and symbols.
pub open spec fn expr_refs(e: ExprView) -> Set<Seq<char>>
    decreases e, 0int,
{
    match e {
        ExprView::String(s) => set![s],
        ExprView::Symbol(s) => set![s],
        ExprView::Constructor(c) => exprs_refs(c.arguments, c.arguments.len() as int),
        ExprView::BitOr(v) => exprs_refs(v, v.len() as int),
        ExprView::Add(v) => exprs_refs(v, v.len() as int),
        _ => Set::empty(),
    }
}

/// The names that the first `k` of some expressions hold.
pub open spec fn exprs_refs(v: Seq<Spanned<ExprView>>, k: int) -> Set<Seq<char>>
    decreases v, k,
{
    if k <= 0 || k > v.len() {
        Set::empty()
    } else {
        exprs_refs(v, k - 1).union(expr_refs(v[k - 1].value))
    }
}

/// The names that a statement holds.
pub open spec fn stmt_refs(s: StatementView) -> Set<Seq<char>>
    decreases s, 0int,
{
    match s {
        StatementView::Field { expr, .. } => expr_refs(expr.value),
        StatementView::MethodCall { call, .. } => exprs_refs(
            call.arguments,
            call.arguments.len() as int,
        ),
        StatementView::TaggedBlock { body, .. } => body_refs(body, body.len() as int),
    }
}

/// The names that the first `k` statements hold.
pub open spec fn body_refs(v: Seq<Spanned<StatementView>>, k: int) -> Set<Seq<char>>
    decreases v, k,
{
    if k <= 0 || k > v.len() {
        Set::empty()
    } else {
        body_refs(v, k - 1).union(stmt_refs(v[k - 1].value))
    }
}

/// The definitions that were walked, by name, and the names that they hold.
pub struct Walked {
    pub visited: Set<Seq<char>>,
    pub refs: Set<Seq<char>>,
}

/// What walking definition `i` and its ancestors adds, `fuel` of them at most: it ends
/// at one whose name was visited.
pub open spec fn chain_walked(
    defs: Seq<DefinitionView>,
    names: Map<Seq<char>, usize>,
    i: int,
    w: Walked,
    fuel: nat,
) -> Walked
    decreases fuel,
{
    if fuel == 0 || i < 0 || i >= defs.len() || w.visited.contains(defs[i].name) {
        w
    } else {
        let d = defs[i];
        let next = Walked {
            visited: w.visited.insert(d.name),
            refs: w.refs.union(body_refs(d.body, d.body.len() as int)),
        };
        match d.specializes {
            Some(parent) => if names.contains_key(parent) {
                chain_walked(defs, names, names[parent] as int, next, (fuel - 1) as nat)
            } else {
                next
            },
            None => next,
        }
    }
}

/// What walking the first `k` definitions and their ancestors gives.
pub open spec fn all_walked(
    defs: Seq<DefinitionView>,
    names: Map<Seq<char>, usize>,
    k: int,
) -> Walked
    decreases k,
{
    if k <= 0 || k > defs.len() {
        Walked { visited: Set::empty(), refs: Set::empty() }
    } else {
        chain_walked(defs, names, k - 1, all_walked(defs, names, k - 1), defs.len() + 1)
    }
}

fn walk_expr(e: &Expr, out: &mut NameMap<bool>)
    ensures
        final(out)@.dom() == old(out)@.dom().union(expr_refs(e@)),
    decreases e,
{
    proof {
        ast::lemma_expr_view(*e);
    }
    let ghost before = out@.dom();
    match e {
        Expr::String(s) => {
            out.insert(s.as_str(), true);
        },
        Expr::Symbol(s) => {
            out.insert(s.as_str(), true);
        },
        Expr::Constructor(c) => {
            walk_exprs(&c.arguments, out);
        },
        Expr::BitOr(v) => {
            walk_exprs(v, out);
        },
        Expr::Add(v) => {
            walk_exprs(v, out);
        },
        _ => {},
    }
    assert(out@.dom() =~= before.union(expr_refs(e@)));
}

fn walk_exprs(v: &Vec<Spanned<Expr>>, out: &mut NameMap<bool>)
    ensures
        final(out)@.dom() == old(out)@.dom().union(exprs_refs(base::views(v@), v@.len() as int)),
    decreases v,
{
    let ghost all = base::views(v@);
    let ghost before = out@.dom();
    let mut k: usize = 0;
    assert(before.union(exprs_refs(all, 0)) =~= before);
    while k < v.len()
        invariant
            k <= v@.len(),
            all == base::views(v@),
            before == old(out)@.dom(),
            out@.dom() == before.union(exprs_refs(all, k as int)),
        decreases v@.len() - k,
    {
        assert(all[k as int] == v@[k as int]@);
        assert(decreases_to!(v => v@[k as int].value)) by {
            assert(decreases_to!(v => v@));
            assert(decreases_to!(v@ => v@[k as int]));
            assert(decreases_to!(v@[k as int] => v@[k as int].value));
        }
        walk_expr(&v[k].value, out);
        assert(out@.dom() =~= before.union(exprs_refs(all, k as int + 1)));
        k = k + 1;
    }
}

fn walk_stmt(s: &Statement, out: &mut NameMap<bool>)
    ensures
        final(out)@.dom() == old(out)@.dom().union(stmt_refs(s@)),
    decreases s,
{
    proof {
        ast::lemma_statement_view(*s);
    }
    match s {
        Statement::Field(f) => walk_expr(&f.expr.value, out),
        Statement::MethodCall(m) => walk_exprs(&m.call.arguments, out),
        Statement::TaggedBlock(t) => walk_body(&t.body, out),
    }
}

fn walk_body(v: &Vec<Spanned<Statement>>, out: &mut NameMap<bool>)
    ensures
        final(out)@.dom() == old(out)@.dom().union(body_refs(base::views(v@), v@.len() as int)),
    decreases v,
{
    let ghost all = base::views(v@);
    let ghost before = out@.dom();
    let mut k: usize = 0;
    assert(before.union(body_refs(all, 0)) =~= before);
    while k < v.len()
        invariant
            k <= v@.len(),
            all == base::views(v@),
            before == old(out)@.dom(),
            out@.dom() == before.union(body_refs(all, k as int)),
        decreases v@.len() - k,
    {
        assert(all[k as int] == v@[k as int]@);
        assert(decreases_to!(v => v@[k as int].value)) by {
            assert(decreases_to!(v => v@));
            assert(decreases_to!(v@ => v@[k as int]));
            assert(decreases_to!(v@[k as int] => v@[k as int].value));
        }
        walk_stmt(&v[k].value, out);
        assert(out@.dom() =~= before.union(body_refs(all, k as int + 1)));
        k = k + 1;
    }
}

fn walk_specialization_chain(
    def: usize,
    defs: &Vec<&Definition>,
    names: &NameMap<usize>,
    out: &mut NameMap<bool>,
    visited: &mut NameMap<bool>,
)
    requires
        def < defs@.len(),
        crate::lower::body::names_defs(names@, defs@.len() as int),
    ensures
        (Walked { visited: final(visited)@.dom(), refs: final(out)@.dom() }) == chain_walked(
            base::views(defs@),
            names@,
            def as int,
            Walked { visited: old(visited)@.dom(), refs: old(out)@.dom() },
            (defs@.len() + 1) as nat,
        ),
{
    let ghost all = base::views(defs@);
    let ghost whole = chain_walked(
        all,
        names@,
        def as int,
        Walked { visited: visited@.dom(), refs: out@.dom() },
        (defs@.len() + 1) as nat,
    );
    let mut i: usize = def;
    let mut left: usize = defs.len();
    loop
        invariant_except_break
            i < defs@.len(),
            all == base::views(defs@),
            crate::lower::body::names_defs(names@, defs@.len() as int),
            whole == chain_walked(
                all,
                names@,
                i as int,
                Walked { visited: visited@.dom(), refs: out@.dom() },
                (left + 1) as nat,
            ),
        ensures
            whole == (Walked { visited: visited@.dom(), refs: out@.dom() }),
        decreases left,
    {
        let d = defs[i];
        assert(all[i as int] == d@);
        if visited.get(d.name.as_str()).is_some() {
            break;
        }
        let ghost seen = visited@.dom();
        visited.insert(d.name.as_str(), true);
        assert(visited@.dom() =~= seen.insert(d.name@));
        walk_body(&d.body, out);
        match &d.specializes {
            Some(parent) => match names.get(parent.as_str()) {
                Some(next) => {
                    assert(names@[parent@] == next);
                    if left == 0 {
                        proof {
                            reveal_with_fuel(chain_walked, 2);
                        }
                        break;
                    }
                    left = left - 1;
                    i = next;
                },
                None => {
                    break;
                },
            },
            None => {
                break;
            },
        }
    }
}

/// The names that the bodies of definitions and of their ancestors hold.
pub fn collect_body_references(defs: &Vec<&Definition>, names: &NameMap<usize>) -> (r: NameMap<bool>)
    requires
        crate::lower::body::names_defs(names@, defs@.len() as int),
    ensures
        r@.dom() == all_walked(base::views(defs@), names@, defs@.len() as int).refs,
{
    let ghost all = base::views(defs@);
    let mut out: NameMap<bool> = NameMap::new();
    let mut visited: NameMap<bool> = NameMap::new();
    assert(out@.dom() =~= Set::<Seq<char>>::empty());
    let mut k: usize = 0;
    while k < defs.len()
        invariant
            k <= defs@.len(),
            all == base::views(defs@),
            crate::lower::body::names_defs(names@, defs@.len() as int),
            (Walked { visited: visited@.dom(), refs: out@.dom() }) == all_walked(
                all,
                names@,
                k as int,
            ),
        decreases defs@.len() - k,
    {
        walk_specialization_chain(k, defs, names, &mut out, &mut visited);
        k = k + 1;
    }
    out
}

// ── Names ────────────────────────────────────────────────────────────────────

/// Whether a definition is named, where the names in `order` are taken: its type is
/// allowed, and a template is referred to.
pub open spec fn is_named(
    d: DefinitionView,
    allowed: Seq<Seq<char>>,
    refs: Option<Set<Seq<char>>>,
    order: Seq<Seq<char>>,
) -> bool {
    !order.contains(d.name) && allowed.contains(d.def_type) && (d.is_template ==> match refs {
        Some(r) => r.contains(d.name),
        None => true,
    })
}

/// The names of the first `k` definitions that are named, in the order in which they
/// were first seen.
pub open spec fn named(
    defs: Seq<DefinitionView>,
    allowed: Seq<Seq<char>>,
    refs: Option<Set<Seq<char>>>,
    k: int,
) -> Seq<Seq<char>>
    decreases k,
{
    if k <= 0 || k > defs.len() {
        Seq::empty()
    } else {
        let before = named(defs, allowed, refs, k - 1);
        if is_named(defs[k - 1], allowed, refs, before) {
            before.push(defs[k - 1].name)
        } else {
            before
        }
    }
}

/// The first `k` names, numbered from `first` on.
pub open spec fn numbered(order: Seq<Seq<char>>, first: u32, k: int) -> Map<Seq<char>, u32>
    decreases k,
{
    if k <= 0 || k > order.len() {
        Map::empty()
    } else {
        numbered(order, first, k - 1).insert(order[k - 1], (first + (k - 1)) as u32)
    }
}

/// The names that definitions may refer to, as a set.
pub open spec fn ref_set(refs: Option<&NameMap<bool>>) -> Option<Set<Seq<char>>> {
    match refs {
        Some(r) => Some(r@.dom()),
        None => None,
    }
}

fn is_allowed(allowed: &Vec<&str>, def_type: &str) -> (r: bool)
    ensures
        r == base::views(allowed@).contains(def_type@),
{
    let ghost all = base::views(allowed@);
    let mut i: usize = 0;
    while i < allowed.len()
        invariant
            i <= allowed@.len(),
            all == base::views(allowed@),
            forall|j: int| 0 <= j < i ==> all[j] != def_type@,
        decreases allowed@.len() - i,
    {
        assert(all[i as int] == allowed@[i as int]@);
        if same(allowed[i], def_type) {
            return true;
        }
        i = i + 1;
    }
    assert forall|j: int| 0 <= j < all.len() implies all[j] != def_type@ by {}
    false
}

proof fn lemma_numbered(order: Seq<Seq<char>>, first: u32, k: int)
    requires
        0 <= k <= order.len(),
    ensures
        forall|n: Seq<char>| #[trigger]
            numbered(order, first, k).contains_key(n) <==> order.take(k).contains(n),
    decreases k,
{
    if k > 0 {
        lemma_numbered(order, first, k - 1);
        assert forall|n: Seq<char>| #[trigger]
            numbered(order, first, k).contains_key(n) <==> order.take(k).contains(n) by {
            let before = order.take(k - 1);
            let all = order.take(k);
            assert(numbered(order, first, k - 1).contains_key(n) <==> before.contains(n));
            if before.contains(n) {
                let i = choose|i: int| 0 <= i < before.len() && before[i] == n;
                assert(all[i] == n);
            }
            if n == order[k - 1] {
                assert(all[k - 1] == n);
            }
            if all.contains(n) && n != order[k - 1] {
                let i = choose|i: int| 0 <= i < all.len() && all[i] == n;
                assert(before[i] == n);
            }
        }
    }
}

proof fn lemma_numbered_push(order: Seq<Seq<char>>, name: Seq<char>, first: u32, k: int)
    requires
        0 <= k <= order.len(),
    ensures
        numbered(order.push(name), first, k) == numbered(order, first, k),
    decreases k,
{
    if k > 0 {
        lemma_numbered_push(order, name, first, k - 1);
    }
}

/// The names that a binary gives to definitions, and their numbers: those of the
/// allowed types, in the order in which they were first seen, numbered from
/// `nulldef_count` on.
pub fn collect_named(
    defs: &Vec<&Definition>,
    allowed: &Vec<&str>,
    body_refs: Option<&NameMap<bool>>,
    nulldef_count: u32,
) -> (r: (Vec<String>, NameMap<u32>))
    requires
        nulldef_count + defs@.len() <= u32::MAX,
    ensures
        base::views(r.0@) == named(
            base::views(defs@),
            base::views(allowed@),
            ref_set(body_refs),
            defs@.len() as int,
        ),
        r.1@ == numbered(base::views(r.0@), nulldef_count, r.0@.len() as int),
{
    let ghost all = base::views(defs@);
    let ghost types = base::views(allowed@);
    let ghost refs = ref_set(body_refs);
    let mut order: Vec<String> = Vec::new();
    let mut numbers: NameMap<u32> = NameMap::new();
    let mut k: usize = 0;
    while k < defs.len()
        invariant
            k <= defs@.len(),
            nulldef_count + defs@.len() <= u32::MAX,
            all == base::views(defs@),
            types == base::views(allowed@),
            refs == ref_set(body_refs),
            order@.len() <= k,
            base::views(order@) == named(all, types, refs, k as int),
            numbers@ == numbered(base::views(order@), nulldef_count, order@.len() as int),
        decreases defs@.len() - k,
    {
        let d = defs[k];
        let name = d.name.as_str();
        let ghost before = base::views(order@);
        proof {
            assert(all[k as int] == d@);
            lemma_numbered(before, nulldef_count, before.len() as int);
            assert(before.take(before.len() as int) =~= before);
            assert(numbers@.contains_key(name@) <==> before.contains(name@));
        }
        let taken = numbers.get(name).is_some();
        let referred = match body_refs {
            Some(r) => r.get(name).is_some(),
            None => true,
        };
        if !taken && is_allowed(allowed, d.def_type.as_str()) && (!d.is_template || referred) {
            numbers.insert(name, nulldef_count + order.len() as u32);
            order.push(d.name.clone());
            proof {
                lemma_numbered_push(before, name@, nulldef_count, before.len() as int);
                assert(base::views(order@) =~= before.push(name@));
                assert(numbers@ =~= numbered(
                    before.push(name@),
                    nulldef_count,
                    before.len() as int + 1,
                ));
            }
        }
        k = k + 1;
    }
    (order, numbers)
}

// ── Symbols of the engine ────────────────────────────────────────────────────

/// The symbols with one more, where no header defines it.
pub open spec fn with_fallback(
    symbols: Map<Seq<char>, i64>,
    name: Seq<char>,
    value: i64,
) -> Map<Seq<char>, i64> {
    if symbols.contains_key(name) {
        symbols
    } else {
        symbols.insert(name, value)
    }
}

/// The symbols with those that the engine knows and no header defines.
pub open spec fn with_engine_enums(symbols: Map<Seq<char>, i64>) -> Map<Seq<char>, i64> {
    let s = with_fallback(symbols, "WATER_BUMP_PC"@, 0);
    let s = with_fallback(s, "BLEND_NULL"@, 0);
    let s = with_fallback(s, "BLEND_ADDITIVE"@, 1);
    let s = with_fallback(s, "BLEND_ALPHA"@, 2);
    let s = with_fallback(s, "BLEND_SOLID"@, 3);
    with_fallback(s, "BLEND_MULTIPLY"@, 4)
}

fn fallback(symbols: &mut SymbolTable, name: &str, value: i64)
    ensures
        final(symbols)@ == with_fallback(old(symbols)@, name@, value),
{
    if symbols.lookup(name).is_none() {
        symbols.insert(name, value);
    }
}

/// Adds the symbols that the engine knows. A definition in a header keeps priority.
pub fn inject_engine_enums(symbols: &mut SymbolTable)
    ensures
        final(symbols)@ == with_engine_enums(old(symbols)@),
{
    fallback(symbols, "WATER_BUMP_PC", 0);
    fallback(symbols, "BLEND_NULL", 0);
    fallback(symbols, "BLEND_ADDITIVE", 1);
    fallback(symbols, "BLEND_ALPHA", 2);
    fallback(symbols, "BLEND_SOLID", 3);
    fallback(symbols, "BLEND_MULTIPLY", 4);
}

/// A symbol that a header defines keeps its value.
pub proof fn headers_keep_priority(symbols: Map<Seq<char>, i64>, name: Seq<char>)
    requires
        symbols.contains_key(name),
    ensures
        with_engine_enums(symbols).contains_key(name),
        with_engine_enums(symbols)[name] == symbols[name],
{
}

// ── Laws ─────────────────────────────────────────────────────────────────────

proof fn lemma_distinct(
    defs: Seq<DefinitionView>,
    allowed: Seq<Seq<char>>,
    refs: Option<Set<Seq<char>>>,
    k: int,
)
    requires
        0 <= k <= defs.len(),
    ensures
        named(defs, allowed, refs, k).no_duplicates(),
        named(defs, allowed, refs, k).len() <= k,
    decreases k,
{
    if k > 0 {
        lemma_distinct(defs, allowed, refs, k - 1);
    }
}

proof fn lemma_number(order: Seq<Seq<char>>, first: u32, i: int, k: int)
    requires
        order.no_duplicates(),
        0 <= i < k <= order.len(),
        first + order.len() <= u32::MAX,
    ensures
        numbered(order, first, k).contains_key(order[i]),
        numbered(order, first, k)[order[i]] == first + i,
    decreases k,
{
    if i < k - 1 {
        lemma_number(order, first, i, k - 1);
    }
}

/// Every named definition has one number, the numbers follow each other without a gap
/// behind those of the null definitions, and no name has two.
pub proof fn named_definitions_are_numbered_in_order(
    defs: Seq<DefinitionView>,
    allowed: Seq<Seq<char>>,
    refs: Option<Set<Seq<char>>>,
    first: u32,
    i: int,
)
    requires
        first + defs.len() <= u32::MAX,
        0 <= i < named(defs, allowed, refs, defs.len() as int).len(),
    ensures
        named(defs, allowed, refs, defs.len() as int).no_duplicates(),
        ({
            let order = named(defs, allowed, refs, defs.len() as int);
            let numbers = numbered(order, first, order.len() as int);
            numbers.contains_key(order[i]) && numbers[order[i]] == first + i
        }),
{
    let order = named(defs, allowed, refs, defs.len() as int);
    lemma_distinct(defs, allowed, refs, defs.len() as int);
    lemma_number(order, first, i, order.len() as int);
}

} // verus!
