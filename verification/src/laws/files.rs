//! Paths, and which files are read for what.

use vstd::prelude::*;

use crate::build::corpus;
use crate::build::corpus::FileView;
use crate::build::paths;
use crate::text::ast;

verus! {

// ── Kinds of files ───────────────────────────────────────────────────────────

proof fn lemma_last(s: Seq<char>, c: char, k: int)
    requires
        0 <= k <= s.len(),
    ensures
        -1 <= paths::last_place(s, c, k) < k,
        paths::last_place(s, c, k) >= 0 ==> s[paths::last_place(s, c, k)] == c,
        forall|i: int| paths::last_place(s, c, k) < i < k ==> s[i] != c,
    decreases k,
{
    if k > 0 && s[k - 1] != c {
        lemma_last(s, c, k - 1);
    }
}

/// The extension of a file is what stands behind the last dot of its name; a name without a
/// dot, or with one only at its start, has none.
pub proof fn extensions_stand_behind_the_last_dot(stem: Seq<char>, rest: Seq<char>)
    requires
        !rest.contains('.'),
        !rest.contains('/'),
    ensures
        stem.len() > 0 && stem.last() != '/' ==> paths::extension(stem + seq!['.'] + rest) == Some(
            rest,
        ),
        stem.len() == 0 || stem.last() == '/' ==> paths::extension(stem + seq!['.'] + rest) is None,
        paths::extension(stem + seq!['/'] + rest) is None,
        paths::extension(rest) is None,
{
    let a = stem + seq!['.'] + rest;
    let n = stem.len() as int;
    lemma_last(a, '.', a.len() as int);
    lemma_last(a, '/', a.len() as int);
    assert(a[n] == '.');
    assert forall|i: int| n < i < a.len() implies a[i] != '.' && a[i] != '/' by {
        assert(a[i] == rest[i - n - 1]);
    }
    if n > 0 {
        assert(a[n - 1] == stem.last());
    }
    assert(a.skip(n + 1) =~= rest);
    let b = stem + seq!['/'] + rest;
    lemma_last(b, '.', b.len() as int);
    lemma_last(b, '/', b.len() as int);
    assert(b[n] == '/');
    assert forall|i: int| n < i < b.len() implies b[i] != '.' && b[i] != '/' by {
        assert(b[i] == rest[i - n - 1]);
    }
    lemma_last(rest, '.', rest.len() as int);
    lemma_last(rest, '/', rest.len() as int);
}

/// A file with definitions has the extension `def` or `tpl`.
pub proof fn definitions_are_in_two_kinds_of_files(path: Seq<char>)
    ensures
        paths::defines()(path) <==> (paths::extension(path) == Some(seq!['d', 'e', 'f'])
            || paths::extension(path) == Some(seq!['t', 'p', 'l'])),
{
    reveal_strlit("def");
    reveal_strlit("tpl");
    assert("def"@ =~= seq!['d', 'e', 'f']);
    assert("tpl"@ =~= seq!['t', 'p', 'l']);
}

proof fn lemma_kept(v: Seq<Seq<char>>, keep: spec_fn(Seq<char>) -> bool, k: int, p: Seq<char>)
    requires
        0 <= k <= v.len(),
    ensures
        paths::kept(v, keep, k).contains(p) <==> v.take(k).contains(p) && keep(p),
    decreases k,
{
    if k > 0 {
        lemma_kept(v, keep, k - 1, p);
        let before = paths::kept(v, keep, k - 1);
        assert(v.take(k) =~= v.take(k - 1).push(v[k - 1]));
        let all = v.take(k);
        assert(all.contains(p) <==> v.take(k - 1).contains(p) || p == v[k - 1]) by {
            let less = v.take(k - 1);
            if less.contains(p) {
                let i = choose|i: int| 0 <= i < less.len() && less[i] == p;
                assert(all[i] == p);
            }
            if p == v[k - 1] {
                assert(all[k - 1] == p);
            }
        }
        let now = paths::kept(v, keep, k);
        if before.contains(p) {
            let i = choose|i: int| 0 <= i < before.len() && before[i] == p;
            assert(now[i] == p);
        }
        if keep(v[k - 1]) {
            assert(now.last() == v[k - 1]);
        }
    }
}

/// Of the files under a directory those are taken that are asked for, each of them and no
/// other.
pub proof fn the_files_that_are_asked_for_are_taken(
    v: Seq<Seq<char>>,
    keep: spec_fn(Seq<char>) -> bool,
    p: Seq<char>,
)
    ensures
        paths::files_of(v, keep).contains(p) <==> v.contains(p) && keep(p),
{
    broadcast use vstd::seq_lib::group_to_multiset_ensures;

    let found = paths::kept(v, keep, v.len() as int);
    lemma_kept(v, keep, v.len() as int, p);
    assert(v.take(v.len() as int) =~= v);
    paths::paths_are_put_in_order(found, found.len() as int);
    assert(found.take(found.len() as int) =~= found);
    let r = paths::files_of(v, keep);
    assert(r.to_multiset() == found.to_multiset());
    assert(r.contains(p) <==> r.to_multiset().count(p) > 0);
    assert(found.contains(p) <==> found.to_multiset().count(p) > 0);
}

// ── Roots ────────────────────────────────────────────────────────────────────

/// A path below a root is shown without it, and one that only begins like it as it is.
pub proof fn paths_are_shown_below_their_root(root: Seq<char>, rest: Seq<char>, c: char)
    requires
        root.len() > 0,
        root.last() != '/',
        rest.len() > 0,
        rest[0] != '/',
        c != '/',
    ensures
        paths::below_root(root + seq!['/'] + rest, root) == rest,
        paths::below_root(root + seq![c] + rest, root) == root + seq![c] + rest,
        paths::below_root(root, root) == root,
        paths::rooted(root + seq!['/'] + rest, root) == seq!['/'] + rest,
{
    let a = root + seq!['/'] + rest;
    let n = root.len() as int;
    assert(a.take(n) =~= root);
    let tail = a.skip(n);
    assert(tail =~= seq!['/'] + rest);
    assert(tail.drop_first() =~= rest);
    assert(paths::trimmed_start(tail) == paths::trimmed_start(tail.drop_first()));
    assert(paths::trimmed_start(rest) == rest);
    let b = root + seq![c] + rest;
    assert(b.take(n) =~= root);
    assert(b[n] == c);
    assert(root.take(n) =~= root);
    assert(root.skip(n).len() == 0);
}

// ── Order ────────────────────────────────────────────────────────────────────

proof fn lemma_common(p: Seq<char>, a: Seq<char>, b: Seq<char>, k: int)
    requires
        0 <= k <= p.len(),
    ensures
        paths::no_later(p + a, p + b, k) == paths::no_later(p + a, p + b, p.len() as int),
    decreases p.len() - k,
{
    if k < p.len() {
        assert((p + a)[k] == p[k] && (p + b)[k] == p[k]);
        lemma_common(p, a, b, k + 1);
    }
}

/// Paths are ordered part by part: what lies in a directory comes before what only begins
/// like it, a path comes before those that go on behind it, and otherwise the first character
/// that differs decides.
pub proof fn paths_are_ordered_by_their_parts(
    p: Seq<char>,
    x: Seq<char>,
    y: Seq<char>,
    c: char,
    d: char,
)
    requires
        c != '/',
    ensures
        paths::no_later(p + (seq!['/'] + x), p + (seq![c] + y), 0),
        !paths::no_later(p + (seq![c] + y), p + (seq!['/'] + x), 0),
        d != '/' && c < d ==> paths::no_later(p + (seq![c] + x), p + (seq![d] + y), 0)
            && !paths::no_later(p + (seq![d] + y), p + (seq![c] + x), 0),
        paths::no_later(p, p + (seq![d] + x), 0),
        !paths::no_later(p + (seq![d] + x), p, 0),
{
    let n = p.len() as int;
    let s = seq!['/'] + x;
    let t = seq![c] + y;
    lemma_common(p, s, t, 0);
    lemma_common(p, t, s, 0);
    assert((p + s)[n] == '/' && (p + t)[n] == c);
    let u = seq![c] + x;
    let v = seq![d] + y;
    lemma_common(p, u, v, 0);
    lemma_common(p, v, u, 0);
    assert((p + u)[n] == c && (p + v)[n] == d);
    let w = seq![d] + x;
    let none = Seq::<char>::empty();
    assert(p + none =~= p);
    lemma_common(p, none, w, 0);
    lemma_common(p, w, none, 0);
}

// ── Headers ──────────────────────────────────────────────────────────────────

/// Of two sets of headers one is read: that for retail where it is there, and that for
/// development only without it. Headers outside the sets are read in any case; those of
/// another platform, and files of another kind, never.
pub proof fn one_set_of_headers_is_read(
    path: Seq<char>,
    root: Seq<char>,
    retail: bool,
    dev: bool,
)
    ensures
        ({
            let rel = paths::rooted(path, root);
            let read = paths::reads_header(path, root, paths::header_set(retail, dev));
            let header = paths::extension(path) == Some(seq!['h']);
            let in_retail = paths::holds(rel, "/RetailHeaders/"@);
            let in_dev = paths::holds(rel, "/DevHeaders/"@);
            let foreign = paths::holds(rel, "/xbox/"@) || paths::holds(rel, "scriptdialoguesnds2"@);
            &&& !header || foreign ==> !read
            &&& in_dev && retail ==> !read
            &&& in_retail && !retail ==> !read
            &&& in_dev && !dev ==> !read
            &&& header && !foreign && !in_retail && !in_dev ==> read
            &&& header && !foreign && in_retail && !in_dev && retail ==> read
            &&& header && !foreign && in_dev && !in_retail && dev && !retail ==> read
        }),
{
    reveal_strlit("h");
    assert("h"@ =~= seq!['h']);
    reveal_strlit("RetailHeaders");
    reveal_strlit("DevHeaders");
    assert("RetailHeaders"@.len() == 13 && "DevHeaders"@.len() == 10);
}

// ── Scopes ───────────────────────────────────────────────────────────────────

proof fn lemma_file(files: Seq<FileView>, rel: Seq<char>, k: int, i: int)
    requires
        0 <= k <= i < files.len(),
        paths::path_end(files[i].path, rel),
        forall|j: int| 0 <= j < i ==> !paths::path_end((#[trigger] files[j]).path, rel),
    ensures
        corpus::file_place(files, rel, k) == i,
    decreases i - k,
{
    if k < i {
        assert(!paths::path_end(files[k].path, rel));
        lemma_file(files, rel, k + 1, i);
    }
}

proof fn lemma_listed(files: Seq<FileView>, list: Seq<Seq<char>>, k: int, n: int)
    requires
        0 <= n < k <= list.len(),
        0 <= corpus::file_place(files, list[n], 0) < files.len(),
    ensures
        corpus::listed(files, list, k).contains(
            corpus::file_place(files, list[n], 0) as usize,
        ),
    decreases k,
{
    let i = corpus::file_place(files, list[n], 0) as usize;
    let now = corpus::listed(files, list, k);
    if n < k - 1 {
        lemma_listed(files, list, k - 1, n);
        let before = corpus::listed(files, list, k - 1);
        let p = choose|p: int| 0 <= p < before.len() && before[p] == i;
        assert(now[p] == i);
    } else {
        assert(now.last() == i);
    }
}

proof fn lemma_others(files: Seq<FileView>, scoped: Seq<usize>, k: int)
    requires
        0 <= k <= files.len() <= usize::MAX,
    ensures
        ({
            let r = corpus::with_others(files, scoped, k);
            &&& scoped.len() <= r.len()
            &&& forall|p: int| 0 <= p < scoped.len() ==> r[p] == scoped[p]
            &&& forall|i: int|
                0 <= i < k && paths::holds((#[trigger] files[i]).path, "/FrontEndDefs/"@)
                    ==> r.contains(i as usize)
            &&& forall|p: int|
                scoped.len() <= p < r.len() ==> 0 <= (#[trigger] r[p]) < k && paths::holds(
                    files[r[p] as int].path,
                    "/FrontEndDefs/"@,
                )
        }),
    decreases k,
{
    if k > 0 {
        lemma_others(files, scoped, k - 1);
        let before = corpus::with_others(files, scoped, k - 1);
        let r = corpus::with_others(files, scoped, k);
        assert forall|i: int|
            0 <= i < k && paths::holds(
                (#[trigger] files[i]).path,
                "/FrontEndDefs/"@,
            ) implies r.contains(i as usize) by {
            if before.contains(i as usize) {
                let p = choose|p: int| 0 <= p < before.len() && before[p] == i as usize;
                assert(r[p] == i as usize);
            } else {
                assert(i == k - 1);
                assert(r.last() == i as usize);
            }
        }
    }
}

/// Whether a file belongs to the front end by its name.
pub open spec fn named_for_the_front_end(rel: Seq<char>) -> bool {
    ||| rel == "ui_dialogs.def"@
    ||| rel == "FrontEndDefs/engine.def"@
    ||| rel == "FrontEndDefs/engine_video_options.def"@
    ||| rel == "FrontEndDefs/front_end.def"@
    ||| rel == "FrontEndDefs/frontend_test.def"@
    ||| rel == "FrontEndDefs/pc_frontend.def"@
    ||| rel == "config_options_defaults.def"@
    ||| rel == "controls.def"@
    ||| rel == "pc_controls.def"@
}

/// The front end has every file under `FrontEndDefs/`, and the first file with each of the
/// names that belong to it; the file of its dialogs comes first.
pub proof fn the_front_end_has_its_files(files: Seq<FileView>, rel: Seq<char>, i: int)
    requires
        0 <= i < files.len() <= usize::MAX,
    ensures
        ({
            let scope = corpus::frontend_scope(files);
            let first = paths::path_end(files[i].path, rel) && forall|j: int|
                0 <= j < i ==> !paths::path_end((#[trigger] files[j]).path, rel);
            &&& paths::holds(files[i].path, "/FrontEndDefs/"@) ==> scope.contains(i as usize)
            &&& first && named_for_the_front_end(rel) ==> scope.contains(i as usize)
            &&& first && rel == "ui_dialogs.def"@ ==> scope.len() > 0 && scope[0] == i
        }),
{
    let list = corpus::frontend_files();
    let scoped = corpus::listed(files, list, list.len() as int);
    let scope = corpus::frontend_scope(files);
    lemma_others(files, scoped, files.len() as int);
    let first = paths::path_end(files[i].path, rel) && forall|j: int|
        0 <= j < i ==> !paths::path_end((#[trigger] files[j]).path, rel);
    if first {
        lemma_file(files, rel, 0, i);
        if named_for_the_front_end(rel) {
            assert(list[0] == "ui_dialogs.def"@ && list[1] == "FrontEndDefs/engine.def"@ && list[2]
                == "FrontEndDefs/engine_video_options.def"@ && list[3]
                == "FrontEndDefs/front_end.def"@ && list[4] == "FrontEndDefs/frontend_test.def"@
                && list[5] == "FrontEndDefs/pc_frontend.def"@ && list[6]
                == "config_options_defaults.def"@ && list[7] == "controls.def"@ && list[8]
                == "pc_controls.def"@);
            let n = choose|n: int| 0 <= n < list.len() && #[trigger] list[n] == rel;
            lemma_listed(files, list, list.len() as int, n);
            let p = choose|p: int| 0 <= p < scoped.len() && scoped[p] == i as usize;
            assert(scope[p] == i as usize);
        }
        if rel == "ui_dialogs.def"@ {
            lemma_first(files, list, list.len() as int);
            assert(scoped[0] == i);
        }
    }
}

proof fn lemma_first(files: Seq<FileView>, list: Seq<Seq<char>>, k: int)
    requires
        0 < k <= list.len(),
        0 <= corpus::file_place(files, list[0], 0) < files.len(),
    ensures
        corpus::listed(files, list, k).len() > 0,
        corpus::listed(files, list, k)[0] == corpus::file_place(files, list[0], 0) as usize,
    decreases k,
{
    if k > 1 {
        lemma_first(files, list, k - 1);
    } else {
        assert(corpus::listed(files, list, 0).len() == 0);
    }
}

proof fn lemma_scripts(files: Seq<FileView>, k: int, i: int)
    requires
        0 <= k <= files.len() <= usize::MAX,
        0 <= i < files.len(),
    ensures
        corpus::script_files(files, k).contains(i as usize) <==> i < k && paths::holds(
            files[i].path,
            "ScriptDefs/"@,
        ),
    decreases k,
{
    if k > 0 {
        lemma_scripts(files, k - 1, i);
        let before = corpus::script_files(files, k - 1);
        let now = corpus::script_files(files, k);
        if before.contains(i as usize) {
            let p = choose|p: int| 0 <= p < before.len() && before[p] == i as usize;
            assert(now[p] == i as usize);
        }
        if i == k - 1 && paths::holds(files[i].path, "ScriptDefs/"@) {
            assert(now.last() == i as usize);
        }
    }
}

/// The scripts have the files under `ScriptDefs/` and no others, and the game has all files.
pub proof fn scripts_and_game_have_their_files(files: Seq<FileView>, i: int)
    requires
        0 <= i < files.len() <= usize::MAX,
    ensures
        corpus::script_files(files, files.len() as int).contains(i as usize) <==> paths::holds(
            files[i].path,
            "ScriptDefs/"@,
        ),
        corpus::all_files(files.len() as int).len() == files.len(),
        corpus::all_files(files.len() as int)[i] == i,
{
    lemma_scripts(files, files.len() as int, i);
}

proof fn lemma_scope(files: Seq<FileView>, a: Seq<usize>, b: Seq<usize>, k: int)
    requires
        0 <= k <= a.len(),
        k <= b.len(),
        forall|i: int| 0 <= i < k ==> a[i] == b[i],
    ensures
        corpus::scoped_defs(files, a, k) == corpus::scoped_defs(files, b, k),
    decreases k,
{
    if k > 0 {
        lemma_scope(files, a, b, k - 1);
    }
}

/// One more file in a scope puts its definitions behind the others.
pub proof fn a_file_adds_its_definitions(files: Seq<FileView>, scope: Seq<usize>, f: usize)
    requires
        f < files.len(),
    ensures
        ({
            let before = corpus::scoped_defs(files, scope, scope.len() as int);
            let after = corpus::scoped_defs(files, scope.push(f), scope.len() as int + 1);
            let defs = ast::definitions_of(files[f as int].def_file.items);
            &&& after.len() == before.len() + defs.len()
            &&& forall|i: int| 0 <= i < before.len() ==> after[i] == before[i]
            &&& forall|p: int|
                before.len() <= p < after.len() ==> #[trigger] after[p] == defs[p
                    - before.len()].value
        }),
{
    lemma_scope(files, scope.push(f), scope, scope.len() as int);
}

} // verus!
