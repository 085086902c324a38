//! Paths of source files, as text with `/` between their parts.

use vstd::prelude::*;

use crate::build::diagnostics::{BuildDiagnostic, DiagnosticView, Diagnostics, Severity};
use crate::strings::{chars_of, code, push_text, same, text_between};
use crate::text::base;

verus! {

broadcast use base::group_views;

// ── Separators ───────────────────────────────────────────────────────────────

/// The text with `/` for every `\`.
pub open spec fn slashed(s: Seq<char>) -> Seq<char> {
    Seq::new(
        s.len(),
        |i: int|
            if s[i] == '\\' {
                '/'
            } else {
                s[i]
            },
    )
}

/// The text without the `/` at its end.
pub open spec fn trimmed_end(s: Seq<char>) -> Seq<char>
    decreases s.len(),
{
    if s.len() > 0 && s.last() == '/' {
        trimmed_end(s.drop_last())
    } else {
        s
    }
}

/// The text without the `/` at its start.
pub open spec fn trimmed_start(s: Seq<char>) -> Seq<char>
    decreases s.len(),
{
    if s.len() > 0 && s[0] == '/' {
        trimmed_start(s.drop_first())
    } else {
        s
    }
}

/// Whether `s` begins with `part`.
pub open spec fn starts(s: Seq<char>, part: Seq<char>) -> bool {
    part.len() <= s.len() && s.take(part.len() as int) == part
}

/// Whether `part` stands somewhere in `s`.
pub open spec fn holds(s: Seq<char>, part: Seq<char>) -> bool {
    exists|i: int| 0 <= i && #[trigger] stands_at(s, part, i)
}

/// Whether `part` stands in `s` at `i`.
pub open spec fn stands_at(s: Seq<char>, part: Seq<char>, i: int) -> bool {
    i + part.len() <= s.len() && s.subrange(i, i + part.len()) == part
}

/// The path with `/` for every `\`, so that paths are the same on every platform.
pub fn normalize_path(path: &str) -> (r: String)
    ensures
        r@ == slashed(path@),
{
    let chars = chars_of(path);
    let mut out = String::new();
    let mut i: usize = 0;
    while i < chars.len()
        invariant
            i <= chars@.len(),
            chars@ == path@,
            out@ =~= slashed(path@).take(i as int),
        decreases chars@.len() - i,
    {
        let c: char = if chars[i] == '\\' {
            '/'
        } else {
            chars[i]
        };
        out.push(c);
        i = i + 1;
    }
    assert(out@ =~= slashed(path@));
    out
}

/// The path with `/` for every `\`, and none at its end, so that prefixes compare.
pub fn normalize_separators(path: &str) -> (r: String)
    ensures
        r@ == trimmed_end(slashed(path@)),
{
    let normalized = normalize_path(path);
    let chars = chars_of(normalized.as_str());
    let ghost all = slashed(path@);
    let mut n: usize = chars.len();
    assert(all.take(all.len() as int) =~= all);
    while n > 0 && chars[n - 1] == '/'
        invariant
            n <= chars@.len(),
            chars@ == all,
            trimmed_end(all) == trimmed_end(all.take(n as int)),
        decreases n,
    {
        assert(all.take(n as int).drop_last() =~= all.take(n - 1));
        n = n - 1;
    }
    assert(chars@.subrange(0, n as int) =~= all.take(n as int));
    text_between(&chars, 0, n)
}

fn start_of_text(chars: &Vec<char>, from: usize) -> (r: usize)
    requires
        from <= chars@.len(),
    ensures
        from <= r <= chars@.len(),
        chars@.skip(r as int) == trimmed_start(chars@.skip(from as int)),
{
    let mut k: usize = from;
    while k < chars.len() && chars[k] == '/'
        invariant
            from <= k <= chars@.len(),
            trimmed_start(chars@.skip(from as int)) == trimmed_start(chars@.skip(k as int)),
        decreases chars@.len() - k,
    {
        assert(chars@.skip(k as int).drop_first() =~= chars@.skip(k as int + 1));
        k = k + 1;
    }
    k
}

fn match_at(s: &Vec<char>, part: &Vec<char>, at: usize) -> (r: bool)
    requires
        at <= s@.len(),
    ensures
        r == stands_at(s@, part@, at as int),
{
    let n: usize = s.len();
    if part.len() > n - at {
        return false;
    }
    let mut k: usize = 0;
    while k < part.len()
        invariant
            k <= part@.len(),
            n == s@.len(),
            at + part@.len() <= n,
            forall|j: int| 0 <= j < k ==> s@[at + j] == part@[j],
        decreases part@.len() - k,
    {
        if s[at + k] != part[k] {
            assert(s@.subrange(at as int, at + part@.len())[k as int] != part@[k as int]);
            return false;
        }
        k = k + 1;
    }
    assert(s@.subrange(at as int, at + part@.len()) =~= part@);
    true
}

/// Whether `part` stands somewhere in `s`.
pub fn contains_text(s: &str, part: &str) -> (r: bool)
    ensures
        r == holds(s@, part@),
{
    let text = chars_of(s);
    let wanted = chars_of(part);
    let mut i: usize = 0;
    while i < text.len()
        invariant
            i <= text@.len(),
            text@ == s@,
            wanted@ == part@,
            forall|j: int| 0 <= j < i ==> !#[trigger] stands_at(s@, part@, j),
        decreases text@.len() - i,
    {
        if match_at(&text, &wanted, i) {
            assert(stands_at(s@, part@, i as int));
            return true;
        }
        i = i + 1;
    }
    let r = match_at(&text, &wanted, i);
    proof {
        if r {
            assert(stands_at(s@, part@, i as int));
        } else {
            assert forall|j: int| 0 <= j implies !#[trigger] stands_at(s@, part@, j) by {}
        }
    }
    r
}

// ── Ends and starts of paths ─────────────────────────────────────────────────

/// Whether a path ends with another, at a boundary between its parts.
pub open spec fn path_end(path: Seq<char>, rel: Seq<char>) -> bool {
    let n = path.len() - rel.len();
    n >= 0 && stands_at(path, rel, n) && (n == 0 || path[n - 1] == '/')
}

/// Whether a normalized path ends with a normalized relative path, at a boundary
/// between its parts.
pub fn path_ends_with(path: &str, rel: &str) -> (r: bool)
    ensures
        r == path_end(path@, rel@),
{
    let path = chars_of(path);
    let rel = chars_of(rel);
    if rel.len() > path.len() {
        return false;
    }
    let n: usize = path.len() - rel.len();
    match_at(&path, &rel, n) && (n == 0 || path[n - 1] == '/')
}

/// Whether `path` lies below `root`: it starts with it, and a part of the path ends there.
pub open spec fn lies_below(path: Seq<char>, root: Seq<char>) -> bool {
    &&& root.len() > 0
    &&& starts(path, root)
    &&& path.len() == root.len() || path[root.len() as int] == '/' || root.last() == '/'
}

/// The path below `root`; the whole path where it lies outside.
pub open spec fn below_root(path: Seq<char>, root: Seq<char>) -> Seq<char> {
    if lies_below(path, root) {
        let rest = trimmed_start(path.skip(root.len() as int));
        if rest.len() > 0 {
            rest
        } else {
            path
        }
    } else {
        path
    }
}

/// The path below `root`, to show; the whole path where it lies outside.
pub fn strip_root(path: &str, root: &str) -> (r: String)
    ensures
        r@ == below_root(path@, root@),
{
    let p = chars_of(path);
    let q = chars_of(root);
    assert(p@.subrange(0, p@.len() as int) =~= p@);
    if q.len() > 0 && match_at(&p, &q, 0) {
        assert(p@.subrange(0, q@.len() as int) =~= p@.take(q@.len() as int));
        if p.len() != q.len() && p[q.len()] != '/' && q[q.len() - 1] != '/' {
            return text_between(&p, 0, p.len());
        }
        let k = start_of_text(&p, q.len());
        if k < p.len() {
            assert(p@.subrange(k as int, p@.len() as int) =~= p@.skip(k as int));
            return text_between(&p, k, p.len());
        }
    } else if q.len() > 0 && q.len() <= p.len() {
        assert(p@.subrange(0, q@.len() as int) =~= p@.take(q@.len() as int));
    }
    text_between(&p, 0, p.len())
}

/// The path of a file relative to `root`, with a `/` before it, so that each of its
/// directories stands between two `/`; the whole path where it lies outside.
pub open spec fn rooted(full: Seq<char>, root: Seq<char>) -> Seq<char> {
    if starts(full, root) {
        seq!['/'] + trimmed_start(full.skip(root.len() as int))
    } else {
        full
    }
}

fn relative_path(full: &str, root: &str) -> (r: String)
    ensures
        r@ == rooted(full@, root@),
{
    let p = chars_of(full);
    let q = chars_of(root);
    if match_at(&p, &q, 0) {
        assert(p@.subrange(0, q@.len() as int) =~= p@.take(q@.len() as int));
        let k = start_of_text(&p, q.len());
        let rest = text_between(&p, k, p.len());
        assert(p@.subrange(k as int, p@.len() as int) =~= p@.skip(k as int));
        let mut out = String::new();
        out.push('/');
        push_text(&mut out, rest.as_str());
        assert(out@ =~= rooted(full@, root@));
        out
    } else {
        proof {
            if q@.len() <= p@.len() {
                assert(p@.subrange(0, q@.len() as int) =~= p@.take(q@.len() as int));
            }
        }
        full.to_owned()
    }
}

// ── Kinds of files ───────────────────────────────────────────────────────────

/// Where the last `c` among the first `k` characters stands; -1 if there is none.
pub open spec fn last_place(s: Seq<char>, c: char, k: int) -> int
    decreases k,
{
    if k <= 0 || k > s.len() {
        -1
    } else if s[k - 1] == c {
        k - 1
    } else {
        last_place(s, c, k - 1)
    }
}

/// The extension of a file: what stands behind the last dot of its name, where the
/// dot does not begin the name.
pub open spec fn extension(path: Seq<char>) -> Option<Seq<char>> {
    let name = last_place(path, '/', path.len() as int) + 1;
    let dot = last_place(path, '.', path.len() as int);
    if dot > name {
        Some(path.skip(dot + 1))
    } else {
        None
    }
}

fn find_last(s: &Vec<char>, c: char) -> (r: Option<usize>)
    ensures
        match r {
            Some(i) => i < s@.len() && i == last_place(s@, c, s@.len() as int),
            None => last_place(s@, c, s@.len() as int) == -1,
        },
{
    let mut k: usize = s.len();
    while k > 0
        invariant
            k <= s@.len(),
            last_place(s@, c, s@.len() as int) == last_place(s@, c, k as int),
        decreases k,
    {
        if s[k - 1] == c {
            return Some(k - 1);
        }
        k = k - 1;
    }
    None
}

/// Whether a file has the extension.
pub fn has_extension(path: &str, extension: &str) -> (r: bool)
    ensures
        r == (self::extension(path@) == Some(extension@)),
{
    let p = chars_of(path);
    let n: usize = p.len();
    let name: usize = match find_last(&p, '/') {
        Some(i) => i + 1,
        None => 0,
    };
    match find_last(&p, '.') {
        Some(dot) => if dot > name {
            let rest = text_between(&p, dot + 1, n);
            assert(p@.subrange(dot as int + 1, p@.len() as int) =~= p@.skip(dot as int + 1));
            same(rest.as_str(), extension)
        } else {
            false
        },
        None => false,
    }
}

// ── Order ────────────────────────────────────────────────────────────────────

/// The weight of a character in the order of paths: a separator comes before all
/// others, so that paths are ordered part by part.
pub open spec fn weight(c: char) -> int {
    if c == '/' {
        -1
    } else {
        c as int
    }
}

/// Whether path `a` comes no later than path `b`, from place `k` on.
pub open spec fn no_later(a: Seq<char>, b: Seq<char>, k: int) -> bool
    decreases a.len() - k,
{
    if k < 0 || k >= a.len() {
        true
    } else if k >= b.len() {
        false
    } else if a[k] != b[k] {
        weight(a[k]) < weight(b[k])
    } else {
        no_later(a, b, k + 1)
    }
}

fn comes_no_later(a: &str, b: &str) -> (r: bool)
    ensures
        r == no_later(a@, b@, 0),
{
    let x = chars_of(a);
    let y = chars_of(b);
    let mut k: usize = 0;
    while k < x.len()
        invariant
            k <= x@.len(),
            x@ == a@,
            y@ == b@,
            no_later(a@, b@, 0) == no_later(a@, b@, k as int),
        decreases x@.len() - k,
    {
        if k >= y.len() {
            return false;
        }
        let (c, d) = (x[k], y[k]);
        if c != d {
            let (m, n): (u32, u32) = (code(c), code(d));
            return d != '/' && (c == '/' || m < n);
        }
        k = k + 1;
    }
    true
}

/// The first place at or behind `k` of a path that comes later; the length if there
/// is none.
pub open spec fn place_in(v: Seq<Seq<char>>, path: Seq<char>, k: int) -> int
    decreases v.len() - k,
{
    if k < 0 || k >= v.len() || !no_later(v[k], path, 0) {
        k
    } else {
        place_in(v, path, k + 1)
    }
}

/// The first `k` paths in order.
pub open spec fn in_order(v: Seq<Seq<char>>, k: int) -> Seq<Seq<char>>
    decreases k,
{
    if k <= 0 || k > v.len() {
        Seq::empty()
    } else {
        let rest = in_order(v, k - 1);
        rest.insert(place_in(rest, v[k - 1], 0), v[k - 1])
    }
}

/// The paths among the first `k` that are kept.
pub open spec fn kept(
    v: Seq<Seq<char>>,
    keep: spec_fn(Seq<char>) -> bool,
    k: int,
) -> Seq<Seq<char>>
    decreases k,
{
    if k <= 0 || k > v.len() {
        Seq::empty()
    } else if keep(v[k - 1]) {
        kept(v, keep, k - 1).push(v[k - 1])
    } else {
        kept(v, keep, k - 1)
    }
}

/// The paths that are kept, in order.
pub open spec fn files_of(v: Seq<Seq<char>>, keep: spec_fn(Seq<char>) -> bool) -> Seq<Seq<char>> {
    let found = kept(v, keep, v.len() as int);
    in_order(found, found.len() as int)
}

fn sort_paths(v: &Vec<String>) -> (r: Vec<String>)
    ensures
        base::views(r@) == in_order(base::views(v@), v@.len() as int),
{
    let ghost all = base::views(v@);
    let mut out: Vec<String> = Vec::new();
    let mut i: usize = 0;
    while i < v.len()
        invariant
            i <= v@.len(),
            all == base::views(v@),
            base::views(out@) == in_order(all, i as int),
        decreases v@.len() - i,
    {
        assert(all[i as int] == v@[i as int]@);
        let ghost before = base::views(out@);
        let mut at: usize = 0;
        while at < out.len() && comes_no_later(out[at].as_str(), v[i].as_str())
            invariant
                i < v@.len(),
                at <= out@.len(),
                before == base::views(out@),
                place_in(before, v@[i as int]@, 0) == place_in(before, v@[i as int]@, at as int),
            decreases out@.len() - at,
        {
            assert(before[at as int] == out@[at as int]@);
            at = at + 1;
        }
        proof {
            if at < out@.len() {
                assert(before[at as int] == out@[at as int]@);
            }
        }
        let path = v[i].clone();
        out.insert(at, path);
        assert(base::views(out@) =~= before.insert(at as int, v@[i as int]@));
        i = i + 1;
    }
    out
}

/// Whether a path is of a file with definitions.
pub open spec fn defines() -> spec_fn(Seq<char>) -> bool {
    |path: Seq<char>| extension(path) == Some("def"@) || extension(path) == Some("tpl"@)
}

/// The files with definitions among those under a directory, in order of their paths.
pub fn walk_def_files(files: &Vec<String>) -> (r: Vec<String>)
    ensures
        base::views(r@) == files_of(base::views(files@), defines()),
{
    let ghost all = base::views(files@);
    let mut found: Vec<String> = Vec::new();
    let mut k: usize = 0;
    while k < files.len()
        invariant
            k <= files@.len(),
            all == base::views(files@),
            base::views(found@) == kept(all, defines(), k as int),
        decreases files@.len() - k,
    {
        assert(all[k as int] == files@[k as int]@);
        let path = files[k].as_str();
        if has_extension(path, "def") || has_extension(path, "tpl") {
            found.push(files[k].clone());
        }
        k = k + 1;
    }
    sort_paths(&found)
}

/// Whether a file is out of use by its name.
pub fn is_deprecated(path: &str) -> (r: bool)
    ensures
        r == holds(
            path@.skip(last_place(path@, '/', path@.len() as int) + 1),
            "_deprecated."@,
        ),
{
    let p = chars_of(path);
    let n: usize = p.len();
    let name: usize = match find_last(&p, '/') {
        Some(i) => i + 1,
        None => 0,
    };
    assert(p@.subrange(name as int, p@.len() as int) =~= p@.skip(name as int));
    contains_text(text_between(&p, name, n).as_str(), "_deprecated.")
}

// ── Headers ──────────────────────────────────────────────────────────────────

/// The set of headers to read, of those that are there: each holds the same headers,
/// so one must win.
pub open spec fn header_set(retail: bool, dev: bool) -> Option<Seq<char>> {
    if retail {
        Some("RetailHeaders"@)
    } else if dev {
        Some("DevHeaders"@)
    } else {
        None
    }
}

/// What is said where a set of headers is not read.
pub open spec fn ignored_set() -> DiagnosticView {
    DiagnosticView {
        severity: Severity::Warning,
        message: "using header set RetailHeaders/; ignoring DevHeaders/ (same headers, one set must win — edits to the ignored set are not read)"@,
        labels: Seq::empty(),
        notes: Seq::empty(),
    }
}

/// Picks the set of headers to read. Where another is there too, a warning says that
/// it is not read.
pub fn select_header_set(retail: bool, dev: bool, diagnostics: &mut Diagnostics) -> (r: Option<
    &'static str,
>)
    ensures
        (match r {
            Some(s) => Some(s@),
            None => None,
        }) == header_set(retail, dev),
        final(diagnostics)@ == (if retail && dev {
            old(diagnostics)@.push(ignored_set())
        } else {
            old(diagnostics)@
        }),
{
    if retail && dev {
        diagnostics.push(
            BuildDiagnostic::bare(
                Severity::Warning,
                "using header set RetailHeaders/; ignoring DevHeaders/ (same headers, one set must win — edits to the ignored set are not read)".to_owned(),
            ),
        );
    }
    if retail {
        Some("RetailHeaders")
    } else if dev {
        Some("DevHeaders")
    } else {
        None
    }
}

/// Whether a file is a header that is read: one outside every set, or in the selected
/// set, and for no other platform.
pub open spec fn reads_header(
    path: Seq<char>,
    root: Seq<char>,
    selected: Option<Seq<char>>,
) -> bool {
    let rel = rooted(path, root);
    &&& extension(path) == Some("h"@)
    &&& !holds(rel, "/xbox/"@)
    &&& !holds(rel, "scriptdialoguesnds2"@)
    &&& selected == Some("RetailHeaders"@) || !holds(rel, "/RetailHeaders/"@)
    &&& selected == Some("DevHeaders"@) || !holds(rel, "/DevHeaders/"@)
}

/// The headers that are read, as a choice of paths.
pub open spec fn read_headers(root: Seq<char>, selected: Option<Seq<char>>) -> spec_fn(
    Seq<char>,
) -> bool {
    |path: Seq<char>| reads_header(path, root, selected)
}

/// Whether a file under `root` is a header that is read.
pub fn is_read_header(path: &str, root: &str, selected: Option<&str>) -> (r: bool)
    ensures
        r == reads_header(
            path@,
            root@,
            (match selected {
                Some(s) => Some(s@),
                None => None,
            }),
        ),
{
    if !has_extension(path, "h") {
        return false;
    }
    let rel = relative_path(path, root);
    let rel = rel.as_str();
    let retail = match selected {
        Some(s) => same(s, "RetailHeaders"),
        None => false,
    };
    let dev = match selected {
        Some(s) => same(s, "DevHeaders"),
        None => false,
    };
    !contains_text(rel, "/xbox/") && !contains_text(rel, "scriptdialoguesnds2") && (retail
        || !contains_text(rel, "/RetailHeaders/")) && (dev || !contains_text(rel, "/DevHeaders/"))
}

/// The headers to read among the files under `root`, in order of their paths.
pub fn collect_h_files(files: &Vec<String>, root: &str, selected: Option<&str>) -> (r: Vec<String>)
    ensures
        base::views(r@) == files_of(
            base::views(files@),
            read_headers(
                root@,
                (match selected {
                    Some(s) => Some(s@),
                    None => None,
                }),
            ),
        ),
{
    let ghost keep = read_headers(
        root@,
        (match selected {
            Some(s) => Some(s@),
            None => None,
        }),
    );
    let ghost all = base::views(files@);
    let mut found: Vec<String> = Vec::new();
    let mut k: usize = 0;
    while k < files.len()
        invariant
            k <= files@.len(),
            all == base::views(files@),
            keep == read_headers(
                root@,
                (match selected {
                    Some(s) => Some(s@),
                    None => None,
                }),
            ),
            base::views(found@) == kept(all, keep, k as int),
        decreases files@.len() - k,
    {
        assert(all[k as int] == files@[k as int]@);
        if is_read_header(files[k].as_str(), root, selected) {
            found.push(files[k].clone());
        }
        k = k + 1;
    }
    sort_paths(&found)
}

// ── Logs ─────────────────────────────────────────────────────────────────────

/// How many bytes of a log fit into `cap` bytes with a terminator: as many as there
/// are up to a boundary between characters.
pub fn log_prefix(log: &str, cap: usize) -> (r: usize)
    requires
        cap > 0,
    ensures
        r <= vstd::utf8::encode_utf8(log@).len(),
        r < cap,
        r == 0 || vstd::utf8::is_char_boundary(vstd::utf8::encode_utf8(log@), r as int),
        forall|k: int|
            r < k <= vstd::utf8::encode_utf8(log@).len() && k < cap ==> !#[trigger] vstd::utf8::is_char_boundary(
                vstd::utf8::encode_utf8(log@),
                k,
            ),
{
    let n: usize = log.as_bytes().len();
    let mut keep: usize = if n < cap {
        n
    } else {
        cap - 1
    };
    while keep > 0 && !log.is_char_boundary(keep)
        invariant
            n == vstd::utf8::encode_utf8(log@).len(),
            keep <= n,
            keep < cap,
            forall|k: int|
                keep < k <= n && k < cap ==> !#[trigger] vstd::utf8::is_char_boundary(
                    vstd::utf8::encode_utf8(log@),
                    k,
                ),
        decreases keep,
    {
        keep = keep - 1;
    }
    keep
}

// ── Laws ─────────────────────────────────────────────────────────────────────

/// A normalized path holds no `\`, is as long as the path was, and stays as it is when
/// it is normalized again.
pub proof fn normalizing_once_is_enough(path: Seq<char>)
    ensures
        slashed(path).len() == path.len(),
        !slashed(path).contains('\\'),
        slashed(slashed(path)) == slashed(path),
{
    assert(slashed(slashed(path)) =~= slashed(path));
}

/// A path ends with another only at a boundary between its parts.
pub proof fn a_path_ends_at_a_boundary(path: Seq<char>, rel: Seq<char>)
    ensures
        path_end(path, rel) <==> path == rel || exists|dir: Seq<char>|
            path == #[trigger] (dir + seq!['/'] + rel),
{
    let n = path.len() - rel.len();
    if path_end(path, rel) {
        if n == 0 {
            assert(path.subrange(0, path.len() as int) =~= path);
        } else {
            let dir = path.take(n - 1);
            assert(path =~= dir + seq!['/'] + rel) by {
                assert(path.subrange(n, n + rel.len()) == rel);
                assert forall|i: int| n <= i < path.len() implies path[i] == rel[i - n] by {
                    assert(path.subrange(n, n + rel.len())[i - n] == path[i]);
                }
            }
            assert(path == dir + seq!['/'] + rel);
        }
    }
    if path == rel {
        assert(path.subrange(0, path.len() as int) =~= path);
        assert(stands_at(path, rel, 0));
    }
    if exists|dir: Seq<char>| path == #[trigger] (dir + seq!['/'] + rel) {
        let dir = choose|dir: Seq<char>| path == #[trigger] (dir + seq!['/'] + rel);
        assert(path.subrange(n, n + rel.len()) =~= rel);
        assert(path[n - 1] == '/');
    }
}

proof fn lemma_weights_differ(c: char, d: char)
    requires
        c != d,
    ensures
        weight(c) != weight(d),
{
}

proof fn lemma_no_later_total(a: Seq<char>, b: Seq<char>, k: int)
    ensures
        no_later(a, b, k) || no_later(b, a, k),
    decreases a.len() - k,
{
    if 0 <= k < a.len() && k < b.len() {
        if a[k] == b[k] {
            lemma_no_later_total(a, b, k + 1);
        } else {
            lemma_weights_differ(a[k], b[k]);
        }
    }
}

proof fn lemma_no_later_follows(a: Seq<char>, b: Seq<char>, c: Seq<char>, k: int)
    requires
        no_later(a, b, k),
        no_later(b, c, k),
    ensures
        no_later(a, c, k),
    decreases a.len() - k,
{
    if 0 <= k < a.len() && k < b.len() && k < c.len() && a[k] == b[k] && b[k] == c[k] {
        lemma_no_later_follows(a, b, c, k + 1);
    }
}

/// Whether no path comes later than one behind it.
pub open spec fn ordered(v: Seq<Seq<char>>) -> bool {
    forall|i: int, j: int| 0 <= i <= j < v.len() ==> no_later(v[i], v[j], 0)
}

proof fn lemma_no_later_self(a: Seq<char>, k: int)
    ensures
        no_later(a, a, k),
    decreases a.len() - k,
{
    if 0 <= k < a.len() {
        lemma_no_later_self(a, k + 1);
    }
}

proof fn lemma_place_in(v: Seq<Seq<char>>, path: Seq<char>, k: int)
    requires
        0 <= k <= v.len(),
    ensures
        k <= place_in(v, path, k) <= v.len(),
        forall|i: int| k <= i < place_in(v, path, k) ==> no_later(#[trigger] v[i], path, 0),
        place_in(v, path, k) < v.len() ==> !no_later(v[place_in(v, path, k)], path, 0),
    decreases v.len() - k,
{
    if k < v.len() && no_later(v[k], path, 0) {
        lemma_place_in(v, path, k + 1);
    }
}

/// Putting paths in order leaves them ordered part by part, and loses none and adds
/// none.
pub proof fn paths_are_put_in_order(v: Seq<Seq<char>>, k: int)
    requires
        0 <= k <= v.len(),
    ensures
        ordered(in_order(v, k)),
        in_order(v, k).to_multiset() == v.take(k).to_multiset(),
    decreases k,
{
    broadcast use vstd::seq_lib::group_to_multiset_ensures;

    if 0 < k {
        paths_are_put_in_order(v, k - 1);
        let rest = in_order(v, k - 1);
        let path = v[k - 1];
        let p = place_in(rest, path, 0);
        let after = in_order(v, k);
        lemma_place_in(rest, path, 0);
        assert forall|i: int, j: int| 0 <= i <= j < after.len() implies no_later(
            after[i],
            after[j],
            0,
        ) by {
            lemma_no_later_self(after[i], 0);
            if i < p && j > p {
                assert(no_later(rest[i], rest[j - 1], 0));
            } else if i < p && j == p {
                assert(no_later(rest[i], path, 0));
            } else if i < p {
                assert(no_later(rest[i], rest[j], 0));
            } else if i == p && j > p {
                lemma_no_later_total(rest[p], path, 0);
                assert(no_later(rest[p], rest[j - 1], 0));
                lemma_no_later_follows(path, rest[p], rest[j - 1], 0);
            } else if i > p {
                assert(no_later(rest[i - 1], rest[j - 1], 0));
            }
        }
        assert(v.take(k) =~= v.take(k - 1).push(path));
    } else {
        assert(v.take(0) =~= Seq::empty());
    }
}

} // verus!
