//! The random appearance of a creature, from the calls that build it.

use vstd::prelude::*;

use crate::bytes;
use crate::bytes::put_u32;
use crate::eval;
use crate::eval::{Evaluator, Symbols};
use crate::lower::body;
use crate::lower::body::is_field_call;
use crate::strings::same;
use crate::text::ast;
use crate::text::ast::{clone_statement, Expr, ExprView, Statement, StatementView};
use crate::text::base;
use crate::text::base::Spanned;
use crate::text::symbols::SymbolTable;

verus! {

broadcast use base::group_views;

/// One texture for another on a mesh.
#[derive(Debug, Clone, Copy, PartialEq, Eq, Structural)]
pub struct TextureMorph {
    pub key: u32,
    pub new_texture: i32,
    pub group_id: i32,
}

/// The eight bytes that a morph is stored as, without its key.
pub open spec fn morph_data(m: TextureMorph) -> Seq<u8> {
    bytes::little_endian(m.new_texture as u32) + bytes::little_endian(m.group_id as u32)
}

impl TextureMorph {
    /// The eight bytes that a morph is stored as, without its key.
    pub fn data(&self) -> (r: Vec<u8>)
        ensures
            r@ == morph_data(*self),
    {
        let mut out: Vec<u8> = Vec::new();
        put_u32(&mut out, self.new_texture as u32);
        put_u32(&mut out, self.group_id as u32);
        assert(out@ =~= morph_data(*self));
        out
    }
}

/// A call that adds textures to a mesh.
#[derive(Debug)]
pub struct TexMeshCall {
    pub mesh_id: i32,
    /// The number of the group of textures.
    pub n: i32,
    pub original: i32,
    pub replacements: Vec<i32>,
}

/// What a [`TexMeshCall`] says.
pub struct TexCallView {
    pub mesh_id: i32,
    pub n: i32,
    pub original: i32,
    pub replacements: Seq<i32>,
}

impl View for TexMeshCall {
    type V = TexCallView;

    open spec fn view(&self) -> TexCallView {
        TexCallView {
            mesh_id: self.mesh_id,
            n: self.n,
            original: self.original,
            replacements: self.replacements@,
        }
    }
}

// ── Texture morphs ───────────────────────────────────────────────────────────

/// One replacement of a texture.
#[derive(Clone, Copy, PartialEq, Eq, Structural)]
pub struct Replacement {
    pub original: i32,
    pub replacement: i32,
    pub n: i32,
}

/// The replacements of one call.
pub open spec fn replacements_of(c: TexCallView) -> Seq<Replacement> {
    Seq::new(
        c.replacements.len(),
        |i: int| Replacement { original: c.original, replacement: c.replacements[i], n: c.n },
    )
}

/// The replacements that the first `k` calls make on a mesh, in order.
pub open spec fn replacements(mesh_id: i32, calls: Seq<TexCallView>, k: int) -> Seq<Replacement>
    decreases k,
{
    if k <= 0 || k > calls.len() {
        Seq::empty()
    } else if calls[k - 1].mesh_id == mesh_id {
        replacements(mesh_id, calls, k - 1) + replacements_of(calls[k - 1])
    } else {
        replacements(mesh_id, calls, k - 1)
    }
}

/// `s`, which ascends, with `x` at its place from `k` on, where it is not there.
pub open spec fn with_origin(s: Seq<i32>, x: i32, k: int) -> Seq<i32>
    decreases s.len() - k,
{
    if k < 0 || k >= s.len() || x < s[k] {
        s.insert(k, x)
    } else if x == s[k] {
        s
    } else {
        with_origin(s, x, k + 1)
    }
}

/// The textures that the first `k` replacements replace, each once, ascending.
pub open spec fn origins(items: Seq<Replacement>, k: int) -> Seq<i32>
    decreases k,
{
    if k <= 0 || k > items.len() {
        Seq::empty()
    } else {
        with_origin(origins(items, k - 1), items[k - 1].original, 0)
    }
}

/// The replacements of one texture among the first `k`, in order.
pub open spec fn group_of(items: Seq<Replacement>, original: i32, k: int) -> Seq<Replacement>
    decreases k,
{
    if k <= 0 || k > items.len() {
        Seq::empty()
    } else if items[k - 1].original == original {
        group_of(items, original, k - 1).push(items[k - 1])
    } else {
        group_of(items, original, k - 1)
    }
}

/// Whether a replacement is of a group of textures.
pub open spec fn any_grouped(group: Seq<Replacement>) -> bool {
    exists|i: int| 0 <= i < group.len() && (#[trigger] group[i]).n >= 1
}

/// The key of the first morph of a group: the size of the group before it, where
/// that one has groups of textures.
pub open spec fn leading_key(before: Seq<Replacement>) -> u32 {
    if any_grouped(before) {
        before.len() as u32
    } else {
        0
    }
}

/// The key of a morph behind the first of its group.
pub open spec fn inner_key(r: Replacement) -> u32 {
    if r.n >= 1 {
        (r.n - 1) as u32
    } else {
        0
    }
}

/// The morphs of a group whose first morph has the key `first`.
pub open spec fn group_morphs(group: Seq<Replacement>, first: u32) -> Seq<TextureMorph> {
    Seq::new(
        group.len(),
        |i: int|
            TextureMorph {
                key: if i == 0 {
                    first
                } else {
                    inner_key(group[i])
                },
                new_texture: group[i].original,
                group_id: group[i].replacement,
            },
    )
}

/// The replacements of the texture at place `j`.
pub open spec fn group_at(items: Seq<Replacement>, order: Seq<i32>, j: int) -> Seq<Replacement> {
    group_of(items, order[j], items.len() as int)
}

/// The key of the first morph of the group at place `j`: that of the whole table is
/// its size in bytes.
pub open spec fn first_key(items: Seq<Replacement>, order: Seq<i32>, j: int) -> u32 {
    if j == 0 {
        (items.len() * 12) as u32
    } else {
        leading_key(group_at(items, order, j - 1))
    }
}

/// The morphs of the first `j` groups.
pub open spec fn morphs(items: Seq<Replacement>, order: Seq<i32>, j: int) -> Seq<TextureMorph>
    decreases j,
{
    if j <= 0 || j > order.len() {
        Seq::empty()
    } else {
        morphs(items, order, j - 1) + group_morphs(
            group_at(items, order, j - 1),
            first_key(items, order, j - 1),
        )
    }
}

/// The texture morphs of a mesh: grouped by the texture that they replace.
pub open spec fn mesh_morphs(mesh_id: i32, calls: Seq<TexCallView>) -> Seq<TextureMorph> {
    let items = replacements(mesh_id, calls, calls.len() as int);
    let order = origins(items, items.len() as int);
    morphs(items, order, order.len() as int)
}

fn gather_replacements(mesh_id: i32, calls: &Vec<TexMeshCall>) -> (r: Vec<Replacement>)
    ensures
        r@ == replacements(mesh_id, base::views(calls@), calls@.len() as int),
{
    let ghost all = base::views(calls@);
    let mut out: Vec<Replacement> = Vec::new();
    let mut k: usize = 0;
    while k < calls.len()
        invariant
            k <= calls@.len(),
            all == base::views(calls@),
            out@ == replacements(mesh_id, all, k as int),
        decreases calls@.len() - k,
    {
        let c = &calls[k];
        assert(all[k as int] == c@);
        if c.mesh_id == mesh_id {
            let ghost before = out@;
            let ghost more = replacements_of(c@);
            assert(before + more.take(0) =~= before);
            let mut i: usize = 0;
            while i < c.replacements.len()
                invariant
                    i <= c.replacements@.len(),
                    more == replacements_of(c@),
                    out@ == before + more.take(i as int),
                decreases c.replacements@.len() - i,
            {
                out.push(
                    Replacement { original: c.original, replacement: c.replacements[i], n: c.n },
                );
                assert(before + more.take(i as int + 1) =~= (before + more.take(i as int)).push(
                    more[i as int],
                ));
                i = i + 1;
            }
            assert(more.take(c.replacements@.len() as int) =~= more);
        }
        k = k + 1;
    }
    out
}

fn add_origin(v: &mut Vec<i32>, x: i32)
    ensures
        final(v)@ == with_origin(old(v)@, x, 0),
{
    let mut k: usize = 0;
    while k < v.len()
        invariant
            k <= v@.len(),
            v@ == old(v)@,
            with_origin(old(v)@, x, 0) == with_origin(v@, x, k as int),
        decreases v@.len() - k,
    {
        if x < v[k] {
            v.insert(k, x);
            return;
        }
        if x == v[k] {
            return;
        }
        k = k + 1;
    }
    v.insert(k, x);
}

fn gather_origins(items: &Vec<Replacement>) -> (r: Vec<i32>)
    ensures
        r@ == origins(items@, items@.len() as int),
{
    let mut out: Vec<i32> = Vec::new();
    let mut k: usize = 0;
    while k < items.len()
        invariant
            k <= items@.len(),
            out@ == origins(items@, k as int),
        decreases items@.len() - k,
    {
        add_origin(&mut out, items[k].original);
        k = k + 1;
    }
    out
}

fn gather_group(items: &Vec<Replacement>, original: i32) -> (r: Vec<Replacement>)
    ensures
        r@ == group_of(items@, original, items@.len() as int),
{
    let mut out: Vec<Replacement> = Vec::new();
    let mut k: usize = 0;
    while k < items.len()
        invariant
            k <= items@.len(),
            out@ == group_of(items@, original, k as int),
        decreases items@.len() - k,
    {
        if items[k].original == original {
            out.push(items[k]);
        }
        k = k + 1;
    }
    out
}

fn leading(group: &Vec<Replacement>) -> (r: u32)
    ensures
        r == leading_key(group@),
{
    let mut i: usize = 0;
    while i < group.len()
        invariant
            i <= group@.len(),
            forall|j: int| 0 <= j < i ==> (#[trigger] group@[j]).n < 1,
        decreases group@.len() - i,
    {
        if group[i].n >= 1 {
            assert(any_grouped(group@));
            return group.len() as u32;
        }
        i = i + 1;
    }
    0
}

fn add_group(out: &mut Vec<TextureMorph>, group: &Vec<Replacement>, first: u32)
    ensures
        final(out)@ == old(out)@ + group_morphs(group@, first),
{
    let ghost before = out@;
    let ghost more = group_morphs(group@, first);
    assert(before + more.take(0) =~= before);
    let mut i: usize = 0;
    while i < group.len()
        invariant
            i <= group@.len(),
            before == old(out)@,
            more == group_morphs(group@, first),
            out@ == before + more.take(i as int),
        decreases group@.len() - i,
    {
        let r = group[i];
        let key: u32 = if i == 0 {
            first
        } else if r.n >= 1 {
            (r.n - 1) as u32
        } else {
            0
        };
        out.push(TextureMorph { key, new_texture: r.original, group_id: r.replacement });
        assert(before + more.take(i as int + 1) =~= (before + more.take(i as int)).push(
            more[i as int],
        ));
        i = i + 1;
    }
    assert(more.take(group@.len() as int) =~= more);
}

/// The texture morphs of a mesh, from the calls that add textures to it: grouped by
/// the texture that they replace, in ascending order, and in the order of the calls
/// within a group.
pub fn build_tex_morphs(mesh_id: i32, calls: &Vec<TexMeshCall>) -> (r: Vec<TextureMorph>)
    ensures
        r@ == mesh_morphs(mesh_id, base::views(calls@)),
{
    let items = gather_replacements(mesh_id, calls);
    let order = gather_origins(&items);
    let total: u128 = items.len() as u128;
    let mut first: u32 = (total * 12) as u32;
    let mut out: Vec<TextureMorph> = Vec::new();
    let mut j: usize = 0;
    while j < order.len()
        invariant
            j <= order@.len(),
            order@ == origins(items@, items@.len() as int),
            j < order@.len() ==> first == first_key(items@, order@, j as int),
            out@ == morphs(items@, order@, j as int),
        decreases order@.len() - j,
    {
        let group = gather_group(&items, order[j]);
        add_group(&mut out, &group, first);
        first = leading(&group);
        j = j + 1;
    }
    out
}

// ── Random appearances ───────────────────────────────────────────────────────

/// A mesh of a part of the body.
#[derive(Debug)]
pub struct MeshEntry {
    pub mesh_id: i32,
    pub texture_id: i32,
    pub texture_morphs: Vec<TextureMorph>,
}

/// What a [`MeshEntry`] holds.
pub struct MeshEntryView {
    pub mesh_id: i32,
    pub texture_id: i32,
    pub texture_morphs: Seq<TextureMorph>,
}

impl View for MeshEntry {
    type V = MeshEntryView;

    open spec fn view(&self) -> MeshEntryView {
        MeshEntryView {
            mesh_id: self.mesh_id,
            texture_id: self.texture_id,
            texture_morphs: self.texture_morphs@,
        }
    }
}

/// What a creature may look like: the meshes of head, torso and legs.
#[derive(Debug)]
pub struct RandomAppearanceMorph {
    pub head: Vec<MeshEntry>,
    pub torso: Vec<MeshEntry>,
    pub legs: Vec<MeshEntry>,
    /// The largest number of a group of textures.
    pub max_texture_group: u32,
}

/// What a [`RandomAppearanceMorph`] holds.
pub struct AppearanceView {
    pub head: Seq<MeshEntryView>,
    pub torso: Seq<MeshEntryView>,
    pub legs: Seq<MeshEntryView>,
    pub max_texture_group: u32,
}

impl View for RandomAppearanceMorph {
    type V = AppearanceView;

    open spec fn view(&self) -> AppearanceView {
        AppearanceView {
            head: base::views(self.head@),
            torso: base::views(self.torso@),
            legs: base::views(self.legs@),
            max_texture_group: self.max_texture_group,
        }
    }
}

fn copy_morphs(v: &Vec<TextureMorph>) -> (r: Vec<TextureMorph>)
    ensures
        r@ == v@,
{
    let mut out: Vec<TextureMorph> = Vec::new();
    let mut i: usize = 0;
    while i < v.len()
        invariant
            i <= v@.len(),
            out@ == v@.take(i as int),
        decreases v@.len() - i,
    {
        out.push(v[i]);
        assert(v@.take(i as int + 1) =~= v@.take(i as int).push(v@[i as int]));
        i = i + 1;
    }
    assert(v@.take(v@.len() as int) =~= v@);
    out
}

fn copy_meshes(v: &Vec<MeshEntry>) -> (r: Vec<MeshEntry>)
    ensures
        base::views(r@) == base::views(v@),
{
    let mut out: Vec<MeshEntry> = Vec::new();
    let mut i: usize = 0;
    while i < v.len()
        invariant
            i <= v@.len(),
            base::views(out@) == base::views(v@).take(i as int),
        decreases v@.len() - i,
    {
        let m = &v[i];
        out.push(
            MeshEntry {
                mesh_id: m.mesh_id,
                texture_id: m.texture_id,
                texture_morphs: copy_morphs(&m.texture_morphs),
            },
        );
        assert(base::views(v@).take(i as int + 1) =~= base::views(v@).take(i as int).push(
            v@[i as int]@,
        ));
        i = i + 1;
    }
    assert(base::views(v@).take(v@.len() as int) =~= base::views(v@));
    out
}

impl Clone for RandomAppearanceMorph {
    fn clone(&self) -> (r: Self)
        ensures
            r@ == self@,
    {
        RandomAppearanceMorph {
            head: copy_meshes(&self.head),
            torso: copy_meshes(&self.torso),
            legs: copy_meshes(&self.legs),
            max_texture_group: self.max_texture_group,
        }
    }
}

/// The numbers that the arguments from `k` on are, 0 where they are none.
pub open spec fn numbers_from(symbols: Symbols, args: Seq<Spanned<ExprView>>, k: int) -> Seq<i32> {
    if k <= args.len() {
        Seq::new((args.len() - k) as nat, |i: int| eval::arg_i32(symbols, args, k + i, 0i32))
    } else {
        Seq::empty()
    }
}

/// New meshes with the given texture.
pub open spec fn new_meshes(ids: Seq<i32>, texture_id: i32) -> Seq<MeshEntryView> {
    Seq::new(
        ids.len(),
        |i: int| MeshEntryView { mesh_id: ids[i], texture_id, texture_morphs: Seq::empty() },
    )
}

/// The appearance with meshes added to a part of the body.
pub open spec fn with_part(a: AppearanceView, part: i32, more: Seq<MeshEntryView>) -> AppearanceView {
    if part == 0 {
        AppearanceView { head: a.head + more, ..a }
    } else if part == 1 {
        AppearanceView { torso: a.torso + more, ..a }
    } else if part == 2 {
        AppearanceView { legs: a.legs + more, ..a }
    } else {
        a
    }
}

/// What the statements built so far.
pub struct Shaping {
    pub appearance: AppearanceView,
    pub calls: Seq<TexCallView>,
    pub max_n: i32,
    pub rest: Seq<Spanned<StatementView>>,
}

/// What one more statement builds.
pub open spec fn shaped(symbols: Symbols, b: Shaping, s: Spanned<StatementView>) -> Shaping {
    let other = Shaping { rest: b.rest.push(s), ..b };
    match s.value {
        StatementView::MethodCall { call, .. } => if body::calls_field(
            s.value,
            "RandomAppearanceMorph"@,
        ) {
            let a = call.arguments;
            if call.name == "AddBodyPart"@ {
                Shaping {
                    appearance: with_part(
                        b.appearance,
                        eval::arg_i32(symbols, a, 0, 0i32),
                        new_meshes(
                            numbers_from(symbols, a, 2),
                            eval::arg_i32(symbols, a, 1, 0i32),
                        ),
                    ),
                    ..b
                }
            } else if call.name == "AddTextureToMesh"@ {
                let n = eval::arg_i32(symbols, a, 1, 0i32);
                Shaping {
                    calls: b.calls.push(
                        TexCallView {
                            mesh_id: eval::arg_i32(symbols, a, 0, 0i32),
                            n,
                            original: eval::arg_i32(symbols, a, 2, 0i32),
                            replacements: numbers_from(symbols, a, 3),
                        },
                    ),
                    max_n: if n > b.max_n {
                        n
                    } else {
                        b.max_n
                    },
                    ..b
                }
            } else if call.name == "AddTextureToAll"@ || call.name == "AddSkeletalMorph"@ {
                b
            } else {
                other
            }
        } else {
            other
        },
        _ => other,
    }
}

/// What the first `k` statements build on `base`.
pub open spec fn shaping(
    symbols: Symbols,
    base: AppearanceView,
    body: Seq<Spanned<StatementView>>,
    k: int,
) -> Shaping
    decreases k,
{
    if k <= 0 || k > body.len() {
        Shaping { appearance: base, calls: Seq::empty(), max_n: 0, rest: Seq::empty() }
    } else {
        shaped(symbols, shaping(symbols, base, body, k - 1), body[k - 1])
    }
}

/// Meshes with the morphs that calls add.
pub open spec fn textured(v: Seq<MeshEntryView>, calls: Seq<TexCallView>) -> Seq<MeshEntryView> {
    Seq::new(
        v.len(),
        |i: int|
            MeshEntryView { texture_morphs: mesh_morphs(v[i].mesh_id, calls), ..v[i] },
    )
}

/// The appearance that the statements build on `base`, and the statements that
/// build none.
pub open spec fn appearance(
    symbols: Symbols,
    base: AppearanceView,
    body: Seq<Spanned<StatementView>>,
) -> (AppearanceView, Seq<Spanned<StatementView>>) {
    let b = shaping(symbols, base, body, body.len() as int);
    (
        AppearanceView {
            head: textured(b.appearance.head, b.calls),
            torso: textured(b.appearance.torso, b.calls),
            legs: textured(b.appearance.legs, b.calls),
            max_texture_group: b.max_n as u32,
        },
        b.rest,
    )
}

fn read_numbers(args: &Vec<Spanned<Expr>>, from: usize, eval: &Evaluator) -> (r: Vec<i32>)
    ensures
        r@ == numbers_from(eval@, base::views(args@), from as int),
{
    let ghost whole = numbers_from(eval@, base::views(args@), from as int);
    let mut out: Vec<i32> = Vec::new();
    let n: usize = args.len();
    if from > n {
        return out;
    }
    let mut k: usize = from;
    while k < n
        invariant
            from <= k <= n,
            n == args@.len(),
            whole == numbers_from(eval@, base::views(args@), from as int),
            out@ == whole.take(k - from),
        decreases n - k,
    {
        out.push(eval.arg_i32_or(args, k, 0));
        assert(whole.take(k + 1 - from) =~= whole.take(k - from).push(whole[k - from]));
        k = k + 1;
    }
    assert(whole.take(n - from) =~= whole);
    out
}

fn add_meshes(v: &mut Vec<MeshEntry>, ids: &Vec<i32>, texture_id: i32)
    ensures
        base::views(final(v)@) == base::views(old(v)@) + new_meshes(ids@, texture_id),
{
    let ghost before = base::views(v@);
    let ghost more = new_meshes(ids@, texture_id);
    assert(before + more.take(0) =~= before);
    let mut i: usize = 0;
    while i < ids.len()
        invariant
            i <= ids@.len(),
            before == base::views(old(v)@),
            more == new_meshes(ids@, texture_id),
            base::views(v@) == before + more.take(i as int),
        decreases ids@.len() - i,
    {
        let m = MeshEntry { mesh_id: ids[i], texture_id, texture_morphs: Vec::new() };
        assert(m@.texture_morphs =~= Seq::<TextureMorph>::empty());
        v.push(m);
        assert(before + more.take(i as int + 1) =~= (before + more.take(i as int)).push(
            more[i as int],
        ));
        i = i + 1;
    }
    assert(more.take(ids@.len() as int) =~= more);
}

fn texture(v: &mut Vec<MeshEntry>, calls: &Vec<TexMeshCall>)
    ensures
        base::views(final(v)@) == textured(base::views(old(v)@), base::views(calls@)),
{
    let ghost before = base::views(v@);
    let ghost whole = textured(before, base::views(calls@));
    let n: usize = v.len();
    let mut i: usize = 0;
    while i < n
        invariant
            i <= n,
            n == v@.len(),
            n == before.len(),
            before == base::views(old(v)@),
            whole == textured(before, base::views(calls@)),
            forall|j: int| 0 <= j < i ==> (#[trigger] v@[j])@ == whole[j],
            forall|j: int| i <= j < n ==> (#[trigger] v@[j])@ == before[j],
        decreases n - i,
    {
        assert(v@[i as int]@ == before[i as int]);
        let morphs = build_tex_morphs(v[i].mesh_id, calls);
        v[i].texture_morphs = morphs;
        assert(v@[i as int]@ == whole[i as int]);
        i = i + 1;
    }
    assert(base::views(v@) =~= whole);
}

/// What the statements built so far.
struct Shaper {
    appearance: RandomAppearanceMorph,
    calls: Vec<TexMeshCall>,
    max_n: i32,
    rest: Vec<Spanned<Statement>>,
}

impl View for Shaper {
    type V = Shaping;

    closed spec fn view(&self) -> Shaping {
        Shaping {
            appearance: self.appearance@,
            calls: base::views(self.calls@),
            max_n: self.max_n,
            rest: base::views(self.rest@),
        }
    }
}

impl Shaper {
    fn step(&mut self, s: &Spanned<Statement>, eval: &Evaluator)
        ensures
            final(self)@ == shaped(eval@, old(self)@, s@),
    {
        proof {
            ast::lemma_statement_view(s.value);
        }
        if !is_field_call(&s.value, "RandomAppearanceMorph") {
            self.rest.push(clone_statement(s));
            return;
        }
        match &s.value {
            Statement::MethodCall(m) => {
                let a = &m.call.arguments;
                let name = m.call.name.as_str();
                if same(name, "AddBodyPart") {
                    let part = eval.arg_i32_or(a, 0, 0);
                    let texture_id = eval.arg_i32_or(a, 1, 0);
                    let ids = read_numbers(a, 2, eval);
                    if part == 0 {
                        add_meshes(&mut self.appearance.head, &ids, texture_id);
                    } else if part == 1 {
                        add_meshes(&mut self.appearance.torso, &ids, texture_id);
                    } else if part == 2 {
                        add_meshes(&mut self.appearance.legs, &ids, texture_id);
                    }
                } else if same(name, "AddTextureToMesh") {
                    let n = eval.arg_i32_or(a, 1, 0);
                    self.calls.push(
                        TexMeshCall {
                            mesh_id: eval.arg_i32_or(a, 0, 0),
                            n,
                            original: eval.arg_i32_or(a, 2, 0),
                            replacements: read_numbers(a, 3, eval),
                        },
                    );
                    if n > self.max_n {
                        self.max_n = n;
                    }
                } else if same(name, "AddTextureToAll") || same(name, "AddSkeletalMorph") {
                } else {
                    self.rest.push(clone_statement(s));
                }
            },
            _ => self.rest.push(clone_statement(s)),
        }
    }
}

/// Builds the appearance of a creature on `base`, statement by statement. Gives
/// back the appearance and the statements that build none.
pub fn build_random_appearance_morph(
    base: RandomAppearanceMorph,
    body: &Vec<Spanned<Statement>>,
    symbols: &SymbolTable,
) -> (r: (RandomAppearanceMorph, Vec<Spanned<Statement>>))
    ensures
        (r.0@, base::views(r.1@)) == appearance(symbols@, base@, base::views(body@)),
{
    let eval = Evaluator::new(symbols);
    let ghost all = base::views(body@);
    let ghost start = base@;
    let mut b = Shaper { appearance: base, calls: Vec::new(), max_n: 0, rest: Vec::new() };
    let mut k: usize = 0;
    while k < body.len()
        invariant
            k <= body@.len(),
            eval@ == symbols@,
            all == base::views(body@),
            b@ == shaping(symbols@, start, all, k as int),
        decreases body@.len() - k,
    {
        assert(all[k as int] == body@[k as int]@);
        b.step(&body[k], &eval);
        k = k + 1;
    }
    let mut out = b.appearance;
    texture(&mut out.head, &b.calls);
    texture(&mut out.torso, &b.calls);
    texture(&mut out.legs, &b.calls);
    out.max_texture_group = b.max_n as u32;
    (out, b.rest)
}

} // verus!
