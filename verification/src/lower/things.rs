//! The components of a thing and the trails of a weapon, from the statements that
//! build them.

use vstd::prelude::*;

use crate::eval;
use crate::eval::Evaluator;
use crate::lower::anim;
use crate::lower::body;
use crate::lower::body::is_field_call;
use crate::lower::env;
use crate::lower::env::{Context, LowerEnv};
use crate::order::Ranked;
use crate::strings::same;
use crate::text::ast;
use crate::text::ast::{
    clone_statement, Expr, ExprView, PathSegment, SegmentView, Statement, StatementView,
};
use crate::text::base;
use crate::text::base::Spanned;

verus! {

broadcast use base::group_views;

// ── Components ───────────────────────────────────────────────────────────────

/// A component of a thing.
#[derive(Debug, Clone, Copy, PartialEq, Eq, Structural)]
pub struct ThingComponent {
    /// The offset of the name.
    pub name: i32,
    pub driver_type: u32,
    pub over: bool,
}

/// The components of a thing.
#[derive(Debug)]
pub struct ThingComponentSet {
    pub entries: Vec<ThingComponent>,
    pub trailing: u32,
}

/// What a [`ThingComponentSet`] holds.
pub struct ComponentsView {
    pub entries: Seq<ThingComponent>,
    pub trailing: u32,
}

impl View for ThingComponentSet {
    type V = ComponentsView;

    open spec fn view(&self) -> ComponentsView {
        ComponentsView { entries: self.entries@, trailing: self.trailing }
    }
}

/// What stands behind the components of every thing.
pub const TRAILING: u32 = 28_011_726;

/// The type of the driver that a component is; 0 for one that is no driver.
pub open spec fn driver_type(name: Seq<char>) -> u32 {
    if name == "CTCDInternalMarker"@ {
        12
    } else if name == "CTCDParticleEmitter"@ {
        19
    } else if name == "CTCDCameraPoint"@ {
        20
    } else if name == "CTCDNavigationSeed"@ {
        21
    } else if name == "CTCDHeroSuit"@ {
        22
    } else if name == "CTCDNone"@ {
        23
    } else if name == "CTCDRegionEntrance"@ {
        24
    } else if name == "CTCDRegionExit"@ {
        25
    } else if name == "CTCDExperienceOrb"@ {
        26
    } else if name == "CTCDExplosion"@ {
        27
    } else if name == "CTCDRumble"@ {
        28
    } else if name == "CTCDPhysicalObstruction"@ {
        29
    } else if name == "CTCDExplosiveTrail"@ {
        30
    } else {
        0
    }
}

fn read_driver_type(name: &str) -> (r: u32)
    ensures
        r == driver_type(name@),
{
    if same(name, "CTCDInternalMarker") {
        12
    } else if same(name, "CTCDParticleEmitter") {
        19
    } else if same(name, "CTCDCameraPoint") {
        20
    } else if same(name, "CTCDNavigationSeed") {
        21
    } else if same(name, "CTCDHeroSuit") {
        22
    } else if same(name, "CTCDNone") {
        23
    } else if same(name, "CTCDRegionEntrance") {
        24
    } else if same(name, "CTCDRegionExit") {
        25
    } else if same(name, "CTCDExperienceOrb") {
        26
    } else if same(name, "CTCDExplosion") {
        27
    } else if same(name, "CTCDRumble") {
        28
    } else if same(name, "CTCDPhysicalObstruction") {
        29
    } else if same(name, "CTCDExplosiveTrail") {
        30
    } else {
        0
    }
}

/// A component that was added, and whether it overrides.
pub struct Addition {
    pub name: Seq<char>,
    pub over: bool,
}

/// The additions without those of the name, among the first `k`.
pub open spec fn without_name(v: Seq<Addition>, name: Seq<char>, k: int) -> Seq<Addition>
    decreases k,
{
    if k <= 0 || k > v.len() {
        Seq::empty()
    } else if v[k - 1].name == name {
        without_name(v, name, k - 1)
    } else {
        without_name(v, name, k - 1).push(v[k - 1])
    }
}

/// Whether an expression says yes: `TRUE`, or any symbol.
pub open spec fn says_yes(e: ExprView) -> bool {
    match e {
        ExprView::Bool(b) => b,
        ExprView::Symbol(_) => true,
        _ => false,
    }
}

/// The additions behind one more statement.
pub open spec fn addition_step(v: Seq<Addition>, s: StatementView) -> Seq<Addition> {
    match s {
        StatementView::MethodCall { call, .. } => {
            let a = call.arguments;
            if body::calls_field(s, "Components"@) && a.len() > 0 && a[0].value is String {
                let name = a[0].value->String_0;
                if call.name == "Add"@ {
                    v.push(Addition { name, over: a.len() > 1 && says_yes(a[1].value) })
                } else if call.name == "Remove"@ {
                    without_name(v, name, v.len() as int)
                } else {
                    v
                }
            } else {
                v
            }
        },
        _ => v,
    }
}

/// The additions behind the first `k` statements.
pub open spec fn additions(body: Seq<Spanned<StatementView>>, k: int) -> Seq<Addition>
    decreases k,
{
    if k <= 0 || k > body.len() {
        Seq::empty()
    } else {
        addition_step(additions(body, k - 1), body[k - 1].value)
    }
}

/// The components of the first `k` additions; one whose name has no offset is left
/// out.
pub open spec fn component_entries(cx: Context, v: Seq<Addition>, k: int) -> Seq<ThingComponent>
    decreases k,
{
    if k <= 0 || k > v.len() {
        Seq::empty()
    } else {
        let before = component_entries(cx, v, k - 1);
        match (cx.strings)(v[k - 1].name) {
            Some(o) => before.push(
                ThingComponent {
                    name: o as i32,
                    driver_type: driver_type(v[k - 1].name),
                    over: v[k - 1].over,
                },
            ),
            None => before,
        }
    }
}

/// The names of the components that the statements of a thing give, in their order.
pub open spec fn names_added(body: Seq<Spanned<StatementView>>) -> Seq<Seq<char>> {
    let v = additions(body, body.len() as int);
    Seq::new(v.len(), |i: int| v[i].name)
}

/// The components that the statements of a thing give.
pub open spec fn thing_components(
    cx: Context,
    body: Seq<Spanned<StatementView>>,
) -> ComponentsView {
    let v = additions(body, body.len() as int);
    ComponentsView { entries: component_entries(cx, v, v.len() as int), trailing: TRAILING }
}

struct Added {
    name: String,
    over: bool,
}

impl View for Added {
    type V = Addition;

    closed spec fn view(&self) -> Addition {
        Addition { name: self.name@, over: self.over }
    }
}

fn drop_name(v: &Vec<Added>, name: &str) -> (r: Vec<Added>)
    ensures
        base::views(r@) == without_name(base::views(v@), name@, v@.len() as int),
{
    let ghost all = base::views(v@);
    let mut out: Vec<Added> = Vec::new();
    let mut k: usize = 0;
    while k < v.len()
        invariant
            k <= v@.len(),
            all == base::views(v@),
            base::views(out@) == without_name(all, name@, k as int),
        decreases v@.len() - k,
    {
        assert(all[k as int] == v@[k as int]@);
        if !same(v[k].name.as_str(), name) {
            out.push(Added { name: v[k].name.clone(), over: v[k].over });
        }
        k = k + 1;
    }
    out
}

/// Whether an expression says yes.
pub fn test_yes(e: &Expr) -> (r: bool)
    ensures
        r == says_yes(e@),
{
    proof {
        ast::lemma_expr_view(*e);
    }
    match e {
        Expr::Bool(b) => *b,
        Expr::Symbol(_) => true,
        _ => false,
    }
}

fn apply_addition(v: Vec<Added>, s: &Statement) -> (r: Vec<Added>)
    ensures
        base::views(r@) == addition_step(base::views(v@), s@),
{
    proof {
        ast::lemma_statement_view(*s);
    }
    match s {
        Statement::MethodCall(m) => {
            let a = &m.call.arguments;
            if !is_field_call(s, "Components") || a.len() == 0 {
                return v;
            }
            proof {
                assert(base::views(a@)[0] == a@[0]@);
                ast::lemma_expr_view(a@[0].value);
                if a@.len() > 1 {
                    assert(base::views(a@)[1] == a@[1]@);
                }
            }
            match &a[0].value {
                Expr::String(name) => {
                    if same(m.call.name.as_str(), "Add") {
                        let over = a.len() > 1 && test_yes(&a[1].value);
                        let mut v = v;
                        v.push(Added { name: name.clone(), over });
                        v
                    } else if same(m.call.name.as_str(), "Remove") {
                        drop_name(&v, name.as_str())
                    } else {
                        v
                    }
                },
                _ => v,
            }
        },
        _ => v,
    }
}

fn gather_additions(body: &Vec<Spanned<Statement>>) -> (r: Vec<Added>)
    ensures
        base::views(r@) == additions(base::views(body@), body@.len() as int),
{
    let ghost all = base::views(body@);
    let mut out: Vec<Added> = Vec::new();
    let mut k: usize = 0;
    while k < body.len()
        invariant
            k <= body@.len(),
            all == base::views(body@),
            base::views(out@) == additions(all, k as int),
        decreases body@.len() - k,
    {
        assert(all[k as int] == body@[k as int]@);
        out = apply_addition(out, &body[k].value);
        k = k + 1;
    }
    out
}

/// The names of the components of a thing, in their order.
pub fn component_names(body: &Vec<Spanned<Statement>>) -> (r: Vec<String>)
    ensures
        base::views(r@) == names_added(base::views(body@)),
{
    let v = gather_additions(body);
    let ghost all = base::views(v@);
    let mut out: Vec<String> = Vec::new();
    let mut k: usize = 0;
    while k < v.len()
        invariant
            k <= v@.len(),
            all == base::views(v@),
            base::views(out@) == Seq::new(k as nat, |i: int| all[i].name),
        decreases v@.len() - k,
    {
        assert(all[k as int] == v@[k as int]@);
        out.push(v[k].name.clone());
        k = k + 1;
        assert(base::views(out@) =~= Seq::new(k as nat, |i: int| all[i].name));
    }
    out
}

/// Builds the components of a thing from `Components.Add(…)` and
/// `Components.Remove(…)`, in the order of the statements.
pub fn build_thing_components<E: LowerEnv>(
    body: &Vec<Spanned<Statement>>,
    eval: &Evaluator,
    env: &E,
) -> (r: ThingComponentSet)
    ensures
        r@ == thing_components(env::context(eval@, env), base::views(body@)),
{
    let ghost cx = env::context(eval@, env);
    let v = gather_additions(body);
    let ghost all = base::views(v@);
    let mut entries: Vec<ThingComponent> = Vec::new();
    let mut k: usize = 0;
    while k < v.len()
        invariant
            k <= v@.len(),
            cx == env::context(eval@, env),
            all == base::views(v@),
            entries@ == component_entries(cx, all, k as int),
        decreases v@.len() - k,
    {
        assert(all[k as int] == v@[k as int]@);
        match env.def_string_offset(v[k].name.as_str()) {
            Some(o) => entries.push(
                ThingComponent {
                    name: o as i32,
                    driver_type: read_driver_type(v[k].name.as_str()),
                    over: v[k].over,
                },
            ),
            None => {},
        }
        k = k + 1;
    }
    ThingComponentSet { entries, trailing: TRAILING }
}

// ── Trails ───────────────────────────────────────────────────────────────────

/// A trail of a weapon, as it is stored: the augmentation comes first, and the two
/// graphics behind it.
#[derive(Debug, Clone, Copy, PartialEq, Eq, Structural)]
pub struct WeaponTrail {
    pub attack: i32,
    pub knockdown: i32,
    pub augmentation: i32,
}

impl View for WeaponTrail {
    type V = WeaponTrail;

    open spec fn view(&self) -> WeaponTrail {
        *self
    }
}

/// Trails are ordered by the augmentation, and then by the first graphic.
impl Ranked for WeaponTrail {
    open spec fn rank(v: WeaponTrail) -> (int, int) {
        (v.attack as int, v.knockdown as int)
    }

    fn rank_of(&self) -> (r: (i128, i128)) {
        (self.attack as i128, self.knockdown as i128)
    }
}

/// The trail that a statement `WeaponTrails[augmentation] Set(…)` gives.
pub open spec fn trail(cx: Context, s: StatementView) -> Option<WeaponTrail> {
    match s {
        StatementView::Field { path, expr } => if path.len() == 2 && path[0]
            == SegmentView::Field("WeaponTrails"@) && path[1] is Index
            && expr.value is Constructor {
            let a = expr.value->Constructor_0.arguments;
            Some(
                WeaponTrail {
                    attack: eval::value_or(
                        eval::as_i32(cx.symbols, path[1]->Index_0.value),
                        0i32,
                    ),
                    knockdown: anim::number_arg(cx, a, 0),
                    augmentation: anim::number_arg(cx, a, 1),
                },
            )
        } else {
            None
        },
        _ => None,
    }
}

/// The first place at or behind `k` of a trail for the same augmentation; the length
/// if there is none.
pub open spec fn trail_place(v: Seq<WeaponTrail>, attack: i32, k: int) -> int
    decreases v.len() - k,
{
    if k < 0 || k >= v.len() || v[k].attack == attack {
        k
    } else {
        trail_place(v, attack, k + 1)
    }
}

/// The trails with one more, which replaces that for the same augmentation.
pub open spec fn with_trail(v: Seq<WeaponTrail>, t: WeaponTrail) -> Seq<WeaponTrail> {
    let i = trail_place(v, t.attack, 0);
    if i < v.len() {
        v.update(i, t)
    } else {
        v.push(t)
    }
}

/// The trails of the first `k` statements, and the statements that give none.
pub open spec fn trails(
    cx: Context,
    v: Seq<WeaponTrail>,
    body: Seq<Spanned<StatementView>>,
    k: int,
) -> (Seq<WeaponTrail>, Seq<Spanned<StatementView>>)
    decreases k,
{
    if k <= 0 || k > body.len() {
        (v, Seq::empty())
    } else {
        let (before, rest) = trails(cx, v, body, k - 1);
        match trail(cx, body[k - 1].value) {
            Some(t) => (with_trail(before, t), rest),
            None => (before, rest.push(body[k - 1])),
        }
    }
}

fn read_trail(s: &Statement, eval: &Evaluator, cx: Ghost<Context>) -> (r: Option<WeaponTrail>)
    requires
        cx@.symbols == eval@,
    ensures
        r == trail(cx@, s@),
{
    proof {
        ast::lemma_statement_view(*s);
    }
    match s {
        Statement::Field(f) => {
            let path = &f.path.segments;
            if path.len() != 2 {
                return None;
            }
            proof {
                assert(base::views(path@)[0] == path@[0]@);
                assert(base::views(path@)[1] == path@[1]@);
                ast::lemma_expr_view(f.expr.value);
            }
            match (&path[0], &path[1], &f.expr.value) {
                (PathSegment::Field(n), PathSegment::Index(e), Expr::Constructor(c)) => {
                    if !same(n.as_str(), "WeaponTrails") {
                        return None;
                    }
                    let attack = match eval.i32(e) {
                        Ok(n) => n,
                        Err(_) => 0,
                    };
                    Some(
                        WeaponTrail {
                            attack,
                            knockdown: eval.arg_i32_or(&c.arguments, 0, 0),
                            augmentation: eval.arg_i32_or(&c.arguments, 1, 0),
                        },
                    )
                },
                _ => None,
            }
        },
        _ => None,
    }
}

fn add_trail(v: &mut Vec<WeaponTrail>, t: WeaponTrail)
    ensures
        final(v)@ == with_trail(old(v)@, t),
{
    let mut k: usize = 0;
    while k < v.len()
        invariant
            k <= v@.len(),
            v@ == old(v)@,
            trail_place(v@, t.attack, 0) == trail_place(v@, t.attack, k as int),
        decreases v@.len() - k,
    {
        if v[k].attack == t.attack {
            v.set(k, t);
            return;
        }
        k = k + 1;
    }
    v.push(t);
}

/// Gathers the trails of a weapon. Gives back the trails and the statements that
/// give none.
pub(crate) fn build_trails(
    base: Vec<WeaponTrail>,
    body: &Vec<Spanned<Statement>>,
    eval: &Evaluator,
    cx: Ghost<Context>,
) -> (r: (Vec<WeaponTrail>, Vec<Spanned<Statement>>))
    requires
        cx@.symbols == eval@,
    ensures
        (r.0@, base::views(r.1@)) == trails(
            cx@,
            base@,
            base::views(body@),
            body@.len() as int,
        ),
{
    let ghost all = base::views(body@);
    let ghost start = base@;
    let mut v = base;
    let mut rest: Vec<Spanned<Statement>> = Vec::new();
    let mut k: usize = 0;
    while k < body.len()
        invariant
            k <= body@.len(),
            cx@.symbols == eval@,
            all == base::views(body@),
            (v@, base::views(rest@)) == trails(cx@, start, all, k as int),
        decreases body@.len() - k,
    {
        assert(all[k as int] == body@[k as int]@);
        match read_trail(&body[k].value, eval, cx) {
            Some(t) => add_trail(&mut v, t),
            None => rest.push(clone_statement(&body[k])),
        }
        k = k + 1;
    }
    (v, rest)
}

// ── Laws ─────────────────────────────────────────────────────────────────────

proof fn lemma_without_name(v: Seq<Addition>, name: Seq<char>, k: int)
    ensures
        forall|i: int|
            0 <= i < without_name(v, name, k).len() ==> (#[trigger] without_name(v, name, k)[i]).name
                != name,
    decreases k,
{
    if 0 < k <= v.len() {
        lemma_without_name(v, name, k - 1);
        let before = without_name(v, name, k - 1);
        let after = without_name(v, name, k);
        assert forall|i: int| 0 <= i < after.len() implies (#[trigger] after[i]).name != name by {
            if i < before.len() {
                assert(after[i] == before[i]);
            }
        }
    }
}

/// A component that is removed is gone, whatever added it; the others stay.
pub proof fn a_removed_component_is_gone(v: Seq<Addition>, name: Seq<char>)
    ensures
        forall|i: int|
            0 <= i < without_name(v, name, v.len() as int).len() ==> (#[trigger] without_name(
                v,
                name,
                v.len() as int,
            )[i]).name != name,
        forall|i: int|
            0 <= i < v.len() && (#[trigger] v[i]).name != name ==> without_name(
                v,
                name,
                v.len() as int,
            ).contains(v[i]),
{
    lemma_without_name(v, name, v.len() as int);
    lemma_others_stay(v, name, v.len() as int);
}

proof fn lemma_others_stay(v: Seq<Addition>, name: Seq<char>, k: int)
    requires
        0 <= k <= v.len(),
    ensures
        forall|i: int|
            0 <= i < k && (#[trigger] v[i]).name != name ==> without_name(v, name, k).contains(v[i]),
    decreases k,
{
    if 0 < k {
        lemma_others_stay(v, name, k - 1);
        let before = without_name(v, name, k - 1);
        let after = without_name(v, name, k);
        assert forall|i: int| 0 <= i < k && (#[trigger] v[i]).name != name implies after.contains(
            v[i],
        ) by {
            if i < k - 1 {
                let p = before.index_of(v[i]);
                assert(after[p] == v[i]);
            } else {
                assert(after[before.len() as int] == v[i]);
            }
        }
    }
}

/// Whether no augmentation has two trails.
pub open spec fn one_trail_each(v: Seq<WeaponTrail>) -> bool {
    forall|i: int, j: int| 0 <= i < j < v.len() ==> v[i].attack != v[j].attack
}

proof fn lemma_trail_place(v: Seq<WeaponTrail>, attack: i32, k: int)
    requires
        0 <= k <= v.len(),
    ensures
        k <= trail_place(v, attack, k) <= v.len(),
        trail_place(v, attack, k) < v.len() ==> v[trail_place(v, attack, k)].attack == attack,
        forall|i: int| k <= i < trail_place(v, attack, k) ==> (#[trigger] v[i]).attack != attack,
    decreases v.len() - k,
{
    if k < v.len() && v[k].attack != attack {
        lemma_trail_place(v, attack, k + 1);
    }
}

/// An augmentation has at most one trail, the last that was set for it.
pub proof fn an_augmentation_has_one_trail(
    cx: Context,
    v: Seq<WeaponTrail>,
    body: Seq<Spanned<StatementView>>,
    k: int,
)
    requires
        one_trail_each(v),
        0 <= k <= body.len(),
    ensures
        one_trail_each(trails(cx, v, body, k).0),
        k > 0 ==> match trail(cx, body[k - 1].value) {
            Some(t) => trails(cx, v, body, k).0.contains(t),
            None => true,
        },
    decreases k,
{
    if 0 < k {
        an_augmentation_has_one_trail(cx, v, body, k - 1);
        let before = trails(cx, v, body, k - 1).0;
        if let Some(t) = trail(cx, body[k - 1].value) {
            lemma_trail_place(before, t.attack, 0);
            let i = trail_place(before, t.attack, 0);
            assert(with_trail(before, t)[i] == t);
        }
    }
}

} // verus!
