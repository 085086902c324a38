//! The animations of an object, from the calls that build them.

use vstd::prelude::*;

use crate::crc32;
use crate::crc32::crc_text;
use crate::eval;
use crate::eval::Evaluator;
use crate::lower::body;
use crate::lower::body::is_field_call;
use crate::lower::env;
use crate::lower::env::{Context, LowerEnv};
use crate::order;
use crate::order::{sort, Ranked};
use crate::single::Single;
use crate::strings::same;
use crate::text::ast;
use crate::text::ast::{clone_statement, Call, CallView, Expr, ExprView, Statement, StatementView};
use crate::text::base;
use crate::text::base::Spanned;
use crate::text::symbols::SymbolTable;
use crate::value::copy_bytes;

verus! {

broadcast use base::group_views;

/// A component of an animation.
#[derive(Debug)]
pub enum Component {
    Flags { flags: i32 },
    Transition { time: i32 },
    Delay { delay: i32 },
    Handedness { start: i32, end: i32 },
    Combo { stage: i32, id: i32 },
    Recoil { anim_index: i32 },
    CombatMisc { melee_flourish: bool, melee_knockdown: bool },
    TargetOffset { x: Single, y: Single },
    SpeedMultiplier { multiplier: Single },
    NextFilter { filter: i32 },
    StrikeResponse { anim_name: Vec<u8> },
}

/// What a [`Component`] holds.
pub enum ComponentView {
    Flags { flags: i32 },
    Transition { time: i32 },
    Delay { delay: i32 },
    Handedness { start: i32, end: i32 },
    Combo { stage: i32, id: i32 },
    Recoil { anim_index: i32 },
    CombatMisc { melee_flourish: bool, melee_knockdown: bool },
    TargetOffset { x: Single, y: Single },
    SpeedMultiplier { multiplier: Single },
    NextFilter { filter: i32 },
    StrikeResponse { anim_name: Seq<u8> },
}

/// An animation.
#[derive(Debug)]
pub struct AnimationEntry {
    pub bank_index: i32,
    /// The offset of the name, or -1.
    pub anim_name: i32,
    /// The offset of the name of the group, or -1.
    pub group_name: i32,
    pub components: Vec<Component>,
}

/// What an [`AnimationEntry`] holds.
pub struct AnimationEntryView {
    pub bank_index: i32,
    pub anim_name: i32,
    pub group_name: i32,
    pub components: Seq<ComponentView>,
}

/// An animation, by the checksum of its name.
#[derive(Debug)]
pub struct AnimationSetAnimsEntry {
    pub key: u32,
    pub entry: AnimationEntry,
}

/// What an [`AnimationSetAnimsEntry`] holds.
pub struct AnimView {
    pub key: u32,
    pub entry: AnimationEntryView,
}

/// What the calls set beside the animations.
#[derive(Debug, Clone, Copy, PartialEq, Eq, Structural)]
pub struct AnimDefaultOverrides {
    pub delay: Option<u32>,
    pub group: Option<i32>,
}

impl View for Component {
    type V = ComponentView;

    open spec fn view(&self) -> ComponentView {
        match *self {
            Component::Flags { flags } => ComponentView::Flags { flags },
            Component::Transition { time } => ComponentView::Transition { time },
            Component::Delay { delay } => ComponentView::Delay { delay },
            Component::Handedness { start, end } => ComponentView::Handedness { start, end },
            Component::Combo { stage, id } => ComponentView::Combo { stage, id },
            Component::Recoil { anim_index } => ComponentView::Recoil { anim_index },
            Component::CombatMisc { melee_flourish, melee_knockdown } => ComponentView::CombatMisc {
                melee_flourish,
                melee_knockdown,
            },
            Component::TargetOffset { x, y } => ComponentView::TargetOffset { x, y },
            Component::SpeedMultiplier { multiplier } => ComponentView::SpeedMultiplier {
                multiplier,
            },
            Component::NextFilter { filter } => ComponentView::NextFilter { filter },
            Component::StrikeResponse { anim_name } => ComponentView::StrikeResponse {
                anim_name: anim_name@,
            },
        }
    }
}

impl View for AnimationEntry {
    type V = AnimationEntryView;

    open spec fn view(&self) -> AnimationEntryView {
        AnimationEntryView {
            bank_index: self.bank_index,
            anim_name: self.anim_name,
            group_name: self.group_name,
            components: base::views(self.components@),
        }
    }
}

impl View for AnimationSetAnimsEntry {
    type V = AnimView;

    open spec fn view(&self) -> AnimView {
        AnimView { key: self.key, entry: self.entry@ }
    }
}

impl Clone for Component {
    fn clone(&self) -> (r: Self)
        ensures
            r@ == self@,
    {
        match self {
            Component::Flags { flags } => Component::Flags { flags: *flags },
            Component::Transition { time } => Component::Transition { time: *time },
            Component::Delay { delay } => Component::Delay { delay: *delay },
            Component::Handedness { start, end } => Component::Handedness {
                start: *start,
                end: *end,
            },
            Component::Combo { stage, id } => Component::Combo { stage: *stage, id: *id },
            Component::Recoil { anim_index } => Component::Recoil { anim_index: *anim_index },
            Component::CombatMisc { melee_flourish, melee_knockdown } => Component::CombatMisc {
                melee_flourish: *melee_flourish,
                melee_knockdown: *melee_knockdown,
            },
            Component::TargetOffset { x, y } => Component::TargetOffset { x: *x, y: *y },
            Component::SpeedMultiplier { multiplier } => Component::SpeedMultiplier {
                multiplier: *multiplier,
            },
            Component::NextFilter { filter } => Component::NextFilter { filter: *filter },
            Component::StrikeResponse { anim_name } => Component::StrikeResponse {
                anim_name: copy_bytes(anim_name.as_slice()),
            },
        }
    }
}

fn copy_components(v: &Vec<Component>) -> (r: Vec<Component>)
    ensures
        base::views(r@) == base::views(v@),
{
    let mut out: Vec<Component> = Vec::new();
    let mut i: usize = 0;
    while i < v.len()
        invariant
            i <= v@.len(),
            base::views(out@) == base::views(v@).take(i as int),
        decreases v@.len() - i,
    {
        out.push(v[i].clone());
        assert(base::views(v@).take(i as int + 1) =~= base::views(v@).take(i as int).push(
            v@[i as int]@,
        ));
        i = i + 1;
    }
    assert(base::views(v@).take(v@.len() as int) =~= base::views(v@));
    out
}

impl Clone for AnimationSetAnimsEntry {
    fn clone(&self) -> (r: Self)
        ensures
            r@ == self@,
    {
        AnimationSetAnimsEntry {
            key: self.key,
            entry: AnimationEntry {
                bank_index: self.entry.bank_index,
                anim_name: self.entry.anim_name,
                group_name: self.entry.group_name,
                components: copy_components(&self.entry.components),
            },
        }
    }
}

/// A copy of some animations.
pub fn copy_anims(v: &Vec<AnimationSetAnimsEntry>) -> (r: Vec<AnimationSetAnimsEntry>)
    ensures
        base::views(r@) == base::views(v@),
{
    let mut out: Vec<AnimationSetAnimsEntry> = Vec::new();
    let mut i: usize = 0;
    while i < v.len()
        invariant
            i <= v@.len(),
            base::views(out@) == base::views(v@).take(i as int),
        decreases v@.len() - i,
    {
        out.push(v[i].clone());
        assert(base::views(v@).take(i as int + 1) =~= base::views(v@).take(i as int).push(
            v@[i as int]@,
        ));
        i = i + 1;
    }
    assert(base::views(v@).take(v@.len() as int) =~= base::views(v@));
    out
}

/// The number of a kind of component.
pub open spec fn tag(c: ComponentView) -> int {
    match c {
        ComponentView::Flags { .. } => 0,
        ComponentView::Transition { .. } => 1,
        ComponentView::Delay { .. } => 2,
        ComponentView::Handedness { .. } => 3,
        ComponentView::Combo { .. } => 4,
        ComponentView::Recoil { .. } => 5,
        ComponentView::CombatMisc { .. } => 6,
        ComponentView::TargetOffset { .. } => 7,
        ComponentView::SpeedMultiplier { .. } => 9,
        ComponentView::NextFilter { .. } => 11,
        ComponentView::StrikeResponse { .. } => 12,
    }
}

impl Ranked for Component {
    open spec fn rank(v: ComponentView) -> (int, int) {
        (tag(v), 0)
    }

    fn rank_of(&self) -> (r: (i128, i128)) {
        let n: i128 = match self {
            Component::Flags { .. } => 0,
            Component::Transition { .. } => 1,
            Component::Delay { .. } => 2,
            Component::Handedness { .. } => 3,
            Component::Combo { .. } => 4,
            Component::Recoil { .. } => 5,
            Component::CombatMisc { .. } => 6,
            Component::TargetOffset { .. } => 7,
            Component::SpeedMultiplier { .. } => 9,
            Component::NextFilter { .. } => 11,
            Component::StrikeResponse { .. } => 12,
        };
        (n, 0)
    }
}

impl Ranked for AnimationSetAnimsEntry {
    open spec fn rank(v: AnimView) -> (int, int) {
        (v.key as int, 0)
    }

    fn rank_of(&self) -> (r: (i128, i128)) {
        (self.key as i128, 0)
    }
}

// ── What the calls say ───────────────────────────────────────────────────────

/// The offset of the string that argument `i` is, or -1.
pub open spec fn offset_arg(cx: Context, args: Seq<Spanned<ExprView>>, i: int) -> i32 {
    match eval::arg_string(args, i) {
        Some(s) => match (cx.strings)(s) {
            Some(o) => o as i32,
            None => -1i32,
        },
        None => -1i32,
    }
}

/// The number that argument `i` is, or 0.
pub open spec fn number_arg(cx: Context, args: Seq<Spanned<ExprView>>, i: int) -> i32 {
    eval::arg_i32(cx.symbols, args, i, 0i32)
}

/// The floating-point number that argument `i` is, or 0.
pub open spec fn single_arg(cx: Context, args: Seq<Spanned<ExprView>>, i: int) -> Single {
    eval::arg_single(cx.symbols, args, i, Single { bits: 0 })
}

/// The component that a constructor behind the name and the index of an animation
/// gives; the transition and the delay are not among these.
pub open spec fn component(cx: Context, c: CallView) -> Option<ComponentView> {
    let a = c.arguments;
    if c.name == "Flags"@ {
        Some(ComponentView::Flags { flags: number_arg(cx, a, 0) })
    } else if c.name == "Combo"@ {
        if a.len() >= 2 {
            Some(ComponentView::Combo { stage: number_arg(cx, a, 0), id: number_arg(cx, a, 1) })
        } else {
            Some(ComponentView::Combo { stage: -777i32, id: number_arg(cx, a, 0) })
        }
    } else if c.name == "Handedness"@ {
        Some(ComponentView::Handedness { start: number_arg(cx, a, 0), end: number_arg(cx, a, 1) })
    } else if c.name == "Recoil"@ {
        Some(ComponentView::Recoil { anim_index: number_arg(cx, a, 0) })
    } else if c.name == "CombatMisc"@ {
        Some(
            ComponentView::CombatMisc {
                melee_flourish: eval::arg_bool(a, 0, false),
                melee_knockdown: eval::arg_bool(a, 1, false),
            },
        )
    } else if c.name == "TargetOffset"@ {
        Some(ComponentView::TargetOffset { x: single_arg(cx, a, 0), y: single_arg(cx, a, 1) })
    } else if c.name == "SpeedMultiplier"@ {
        Some(ComponentView::SpeedMultiplier { multiplier: single_arg(cx, a, 0) })
    } else if c.name == "NextAnimFilter"@ {
        Some(ComponentView::NextFilter { filter: offset_arg(cx, a, 0) })
    } else if c.name == "StrikeResponseAnim"@ {
        Some(
            ComponentView::StrikeResponse {
                anim_name: match eval::arg_string(a, 0) {
                    Some(s) => vstd::utf8::encode_utf8(s),
                    None => Seq::empty(),
                },
            },
        )
    } else {
        None
    }
}

/// The components that were gathered so far.
pub struct Gathered {
    pub transition: Option<i32>,
    pub delay: Option<i32>,
    pub rest: Seq<ComponentView>,
}

/// What the arguments of an animation before `k`, from the third on, give.
pub open spec fn gathered(
    cx: Context,
    combat: bool,
    args: Seq<Spanned<ExprView>>,
    k: int,
) -> Gathered
    decreases k,
{
    if k <= 2 || k > args.len() {
        Gathered {
            transition: if combat {
                Some(1i32)
            } else {
                None
            },
            delay: if combat {
                Some(0i32)
            } else {
                None
            },
            rest: Seq::empty(),
        }
    } else {
        let before = gathered(cx, combat, args, k - 1);
        match args[k - 1].value {
            ExprView::Constructor(c) => if c.name == "TransTime"@ {
                Gathered { transition: Some(number_arg(cx, c.arguments, 0)), ..before }
            } else if c.name == "Delay"@ {
                Gathered { delay: Some(number_arg(cx, c.arguments, 0)), ..before }
            } else {
                match component(cx, c) {
                    Some(x) => Gathered { rest: before.rest.push(x), ..before },
                    None => before,
                }
            },
            _ => before,
        }
    }
}

/// The components of an animation, in ascending order of kind.
pub open spec fn components(g: Gathered) -> Seq<ComponentView> {
    let first = match g.transition {
        Some(time) => seq![ComponentView::Transition { time }],
        None => Seq::empty(),
    };
    let second = match g.delay {
        Some(delay) => first.push(ComponentView::Delay { delay }),
        None => first,
    };
    order::in_order::<Component>(second + g.rest)
}

/// The animation that a call adds.
pub open spec fn animation(
    cx: Context,
    key: Seq<char>,
    combat: bool,
    group: i32,
    args: Seq<Spanned<ExprView>>,
) -> AnimView {
    AnimView {
        key: crc32::text_checksum(key),
        entry: AnimationEntryView {
            bank_index: number_arg(cx, args, 1),
            anim_name: match (cx.strings)(key) {
                Some(o) => o as i32,
                None => -1i32,
            },
            group_name: group,
            components: components(gathered(cx, combat, args, args.len() as int)),
        },
    }
}

/// The first place at or behind `k` with the key; the length if there is none.
pub open spec fn anim_place(v: Seq<AnimView>, key: u32, k: int) -> int
    decreases v.len() - k,
{
    if k < 0 || k >= v.len() || v[k].key == key {
        k
    } else {
        anim_place(v, key, k + 1)
    }
}

/// The animations without the first that has the key.
pub open spec fn removed(v: Seq<AnimView>, key: u32) -> Seq<AnimView> {
    let i = anim_place(v, key, 0);
    if i < v.len() {
        v.remove(i)
    } else {
        v
    }
}

/// What the statements built so far.
pub struct Building {
    pub anims: Seq<AnimView>,
    pub group: i32,
    pub defaults: AnimDefaultOverrides,
    pub rest: Seq<Spanned<StatementView>>,
}

/// What one more statement builds.
pub open spec fn built(cx: Context, b: Building, s: Spanned<StatementView>) -> Building {
    let other = Building { rest: b.rest.push(s), ..b };
    match s.value {
        StatementView::MethodCall { call, .. } => if body::calls_field(s.value, "Animation"@) {
            let a = call.arguments;
            if call.name == "StartGroup"@ {
                Building { group: offset_arg(cx, a, 0), ..b }
            } else if call.name == "EndGroup"@ {
                Building { group: -1i32, ..b }
            } else if call.name == "Add"@ || call.name == "AddCombat"@ {
                match eval::arg_string(a, 0) {
                    Some(key) => Building {
                        anims: b.anims.push(
                            animation(cx, key, call.name == "AddCombat"@, b.group, a),
                        ),
                        ..b
                    },
                    None => other,
                }
            } else if call.name == "Remove"@ {
                match eval::arg_string(a, 0) {
                    Some(key) => Building {
                        anims: removed(b.anims, crc32::text_checksum(key)),
                        ..b
                    },
                    None => b,
                }
            } else if call.name == "SetDefaultDelay"@ {
                Building {
                    defaults: AnimDefaultOverrides {
                        delay: Some(number_arg(cx, a, 0) as u32),
                        ..b.defaults
                    },
                    ..b
                }
            } else if call.name == "SetDefaultGroupName"@ {
                Building {
                    defaults: AnimDefaultOverrides {
                        group: Some(offset_arg(cx, a, 0)),
                        ..b.defaults
                    },
                    ..b
                }
            } else {
                other
            }
        } else {
            other
        },
        _ => other,
    }
}

/// What the first `k` statements build on `anims`.
pub open spec fn building(
    cx: Context,
    anims: Seq<AnimView>,
    body: Seq<Spanned<StatementView>>,
    k: int,
) -> Building
    decreases k,
{
    if k <= 0 || k > body.len() {
        Building {
            anims,
            group: -1i32,
            defaults: AnimDefaultOverrides { delay: None, group: None },
            rest: Seq::empty(),
        }
    } else {
        built(cx, building(cx, anims, body, k - 1), body[k - 1])
    }
}

/// The animations that the statements build on `anims`.
pub open spec fn animations(
    cx: Context,
    anims: Seq<AnimView>,
    body: Seq<Spanned<StatementView>>,
) -> Building {
    let b = building(cx, anims, body, body.len() as int);
    Building { anims: order::in_order::<AnimationSetAnimsEntry>(b.anims), ..b }
}

// ── Building ─────────────────────────────────────────────────────────────────

/// The offset of the string that argument `i` is, or -1.
pub fn anim_arg_defstring<E: LowerEnv>(
    args: &Vec<Spanned<Expr>>,
    eval: &Evaluator,
    env: &E,
    i: usize,
) -> (r: i32)
    ensures
        r == offset_arg(env::context(eval@, env), base::views(args@), i as int),
{
    match eval.arg_string_opt(args, i) {
        Some(s) => match env.def_string_offset(s.as_str()) {
            Some(o) => o as i32,
            None => -1,
        },
        None => -1,
    }
}

fn read_component<E: LowerEnv>(c: &Call, eval: &Evaluator, env: &E) -> (r: Option<Component>)
    ensures
        (match r {
            Some(x) => Some(x@),
            None => None,
        }) == component(env::context(eval@, env), c@),
{
    let a = &c.arguments;
    let name = c.name.as_str();
    let zero = Single { bits: 0 };
    if same(name, "Flags") {
        Some(Component::Flags { flags: eval.arg_i32_or(a, 0, 0) })
    } else if same(name, "Combo") {
        if a.len() >= 2 {
            Some(
                Component::Combo {
                    stage: eval.arg_i32_or(a, 0, 0),
                    id: eval.arg_i32_or(a, 1, 0),
                },
            )
        } else {
            Some(Component::Combo { stage: -777, id: eval.arg_i32_or(a, 0, 0) })
        }
    } else if same(name, "Handedness") {
        Some(
            Component::Handedness {
                start: eval.arg_i32_or(a, 0, 0),
                end: eval.arg_i32_or(a, 1, 0),
            },
        )
    } else if same(name, "Recoil") {
        Some(Component::Recoil { anim_index: eval.arg_i32_or(a, 0, 0) })
    } else if same(name, "CombatMisc") {
        Some(
            Component::CombatMisc {
                melee_flourish: eval.arg_bool_or(a, 0, false),
                melee_knockdown: eval.arg_bool_or(a, 1, false),
            },
        )
    } else if same(name, "TargetOffset") {
        Some(
            Component::TargetOffset {
                x: eval.arg_single_or(a, 0, zero),
                y: eval.arg_single_or(a, 1, zero),
            },
        )
    } else if same(name, "SpeedMultiplier") {
        Some(Component::SpeedMultiplier { multiplier: eval.arg_single_or(a, 0, zero) })
    } else if same(name, "NextAnimFilter") {
        Some(Component::NextFilter { filter: anim_arg_defstring(a, eval, env, 0) })
    } else if same(name, "StrikeResponseAnim") {
        Some(
            Component::StrikeResponse {
                anim_name: match eval.arg_string_opt(a, 0) {
                    Some(s) => copy_bytes(s.as_str().as_bytes()),
                    None => Vec::new(),
                },
            },
        )
    } else {
        None
    }
}

fn gather<E: LowerEnv>(
    combat: bool,
    args: &Vec<Spanned<Expr>>,
    eval: &Evaluator,
    env: &E,
) -> (r: (Option<i32>, Option<i32>, Vec<Component>))
    ensures
        gathered(env::context(eval@, env), combat, base::views(args@), args@.len() as int) == (
        Gathered { transition: r.0, delay: r.1, rest: base::views(r.2@) }),
{
    let ghost cx = env::context(eval@, env);
    let ghost all = base::views(args@);
    let mut transition: Option<i32> = if combat {
        Some(1)
    } else {
        None
    };
    let mut delay: Option<i32> = if combat {
        Some(0)
    } else {
        None
    };
    let mut rest: Vec<Component> = Vec::new();
    let mut k: usize = 2;
    while k < args.len()
        invariant
            2 <= k,
            k <= args@.len() || k == 2,
            cx == env::context(eval@, env),
            all == base::views(args@),
            gathered(cx, combat, all, k as int) == (Gathered {
                transition,
                delay,
                rest: base::views(rest@),
            }),
        decreases args@.len() - k,
    {
        proof {
            assert(all[k as int] == args@[k as int]@);
            ast::lemma_expr_view(args@[k as int].value);
        }
        match &args[k].value {
            Expr::Constructor(c) => {
                if same(c.name.as_str(), "TransTime") {
                    transition = Some(eval.arg_i32_or(&c.arguments, 0, 0));
                } else if same(c.name.as_str(), "Delay") {
                    delay = Some(eval.arg_i32_or(&c.arguments, 0, 0));
                } else {
                    match read_component(c, eval, env) {
                        Some(x) => rest.push(x),
                        None => {},
                    }
                }
            },
            _ => {},
        }
        k = k + 1;
    }
    proof {
        if args@.len() < 2 {
            assert(gathered(cx, combat, all, args@.len() as int) == gathered(cx, combat, all, 2));
        }
    }
    (transition, delay, rest)
}

fn append_components(v: &mut Vec<Component>, more: &Vec<Component>)
    ensures
        base::views(final(v)@) == base::views(old(v)@) + base::views(more@),
{
    let ghost before = base::views(v@);
    let ghost all = base::views(more@);
    assert(before + all.take(0) =~= before);
    let mut i: usize = 0;
    while i < more.len()
        invariant
            i <= more@.len(),
            before == base::views(old(v)@),
            all == base::views(more@),
            base::views(v@) == before + all.take(i as int),
        decreases more@.len() - i,
    {
        v.push(more[i].clone());
        assert(before + all.take(i as int + 1) =~= (before + all.take(i as int)).push(
            more@[i as int]@,
        ));
        i = i + 1;
    }
    assert(all.take(more@.len() as int) =~= all);
}

fn read_components<E: LowerEnv>(
    combat: bool,
    args: &Vec<Spanned<Expr>>,
    eval: &Evaluator,
    env: &E,
) -> (r: Vec<Component>)
    ensures
        base::views(r@) == components(
            gathered(env::context(eval@, env), combat, base::views(args@), args@.len() as int),
        ),
{
    let (transition, delay, rest) = gather(combat, args, eval, env);
    let mut all: Vec<Component> = Vec::new();
    match transition {
        Some(time) => all.push(Component::Transition { time }),
        None => {},
    }
    assert(base::views(all@) =~= match transition {
        Some(time) => seq![ComponentView::Transition { time }],
        None => Seq::empty(),
    });
    match delay {
        Some(delay) => all.push(Component::Delay { delay }),
        None => {},
    }
    append_components(&mut all, &rest);
    sort(all)
}

fn find_anim(v: &Vec<AnimationSetAnimsEntry>, key: u32) -> (r: usize)
    ensures
        r <= v@.len(),
        r == anim_place(base::views(v@), key, 0),
{
    let ghost all = base::views(v@);
    let mut k: usize = 0;
    while k < v.len() && v[k].key != key
        invariant
            k <= v@.len(),
            all == base::views(v@),
            anim_place(all, key, 0) == anim_place(all, key, k as int),
        decreases v@.len() - k,
    {
        assert(all[k as int] == v@[k as int]@);
        k = k + 1;
    }
    proof {
        if k < v@.len() {
            assert(all[k as int] == v@[k as int]@);
        }
    }
    k
}

fn remove_anim(v: &mut Vec<AnimationSetAnimsEntry>, key: u32)
    ensures
        base::views(final(v)@) == removed(base::views(old(v)@), key),
{
    let ghost before = base::views(v@);
    let i = find_anim(v, key);
    if i < v.len() {
        let _ = v.remove(i);
        assert(base::views(v@) =~= before.remove(i as int));
    }
}

fn read_animation<E: LowerEnv>(
    key: &str,
    combat: bool,
    group: i32,
    args: &Vec<Spanned<Expr>>,
    eval: &Evaluator,
    env: &E,
) -> (r: AnimationSetAnimsEntry)
    ensures
        r@ == animation(env::context(eval@, env), key@, combat, group, base::views(args@)),
{
    AnimationSetAnimsEntry {
        key: crc_text(key),
        entry: AnimationEntry {
            bank_index: eval.arg_i32_or(args, 1, 0),
            anim_name: match env.def_string_offset(key) {
                Some(o) => o as i32,
                None => -1,
            },
            group_name: group,
            components: read_components(combat, args, eval, env),
        },
    }
}

/// What the statements built so far.
struct Builder {
    anims: Vec<AnimationSetAnimsEntry>,
    group: i32,
    defaults: AnimDefaultOverrides,
    rest: Vec<Spanned<Statement>>,
}

impl View for Builder {
    type V = Building;

    closed spec fn view(&self) -> Building {
        Building {
            anims: base::views(self.anims@),
            group: self.group,
            defaults: self.defaults,
            rest: base::views(self.rest@),
        }
    }
}

impl Builder {
    fn step<E: LowerEnv>(&mut self, s: &Spanned<Statement>, eval: &Evaluator, env: &E)
        ensures
            final(self)@ == built(env::context(eval@, env), old(self)@, s@),
    {
        proof {
            ast::lemma_statement_view(s.value);
        }
        if !is_field_call(&s.value, "Animation") {
            self.rest.push(clone_statement(s));
            return;
        }
        match &s.value {
            Statement::MethodCall(m) => {
                let a = &m.call.arguments;
                let name = m.call.name.as_str();
                if same(name, "StartGroup") {
                    self.group = anim_arg_defstring(a, eval, env, 0);
                } else if same(name, "EndGroup") {
                    self.group = -1;
                } else if same(name, "Add") || same(name, "AddCombat") {
                    match eval.arg_string_opt(a, 0) {
                        Some(key) => {
                            let combat = same(name, "AddCombat");
                            let anim = read_animation(
                                key.as_str(),
                                combat,
                                self.group,
                                a,
                                eval,
                                env,
                            );
                            self.anims.push(anim);
                        },
                        None => self.rest.push(clone_statement(s)),
                    }
                } else if same(name, "Remove") {
                    match eval.arg_string_opt(a, 0) {
                        Some(key) => remove_anim(&mut self.anims, crc_text(key.as_str())),
                        None => {},
                    }
                } else if same(name, "SetDefaultDelay") {
                    self.defaults.delay = Some(eval.arg_i32_or(a, 0, 0) as u32);
                } else if same(name, "SetDefaultGroupName") {
                    self.defaults.group = Some(anim_arg_defstring(a, eval, env, 0));
                } else {
                    self.rest.push(clone_statement(s));
                }
            },
            _ => self.rest.push(clone_statement(s)),
        }
    }
}

/// Builds animations on `anims`, statement by statement. Gives back the animations
/// in ascending order of key, the statements that build none, and what the calls
/// set beside the animations.
pub fn build_animation_anims<E: LowerEnv>(
    anims: Vec<AnimationSetAnimsEntry>,
    body: &Vec<Spanned<Statement>>,
    symbols: &SymbolTable,
    env: &E,
) -> (r: (Vec<AnimationSetAnimsEntry>, Vec<Spanned<Statement>>, AnimDefaultOverrides))
    ensures
        base::views(r.0@) == animations(
            env::context(symbols@, env),
            base::views(anims@),
            base::views(body@),
        ).anims,
        base::views(r.1@) == animations(
            env::context(symbols@, env),
            base::views(anims@),
            base::views(body@),
        ).rest,
        r.2 == animations(
            env::context(symbols@, env),
            base::views(anims@),
            base::views(body@),
        ).defaults,
{
    let eval = Evaluator::new(symbols);
    let ghost cx = env::context(symbols@, env);
    let ghost start = base::views(anims@);
    let ghost all = base::views(body@);
    let mut b = Builder {
        anims,
        group: -1,
        defaults: AnimDefaultOverrides { delay: None, group: None },
        rest: Vec::new(),
    };
    let mut k: usize = 0;
    while k < body.len()
        invariant
            k <= body@.len(),
            eval@ == symbols@,
            cx == env::context(symbols@, env),
            all == base::views(body@),
            b@ == building(cx, start, all, k as int),
        decreases body@.len() - k,
    {
        assert(all[k as int] == body@[k as int]@);
        b.step(&body[k], &eval, env);
        k = k + 1;
    }
    (sort(b.anims), b.rest, b.defaults)
}

} // verus!
