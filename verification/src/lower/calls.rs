//! Lists that calls add to.

use vstd::prelude::*;

use crate::bytes;
use crate::bytes::put_u32;
use crate::crc32;
use crate::crc32::crc_text;
use crate::eval;
use crate::eval::Evaluator;
use crate::lower::anim;
use crate::lower::anim::anim_arg_defstring;
use crate::lower::env;
use crate::lower::env::{Context, LowerEnv};
use crate::lower::ui;
use crate::order::Ranked;
use crate::single::Single;
use crate::text::ast;
use crate::text::ast::{Expr, ExprView, Statement, StatementView};
use crate::text::base;
use crate::text::base::Spanned;

verus! {

broadcast use base::group_views;

// ── Bytes ────────────────────────────────────────────────────────────────────

/// The bytes of the first `k` numbers.
pub open spec fn words(v: Seq<u32>, k: int) -> Seq<u8>
    decreases k,
{
    if k <= 0 || k > v.len() {
        Seq::empty()
    } else {
        words(v, k - 1) + bytes::little_endian(v[k - 1])
    }
}

/// The bytes of some numbers.
pub open spec fn word_bytes(v: Seq<u32>) -> Seq<u8> {
    words(v, v.len() as int)
}

/// The bytes of some numbers.
pub fn pack_words(v: &Vec<u32>) -> (r: Vec<u8>)
    ensures
        r@ == word_bytes(v@),
{
    let mut out: Vec<u8> = Vec::new();
    let mut i: usize = 0;
    while i < v.len()
        invariant
            i <= v@.len(),
            out@ == words(v@, i as int),
        decreases v@.len() - i,
    {
        put_u32(&mut out, v[i]);
        i = i + 1;
    }
    out
}

/// `n` numbers take four bytes each.
pub proof fn lemma_words_len(v: Seq<u32>, k: int)
    requires
        0 <= k <= v.len(),
    ensures
        words(v, k).len() == 4 * k,
    decreases k,
{
    if k > 0 {
        lemma_words_len(v, k - 1);
    }
}

// ── Collecting ───────────────────────────────────────────────────────────────

/// What a call adds to a list.
pub trait Added: View + Sized {
    /// The entry that the arguments of a call give, if any.
    spec fn entry(cx: Context, args: Seq<Spanned<ExprView>>) -> Option<Self::V>;

    /// The entry that the arguments of a call give, if any.
    fn read<E: LowerEnv>(args: &Vec<Spanned<Expr>>, eval: &Evaluator, env: &E) -> (r: Option<Self>)
        ensures
            (match r {
                Some(x) => Some(x@),
                None => None,
            }) == Self::entry(env::context(eval@, env), base::views(args@)),
    ;
}

/// The arguments of a statement that is a call.
pub open spec fn call_arguments(s: StatementView) -> Option<Seq<Spanned<ExprView>>> {
    match s {
        StatementView::MethodCall { call, .. } => Some(call.arguments),
        _ => None,
    }
}

/// The entries with those of the first `k` calls.
pub open spec fn collected<T: Added>(
    cx: Context,
    entries: Seq<T::V>,
    calls: Seq<Spanned<StatementView>>,
    k: int,
) -> Seq<T::V>
    decreases k,
{
    if k <= 0 || k > calls.len() {
        entries
    } else {
        let before = collected::<T>(cx, entries, calls, k - 1);
        match call_arguments(calls[k - 1].value) {
            Some(args) => match T::entry(cx, args) {
                Some(x) => before.push(x),
                None => before,
            },
            None => before,
        }
    }
}

/// Adds the entries of calls to a list.
pub fn collect<T: Added, E: LowerEnv>(
    entries: Vec<T>,
    calls: &Vec<&Spanned<Statement>>,
    eval: &Evaluator,
    env: &E,
) -> (r: Vec<T>)
    ensures
        base::views(r@) == collected::<T>(
            env::context(eval@, env),
            base::views(entries@),
            base::views(calls@),
            calls@.len() as int,
        ),
{
    let ghost cx = env::context(eval@, env);
    let ghost start = base::views(entries@);
    let ghost all = base::views(calls@);
    let mut out = entries;
    let mut k: usize = 0;
    while k < calls.len()
        invariant
            k <= calls@.len(),
            cx == env::context(eval@, env),
            all == base::views(calls@),
            base::views(out@) == collected::<T>(cx, start, all, k as int),
        decreases calls@.len() - k,
    {
        let s = calls[k];
        proof {
            assert(all[k as int] == s@);
            ast::lemma_statement_view(s.value);
        }
        match &s.value {
            Statement::MethodCall(m) => match T::read(&m.call.arguments, eval, env) {
                Some(x) => out.push(x),
                None => {},
            },
            _ => {},
        }
        k = k + 1;
    }
    out
}

// ── Effects of fire ──────────────────────────────────────────────────────────

/// An effect that something on fire creates, by the offset of its name.
#[derive(Debug, Clone, Copy, PartialEq, Eq, Structural)]
pub struct FireEffect {
    pub name: i32,
    pub effect: i32,
}

impl View for FireEffect {
    type V = FireEffect;

    open spec fn view(&self) -> FireEffect {
        *self
    }
}

impl Ranked for FireEffect {
    open spec fn rank(v: FireEffect) -> (int, int) {
        (v.name as int, 0)
    }

    fn rank_of(&self) -> (r: (i128, i128)) {
        (self.name as i128, 0)
    }
}

/// The number that argument `i` is, if it is one.
pub open spec fn number_at(cx: Context, args: Seq<Spanned<ExprView>>, i: int) -> Option<i32> {
    if 0 <= i < args.len() {
        match eval::as_i32(cx.symbols, args[i].value) {
            Ok(n) => Some(n),
            Err(_) => None,
        }
    } else {
        None
    }
}

/// The number that argument `i` is, if it is one.
pub(crate) fn read_number(
    args: &Vec<Spanned<Expr>>,
    i: usize,
    eval: &Evaluator,
    cx: Ghost<Context>,
) -> (r: Option<i32>)
    requires
        cx@.symbols == eval@,
    ensures
        r == number_at(cx@, base::views(args@), i as int),
{
    if i < args.len() {
        assert(base::views(args@)[i as int] == args@[i as int]@);
        match eval.i32(&args[i]) {
            Ok(n) => Some(n),
            Err(_) => None,
        }
    } else {
        None
    }
}

impl Added for FireEffect {
    open spec fn entry(cx: Context, args: Seq<Spanned<ExprView>>) -> Option<FireEffect> {
        match eval::arg_string(args, 0) {
            None => None,
            Some(_) => match number_at(cx, args, 1) {
                None => None,
                Some(effect) => Some(
                    FireEffect { name: anim::offset_arg(cx, args, 0), effect },
                ),
            },
        }
    }

    fn read<E: LowerEnv>(
        args: &Vec<Spanned<Expr>>,
        eval: &Evaluator,
        env: &E,
    ) -> (r: Option<Self>) {
        match eval.arg_string_opt(args, 0) {
            None => None,
            Some(_) => match read_number(args, 1, eval, Ghost(env::context(eval@, env))) {
                None => None,
                Some(effect) => Some(
                    FireEffect { name: anim_arg_defstring(args, eval, env, 0), effect },
                ),
            },
        }
    }
}

// ── Special effects ──────────────────────────────────────────────────────────

/// A special effect, by the checksum of its name.
#[derive(Debug, Clone, Copy, PartialEq, Eq, Structural)]
pub struct SpecialEffect {
    pub key: u32,
    pub effect: i32,
}

impl View for SpecialEffect {
    type V = SpecialEffect;

    open spec fn view(&self) -> SpecialEffect {
        *self
    }
}

impl Ranked for SpecialEffect {
    open spec fn rank(v: SpecialEffect) -> (int, int) {
        (v.key as int, 0)
    }

    fn rank_of(&self) -> (r: (i128, i128)) {
        (self.key as i128, 0)
    }
}

impl Added for SpecialEffect {
    open spec fn entry(cx: Context, args: Seq<Spanned<ExprView>>) -> Option<SpecialEffect> {
        match eval::arg_string(args, 0) {
            None => None,
            Some(name) => match number_at(cx, args, 1) {
                None => None,
                Some(effect) => Some(
                    SpecialEffect { key: crc32::text_checksum(name), effect },
                ),
            },
        }
    }

    fn read<E: LowerEnv>(
        args: &Vec<Spanned<Expr>>,
        eval: &Evaluator,
        env: &E,
    ) -> (r: Option<Self>) {
        match eval.arg_string_opt(args, 0) {
            None => None,
            Some(name) => match read_number(args, 1, eval, Ghost(env::context(eval@, env))) {
                None => None,
                Some(effect) => Some(
                    SpecialEffect { key: crc_text(name.as_str()), effect },
                ),
            },
        }
    }
}

/// Whether one of the effects has the key.
pub open spec fn has_key(v: Seq<SpecialEffect>, key: u32) -> bool {
    exists|i: int| 0 <= i < v.len() && (#[trigger] v[i]).key == key
}

/// The first of the effects with each key, among the first `k`.
pub open spec fn firsts(v: Seq<SpecialEffect>, k: int) -> Seq<SpecialEffect>
    decreases k,
{
    if k <= 0 || k > v.len() {
        Seq::empty()
    } else {
        let before = firsts(v, k - 1);
        if has_key(before, v[k - 1].key) {
            before
        } else {
            before.push(v[k - 1])
        }
    }
}

fn test_key(v: &Vec<SpecialEffect>, key: u32) -> (r: bool)
    ensures
        r == has_key(v@, key),
{
    let mut i: usize = 0;
    while i < v.len()
        invariant
            i <= v@.len(),
            forall|j: int| 0 <= j < i ==> (#[trigger] v@[j]).key != key,
        decreases v@.len() - i,
    {
        if v[i].key == key {
            return true;
        }
        i = i + 1;
    }
    false
}

/// Drops every effect whose key came before.
pub fn keep_firsts(v: &Vec<SpecialEffect>) -> (r: Vec<SpecialEffect>)
    ensures
        r@ == firsts(v@, v@.len() as int),
{
    let mut out: Vec<SpecialEffect> = Vec::new();
    let mut k: usize = 0;
    while k < v.len()
        invariant
            k <= v@.len(),
            out@ == firsts(v@, k as int),
        decreases v@.len() - k,
    {
        if !test_key(&out, v[k].key) {
            out.push(v[k]);
        }
        k = k + 1;
    }
    out
}

// ── Degradations ─────────────────────────────────────────────────────────────

/// A step in which something degrades.
#[derive(Debug, Clone, Copy, PartialEq, Eq, Structural)]
pub struct DegradableInfo {
    pub health_percentage: Single,
    pub bank_index: i32,
    pub anim_step: Single,
    pub render_size_x: Single,
    pub additive_alpha: u8,
    pub type_: u8,
    pub smash_particle_emitter: i32,
    pub blocks_navigation: bool,
}

impl View for DegradableInfo {
    type V = DegradableInfo;

    open spec fn view(&self) -> DegradableInfo {
        *self
    }
}

impl Added for DegradableInfo {
    open spec fn entry(cx: Context, args: Seq<Spanned<ExprView>>) -> Option<DegradableInfo> {
        Some(
            DegradableInfo {
                health_percentage: anim::single_arg(cx, args, 0),
                bank_index: anim::number_arg(cx, args, 1),
                anim_step: Single { bits: 0 },
                render_size_x: Single { bits: ui::ONE },
                additive_alpha: 0,
                type_: 0,
                smash_particle_emitter: anim::number_arg(cx, args, 2),
                blocks_navigation: eval::arg_bool(args, 3, false),
            },
        )
    }

    fn read<E: LowerEnv>(
        args: &Vec<Spanned<Expr>>,
        eval: &Evaluator,
        env: &E,
    ) -> (r: Option<Self>) {
        Some(
            DegradableInfo {
                health_percentage: eval.arg_single_or(args, 0, Single { bits: 0 }),
                bank_index: eval.arg_i32_or(args, 1, 0),
                anim_step: Single { bits: 0 },
                render_size_x: Single { bits: ui::ONE },
                additive_alpha: 0,
                type_: 0,
                smash_particle_emitter: eval.arg_i32_or(args, 2, 0),
                blocks_navigation: eval.arg_bool_or(args, 3, false),
            },
        )
    }
}

/// The steps with their type set.
pub open spec fn typed(v: Seq<DegradableInfo>, type_: u8) -> Seq<DegradableInfo> {
    Seq::new(v.len(), |i: int| DegradableInfo { type_, ..v[i] })
}

/// Sets the type of every step.
pub fn set_types(v: &mut Vec<DegradableInfo>, type_: u8)
    ensures
        final(v)@ == typed(old(v)@, type_),
{
    let n: usize = v.len();
    let mut i: usize = 0;
    while i < n
        invariant
            i <= n,
            n == v@.len(),
            n == old(v)@.len(),
            forall|j: int| 0 <= j < i ==> #[trigger] v@[j] == typed(old(v)@, type_)[j],
            forall|j: int| i <= j < n ==> #[trigger] v@[j] == old(v)@[j],
        decreases n - i,
    {
        let d = v[i];
        v.set(
            i,
            DegradableInfo {
                health_percentage: d.health_percentage,
                bank_index: d.bank_index,
                anim_step: d.anim_step,
                render_size_x: d.render_size_x,
                additive_alpha: d.additive_alpha,
                type_,
                smash_particle_emitter: d.smash_particle_emitter,
                blocks_navigation: d.blocks_navigation,
            },
        );
        i = i + 1;
    }
    assert(v@ =~= typed(old(v)@, type_));
}

// ── Replaceable meshes ───────────────────────────────────────────────────────

/// A mesh that another may replace.
#[derive(Debug, Clone, Copy, PartialEq, Eq, Structural)]
pub struct ReplaceableMesh {
    pub bank_index: i32,
    pub anim_step: Single,
    pub render_size_x: Single,
    pub additive_alpha: u8,
    pub graphic_type: u8,
}

impl View for ReplaceableMesh {
    type V = ReplaceableMesh;

    open spec fn view(&self) -> ReplaceableMesh {
        *self
    }
}

impl Added for ReplaceableMesh {
    open spec fn entry(cx: Context, args: Seq<Spanned<ExprView>>) -> Option<ReplaceableMesh> {
        Some(
            ReplaceableMesh {
                bank_index: anim::number_arg(cx, args, 1),
                anim_step: Single { bits: ui::ONE },
                render_size_x: Single { bits: ui::ONE },
                additive_alpha: 0,
                graphic_type: anim::number_arg(cx, args, 0) as u8,
            },
        )
    }

    fn read<E: LowerEnv>(
        args: &Vec<Spanned<Expr>>,
        eval: &Evaluator,
        env: &E,
    ) -> (r: Option<Self>) {
        Some(
            ReplaceableMesh {
                bank_index: eval.arg_i32_or(args, 1, 0),
                anim_step: Single { bits: ui::ONE },
                render_size_x: Single { bits: ui::ONE },
                additive_alpha: 0,
                graphic_type: eval.arg_i32_or(args, 0, 0) as u8,
            },
        )
    }
}

// ── Modifiers of appearance ──────────────────────────────────────────────────

/// A graphic that modifies an appearance, as it is stored.
#[derive(Debug)]
pub struct ModifierGraphic {
    pub data: Vec<u8>,
}

impl View for ModifierGraphic {
    type V = Seq<u8>;

    open spec fn view(&self) -> Seq<u8> {
        self.data@
    }
}

/// The numbers that a graphic is stored as.
pub open spec fn modifier_words(cx: Context, args: Seq<Spanned<ExprView>>) -> Seq<u32> {
    seq![
        anim::number_arg(cx, args, 0) as u32,
        anim::number_arg(cx, args, 3) as u32,
        anim::number_arg(cx, args, 1) as u32,
        anim::single_arg(cx, args, 2).bits,
        anim::single_arg(cx, args, 4).bits,
        anim::single_arg(cx, args, 5).bits,
    ]
}

impl Added for ModifierGraphic {
    open spec fn entry(cx: Context, args: Seq<Spanned<ExprView>>) -> Option<Seq<u8>> {
        Some(word_bytes(modifier_words(cx, args)))
    }

    fn read<E: LowerEnv>(
        args: &Vec<Spanned<Expr>>,
        eval: &Evaluator,
        env: &E,
    ) -> (r: Option<Self>) {
        let zero = Single { bits: 0 };
        let mut w: Vec<u32> = Vec::new();
        w.push(eval.arg_i32_or(args, 0, 0) as u32);
        w.push(eval.arg_i32_or(args, 3, 0) as u32);
        w.push(eval.arg_i32_or(args, 1, 0) as u32);
        w.push(eval.arg_single_or(args, 2, zero).bits);
        w.push(eval.arg_single_or(args, 4, zero).bits);
        w.push(eval.arg_single_or(args, 5, zero).bits);
        assert(w@ =~= modifier_words(env::context(eval@, env), base::views(args@)));
        Some(ModifierGraphic { data: pack_words(&w) })
    }
}

// ── Laws ─────────────────────────────────────────────────────────────────────

/// Each key has one effect, the first that was given for it.
pub proof fn an_effect_comes_once(v: Seq<SpecialEffect>, k: int)
    requires
        0 <= k <= v.len(),
    ensures
        forall|i: int, j: int|
            0 <= i < j < firsts(v, k).len() ==> firsts(v, k)[i].key != firsts(v, k)[j].key,
        forall|i: int| 0 <= i < k ==> has_key(firsts(v, k), (#[trigger] v[i]).key),
        forall|i: int| 0 <= i < firsts(v, k).len() ==> v.contains(#[trigger] firsts(v, k)[i]),
    decreases k,
{
    if 0 < k {
        an_effect_comes_once(v, k - 1);
        let before = firsts(v, k - 1);
        let after = firsts(v, k);
        if !has_key(before, v[k - 1].key) {
            assert(after[before.len() as int] == v[k - 1]);
            assert forall|i: int| 0 <= i < k implies has_key(after, (#[trigger] v[i]).key) by {
                if i < k - 1 {
                    assert(has_key(before, v[i].key));
                    let p = choose|p: int|
                        0 <= p < before.len() && (#[trigger] before[p]).key == v[i].key;
                    assert(after[p].key == v[i].key);
                }
            }
        }
    }
}

} // verus!
