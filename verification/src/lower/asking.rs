//! The strings whose offsets a definition asks for beside its fields, in the order in which
//! it asks: a string that a field is set to is missed where it has no offset, these are not.

use vstd::prelude::*;

use crate::eval;
use crate::eval::{Evaluator, Symbols};
use crate::lower::anim;
use crate::lower::anim::{AnimView, Building};
use crate::lower::body;
use crate::lower::body::{is_field_call, is_method_call};
use crate::lower::builders;
use crate::lower::builders::{HeroBuilding, SoundsView};
use crate::lower::calls;
use crate::lower::calls::FireEffect;
use crate::lower::def;
use crate::lower::def::{find_family, Family};
use crate::lower::env::Context;
use crate::lower::things;
use crate::lower::things::{component_names, Addition};
use crate::strings::same;
use crate::text::ast;
use crate::text::ast::{Call, CallView, Expr, ExprView, Statement, StatementView};
use crate::text::base;
use crate::text::base::Spanned;
use crate::text::symbols::SymbolTable;

verus! {

broadcast use base::group_views;

/// The string that argument `i` is, where it is one.
pub open spec fn string_arg(args: Seq<Spanned<ExprView>>, i: int) -> Seq<Seq<char>> {
    match eval::arg_string(args, i) {
        Some(s) => seq![s],
        None => Seq::empty(),
    }
}

/// The filters that the arguments of an animation before `k`, from the third on, name.
pub open spec fn filters(args: Seq<Spanned<ExprView>>, k: int) -> Seq<Seq<char>>
    decreases k,
{
    if k <= 2 || k > args.len() {
        Seq::empty()
    } else {
        filters(args, k - 1) + match args[k - 1].value {
            ExprView::Constructor(c) => if c.name == "NextAnimFilter"@ {
                string_arg(c.arguments, 0)
            } else {
                Seq::empty()
            },
            _ => Seq::empty(),
        }
    }
}

/// The strings that a call on animations asks for: a group, or the name of an animation
/// and its filters.
pub open spec fn animation_asks(call: CallView) -> Seq<Seq<char>> {
    let a = call.arguments;
    if call.name == "StartGroup"@ || call.name == "SetDefaultGroupName"@ {
        string_arg(a, 0)
    } else if call.name == "Add"@ || call.name == "AddCombat"@ {
        match eval::arg_string(a, 0) {
            Some(key) => seq![key] + filters(a, a.len() as int),
            None => Seq::empty(),
        }
    } else {
        Seq::empty()
    }
}

/// The string that a call on sounds asks for: a criterion.
pub open spec fn sound_asks(call: CallView) -> Seq<Seq<char>> {
    let a = call.arguments;
    if call.name == "AddCriteria"@ && eval::arg_string(a, 0) is Some {
        match eval::arg_string(a, 1) {
            Some(text) => seq![text],
            None => seq![""@],
        }
    } else {
        Seq::empty()
    }
}

/// The string that an addition of an effect of fire asks for: its name.
pub open spec fn fire_asks(symbols: Symbols, call: CallView) -> Seq<Seq<char>> {
    let a = call.arguments;
    if a.len() > 1 && eval::as_i32(symbols, a[1].value) is Ok {
        string_arg(a, 0)
    } else {
        Seq::empty()
    }
}

/// The string that a call on particles asks for: where they are.
pub open spec fn particle_asks(call: CallView) -> Seq<Seq<char>> {
    if call.name == "Add"@ {
        string_arg(call.arguments, 5)
    } else if call.name == "AddBlend"@ {
        string_arg(call.arguments, 6)
    } else {
        Seq::empty()
    }
}

/// The strings that a statement of a definition of a family asks for.
pub open spec fn asks(f: Family, symbols: Symbols, s: StatementView) -> Seq<Seq<char>> {
    match s {
        StatementView::MethodCall { call, .. } => match f {
            Family::Animated => if body::calls_field(s, "Animation"@) {
                animation_asks(call)
            } else {
                Seq::empty()
            },
            Family::EntitySound => if body::calls_field(s, "SoundMap"@) {
                sound_asks(call)
            } else {
                Seq::empty()
            },
            Family::Flammable => if body::calls_method(s, "EffectCreationSet"@, "Add"@) {
                fire_asks(symbols, call)
            } else {
                Seq::empty()
            },
            Family::HeroMorph => if body::calls_field(s, "ParticleMorphs"@) || body::calls_field(
                s,
                "IdleParticleMorphs"@,
            ) {
                particle_asks(call)
            } else {
                Seq::empty()
            },
            _ => Seq::empty(),
        },
        _ => Seq::empty(),
    }
}

/// The strings that the first `k` statements of a definition of a family ask for.
pub open spec fn asked_upto(
    f: Family,
    symbols: Symbols,
    body: Seq<Spanned<StatementView>>,
    k: int,
) -> Seq<Seq<char>>
    decreases k,
{
    if k <= 0 || k > body.len() {
        Seq::empty()
    } else {
        asked_upto(f, symbols, body, k - 1) + asks(f, symbols, body[k - 1].value)
    }
}

/// The strings that a definition of the type `name` asks for before its fields are set.
/// That of an element of the user interface is its default font.
pub open spec fn asked_first(
    name: Seq<char>,
    symbols: Symbols,
    body: Seq<Spanned<StatementView>>,
) -> Seq<Seq<char>> {
    match def::family(name) {
        Some((f, _)) => if f == Family::Ui {
            seq!["ENG_ARIAL_16"@]
        } else {
            asked_upto(f, symbols, body, body.len() as int)
        },
        None => Seq::empty(),
    }
}

/// The strings that a definition of the type `name` asks for behind its fields: the names
/// of the components of a thing.
pub open spec fn asked_last(name: Seq<char>, body: Seq<Spanned<StatementView>>) -> Seq<Seq<char>> {
    match def::family(name) {
        Some((Family::Thing, _)) => things::names_added(body),
        _ => Seq::empty(),
    }
}

// ── Collecting ───────────────────────────────────────────────────────────────

fn push_arg(out: &mut Vec<String>, args: &Vec<Spanned<Expr>>, i: usize, eval: &Evaluator)
    ensures
        base::views(final(out)@) == base::views(old(out)@) + string_arg(
            base::views(args@),
            i as int,
        ),
{
    let ghost before = base::views(out@);
    match eval.arg_string_opt(args, i) {
        Some(s) => out.push(s),
        None => {},
    }
    assert(base::views(out@) =~= before + string_arg(base::views(args@), i as int));
}

fn push_filters(out: &mut Vec<String>, args: &Vec<Spanned<Expr>>, eval: &Evaluator)
    ensures
        base::views(final(out)@) == base::views(old(out)@) + filters(
            base::views(args@),
            args@.len() as int,
        ),
{
    let ghost before = base::views(out@);
    let ghost all = base::views(args@);
    let n: usize = args.len();
    if n <= 2 {
        assert(base::views(out@) =~= before + filters(all, n as int));
        return;
    }
    let mut k: usize = 2;
    assert(base::views(out@) =~= before + filters(all, 2));
    while k < n
        invariant
            2 <= k <= n,
            n == args@.len(),
            all == base::views(args@),
            base::views(out@) == before + filters(all, k as int),
        decreases n - k,
    {
        proof {
            assert(all[k as int] == args@[k as int]@);
            ast::lemma_expr_view(args@[k as int].value);
        }
        match &args[k].value {
            Expr::Constructor(c) => if same(c.name.as_str(), "NextAnimFilter") {
                push_arg(out, &c.arguments, 0, eval);
            },
            _ => {},
        }
        assert(base::views(out@) =~= before + filters(all, k as int + 1));
        k = k + 1;
    }
}

fn push_animation(out: &mut Vec<String>, call: &Call, eval: &Evaluator)
    ensures
        base::views(final(out)@) == base::views(old(out)@) + animation_asks(call@),
{
    let ghost before = base::views(out@);
    let name = call.name.as_str();
    let a = &call.arguments;
    if same(name, "StartGroup") || same(name, "SetDefaultGroupName") {
        push_arg(out, a, 0, eval);
    } else if same(name, "Add") || same(name, "AddCombat") {
        match eval.arg_string_opt(a, 0) {
            Some(key) => {
                out.push(key);
                push_filters(out, a, eval);
            },
            None => {},
        }
    }
    assert(base::views(out@) =~= before + animation_asks(call@));
}

fn push_sound(out: &mut Vec<String>, call: &Call, eval: &Evaluator)
    ensures
        base::views(final(out)@) == base::views(old(out)@) + sound_asks(call@),
{
    let ghost before = base::views(out@);
    let a = &call.arguments;
    if same(call.name.as_str(), "AddCriteria") && eval.arg_string_opt(a, 0).is_some() {
        match eval.arg_string_opt(a, 1) {
            Some(text) => out.push(text),
            None => out.push("".to_owned()),
        }
    }
    assert(base::views(out@) =~= before + sound_asks(call@));
}

fn push_fire(out: &mut Vec<String>, call: &Call, eval: &Evaluator)
    ensures
        base::views(final(out)@) == base::views(old(out)@) + fire_asks(eval@, call@),
{
    let ghost before = base::views(out@);
    let a = &call.arguments;
    if a.len() > 1 {
        assert(base::views(a@)[1] == a@[1]@);
        if eval.i32(&a[1]).is_ok() {
            push_arg(out, a, 0, eval);
        }
    }
    assert(base::views(out@) =~= before + fire_asks(eval@, call@));
}

fn push_particle(out: &mut Vec<String>, call: &Call, eval: &Evaluator)
    ensures
        base::views(final(out)@) == base::views(old(out)@) + particle_asks(call@),
{
    let ghost before = base::views(out@);
    if same(call.name.as_str(), "Add") {
        push_arg(out, &call.arguments, 5, eval);
    } else if same(call.name.as_str(), "AddBlend") {
        push_arg(out, &call.arguments, 6, eval);
    }
    assert(base::views(out@) =~= before + particle_asks(call@));
}

fn push_asks(f: Family, out: &mut Vec<String>, s: &Statement, eval: &Evaluator)
    ensures
        base::views(final(out)@) == base::views(old(out)@) + asks(f, eval@, s@),
{
    let ghost before = base::views(out@);
    proof {
        ast::lemma_statement_view(*s);
    }
    match s {
        Statement::MethodCall(m) => match f {
            Family::Animated => if is_field_call(s, "Animation") {
                push_animation(out, &m.call, eval);
            },
            Family::EntitySound => if is_field_call(s, "SoundMap") {
                push_sound(out, &m.call, eval);
            },
            Family::Flammable => if is_method_call(s, "EffectCreationSet", "Add") {
                push_fire(out, &m.call, eval);
            },
            Family::HeroMorph => if is_field_call(s, "ParticleMorphs") || is_field_call(
                s,
                "IdleParticleMorphs",
            ) {
                push_particle(out, &m.call, eval);
            },
            _ => {},
        },
        _ => {},
    }
    assert(base::views(out@) =~= before + asks(f, eval@, s@));
}

/// The strings that a definition of the type `name` asks for before its fields are set.
pub fn strings_first(name: &str, symbols: &SymbolTable, body: &Vec<Spanned<Statement>>) -> (r: Vec<
    String,
>)
    ensures
        base::views(r@) == asked_first(name@, symbols@, base::views(body@)),
{
    let ghost all = base::views(body@);
    let mut out: Vec<String> = Vec::new();
    let f: Family = match find_family(name) {
        Some((f, _)) => f,
        None => return out,
    };
    match f {
        Family::Ui => {
            out.push("ENG_ARIAL_16".to_owned());
            assert(base::views(out@) =~= seq!["ENG_ARIAL_16"@]);
            return out;
        },
        _ => {},
    }
    let eval = Evaluator::new(symbols);
    let mut k: usize = 0;
    while k < body.len()
        invariant
            k <= body@.len(),
            all == base::views(body@),
            eval@ == symbols@,
            base::views(out@) == asked_upto(f, symbols@, all, k as int),
        decreases body@.len() - k,
    {
        assert(all[k as int] == body@[k as int]@);
        push_asks(f, &mut out, &body[k].value, &eval);
        k = k + 1;
    }
    out
}

/// The strings that a definition of the type `name` asks for behind its fields.
pub fn strings_last(name: &str, body: &Vec<Spanned<Statement>>) -> (r: Vec<String>)
    ensures
        base::views(r@) == asked_last(name@, base::views(body@)),
{
    match find_family(name) {
        Some((Family::Thing, _)) => component_names(body),
        _ => Vec::new(),
    }
}

// ── Laws ─────────────────────────────────────────────────────────────────────

/// Whether two contexts have the same symbols, and give some strings the same offsets.
pub open spec fn agree(a: Context, b: Context, v: Seq<Seq<char>>) -> bool {
    a.symbols == b.symbols && forall|i: int|
        0 <= i < v.len() ==> (a.strings)(#[trigger] v[i]) == (b.strings)(v[i])
}

proof fn lemma_agree(a: Context, b: Context, u: Seq<Seq<char>>, v: Seq<Seq<char>>)
    requires
        agree(a, b, u + v),
    ensures
        agree(a, b, u),
        agree(a, b, v),
{
    assert forall|i: int| 0 <= i < u.len() implies (a.strings)(#[trigger] u[i]) == (b.strings)(
        u[i],
    ) by {
        assert((u + v)[i] == u[i]);
    }
    assert forall|i: int| 0 <= i < v.len() implies (a.strings)(#[trigger] v[i]) == (b.strings)(
        v[i],
    ) by {
        assert((u + v)[u.len() + i] == v[i]);
    }
}

proof fn lemma_offset_arg(a: Context, b: Context, args: Seq<Spanned<ExprView>>, i: int)
    requires
        agree(a, b, string_arg(args, i)),
    ensures
        anim::offset_arg(a, args, i) == anim::offset_arg(b, args, i),
{
    if let Some(s) = eval::arg_string(args, i) {
        assert(string_arg(args, i)[0] == s);
    }
}

proof fn lemma_gathered(
    a: Context,
    b: Context,
    combat: bool,
    args: Seq<Spanned<ExprView>>,
    k: int,
)
    requires
        agree(a, b, filters(args, k)),
    ensures
        anim::gathered(a, combat, args, k) == anim::gathered(b, combat, args, k),
    decreases k,
{
    if 2 < k <= args.len() {
        let own = match args[k - 1].value {
            ExprView::Constructor(c) => if c.name == "NextAnimFilter"@ {
                string_arg(c.arguments, 0)
            } else {
                Seq::empty()
            },
            _ => Seq::empty(),
        };
        lemma_agree(a, b, filters(args, k - 1), own);
        lemma_gathered(a, b, combat, args, k - 1);
        if let ExprView::Constructor(c) = args[k - 1].value {
            if c.name == "NextAnimFilter"@ {
                lemma_offset_arg(a, b, c.arguments, 0);
            }
        }
    }
}

proof fn lemma_built(a: Context, b: Context, st: Building, s: Spanned<StatementView>)
    requires
        agree(a, b, asks(Family::Animated, a.symbols, s.value)),
    ensures
        anim::built(a, st, s) == anim::built(b, st, s),
{
    reveal_strlit("SetDefaultGroupName");
    reveal_strlit("SetDefaultDelay");
    reveal_strlit("StartGroup");
    reveal_strlit("EndGroup");
    reveal_strlit("AddCombat");
    reveal_strlit("Remove");
    reveal_strlit("Add");
    assert("SetDefaultGroupName"@.len() == 19 && "SetDefaultDelay"@.len() == 15);
    assert("StartGroup"@.len() == 10 && "EndGroup"@.len() == 8 && "Remove"@.len() == 6);
    assert("AddCombat"@.len() == 9 && "Add"@.len() == 3);
    if let StatementView::MethodCall { call, .. } = s.value {
        if body::calls_field(s.value, "Animation"@) {
            let args = call.arguments;
            if call.name == "StartGroup"@ || call.name == "SetDefaultGroupName"@ {
                lemma_offset_arg(a, b, args, 0);
            } else if call.name == "Add"@ || call.name == "AddCombat"@ {
                if let Some(key) = eval::arg_string(args, 0) {
                    let n = args.len() as int;
                    lemma_agree(a, b, seq![key], filters(args, n));
                    assert((a.strings)(seq![key][0]) == (b.strings)(key));
                    lemma_gathered(a, b, call.name == "AddCombat"@, args, n);
                }
            }
        }
    }
}

proof fn lemma_building(
    a: Context,
    b: Context,
    anims: Seq<AnimView>,
    body: Seq<Spanned<StatementView>>,
    k: int,
)
    requires
        agree(a, b, asked_upto(Family::Animated, a.symbols, body, k)),
    ensures
        anim::building(a, anims, body, k) == anim::building(b, anims, body, k),
    decreases k,
{
    if 0 < k <= body.len() {
        lemma_agree(
            a,
            b,
            asked_upto(Family::Animated, a.symbols, body, k - 1),
            asks(Family::Animated, a.symbols, body[k - 1].value),
        );
        lemma_building(a, b, anims, body, k - 1);
        lemma_built(a, b, anim::building(a, anims, body, k - 1), body[k - 1]);
    }
}

/// Animations read the offsets of the strings that they ask for, and of no other.
pub proof fn animations_read_what_they_ask_for(
    a: Context,
    b: Context,
    anims: Seq<AnimView>,
    body: Seq<Spanned<StatementView>>,
)
    requires
        agree(a, b, asked_upto(Family::Animated, a.symbols, body, body.len() as int)),
    ensures
        anim::animations(a, anims, body) == anim::animations(b, anims, body),
{
    lemma_building(a, b, anims, body, body.len() as int);
}

proof fn lemma_sounds_prefix(
    cx: Context,
    s: SoundsView,
    calls: Seq<Spanned<StatementView>>,
    x: Spanned<StatementView>,
    k: int,
)
    requires
        0 <= k <= calls.len(),
    ensures
        builders::sounds_added(cx, s, calls.push(x), k) == builders::sounds_added(cx, s, calls, k),
    decreases k,
{
    if k > 0 {
        lemma_sounds_prefix(cx, s, calls, x, k - 1);
    }
}

proof fn lemma_sounds(
    a: Context,
    b: Context,
    s: SoundsView,
    body: Seq<Spanned<StatementView>>,
    k: int,
)
    requires
        0 <= k <= body.len(),
        agree(a, b, asked_upto(Family::EntitySound, a.symbols, body, k)),
    ensures
        ({
            let calls = body::selected(body, body::field_calls("SoundMap"@), k);
            builders::sounds_added(a, s, calls, calls.len() as int) == builders::sounds_added(
                b,
                s,
                calls,
                calls.len() as int,
            )
        }),
    decreases k,
{
    if 0 < k {
        let x = body[k - 1];
        let before = body::selected(body, body::field_calls("SoundMap"@), k - 1);
        let n = before.len() as int;
        let own = asks(Family::EntitySound, a.symbols, x.value);
        lemma_agree(a, b, asked_upto(Family::EntitySound, a.symbols, body, k - 1), own);
        lemma_sounds(a, b, s, body, k - 1);
        if body::calls_field(x.value, "SoundMap"@) {
            lemma_sounds_prefix(a, s, before, x, n);
            lemma_sounds_prefix(b, s, before, x, n);
            if let StatementView::MethodCall { call, .. } = x.value {
                let st = builders::sounds_added(a, s, before, n);
                assert(builders::sound_added(a, st, call) == builders::sound_added(b, st, call)) by {
                    if call.name == "AddCriteria"@ && eval::arg_string(call.arguments, 0) is Some {
                        assert(own == sound_asks(call));
                        assert((a.strings)(own[0]) == (b.strings)(own[0]));
                    }
                }
            }
        }
    }
}

/// Sounds read the offsets of the strings that they ask for, and of no other.
pub proof fn sounds_read_what_they_ask_for(
    a: Context,
    b: Context,
    s: SoundsView,
    body: Seq<Spanned<StatementView>>,
)
    requires
        agree(a, b, asked_upto(Family::EntitySound, a.symbols, body, body.len() as int)),
    ensures
        ({
            let calls = body::all_selected(body, body::field_calls("SoundMap"@));
            builders::sounds_added(a, s, calls, calls.len() as int) == builders::sounds_added(
                b,
                s,
                calls,
                calls.len() as int,
            )
        }),
{
    lemma_sounds(a, b, s, body, body.len() as int);
}

proof fn lemma_fire_prefix(
    cx: Context,
    v: Seq<FireEffect>,
    calls: Seq<Spanned<StatementView>>,
    x: Spanned<StatementView>,
    k: int,
)
    requires
        0 <= k <= calls.len(),
    ensures
        calls::collected::<FireEffect>(cx, v, calls.push(x), k) == calls::collected::<FireEffect>(
            cx,
            v,
            calls,
            k,
        ),
    decreases k,
{
    if k > 0 {
        lemma_fire_prefix(cx, v, calls, x, k - 1);
    }
}

proof fn lemma_fire(
    a: Context,
    b: Context,
    v: Seq<FireEffect>,
    body: Seq<Spanned<StatementView>>,
    k: int,
)
    requires
        0 <= k <= body.len(),
        agree(a, b, asked_upto(Family::Flammable, a.symbols, body, k)),
    ensures
        ({
            let found = body::selected(body, body::method_calls("EffectCreationSet"@, "Add"@), k);
            calls::collected::<FireEffect>(a, v, found, found.len() as int)
                == calls::collected::<FireEffect>(b, v, found, found.len() as int)
        }),
    decreases k,
{
    if 0 < k {
        let x = body[k - 1];
        let before = body::selected(
            body,
            body::method_calls("EffectCreationSet"@, "Add"@),
            k - 1,
        );
        let n = before.len() as int;
        let own = asks(Family::Flammable, a.symbols, x.value);
        lemma_agree(a, b, asked_upto(Family::Flammable, a.symbols, body, k - 1), own);
        lemma_fire(a, b, v, body, k - 1);
        if body::calls_method(x.value, "EffectCreationSet"@, "Add"@) {
            lemma_fire_prefix(a, v, before, x, n);
            lemma_fire_prefix(b, v, before, x, n);
            if let StatementView::MethodCall { call, .. } = x.value {
                let args = call.arguments;
                if args.len() > 1 && eval::as_i32(a.symbols, args[1].value) is Ok {
                    assert(own == string_arg(args, 0));
                    lemma_offset_arg(a, b, args, 0);
                }
                assert(<FireEffect as calls::Added>::entry(a, args)
                    == <FireEffect as calls::Added>::entry(b, args));
            }
        }
    }
}

/// Effects of fire read the offsets of the strings that they ask for, and of no other.
pub proof fn fires_read_what_they_ask_for(
    a: Context,
    b: Context,
    v: Seq<FireEffect>,
    body: Seq<Spanned<StatementView>>,
)
    requires
        agree(a, b, asked_upto(Family::Flammable, a.symbols, body, body.len() as int)),
    ensures
        def::additions::<FireEffect>(a, v, body, "EffectCreationSet"@) == def::additions::<
            FireEffect,
        >(b, v, body, "EffectCreationSet"@),
{
    lemma_fire(a, b, v, body, body.len() as int);
}

/// The morphs of the hero read the offsets of the strings that they ask for, and of no
/// other.
pub proof fn morphs_read_what_they_ask_for(
    a: Context,
    b: Context,
    start: HeroBuilding,
    body: Seq<Spanned<StatementView>>,
    k: int,
)
    requires
        agree(a, b, asked_upto(Family::HeroMorph, a.symbols, body, k)),
    ensures
        builders::hero_building(a, start, body, k) == builders::hero_building(b, start, body, k),
    decreases k,
{
    if 0 < k <= body.len() {
        let x = body[k - 1].value;
        let own = asks(Family::HeroMorph, a.symbols, x);
        lemma_agree(a, b, asked_upto(Family::HeroMorph, a.symbols, body, k - 1), own);
        morphs_read_what_they_ask_for(a, b, start, body, k - 1);
        if let StatementView::MethodCall { call, .. } = x {
            let args = call.arguments;
            if body::calls_field(x, "ParticleMorphs"@) || body::calls_field(
                x,
                "IdleParticleMorphs"@,
            ) {
                if call.name == "Add"@ {
                    lemma_offset_arg(a, b, args, 5);
                    assert(builders::particle_words(a, args, 0) =~= builders::particle_words(
                        b,
                        args,
                        0,
                    ));
                } else if call.name == "AddBlend"@ {
                    lemma_offset_arg(a, b, args, 6);
                    assert(builders::particle_words(a, args, 1) =~= builders::particle_words(
                        b,
                        args,
                        1,
                    ));
                }
                assert(builders::particle(a, call) == builders::particle(b, call));
            }
        }
    }
}

proof fn lemma_components(a: Context, b: Context, v: Seq<Addition>, k: int)
    requires
        agree(a, b, Seq::new(v.len(), |i: int| v[i].name)),
    ensures
        things::component_entries(a, v, k) == things::component_entries(b, v, k),
    decreases k,
{
    if 0 < k <= v.len() {
        let names = Seq::new(v.len(), |i: int| v[i].name);
        assert(names[k - 1] == v[k - 1].name);
        assert((a.strings)(names[k - 1]) == (b.strings)(names[k - 1]));
        lemma_components(a, b, v, k - 1);
    }
}

/// The components of a thing read the offsets of the strings that they ask for, and of no
/// other.
pub proof fn components_read_what_they_ask_for(
    a: Context,
    b: Context,
    body: Seq<Spanned<StatementView>>,
)
    requires
        agree(a, b, things::names_added(body)),
    ensures
        things::thing_components(a, body) == things::thing_components(b, body),
{
    let v = things::additions(body, body.len() as int);
    lemma_components(a, b, v, v.len() as int);
}

} // verus!
