//! Parts of definitions that calls build, statement by statement.

use vstd::prelude::*;

use crate::crc32;
use crate::crc32::crc_text;
use crate::eval;
use crate::eval::Evaluator;
use crate::lower::anim;
use crate::lower::anim::anim_arg_defstring;
use crate::lower::body;
use crate::lower::body::{is_field_call, is_method_call};
use crate::lower::calls;
use crate::lower::calls::{pack_words, read_number};
use crate::lower::env;
use crate::lower::env::{Context, LowerEnv};
use crate::order::Ranked;
use crate::single::Single;
use crate::strings::same;
use crate::text::ast;
use crate::text::ast::{clone_statement, Call, CallView, Expr, ExprView, Statement, StatementView};
use crate::text::base;
use crate::text::base::Spanned;

verus! {

broadcast use base::group_views;

// ── Sounds ───────────────────────────────────────────────────────────────────

/// The sounds of an event, by the checksum of its name.
#[derive(Debug, Clone, Copy, PartialEq, Eq, Structural)]
pub struct SoundRange {
    pub key: u32,
    pub first_sound: u32,
    pub last_sound: u32,
}

/// The criterion of an event, by the checksum of its name.
#[derive(Debug, Clone, Copy, PartialEq, Eq, Structural)]
pub struct SoundCriterion {
    pub key: u32,
    /// The offset of the name, or -1.
    pub criterion: i32,
}

impl View for SoundRange {
    type V = SoundRange;

    open spec fn view(&self) -> SoundRange {
        *self
    }
}

impl View for SoundCriterion {
    type V = SoundCriterion;

    open spec fn view(&self) -> SoundCriterion {
        *self
    }
}

impl Ranked for SoundRange {
    open spec fn rank(v: SoundRange) -> (int, int) {
        (v.key as int, 0)
    }

    fn rank_of(&self) -> (r: (i128, i128)) {
        (self.key as i128, 0)
    }
}

impl Ranked for SoundCriterion {
    open spec fn rank(v: SoundCriterion) -> (int, int) {
        (v.key as int, 0)
    }

    fn rank_of(&self) -> (r: (i128, i128)) {
        (self.key as i128, 0)
    }
}

/// The sounds that were added so far.
pub struct SoundsView {
    pub ranges: Seq<SoundRange>,
    pub criteria: Seq<SoundCriterion>,
}

/// The offset of a text, or -1.
pub open spec fn text_offset(cx: Context, text: Seq<char>) -> i32 {
    match (cx.strings)(text) {
        Some(o) => o as i32,
        None => -1i32,
    }
}

/// The sounds with that of one more call.
pub open spec fn sound_added(cx: Context, s: SoundsView, call: CallView) -> SoundsView {
    let a = call.arguments;
    match eval::arg_string(a, 0) {
        None => s,
        Some(name) => {
            let key = crc32::text_checksum(name);
            if call.name == "AddSingle"@ {
                let n = eval::arg_u32(cx.symbols, a, 1, 0u32);
                SoundsView {
                    ranges: s.ranges.push(SoundRange { key, first_sound: n, last_sound: n }),
                    ..s
                }
            } else if call.name == "AddPair"@ {
                SoundsView {
                    ranges: s.ranges.push(
                        SoundRange {
                            key,
                            first_sound: eval::arg_u32(cx.symbols, a, 1, 0u32),
                            last_sound: eval::arg_u32(cx.symbols, a, 2, 0u32),
                        },
                    ),
                    ..s
                }
            } else if call.name == "AddCriteria"@ {
                let criterion = match eval::arg_string(a, 1) {
                    Some(text) => text_offset(cx, text),
                    None => text_offset(cx, ""@),
                };
                SoundsView { criteria: s.criteria.push(SoundCriterion { key, criterion }), ..s }
            } else {
                s
            }
        },
    }
}

/// The sounds with those of the first `k` calls.
pub open spec fn sounds_added(
    cx: Context,
    s: SoundsView,
    calls: Seq<Spanned<StatementView>>,
    k: int,
) -> SoundsView
    decreases k,
{
    if k <= 0 || k > calls.len() {
        s
    } else {
        let before = sounds_added(cx, s, calls, k - 1);
        match calls[k - 1].value {
            StatementView::MethodCall { call, .. } => sound_added(cx, before, call),
            _ => before,
        }
    }
}

fn read_offset<E: LowerEnv>(text: &str, env: &E, cx: Ghost<Context>) -> (r: i32)
    requires
        cx@.strings == env::context(cx@.symbols, env).strings,
    ensures
        r == text_offset(cx@, text@),
{
    match env.def_string_offset(text) {
        Some(o) => o as i32,
        None => -1,
    }
}

fn add_sound<E: LowerEnv>(
    ranges: &mut Vec<SoundRange>,
    criteria: &mut Vec<SoundCriterion>,
    call: &Call,
    eval: &Evaluator,
    env: &E,
)
    ensures
        (SoundsView { ranges: final(ranges)@, criteria: final(criteria)@ }) == sound_added(
            env::context(eval@, env),
            SoundsView { ranges: old(ranges)@, criteria: old(criteria)@ },
            call@,
        ),
{
    let a = &call.arguments;
    let name = call.name.as_str();
    match eval.arg_string_opt(a, 0) {
        None => {},
        Some(event) => {
            let key = crc_text(event.as_str());
            if same(name, "AddSingle") {
                let n = eval.arg_u32_or(a, 1, 0);
                ranges.push(SoundRange { key, first_sound: n, last_sound: n });
            } else if same(name, "AddPair") {
                ranges.push(
                    SoundRange {
                        key,
                        first_sound: eval.arg_u32_or(a, 1, 0),
                        last_sound: eval.arg_u32_or(a, 2, 0),
                    },
                );
            } else if same(name, "AddCriteria") {
                let ghost cx = env::context(eval@, env);
                let criterion: i32 = match eval.arg_string_opt(a, 1) {
                    Some(text) => read_offset(text.as_str(), env, Ghost(cx)),
                    None => read_offset("", env, Ghost(cx)),
                };
                criteria.push(SoundCriterion { key, criterion });
            }
        },
    }
}

/// Adds the sounds of calls.
pub fn add_sounds<E: LowerEnv>(
    ranges: &mut Vec<SoundRange>,
    criteria: &mut Vec<SoundCriterion>,
    calls: &Vec<&Spanned<Statement>>,
    eval: &Evaluator,
    env: &E,
)
    ensures
        (SoundsView { ranges: final(ranges)@, criteria: final(criteria)@ }) == sounds_added(
            env::context(eval@, env),
            SoundsView { ranges: old(ranges)@, criteria: old(criteria)@ },
            base::views(calls@),
            calls@.len() as int,
        ),
{
    let ghost cx = env::context(eval@, env);
    let ghost start = SoundsView { ranges: ranges@, criteria: criteria@ };
    let ghost all = base::views(calls@);
    let mut k: usize = 0;
    while k < calls.len()
        invariant
            k <= calls@.len(),
            cx == env::context(eval@, env),
            start == (SoundsView { ranges: old(ranges)@, criteria: old(criteria)@ }),
            all == base::views(calls@),
            (SoundsView { ranges: ranges@, criteria: criteria@ }) == sounds_added(
                cx,
                start,
                all,
                k as int,
            ),
        decreases calls@.len() - k,
    {
        let s = calls[k];
        proof {
            assert(all[k as int] == s@);
            ast::lemma_statement_view(s.value);
        }
        match &s.value {
            Statement::MethodCall(m) => add_sound(ranges, criteria, &m.call, eval, env),
            _ => {},
        }
        k = k + 1;
    }
}

// ── Expressions and wounds ───────────────────────────────────────────────────

/// The animation of an expression.
#[derive(Debug, Clone, Copy, PartialEq, Eq, Structural)]
pub struct ExpressionEntry {
    pub type_: i32,
    pub anim_index: i32,
}

impl View for ExpressionEntry {
    type V = ExpressionEntry;

    open spec fn view(&self) -> ExpressionEntry {
        *self
    }
}

impl Ranked for ExpressionEntry {
    open spec fn rank(v: ExpressionEntry) -> (int, int) {
        (v.type_ as int, 0)
    }

    fn rank_of(&self) -> (r: (i128, i128)) {
        (self.type_ as i128, 0)
    }
}

/// A wound, as it is stored.
#[derive(Debug)]
pub struct WoundEntry {
    pub body_location: i32,
    pub data: Vec<u8>,
}

/// What a [`WoundEntry`] holds.
pub struct WoundView {
    pub body_location: i32,
    pub data: Seq<u8>,
}

impl View for WoundEntry {
    type V = WoundView;

    open spec fn view(&self) -> WoundView {
        WoundView { body_location: self.body_location, data: self.data@ }
    }
}

/// The numbers of a wound: its place and textures, the time until it is a scar,
/// how long it lasts, and how much of the scar stays.
pub open spec fn wound_words(
    cx: Context,
    a: Seq<Spanned<ExprView>>,
    scar_time: i32,
    duration: i32,
    strength: Single,
) -> Seq<u32> {
    seq![
        anim::number_arg(cx, a, 0) as u32,
        anim::number_arg(cx, a, 1) as u32,
        anim::number_arg(cx, a, 2) as u32,
        anim::number_arg(cx, a, 3) as u32,
        anim::number_arg(cx, a, 4) as u32,
        anim::number_arg(cx, a, 5) as u32,
        anim::number_arg(cx, a, 6) as u32,
        scar_time as u32,
        duration as u32,
        strength.bits,
    ]
}

/// The wound that a call adds.
pub open spec fn wound(cx: Context, call: CallView) -> Option<WoundView> {
    let a = call.arguments;
    let body_location = anim::number_arg(cx, a, 0);
    if call.name == "AddWound"@ && a.len() >= 8 {
        Some(
            WoundView {
                body_location,
                data: calls::word_bytes(
                    wound_words(cx, a, 0, anim::number_arg(cx, a, 7), Single { bits: 0 }),
                ),
            },
        )
    } else if call.name == "AddWoundAndScar"@ && a.len() >= 10 {
        Some(
            WoundView {
                body_location,
                data: calls::word_bytes(
                    wound_words(
                        cx,
                        a,
                        anim::number_arg(cx, a, 7),
                        anim::number_arg(cx, a, 8),
                        anim::single_arg(cx, a, 9),
                    ),
                ),
            },
        )
    } else {
        None
    }
}

/// What the statements built so far.
pub struct BodyBuilding {
    pub expressions: Seq<ExpressionEntry>,
    pub wounds: Seq<WoundView>,
    pub rest: Seq<Spanned<StatementView>>,
}

/// What one more statement builds.
pub open spec fn body_built(cx: Context, b: BodyBuilding, s: Spanned<StatementView>) -> BodyBuilding {
    let other = BodyBuilding { rest: b.rest.push(s), ..b };
    match s.value {
        StatementView::MethodCall { call, .. } => if body::calls_method(
            s.value,
            "Expressions"@,
            "Add"@,
        ) {
            match calls::number_at(cx, call.arguments, 0) {
                None => other,
                Some(type_) => match calls::number_at(cx, call.arguments, 1) {
                    None => other,
                    Some(anim_index) => BodyBuilding {
                        expressions: b.expressions.push(ExpressionEntry { type_, anim_index }),
                        ..b
                    },
                },
            }
        } else if body::calls_field(s.value, "WoundMorphs"@) {
            match wound(cx, call) {
                Some(w) => BodyBuilding { wounds: b.wounds.push(w), ..b },
                None => other,
            }
        } else {
            other
        },
        _ => other,
    }
}

/// What the first `k` statements build.
pub open spec fn body_building(
    cx: Context,
    expressions: Seq<ExpressionEntry>,
    wounds: Seq<WoundView>,
    body: Seq<Spanned<StatementView>>,
    k: int,
) -> BodyBuilding
    decreases k,
{
    if k <= 0 || k > body.len() {
        BodyBuilding { expressions, wounds, rest: Seq::empty() }
    } else {
        body_built(cx, body_building(cx, expressions, wounds, body, k - 1), body[k - 1])
    }
}

fn read_wound_data<E: LowerEnv>(
    a: &Vec<Spanned<Expr>>,
    scar_time: i32,
    duration: i32,
    strength: Single,
    eval: &Evaluator,
    env: &E,
) -> (r: Vec<u8>)
    ensures
        r@ == calls::word_bytes(
            wound_words(
                env::context(eval@, env),
                base::views(a@),
                scar_time,
                duration,
                strength,
            ),
        ),
{
    let mut w: Vec<u32> = Vec::new();
    w.push(eval.arg_i32_or(a, 0, 0) as u32);
    w.push(eval.arg_i32_or(a, 1, 0) as u32);
    w.push(eval.arg_i32_or(a, 2, 0) as u32);
    w.push(eval.arg_i32_or(a, 3, 0) as u32);
    w.push(eval.arg_i32_or(a, 4, 0) as u32);
    w.push(eval.arg_i32_or(a, 5, 0) as u32);
    w.push(eval.arg_i32_or(a, 6, 0) as u32);
    w.push(scar_time as u32);
    w.push(duration as u32);
    w.push(strength.bits);
    assert(w@ =~= wound_words(
        env::context(eval@, env),
        base::views(a@),
        scar_time,
        duration,
        strength,
    ));
    pack_words(&w)
}

fn read_wound<E: LowerEnv>(call: &Call, eval: &Evaluator, env: &E) -> (r: Option<WoundEntry>)
    ensures
        (match r {
            Some(w) => Some(w@),
            None => None,
        }) == wound(env::context(eval@, env), call@),
{
    let a = &call.arguments;
    let body_location = eval.arg_i32_or(a, 0, 0);
    let zero = Single { bits: 0 };
    if same(call.name.as_str(), "AddWound") && a.len() >= 8 {
        let duration = eval.arg_i32_or(a, 7, 0);
        Some(
            WoundEntry {
                body_location,
                data: read_wound_data(a, 0, duration, zero, eval, env),
            },
        )
    } else if same(call.name.as_str(), "AddWoundAndScar") && a.len() >= 10 {
        let scar_time = eval.arg_i32_or(a, 7, 0);
        let duration = eval.arg_i32_or(a, 8, 0);
        let strength = eval.arg_single_or(a, 9, zero);
        Some(
            WoundEntry {
                body_location,
                data: read_wound_data(a, scar_time, duration, strength, eval, env),
            },
        )
    } else {
        None
    }
}

/// The expressions and wounds of a creature.
pub struct BodyBuilder {
    pub expressions: Vec<ExpressionEntry>,
    pub wounds: Vec<WoundEntry>,
    pub rest: Vec<Spanned<Statement>>,
}

impl View for BodyBuilder {
    type V = BodyBuilding;

    open spec fn view(&self) -> BodyBuilding {
        BodyBuilding {
            expressions: self.expressions@,
            wounds: base::views(self.wounds@),
            rest: base::views(self.rest@),
        }
    }
}

impl BodyBuilder {
    fn step<E: LowerEnv>(&mut self, s: &Spanned<Statement>, eval: &Evaluator, env: &E)
        ensures
            final(self)@ == body_built(env::context(eval@, env), old(self)@, s@),
    {
        let ghost cx = env::context(eval@, env);
        proof {
            ast::lemma_statement_view(s.value);
        }
        let mut used = false;
        match &s.value {
            Statement::MethodCall(m) => {
                if is_method_call(&s.value, "Expressions", "Add") {
                    let a = &m.call.arguments;
                    match (
                        read_number(a, 0, eval, Ghost(cx)),
                        read_number(a, 1, eval, Ghost(cx)),
                    ) {
                        (Some(type_), Some(anim_index)) => {
                            self.expressions.push(ExpressionEntry { type_, anim_index });
                            used = true;
                        },
                        _ => {},
                    }
                } else if is_field_call(&s.value, "WoundMorphs") {
                    match read_wound(&m.call, eval, env) {
                        Some(w) => {
                            self.wounds.push(w);
                            used = true;
                        },
                        None => {},
                    }
                }
            },
            _ => {},
        }
        if !used {
            self.rest.push(clone_statement(s));
        }
    }
}

/// Builds the expressions and wounds of a creature, statement by statement.
pub fn build_body<E: LowerEnv>(
    expressions: Vec<ExpressionEntry>,
    wounds: Vec<WoundEntry>,
    body: &Vec<Spanned<Statement>>,
    eval: &Evaluator,
    env: &E,
) -> (r: BodyBuilder)
    ensures
        r@ == body_building(
            env::context(eval@, env),
            expressions@,
            base::views(wounds@),
            base::views(body@),
            body@.len() as int,
        ),
{
    let ghost cx = env::context(eval@, env);
    let ghost all = base::views(body@);
    let ghost first = expressions@;
    let ghost second = base::views(wounds@);
    let mut b = BodyBuilder { expressions, wounds, rest: Vec::new() };
    let mut k: usize = 0;
    while k < body.len()
        invariant
            k <= body@.len(),
            cx == env::context(eval@, env),
            all == base::views(body@),
            b@ == body_building(cx, first, second, all, k as int),
        decreases body@.len() - k,
    {
        assert(all[k as int] == body@[k as int]@);
        b.step(&body[k], eval, env);
        k = k + 1;
    }
    b
}

// ── Morphs of the hero ───────────────────────────────────────────────────────

/// A texture of the hero that morphs.
#[derive(Debug, Clone, Copy, PartialEq, Eq, Structural)]
pub struct HeroTexture {
    pub morph_type: i32,
    pub texture_layer: i32,
    pub replacing_texture_index: i32,
    pub bank_index: i32,
    pub blend: i32,
}

impl View for HeroTexture {
    type V = HeroTexture;

    open spec fn view(&self) -> HeroTexture {
        *self
    }
}

/// Particles of the hero that morph, as they are stored.
#[derive(Debug)]
pub struct HeroParticle {
    pub morph_type: i32,
    pub data: Vec<u8>,
}

/// What a [`HeroParticle`] holds.
pub struct ParticleView {
    pub morph_type: i32,
    pub data: Seq<u8>,
}

impl View for HeroParticle {
    type V = ParticleView;

    open spec fn view(&self) -> ParticleView {
        ParticleView { morph_type: self.morph_type, data: self.data@ }
    }
}

/// The numbers of particles: where they are, which they are, and between which
/// strengths. `b` is 1 where two kinds of particles blend: the arguments behind the
/// first kind stand one further.
pub open spec fn particle_words(cx: Context, a: Seq<Spanned<ExprView>>, b: int) -> Seq<u32> {
    seq![
        anim::number_arg(cx, a, 0) as u32,
        b as u32,
        anim::number_arg(cx, a, 4 + b) as u32,
        anim::offset_arg(cx, a, 5 + b) as u32,
        anim::number_arg(cx, a, 6 + b) as u32,
        anim::number_arg(cx, a, 1) as u32,
        if b == 1 {
            anim::number_arg(cx, a, 2) as u32
        } else {
            0u32
        },
        anim::single_arg(cx, a, 2 + b).bits,
        anim::single_arg(cx, a, 3 + b).bits,
    ]
}

/// The particles that a call adds.
pub open spec fn particle(cx: Context, call: CallView) -> Option<ParticleView> {
    let a = call.arguments;
    let morph_type = anim::number_arg(cx, a, 0);
    if call.name == "Add"@ {
        Some(ParticleView { morph_type, data: calls::word_bytes(particle_words(cx, a, 0)) })
    } else if call.name == "AddBlend"@ {
        Some(ParticleView { morph_type, data: calls::word_bytes(particle_words(cx, a, 1)) })
    } else {
        None
    }
}

/// What the statements built so far.
pub struct HeroBuilding {
    pub textures: Seq<HeroTexture>,
    pub particles: Seq<ParticleView>,
    pub idle_particles: Seq<ParticleView>,
    pub rest: Seq<Spanned<StatementView>>,
}

/// What one more statement builds.
pub open spec fn hero_built(cx: Context, b: HeroBuilding, s: Spanned<StatementView>) -> HeroBuilding {
    let other = HeroBuilding { rest: b.rest.push(s), ..b };
    match s.value {
        StatementView::MethodCall { call, .. } => {
            let a = call.arguments;
            if body::calls_method(s.value, "TextureMorphs"@, "Add"@) {
                HeroBuilding {
                    textures: b.textures.push(
                        HeroTexture {
                            morph_type: anim::number_arg(cx, a, 1),
                            texture_layer: anim::number_arg(cx, a, 0),
                            replacing_texture_index: anim::number_arg(cx, a, 2),
                            bank_index: anim::number_arg(cx, a, 3),
                            blend: anim::number_arg(cx, a, 4),
                        },
                    ),
                    ..b
                }
            } else if body::calls_field(s.value, "ParticleMorphs"@) {
                match particle(cx, call) {
                    Some(p) => HeroBuilding { particles: b.particles.push(p), ..b },
                    None => other,
                }
            } else if body::calls_field(s.value, "IdleParticleMorphs"@) {
                match particle(cx, call) {
                    Some(p) => HeroBuilding { idle_particles: b.idle_particles.push(p), ..b },
                    None => other,
                }
            } else {
                other
            }
        },
        _ => other,
    }
}

/// What the first `k` statements build on `start`.
pub open spec fn hero_building(
    cx: Context,
    start: HeroBuilding,
    body: Seq<Spanned<StatementView>>,
    k: int,
) -> HeroBuilding
    decreases k,
{
    if k <= 0 || k > body.len() {
        start
    } else {
        hero_built(cx, hero_building(cx, start, body, k - 1), body[k - 1])
    }
}

fn read_particle_data<E: LowerEnv>(
    a: &Vec<Spanned<Expr>>,
    blend: bool,
    eval: &Evaluator,
    env: &E,
) -> (r: Vec<u8>)
    ensures
        r@ == calls::word_bytes(
            particle_words(
                env::context(eval@, env),
                base::views(a@),
                if blend {
                    1
                } else {
                    0
                },
            ),
        ),
{
    let zero = Single { bits: 0 };
    let ghost cx = env::context(eval@, env);
    let ghost all = base::views(a@);
    let b: usize = if blend {
        1
    } else {
        0
    };
    let morph_type = eval.arg_i32_or(a, 0, 0);
    let location = eval.arg_i32_or(a, 4 + b, 0);
    let location_name = anim_arg_defstring(a, eval, env, 5 + b);
    let location_index = eval.arg_i32_or(a, 6 + b, 0);
    let first = eval.arg_i32_or(a, 1, 0);
    let second: u32 = if blend {
        eval.arg_i32_or(a, 2, 0) as u32
    } else {
        0
    };
    let from = eval.arg_single_or(a, 2 + b, zero);
    let to = eval.arg_single_or(a, 3 + b, zero);
    let ghost whole = particle_words(cx, all, b as int);
    assert(whole == seq![
        morph_type as u32,
        b as u32,
        location as u32,
        location_name as u32,
        location_index as u32,
        first as u32,
        second,
        from.bits,
        to.bits,
    ]);
    let mut w: Vec<u32> = Vec::new();
    w.push(morph_type as u32);
    w.push(b as u32);
    w.push(location as u32);
    w.push(location_name as u32);
    w.push(location_index as u32);
    w.push(first as u32);
    w.push(second);
    w.push(from.bits);
    w.push(to.bits);
    assert(w@ =~= whole);
    pack_words(&w)
}

fn read_particle<E: LowerEnv>(call: &Call, eval: &Evaluator, env: &E) -> (r: Option<HeroParticle>)
    ensures
        (match r {
            Some(p) => Some(p@),
            None => None,
        }) == particle(env::context(eval@, env), call@),
{
    let a = &call.arguments;
    let morph_type = eval.arg_i32_or(a, 0, 0);
    if same(call.name.as_str(), "Add") {
        Some(HeroParticle { morph_type, data: read_particle_data(a, false, eval, env) })
    } else if same(call.name.as_str(), "AddBlend") {
        Some(HeroParticle { morph_type, data: read_particle_data(a, true, eval, env) })
    } else {
        None
    }
}

/// The morphs of the hero.
pub struct HeroBuilder {
    pub textures: Vec<HeroTexture>,
    pub particles: Vec<HeroParticle>,
    pub idle_particles: Vec<HeroParticle>,
    pub rest: Vec<Spanned<Statement>>,
}

impl View for HeroBuilder {
    type V = HeroBuilding;

    open spec fn view(&self) -> HeroBuilding {
        HeroBuilding {
            textures: self.textures@,
            particles: base::views(self.particles@),
            idle_particles: base::views(self.idle_particles@),
            rest: base::views(self.rest@),
        }
    }
}

impl HeroBuilder {
    fn step<E: LowerEnv>(&mut self, s: &Spanned<Statement>, eval: &Evaluator, env: &E)
        ensures
            final(self)@ == hero_built(env::context(eval@, env), old(self)@, s@),
    {
        proof {
            ast::lemma_statement_view(s.value);
        }
        let mut used = false;
        match &s.value {
            Statement::MethodCall(m) => {
                let a = &m.call.arguments;
                if is_method_call(&s.value, "TextureMorphs", "Add") {
                    self.textures.push(
                        HeroTexture {
                            morph_type: eval.arg_i32_or(a, 1, 0),
                            texture_layer: eval.arg_i32_or(a, 0, 0),
                            replacing_texture_index: eval.arg_i32_or(a, 2, 0),
                            bank_index: eval.arg_i32_or(a, 3, 0),
                            blend: eval.arg_i32_or(a, 4, 0),
                        },
                    );
                    used = true;
                } else if is_field_call(&s.value, "ParticleMorphs") {
                    match read_particle(&m.call, eval, env) {
                        Some(p) => {
                            self.particles.push(p);
                            used = true;
                        },
                        None => {},
                    }
                } else if is_field_call(&s.value, "IdleParticleMorphs") {
                    match read_particle(&m.call, eval, env) {
                        Some(p) => {
                            self.idle_particles.push(p);
                            used = true;
                        },
                        None => {},
                    }
                }
            },
            _ => {},
        }
        if !used {
            self.rest.push(clone_statement(s));
        }
    }

    /// Builds the morphs of the hero, statement by statement.
    pub fn build<E: LowerEnv>(self, body: &Vec<Spanned<Statement>>, eval: &Evaluator, env: &E) -> (r:
        HeroBuilder)
        ensures
            r@ == hero_building(
                env::context(eval@, env),
                self@,
                base::views(body@),
                body@.len() as int,
            ),
    {
        let ghost cx = env::context(eval@, env);
        let ghost all = base::views(body@);
        let ghost start = self@;
        let mut b = self;
        let mut k: usize = 0;
        while k < body.len()
            invariant
                k <= body@.len(),
                cx == env::context(eval@, env),
                all == base::views(body@),
                b@ == hero_building(cx, start, all, k as int),
            decreases body@.len() - k,
        {
            assert(all[k as int] == body@[k as int]@);
            b.step(&body[k], eval, env);
            k = k + 1;
        }
        b
    }
}

} // verus!
