//! Definitions by their types: where a type asks for more than its fields, the rest
//! is built beside them.

use vstd::prelude::*;

use crate::eval::Evaluator;
use crate::lower::anim;
use crate::lower::anim::build_animation_anims;
use crate::lower::body;
use crate::lower::body::{filter_out_field, partition_field_calls, partition_method_calls};
use crate::lower::builders;
use crate::lower::builders::{
    add_sounds, build_body, ExpressionEntry, HeroBuilder, HeroBuilding, SoundCriterion, SoundRange,
    SoundsView,
};
use crate::lower::calls;
use crate::lower::calls::{
    collect, keep_firsts, set_types, DegradableInfo, FireEffect, ModifierGraphic, ReplaceableMesh,
    SpecialEffect,
};
use crate::lower::controls;
use crate::lower::controls::{lower_controls, ControlEnums};
use crate::lower::env;
use crate::lower::env::{Context, LowerEnv, LowerError, LowerErrorView};
use crate::lower::extra::{Extra, ExtraView};
use crate::lower::fields;
use crate::lower::fields::lower_generic;
use crate::lower::morph;
use crate::lower::morph::build_random_appearance_morph;
use crate::lower::opinions;
use crate::lower::opinions::{build_deed_effects, build_personality, build_reactions};
use crate::lower::patch;
use crate::lower::patch::{
    copy_member, make_set, member_byte, set_animation_defaults, sort_gui_maps, sort_reaction_maps,
};
use crate::lower::things;
use crate::lower::things::{build_thing_components, build_trails, WeaponTrail};
use crate::lower::ui;
use crate::lower::ui::{lower_front_end, lower_ui, lower_ui_misc_things};
use crate::order;
use crate::order::sort;
use crate::strings::same;
use crate::text::ast;
use crate::text::ast::{clone_statement, Statement, StatementView};
use crate::text::base;
use crate::text::base::Spanned;
use crate::text::symbols::SymbolTable;
use crate::value::{MemberView, Record};

verus! {

broadcast use base::group_views;

// ── Bodies ───────────────────────────────────────────────────────────────────

/// A lowered definition.
#[derive(Debug)]
pub struct DefBody {
    /// The structure that the definition is.
    pub kind: String,
    pub record: Record,
    pub extra: Extra,
}

/// What a [`DefBody`] holds.
pub struct BodyView {
    pub kind: Seq<char>,
    pub record: Seq<MemberView>,
    pub extra: ExtraView,
}

impl View for DefBody {
    type V = BodyView;

    open spec fn view(&self) -> BodyView {
        BodyView { kind: self.kind@, record: self.record@, extra: self.extra@ }
    }
}

impl Clone for DefBody {
    fn clone(&self) -> (r: Self)
        ensures
            r@ == self@,
    {
        DefBody {
            kind: self.kind.clone(),
            record: self.record.clone(),
            extra: self.extra.clone(),
        }
    }
}

/// A type of definition: its name in text, and what it is where nothing is set.
#[derive(Debug)]
pub struct DefType {
    pub name: String,
    pub default: DefBody,
}

/// What a [`DefType`] holds.
pub struct TypeView {
    pub name: Seq<char>,
    pub default: BodyView,
}

impl View for DefType {
    type V = TypeView;

    open spec fn view(&self) -> TypeView {
        TypeView { name: self.name@, default: self.default@ }
    }
}

/// The types of definitions.
#[derive(Debug)]
pub struct DefTypes {
    pub types: Vec<DefType>,
    pub controls: ControlEnums,
}

/// The default of the first type at or behind `k` whose structure is `kind`.
pub open spec fn default_of_kind(types: Seq<TypeView>, kind: Seq<char>, k: int) -> Option<BodyView>
    decreases types.len() - k,
{
    if k < 0 || k >= types.len() {
        None
    } else if types[k].default.kind == kind {
        Some(types[k].default)
    } else {
        default_of_kind(types, kind, k + 1)
    }
}

/// The default of the first type at or behind `k` called `name`.
pub open spec fn default_for_name(types: Seq<TypeView>, name: Seq<char>, k: int) -> Option<BodyView>
    decreases types.len() - k,
{
    if k < 0 || k >= types.len() {
        None
    } else if types[k].name == name {
        Some(types[k].default)
    } else {
        default_for_name(types, name, k + 1)
    }
}

/// The view of a body that may be missing.
pub open spec fn body_opt(b: Option<&DefBody>) -> Option<BodyView> {
    match b {
        Some(b) => Some(b@),
        None => None,
    }
}

impl DefTypes {
    fn of_kind(&self, kind: &str) -> (r: Option<&DefBody>)
        ensures
            body_opt(r) == default_of_kind(base::views(self.types@), kind@, 0),
    {
        let ghost all = base::views(self.types@);
        let n: usize = self.types.len();
        let mut k: usize = 0;
        while k < n
            invariant
                k <= n,
                n == self.types@.len(),
                all == base::views(self.types@),
                default_of_kind(all, kind@, 0) == default_of_kind(all, kind@, k as int),
            decreases n - k,
        {
            assert(all[k as int] == self.types@[k as int]@);
            if same(self.types[k].default.kind.as_str(), kind) {
                return Some(&self.types[k].default);
            }
            k = k + 1;
        }
        None
    }

    /// The default of the type called `name`.
    pub fn def_default_for_name(&self, name: &str) -> (r: Option<&DefBody>)
        ensures
            body_opt(r) == default_for_name(base::views(self.types@), name@, 0),
    {
        let ghost all = base::views(self.types@);
        let n: usize = self.types.len();
        let mut k: usize = 0;
        while k < n
            invariant
                k <= n,
                n == self.types@.len(),
                all == base::views(self.types@),
                default_for_name(all, name@, 0) == default_for_name(all, name@, k as int),
            decreases n - k,
        {
            assert(all[k as int] == self.types@[k as int]@);
            if same(self.types[k].name.as_str(), name) {
                return Some(&self.types[k].default);
            }
            k = k + 1;
        }
        None
    }
}

/// What a lowering gives: the definition, and the statements that set nothing.
pub open spec fn body_view(r: Result<(DefBody, Vec<Spanned<Statement>>), LowerError>) -> Result<
    (BodyView, Seq<Spanned<StatementView>>),
    LowerErrorView,
> {
    match r {
        Ok((b, rest)) => Ok((b@, base::views(rest@))),
        Err(e) => Err(e@),
    }
}

// ── Families ─────────────────────────────────────────────────────────────────

/// The ways in which definitions are lowered.
#[derive(Debug, Clone, Copy, PartialEq, Eq, Structural)]
pub enum Family {
    /// Its fields alone.
    Plain,
    /// Animations are built by calls.
    Animated,
    /// The list of cameras may be cleared.
    CameraManager,
    /// The weapons that are blocked are a set.
    BlockAbility,
    Creature,
    EntitySound,
    Flammable,
    HeroMorph,
    DeedEffects,
    Personality,
    ReactionManager,
    /// Binary reactions and opinions are derived behind the statements.
    OpinionSource,
    PlayerGui,
    SpecialEffects,
    /// Components are added and removed by calls.
    Thing,
    Weapon,
    WillResponse,
    Degradable,
    Meshes,
    Graphics,
    ControlScheme,
    Ui,
    UiMiscThings,
    FrontEnd,
    HeroExperience,
    Script,
}

/// The family of a type that has its own way, and the structure that it is.
pub open spec fn family(name: Seq<char>) -> Option<(Family, Seq<char>)> {
    if name == "CAnimatingObjectDef"@ {
        Some((Family::Animated, "AnimatingObjectDef"@))
    } else if name == "CAppearanceDef"@ {
        Some((Family::Animated, "AppearanceDef"@))
    } else if name == "CAMERA_MANAGER"@ {
        Some((Family::CameraManager, "CameraManagerDef"@))
    } else if name == "CCombatAbilityBlockHeavyWeaponAttackDef"@ {
        Some((Family::BlockAbility, "CombatAbilityBlockDefBase"@))
    } else if name == "CCombatAbilityBlockLightWeaponAttackDef"@ {
        Some((Family::BlockAbility, "CombatAbilityBlockDefBase"@))
    } else if name == "CCombatAbilityBlockProjectileWeaponAttackDef"@ {
        Some((Family::BlockAbility, "CombatAbilityBlockDefBase"@))
    } else if name == "CCombatAbilityBlockUnarmedAttackDef"@ {
        Some((Family::BlockAbility, "CombatAbilityBlockDefBase"@))
    } else if name == "CCreatureDef"@ {
        Some((Family::Creature, "CreatureDef"@))
    } else if name == "CEntitySoundDef"@ {
        Some((Family::EntitySound, "EntitySoundDef"@))
    } else if name == "CFlammableDef"@ {
        Some((Family::Flammable, "FlammableDef"@))
    } else if name == "CHeroMorphDef"@ {
        Some((Family::HeroMorph, "HeroMorphDef"@))
    } else if name == "CLookDef"@ {
        Some((Family::Plain, "LookDef"@))
    } else if name == "OPINION_DEED_EFFECTS"@ {
        Some((Family::DeedEffects, "OpinionDeedEffectsDef"@))
    } else if name == "OPINION_PERSONALITY"@ {
        Some((Family::Personality, "OpinionPersonalityDef"@))
    } else if name == "OPINION_REACTION_MANAGER"@ {
        Some((Family::ReactionManager, "OpinionReactionManagerDef"@))
    } else if name == "OPINION_SOURCE"@ {
        Some((Family::OpinionSource, "OpinionSourceDef"@))
    } else if name == "PLAYER_GUI"@ {
        Some((Family::PlayerGui, "PlayerGuiDef"@))
    } else if name == "CSpecialEffectsDef"@ {
        Some((Family::SpecialEffects, "SpecialEffectsDef"@))
    } else if name == "THING"@ {
        Some((Family::Thing, "ThingBaseDef"@))
    } else if name == "BUILDING"@ {
        Some((Family::Thing, "ThingBuildingDef"@))
    } else if name == "CREATURE"@ {
        Some((Family::Thing, "ThingCreatureDef"@))
    } else if name == "HOLY_SITE"@ {
        Some((Family::Thing, "ThingHolySiteDef"@))
    } else if name == "MARKER"@ {
        Some((Family::Thing, "ThingMarkerDef"@))
    } else if name == "NOISE"@ {
        Some((Family::Thing, "ThingNoiseDef"@))
    } else if name == "OBJECT"@ {
        Some((Family::Thing, "ThingObjectDef"@))
    } else if name == "PHYSICAL_SWITCH"@ {
        Some((Family::Thing, "ThingPhysicalSwitchDef"@))
    } else if name == "SWITCH"@ {
        Some((Family::Thing, "ThingSwitchDef"@))
    } else if name == "VILLAGE"@ {
        Some((Family::Thing, "ThingVillageDef"@))
    } else if name == "CWeaponDef"@ {
        Some((Family::Weapon, "WeaponDef"@))
    } else if name == "CWillResponseDef"@ {
        Some((Family::WillResponse, "WillResponseDef"@))
    } else if name == "CDegradableDef"@ {
        Some((Family::Degradable, "DegradableDef"@))
    } else if name == "CReplaceableMeshDef"@ {
        Some((Family::Meshes, "ReplaceableMeshDef"@))
    } else if name == "CAppearanceModifierDef"@ {
        Some((Family::Graphics, "AppearanceModifierDef"@))
    } else if name == "CONTROL_SCHEME"@ {
        Some((Family::ControlScheme, "ControlsDef"@))
    } else if name == "UI"@ {
        Some((Family::Ui, "UiDef"@))
    } else if name == "UI_MISC_THINGS_DEF"@ {
        Some((Family::UiMiscThings, "UiMiscThingsDef"@))
    } else if name == "FRONT_END"@ {
        Some((Family::FrontEnd, "FrontEndDef"@))
    } else if name == "CHeroExperienceDef"@ {
        Some((Family::HeroExperience, "HeroExperienceDef"@))
    } else if name == "CScriptDef"@ {
        Some((Family::Script, "ScriptDef"@))
    } else {
        None
    }
}

pub(crate) fn find_family(name: &str) -> (r: Option<(Family, &'static str)>)
    ensures
        (match r {
            Some((f, kind)) => Some((f, kind@)),
            None => None,
        }) == family(name@),
{
    if same(name, "CAnimatingObjectDef") {
        Some((Family::Animated, "AnimatingObjectDef"))
    } else if same(name, "CAppearanceDef") {
        Some((Family::Animated, "AppearanceDef"))
    } else if same(name, "CAMERA_MANAGER") {
        Some((Family::CameraManager, "CameraManagerDef"))
    } else if same(name, "CCombatAbilityBlockHeavyWeaponAttackDef") {
        Some((Family::BlockAbility, "CombatAbilityBlockDefBase"))
    } else if same(name, "CCombatAbilityBlockLightWeaponAttackDef") {
        Some((Family::BlockAbility, "CombatAbilityBlockDefBase"))
    } else if same(name, "CCombatAbilityBlockProjectileWeaponAttackDef") {
        Some((Family::BlockAbility, "CombatAbilityBlockDefBase"))
    } else if same(name, "CCombatAbilityBlockUnarmedAttackDef") {
        Some((Family::BlockAbility, "CombatAbilityBlockDefBase"))
    } else if same(name, "CCreatureDef") {
        Some((Family::Creature, "CreatureDef"))
    } else if same(name, "CEntitySoundDef") {
        Some((Family::EntitySound, "EntitySoundDef"))
    } else if same(name, "CFlammableDef") {
        Some((Family::Flammable, "FlammableDef"))
    } else if same(name, "CHeroMorphDef") {
        Some((Family::HeroMorph, "HeroMorphDef"))
    } else if same(name, "CLookDef") {
        Some((Family::Plain, "LookDef"))
    } else if same(name, "OPINION_DEED_EFFECTS") {
        Some((Family::DeedEffects, "OpinionDeedEffectsDef"))
    } else if same(name, "OPINION_PERSONALITY") {
        Some((Family::Personality, "OpinionPersonalityDef"))
    } else if same(name, "OPINION_REACTION_MANAGER") {
        Some((Family::ReactionManager, "OpinionReactionManagerDef"))
    } else if same(name, "OPINION_SOURCE") {
        Some((Family::OpinionSource, "OpinionSourceDef"))
    } else if same(name, "PLAYER_GUI") {
        Some((Family::PlayerGui, "PlayerGuiDef"))
    } else if same(name, "CSpecialEffectsDef") {
        Some((Family::SpecialEffects, "SpecialEffectsDef"))
    } else if same(name, "THING") {
        Some((Family::Thing, "ThingBaseDef"))
    } else if same(name, "BUILDING") {
        Some((Family::Thing, "ThingBuildingDef"))
    } else if same(name, "CREATURE") {
        Some((Family::Thing, "ThingCreatureDef"))
    } else if same(name, "HOLY_SITE") {
        Some((Family::Thing, "ThingHolySiteDef"))
    } else if same(name, "MARKER") {
        Some((Family::Thing, "ThingMarkerDef"))
    } else if same(name, "NOISE") {
        Some((Family::Thing, "ThingNoiseDef"))
    } else if same(name, "OBJECT") {
        Some((Family::Thing, "ThingObjectDef"))
    } else if same(name, "PHYSICAL_SWITCH") {
        Some((Family::Thing, "ThingPhysicalSwitchDef"))
    } else if same(name, "SWITCH") {
        Some((Family::Thing, "ThingSwitchDef"))
    } else if same(name, "VILLAGE") {
        Some((Family::Thing, "ThingVillageDef"))
    } else if same(name, "CWeaponDef") {
        Some((Family::Weapon, "WeaponDef"))
    } else if same(name, "CWillResponseDef") {
        Some((Family::WillResponse, "WillResponseDef"))
    } else if same(name, "CDegradableDef") {
        Some((Family::Degradable, "DegradableDef"))
    } else if same(name, "CReplaceableMeshDef") {
        Some((Family::Meshes, "ReplaceableMeshDef"))
    } else if same(name, "CAppearanceModifierDef") {
        Some((Family::Graphics, "AppearanceModifierDef"))
    } else if same(name, "CONTROL_SCHEME") {
        Some((Family::ControlScheme, "ControlsDef"))
    } else if same(name, "UI") {
        Some((Family::Ui, "UiDef"))
    } else if same(name, "UI_MISC_THINGS_DEF") {
        Some((Family::UiMiscThings, "UiMiscThingsDef"))
    } else if same(name, "FRONT_END") {
        Some((Family::FrontEnd, "FrontEndDef"))
    } else if same(name, "CHeroExperienceDef") {
        Some((Family::HeroExperience, "HeroExperienceDef"))
    } else if same(name, "CScriptDef") {
        Some((Family::Script, "ScriptDef"))
    } else {
        None
    }
}

// ── Fields and more ──────────────────────────────────────────────────────────

/// The definition with its fields set by the statements, and with the given lists.
pub open spec fn joined(
    start: BodyView,
    fields: Result<(Seq<MemberView>, Seq<Spanned<StatementView>>), LowerErrorView>,
    extra: ExtraView,
) -> Result<(BodyView, Seq<Spanned<StatementView>>), LowerErrorView> {
    match fields {
        Ok((record, rest)) => Ok((BodyView { kind: start.kind, record, extra }, rest)),
        Err(x) => Err(x),
    }
}

fn join(
    start: &DefBody,
    fields: Result<(Record, Vec<Spanned<Statement>>), LowerError>,
    extra: Extra,
) -> (r: Result<(DefBody, Vec<Spanned<Statement>>), LowerError>)
    ensures
        body_view(r) == joined(start@, fields::generic_view(fields), extra@),
{
    match fields {
        Ok((record, rest)) => Ok((DefBody { kind: start.kind.clone(), record, extra }, rest)),
        Err(e) => Err(e),
    }
}

/// The definition with nothing but its fields set.
pub open spec fn plain(cx: Context, start: BodyView, body: Seq<Spanned<StatementView>>) -> Result<
    (BodyView, Seq<Spanned<StatementView>>),
    LowerErrorView,
> {
    joined(start, fields::generic(cx, start.record, body), start.extra)
}

fn lower_plain<E: LowerEnv>(
    start: &DefBody,
    body: &Vec<Spanned<Statement>>,
    symbols: &SymbolTable,
    env: &E,
) -> (r: Result<(DefBody, Vec<Spanned<Statement>>), LowerError>)
    ensures
        body_view(r) == plain(env::context(symbols@, env), start@, base::views(body@)),
{
    join(start, lower_generic(&start.record, body, symbols, env), start.extra.clone())
}

/// A definition whose animations are built by calls.
pub open spec fn animated(cx: Context, start: BodyView, body: Seq<Spanned<StatementView>>) -> Result<
    (BodyView, Seq<Spanned<StatementView>>),
    LowerErrorView,
> {
    let b = anim::animations(cx, start.extra.animations(), body);
    match fields::generic(cx, start.record, b.rest) {
        Ok((record, rest)) => Ok(
            (
                BodyView {
                    kind: start.kind,
                    record: patch::with_animation_defaults(record, b.defaults),
                    extra: ExtraView::Animations(b.anims),
                },
                rest,
            ),
        ),
        Err(x) => Err(x),
    }
}

fn lower_animated<E: LowerEnv>(
    start: &DefBody,
    body: &Vec<Spanned<Statement>>,
    symbols: &SymbolTable,
    env: &E,
) -> (r: Result<(DefBody, Vec<Spanned<Statement>>), LowerError>)
    ensures
        body_view(r) == animated(env::context(symbols@, env), start@, base::views(body@)),
{
    let (anims, filtered, defaults) = build_animation_anims(
        start.extra.animations(),
        body,
        symbols,
        env,
    );
    match lower_generic(&start.record, &filtered, symbols, env) {
        Ok((record, rest)) => {
            let mut record = record;
            set_animation_defaults(&mut record.fields, defaults);
            Ok(
                (
                    DefBody { kind: start.kind.clone(), record, extra: Extra::Animations(anims) },
                    rest,
                ),
            )
        },
        Err(e) => Err(e),
    }
}

/// The statements that are no calls of `clear`.
pub open spec fn not_clearing() -> spec_fn(StatementView) -> bool {
    |s: StatementView|
        match s {
            StatementView::MethodCall { call, .. } => call.name != "clear"@,
            _ => true,
        }
}

fn filter_out_clears(body: &Vec<Spanned<Statement>>) -> (r: Vec<Spanned<Statement>>)
    ensures
        base::views(r@) == body::all_selected(base::views(body@), not_clearing()),
{
    let mut rest: Vec<Spanned<Statement>> = Vec::new();
    let mut i: usize = 0;
    let ghost all = base::views(body@);
    while i < body.len()
        invariant
            i <= body@.len(),
            all == base::views(body@),
            base::views(rest@) == body::selected(all, not_clearing(), i as int),
        decreases body@.len() - i,
    {
        proof {
            assert(all[i as int] == body@[i as int]@);
            ast::lemma_statement_view(body@[i as int].value);
        }
        let clears = match &body[i].value {
            Statement::MethodCall(m) => same(m.call.name.as_str(), "clear"),
            _ => false,
        };
        if !clears {
            rest.push(clone_statement(&body[i]));
        }
        i = i + 1;
    }
    rest
}

/// A creature: its appearance, expressions and wounds are built by calls.
pub open spec fn creature(cx: Context, start: BodyView, body: Seq<Spanned<StatementView>>) -> Result<
    (BodyView, Seq<Spanned<StatementView>>),
    LowerErrorView,
> {
    let (appearance, left) = morph::appearance(cx.symbols, start.extra.appearance(), body);
    let b = builders::body_building(
        cx,
        start.extra.expressions(),
        start.extra.wounds(),
        left,
        left.len() as int,
    );
    joined(
        start,
        fields::generic(cx, start.record, b.rest),
        ExtraView::Creature {
            appearance,
            expressions: order::in_order::<ExpressionEntry>(b.expressions),
            wounds: b.wounds,
        },
    )
}

fn lower_creature<E: LowerEnv>(
    start: &DefBody,
    body: &Vec<Spanned<Statement>>,
    symbols: &SymbolTable,
    env: &E,
) -> (r: Result<(DefBody, Vec<Spanned<Statement>>), LowerError>)
    ensures
        body_view(r) == creature(env::context(symbols@, env), start@, base::views(body@)),
{
    let eval = Evaluator::new(symbols);
    let (appearance, left) = build_random_appearance_morph(
        start.extra.appearance(),
        body,
        symbols,
    );
    let b = build_body(start.extra.expressions(), start.extra.wounds(), &left, &eval, env);
    assert(base::views(b.expressions@) =~= b.expressions@);
    let expressions = sort(b.expressions);
    assert(base::views(expressions@) =~= expressions@);
    join(
        start,
        lower_generic(&start.record, &b.rest, symbols, env),
        Extra::Creature { appearance, expressions, wounds: b.wounds },
    )
}

/// The sounds of an entity.
pub open spec fn entity_sound(
    cx: Context,
    start: BodyView,
    body: Seq<Spanned<StatementView>>,
) -> Result<(BodyView, Seq<Spanned<StatementView>>), LowerErrorView> {
    let calls = body::all_selected(body, body::field_calls("SoundMap"@));
    let left = body::all_selected(body, body::no_field_calls("SoundMap"@));
    let s = builders::sounds_added(
        cx,
        SoundsView { ranges: start.extra.ranges(), criteria: start.extra.criteria() },
        calls,
        calls.len() as int,
    );
    joined(
        start,
        fields::generic(cx, start.record, left),
        ExtraView::Sounds {
            ranges: order::in_order::<SoundRange>(s.ranges),
            criteria: order::in_order::<SoundCriterion>(s.criteria),
        },
    )
}

fn lower_entity_sound<E: LowerEnv>(
    start: &DefBody,
    body: &Vec<Spanned<Statement>>,
    symbols: &SymbolTable,
    env: &E,
) -> (r: Result<(DefBody, Vec<Spanned<Statement>>), LowerError>)
    ensures
        body_view(r) == entity_sound(env::context(symbols@, env), start@, base::views(body@)),
{
    let eval = Evaluator::new(symbols);
    let (calls, left) = partition_field_calls(body, "SoundMap");
    let mut ranges = start.extra.ranges();
    let mut criteria = start.extra.criteria();
    assert(base::views(calls@).len() == calls@.len());
    add_sounds(&mut ranges, &mut criteria, &calls, &eval, env);
    assert(base::views(ranges@) =~= ranges@);
    assert(base::views(criteria@) =~= criteria@);
    let ranges = sort(ranges);
    let criteria = sort(criteria);
    assert(base::views(ranges@) =~= ranges@);
    assert(base::views(criteria@) =~= criteria@);
    join(
        start,
        lower_generic(&start.record, &left, symbols, env),
        Extra::Sounds { ranges, criteria },
    )
}

/// The entries that the calls `field.Add(…)` add.
pub open spec fn additions<T: calls::Added>(
    cx: Context,
    entries: Seq<T::V>,
    body: Seq<Spanned<StatementView>>,
    field: Seq<char>,
) -> Seq<T::V> {
    let found = body::all_selected(body, body::method_calls(field, "Add"@));
    calls::collected::<T>(cx, entries, found, found.len() as int)
}

/// The statements that are no calls `field.Add(…)`.
pub open spec fn no_additions(body: Seq<Spanned<StatementView>>, field: Seq<char>) -> Seq<
    Spanned<StatementView>,
> {
    body::all_selected(body, body::no_method_calls(field, "Add"@))
}

fn take_additions<T: calls::Added, E: LowerEnv>(
    entries: Vec<T>,
    body: &Vec<Spanned<Statement>>,
    field: &str,
    symbols: &SymbolTable,
    env: &E,
) -> (r: (Vec<T>, Vec<Spanned<Statement>>))
    ensures
        base::views(r.0@) == additions::<T>(
            env::context(symbols@, env),
            base::views(entries@),
            base::views(body@),
            field@,
        ),
        base::views(r.1@) == no_additions(base::views(body@), field@),
{
    let eval = Evaluator::new(symbols);
    let (found, left) = partition_method_calls(body, field, "Add");
    assert(base::views(found@).len() == found@.len());
    (collect(entries, &found, &eval, env), left)
}

/// Something that burns, with the effects that it creates.
pub open spec fn flammable(cx: Context, start: BodyView, body: Seq<Spanned<StatementView>>) -> Result<
    (BodyView, Seq<Spanned<StatementView>>),
    LowerErrorView,
> {
    let effects = additions::<FireEffect>(
        cx,
        start.extra.fire(),
        body,
        "EffectCreationSet"@,
    );
    joined(
        start,
        fields::generic(cx, start.record, no_additions(body, "EffectCreationSet"@)),
        ExtraView::Fire(order::in_order::<FireEffect>(effects)),
    )
}

fn lower_flammable<E: LowerEnv>(
    start: &DefBody,
    body: &Vec<Spanned<Statement>>,
    symbols: &SymbolTable,
    env: &E,
) -> (r: Result<(DefBody, Vec<Spanned<Statement>>), LowerError>)
    ensures
        body_view(r) == flammable(env::context(symbols@, env), start@, base::views(body@)),
{
    let effects = start.extra.fire();
    assert(base::views(effects@) =~= effects@);
    let (effects, left) = take_additions(effects, body, "EffectCreationSet", symbols, env);
    let effects = sort(effects);
    assert(base::views(effects@) =~= effects@);
    join(start, lower_generic(&start.record, &left, symbols, env), Extra::Fire(effects))
}

/// The morphs of the hero.
pub open spec fn hero_morph(cx: Context, start: BodyView, body: Seq<Spanned<StatementView>>) -> Result<
    (BodyView, Seq<Spanned<StatementView>>),
    LowerErrorView,
> {
    let b = builders::hero_building(
        cx,
        HeroBuilding {
            textures: start.extra.textures(),
            particles: start.extra.particles(),
            idle_particles: start.extra.idle_particles(),
            rest: Seq::empty(),
        },
        body,
        body.len() as int,
    );
    joined(
        start,
        fields::generic(cx, start.record, b.rest),
        ExtraView::HeroMorphs {
            textures: b.textures,
            particles: b.particles,
            idle_particles: b.idle_particles,
        },
    )
}

fn lower_hero_morph<E: LowerEnv>(
    start: &DefBody,
    body: &Vec<Spanned<Statement>>,
    symbols: &SymbolTable,
    env: &E,
) -> (r: Result<(DefBody, Vec<Spanned<Statement>>), LowerError>)
    ensures
        body_view(r) == hero_morph(env::context(symbols@, env), start@, base::views(body@)),
{
    let eval = Evaluator::new(symbols);
    let b = HeroBuilder {
        textures: start.extra.textures(),
        particles: start.extra.particles(),
        idle_particles: start.extra.idle_particles(),
        rest: Vec::new(),
    };
    let b = b.build(body, &eval, env);
    join(
        start,
        lower_generic(&start.record, &b.rest, symbols, env),
        Extra::HeroMorphs {
            textures: b.textures,
            particles: b.particles,
            idle_particles: b.idle_particles,
        },
    )
}

/// How deeds change opinions.
pub open spec fn deed_effects(
    cx: Context,
    start: BodyView,
    body: Seq<Spanned<StatementView>>,
) -> Result<(BodyView, Seq<Spanned<StatementView>>), LowerErrorView> {
    match opinions::deed_effects(cx, start.extra.deeds(), body, body.len() as int) {
        Ok((deeds, left)) => joined(
            start,
            fields::generic(cx, start.record, left),
            ExtraView::Deeds(deeds),
        ),
        Err(x) => Err(x),
    }
}

fn lower_deed_effects<E: LowerEnv>(
    start: &DefBody,
    body: &Vec<Spanned<Statement>>,
    symbols: &SymbolTable,
    env: &E,
) -> (r: Result<(DefBody, Vec<Spanned<Statement>>), LowerError>)
    ensures
        body_view(r) == deed_effects(env::context(symbols@, env), start@, base::views(body@)),
{
    let eval = Evaluator::new(symbols);
    let ghost cx = env::context(symbols@, env);
    match build_deed_effects(start.extra.deeds(), body, &eval, Ghost(cx)) {
        Ok((deeds, left)) => join(
            start,
            lower_generic(&start.record, &left, symbols, env),
            Extra::Deeds(deeds),
        ),
        Err(e) => Err(e),
    }
}

/// A personality.
pub open spec fn personality(
    cx: Context,
    start: BodyView,
    body: Seq<Spanned<StatementView>>,
) -> Result<(BodyView, Seq<Spanned<StatementView>>), LowerErrorView> {
    let (traits, left) = opinions::personality(
        cx,
        start.extra.traits(),
        body,
        body.len() as int,
    );
    joined(start, fields::generic(cx, start.record, left), ExtraView::Traits(traits))
}

fn lower_personality<E: LowerEnv>(
    start: &DefBody,
    body: &Vec<Spanned<Statement>>,
    symbols: &SymbolTable,
    env: &E,
) -> (r: Result<(DefBody, Vec<Spanned<Statement>>), LowerError>)
    ensures
        body_view(r) == personality(env::context(symbols@, env), start@, base::views(body@)),
{
    let eval = Evaluator::new(symbols);
    let ghost cx = env::context(symbols@, env);
    let (traits, left) = build_personality(start.extra.traits(), body, &eval, Ghost(cx));
    join(start, lower_generic(&start.record, &left, symbols, env), Extra::Traits(traits))
}

/// The fields, changed by `f`.
pub open spec fn patched(
    fields: Result<(Seq<MemberView>, Seq<Spanned<StatementView>>), LowerErrorView>,
    f: spec_fn(Seq<MemberView>) -> Seq<MemberView>,
) -> Result<(Seq<MemberView>, Seq<Spanned<StatementView>>), LowerErrorView> {
    match fields {
        Ok((v, rest)) => Ok((f(v), rest)),
        Err(x) => Err(x),
    }
}

/// The reactions of the one who manages them.
pub open spec fn reaction_manager(
    cx: Context,
    start: BodyView,
    body: Seq<Spanned<StatementView>>,
) -> Result<(BodyView, Seq<Spanned<StatementView>>), LowerErrorView> {
    let b = opinions::reaction_building(cx, body, body.len() as int);
    joined(
        start,
        patched(
            fields::generic(cx, start.record, b.rest),
            |v: Seq<MemberView>| patch::with_reaction_order(v),
        ),
        ExtraView::Reactions { matches: b.matches, frequencies: b.frequencies },
    )
}

fn lower_reaction_manager<E: LowerEnv>(
    start: &DefBody,
    body: &Vec<Spanned<Statement>>,
    symbols: &SymbolTable,
    env: &E,
) -> (r: Result<(DefBody, Vec<Spanned<Statement>>), LowerError>)
    ensures
        body_view(r) == reaction_manager(env::context(symbols@, env), start@, base::views(body@)),
{
    let eval = Evaluator::new(symbols);
    let ghost cx = env::context(symbols@, env);
    let b = build_reactions(body, &eval, Ghost(cx));
    match lower_generic(&start.record, &b.rest, symbols, env) {
        Ok((record, rest)) => {
            let mut record = record;
            sort_reaction_maps(&mut record.fields);
            join(
                start,
                Ok((record, rest)),
                Extra::Reactions { matches: b.matches, frequencies: b.frequencies },
            )
        },
        Err(e) => Err(e),
    }
}

/// A source of opinions: behind the statements its binary reactions are derived from its
/// fields, and then its binary opinions.
pub open spec fn opinion_source(
    cx: Context,
    start: BodyView,
    body: Seq<Spanned<StatementView>>,
) -> Result<(BodyView, Seq<Spanned<StatementView>>), LowerErrorView> {
    joined(
        start,
        patched(
            fields::generic(cx, start.record, body),
            |v: Seq<MemberView>| (cx.opinions)((cx.reactions)(v)),
        ),
        start.extra,
    )
}

fn lower_opinion_source<E: LowerEnv>(
    start: &DefBody,
    body: &Vec<Spanned<Statement>>,
    symbols: &SymbolTable,
    env: &E,
) -> (r: Result<(DefBody, Vec<Spanned<Statement>>), LowerError>)
    ensures
        body_view(r) == opinion_source(env::context(symbols@, env), start@, base::views(body@)),
{
    match lower_generic(&start.record, body, symbols, env) {
        Ok((record, rest)) => {
            let record = env.derive_binary_reactions(record);
            let record = env.derive_binary_opinions(record);
            join(start, Ok((record, rest)), start.extra.clone())
        },
        Err(e) => Err(e),
    }
}

/// The special effects, each key once, in ascending order of key.
pub open spec fn special_effects(
    cx: Context,
    start: BodyView,
    body: Seq<Spanned<StatementView>>,
) -> Result<(BodyView, Seq<Spanned<StatementView>>), LowerErrorView> {
    let all = additions::<SpecialEffect>(cx, start.extra.effects(), body, "SpecialEffects"@);
    joined(
        start,
        fields::generic(cx, start.record, no_additions(body, "SpecialEffects"@)),
        ExtraView::Effects(
            order::in_order::<SpecialEffect>(calls::firsts(all, all.len() as int)),
        ),
    )
}

fn lower_special_effects<E: LowerEnv>(
    start: &DefBody,
    body: &Vec<Spanned<Statement>>,
    symbols: &SymbolTable,
    env: &E,
) -> (r: Result<(DefBody, Vec<Spanned<Statement>>), LowerError>)
    ensures
        body_view(r) == special_effects(env::context(symbols@, env), start@, base::views(body@)),
{
    let effects = start.extra.effects();
    assert(base::views(effects@) =~= effects@);
    let (effects, left) = take_additions(effects, body, "SpecialEffects", symbols, env);
    assert(base::views(effects@) =~= effects@);
    let effects = keep_firsts(&effects);
    assert(base::views(effects@) =~= effects@);
    let effects = sort(effects);
    assert(base::views(effects@) =~= effects@);
    join(start, lower_generic(&start.record, &left, symbols, env), Extra::Effects(effects))
}

/// A thing with its components.
pub open spec fn thing(cx: Context, start: BodyView, body: Seq<Spanned<StatementView>>) -> Result<
    (BodyView, Seq<Spanned<StatementView>>),
    LowerErrorView,
> {
    joined(
        start,
        fields::generic(cx, start.record, body),
        ExtraView::Components(things::thing_components(cx, body)),
    )
}

fn lower_thing<E: LowerEnv>(
    start: &DefBody,
    body: &Vec<Spanned<Statement>>,
    symbols: &SymbolTable,
    env: &E,
) -> (r: Result<(DefBody, Vec<Spanned<Statement>>), LowerError>)
    ensures
        body_view(r) == thing(env::context(symbols@, env), start@, base::views(body@)),
{
    let eval = Evaluator::new(symbols);
    let fields = lower_generic(&start.record, body, symbols, env);
    let components = build_thing_components(body, &eval, env);
    join(start, fields, Extra::Components(components))
}

/// A weapon with its trails.
pub open spec fn weapon(cx: Context, start: BodyView, body: Seq<Spanned<StatementView>>) -> Result<
    (BodyView, Seq<Spanned<StatementView>>),
    LowerErrorView,
> {
    let (trails, left) = things::trails(cx, start.extra.trails(), body, body.len() as int);
    joined(
        start,
        fields::generic(cx, start.record, left),
        ExtraView::Trails(order::in_order::<WeaponTrail>(trails)),
    )
}

fn lower_weapon<E: LowerEnv>(
    start: &DefBody,
    body: &Vec<Spanned<Statement>>,
    symbols: &SymbolTable,
    env: &E,
) -> (r: Result<(DefBody, Vec<Spanned<Statement>>), LowerError>)
    ensures
        body_view(r) == weapon(env::context(symbols@, env), start@, base::views(body@)),
{
    let eval = Evaluator::new(symbols);
    let ghost cx = env::context(symbols@, env);
    let (trails, left) = build_trails(start.extra.trails(), body, &eval, Ghost(cx));
    assert(base::views(trails@) =~= trails@);
    let trails = sort(trails);
    assert(base::views(trails@) =~= trails@);
    join(start, lower_generic(&start.record, &left, symbols, env), Extra::Trails(trails))
}

/// Something that degrades: every stage has the type of graphic of the whole.
pub open spec fn degradable(cx: Context, start: BodyView, body: Seq<Spanned<StatementView>>) -> Result<
    (BodyView, Seq<Spanned<StatementView>>),
    LowerErrorView,
> {
    let stages = additions::<DegradableInfo>(
        cx,
        start.extra.degradations(),
        body,
        "Degradations"@,
    );
    match fields::generic(cx, start.record, no_additions(body, "Degradations"@)) {
        Ok((record, rest)) => Ok(
            (
                BodyView {
                    kind: start.kind,
                    record,
                    extra: ExtraView::Degradations(
                        calls::typed(stages, patch::byte_of(record, "GraphicType"@)),
                    ),
                },
                rest,
            ),
        ),
        Err(x) => Err(x),
    }
}

fn lower_degradable<E: LowerEnv>(
    start: &DefBody,
    body: &Vec<Spanned<Statement>>,
    symbols: &SymbolTable,
    env: &E,
) -> (r: Result<(DefBody, Vec<Spanned<Statement>>), LowerError>)
    ensures
        body_view(r) == degradable(env::context(symbols@, env), start@, base::views(body@)),
{
    let stages = start.extra.degradations();
    assert(base::views(stages@) =~= stages@);
    let (stages, left) = take_additions(stages, body, "Degradations", symbols, env);
    assert(base::views(stages@) =~= stages@);
    match lower_generic(&start.record, &left, symbols, env) {
        Ok((record, rest)) => {
            let mut stages = stages;
            set_types(&mut stages, member_byte(&record.fields, "GraphicType"));
            Ok(
                (
                    DefBody {
                        kind: start.kind.clone(),
                        record,
                        extra: Extra::Degradations(stages),
                    },
                    rest,
                ),
            )
        },
        Err(e) => Err(e),
    }
}

/// Meshes that can be replaced.
pub open spec fn meshes(cx: Context, start: BodyView, body: Seq<Spanned<StatementView>>) -> Result<
    (BodyView, Seq<Spanned<StatementView>>),
    LowerErrorView,
> {
    joined(
        start,
        fields::generic(cx, start.record, no_additions(body, "Meshes"@)),
        ExtraView::Meshes(
            additions::<ReplaceableMesh>(cx, start.extra.meshes(), body, "Meshes"@),
        ),
    )
}

fn lower_meshes<E: LowerEnv>(
    start: &DefBody,
    body: &Vec<Spanned<Statement>>,
    symbols: &SymbolTable,
    env: &E,
) -> (r: Result<(DefBody, Vec<Spanned<Statement>>), LowerError>)
    ensures
        body_view(r) == meshes(env::context(symbols@, env), start@, base::views(body@)),
{
    let meshes = start.extra.meshes();
    assert(base::views(meshes@) =~= meshes@);
    let (meshes, left) = take_additions(meshes, body, "Meshes", symbols, env);
    assert(base::views(meshes@) =~= meshes@);
    join(start, lower_generic(&start.record, &left, symbols, env), Extra::Meshes(meshes))
}

/// The graphics of a modifier.
pub open spec fn graphics(cx: Context, start: BodyView, body: Seq<Spanned<StatementView>>) -> Result<
    (BodyView, Seq<Spanned<StatementView>>),
    LowerErrorView,
> {
    joined(
        start,
        fields::generic(cx, start.record, no_additions(body, "Graphics"@)),
        ExtraView::Graphics(
            additions::<ModifierGraphic>(cx, start.extra.graphics(), body, "Graphics"@),
        ),
    )
}

fn lower_graphics<E: LowerEnv>(
    start: &DefBody,
    body: &Vec<Spanned<Statement>>,
    symbols: &SymbolTable,
    env: &E,
) -> (r: Result<(DefBody, Vec<Spanned<Statement>>), LowerError>)
    ensures
        body_view(r) == graphics(env::context(symbols@, env), start@, base::views(body@)),
{
    let (graphics, left) = take_additions(start.extra.graphics(), body, "Graphics", symbols, env);
    join(start, lower_generic(&start.record, &left, symbols, env), Extra::Graphics(graphics))
}

/// A change to the fields behind the statements.
pub open spec fn patch_of(f: Family) -> spec_fn(Seq<MemberView>) -> Seq<MemberView> {
    |v: Seq<MemberView>|
        match f {
            Family::BlockAbility => patch::with_set(v, "ValidBlockWeaponTypes"@),
            Family::PlayerGui => patch::with_gui_order(v),
            Family::HeroExperience => patch::with_copy(
                v,
                "StatIncreasePerHitType"@,
                "StatIncreasePerHitType2"@,
            ),
            Family::Script => patch::with_copy(
                v,
                "TemplePrayerFactorHighest2"@,
                "TemplePrayerFactorHighest"@,
            ),
            _ => v,
        }
}

fn lower_patched<E: LowerEnv>(
    f: Family,
    start: &DefBody,
    body: &Vec<Spanned<Statement>>,
    symbols: &SymbolTable,
    env: &E,
) -> (r: Result<(DefBody, Vec<Spanned<Statement>>), LowerError>)
    ensures
        body_view(r) == joined(
            start@,
            patched(
                fields::generic(env::context(symbols@, env), start@.record, base::views(body@)),
                patch_of(f),
            ),
            start@.extra,
        ),
{
    match lower_generic(&start.record, body, symbols, env) {
        Ok((record, rest)) => {
            let mut record = record;
            match f {
                Family::BlockAbility => make_set(&mut record.fields, "ValidBlockWeaponTypes"),
                Family::PlayerGui => sort_gui_maps(&mut record.fields),
                Family::HeroExperience => copy_member(
                    &mut record.fields,
                    "StatIncreasePerHitType",
                    "StatIncreasePerHitType2",
                ),
                Family::Script => copy_member(
                    &mut record.fields,
                    "TemplePrayerFactorHighest2",
                    "TemplePrayerFactorHighest",
                ),
                _ => {},
            }
            join(start, Ok((record, rest)), start.extra.clone())
        },
        Err(e) => Err(e),
    }
}

/// A definition whose fields a table sets; every statement sets one.
pub open spec fn all_used(
    start: BodyView,
    fields: Result<Seq<MemberView>, LowerErrorView>,
) -> Result<(BodyView, Seq<Spanned<StatementView>>), LowerErrorView> {
    match fields {
        Ok(record) => Ok((BodyView { record, ..start }, Seq::empty())),
        Err(x) => Err(x),
    }
}

fn use_all(start: &DefBody, fields: Result<Record, LowerError>) -> (r: Result<
    (DefBody, Vec<Spanned<Statement>>),
    LowerError,
>)
    ensures
        body_view(r) == all_used(start@, ui::record_view(fields)),
{
    match fields {
        Ok(record) => Ok(
            (
                DefBody { kind: start.kind.clone(), record, extra: start.extra.clone() },
                Vec::new(),
            ),
        ),
        Err(e) => Err(e),
    }
}

/// A control scheme; every statement sets something.
pub open spec fn control_scheme(
    enums: ControlEnums,
    cx: Context,
    start: BodyView,
    body: Seq<Spanned<StatementView>>,
) -> Result<(BodyView, Seq<Spanned<StatementView>>), LowerErrorView> {
    match controls::controls_lowered(enums, cx.symbols, start.extra.controls(), body) {
        Ok(c) => Ok((BodyView { extra: ExtraView::Controls(c), ..start }, Seq::empty())),
        Err(x) => Err(x),
    }
}

fn lower_control_scheme(
    enums: &ControlEnums,
    start: &DefBody,
    body: &Vec<Spanned<Statement>>,
    symbols: &SymbolTable,
    cx: Ghost<Context>,
) -> (r: Result<(DefBody, Vec<Spanned<Statement>>), LowerError>)
    requires
        cx@.symbols == symbols@,
    ensures
        body_view(r) == control_scheme(*enums, cx@, start@, base::views(body@)),
{
    let base = start.extra.controls();
    match lower_controls(&base, body, symbols, enums) {
        Ok(c) => Ok(
            (
                DefBody {
                    kind: start.kind.clone(),
                    record: start.record.clone(),
                    extra: Extra::Controls(c),
                },
                Vec::new(),
            ),
        ),
        Err(e) => Err(e),
    }
}

// ── Definitions ──────────────────────────────────────────────────────────────

/// What the statements of a definition of a family give.
pub open spec fn lowered_in(
    f: Family,
    enums: ControlEnums,
    cx: Context,
    start: BodyView,
    body: Seq<Spanned<StatementView>>,
) -> Result<(BodyView, Seq<Spanned<StatementView>>), LowerErrorView> {
    match f {
        Family::Plain => plain(cx, start, body),
        Family::Animated => animated(cx, start, body),
        Family::CameraManager => plain(cx, start, body::all_selected(body, not_clearing())),
        Family::Creature => creature(cx, start, body),
        Family::EntitySound => entity_sound(cx, start, body),
        Family::Flammable => flammable(cx, start, body),
        Family::HeroMorph => hero_morph(cx, start, body),
        Family::DeedEffects => deed_effects(cx, start, body),
        Family::Personality => personality(cx, start, body),
        Family::ReactionManager => reaction_manager(cx, start, body),
        Family::OpinionSource => opinion_source(cx, start, body),
        Family::SpecialEffects => special_effects(cx, start, body),
        Family::Thing => thing(cx, start, body),
        Family::Weapon => weapon(cx, start, body),
        Family::WillResponse => plain(
            cx,
            start,
            body::all_selected(body, body::not_about("ForceLightningable"@)),
        ),
        Family::Degradable => degradable(cx, start, body),
        Family::Meshes => meshes(cx, start, body),
        Family::Graphics => graphics(cx, start, body),
        Family::ControlScheme => control_scheme(enums, cx, start, body),
        Family::Ui => all_used(start, ui::ui_lowered(cx, start.record, body)),
        Family::UiMiscThings => all_used(
            start,
            ui::tabled(cx, ui::misc_fields(), start.record, body),
        ),
        Family::FrontEnd => all_used(
            start,
            ui::tabled(cx, ui::front_end_fields(), start.record, body),
        ),
        Family::BlockAbility
        | Family::PlayerGui
        | Family::HeroExperience
        | Family::Script => joined(
            start,
            patched(fields::generic(cx, start.record, body), patch_of(f)),
            start.extra,
        ),
    }
}

fn lower_in<E: LowerEnv>(
    f: Family,
    enums: &ControlEnums,
    start: &DefBody,
    body: &Vec<Spanned<Statement>>,
    symbols: &SymbolTable,
    env: &E,
) -> (r: Result<(DefBody, Vec<Spanned<Statement>>), LowerError>)
    requires
        f == Family::Ui ==> env.offset_of("ENG_ARIAL_16"@) is Some,
    ensures
        body_view(r) == lowered_in(
            f,
            *enums,
            env::context(symbols@, env),
            start@,
            base::views(body@),
        ),
{
    let ghost cx = env::context(symbols@, env);
    match f {
        Family::Plain => lower_plain(start, body, symbols, env),
        Family::Animated => lower_animated(start, body, symbols, env),
        Family::CameraManager => {
            let filtered = filter_out_clears(body);
            lower_plain(start, &filtered, symbols, env)
        },
        Family::Creature => lower_creature(start, body, symbols, env),
        Family::EntitySound => lower_entity_sound(start, body, symbols, env),
        Family::Flammable => lower_flammable(start, body, symbols, env),
        Family::HeroMorph => lower_hero_morph(start, body, symbols, env),
        Family::DeedEffects => lower_deed_effects(start, body, symbols, env),
        Family::Personality => lower_personality(start, body, symbols, env),
        Family::ReactionManager => lower_reaction_manager(start, body, symbols, env),
        Family::OpinionSource => lower_opinion_source(start, body, symbols, env),
        Family::SpecialEffects => lower_special_effects(start, body, symbols, env),
        Family::Thing => lower_thing(start, body, symbols, env),
        Family::Weapon => lower_weapon(start, body, symbols, env),
        Family::WillResponse => {
            let filtered = filter_out_field(body, "ForceLightningable");
            lower_plain(start, &filtered, symbols, env)
        },
        Family::Degradable => lower_degradable(start, body, symbols, env),
        Family::Meshes => lower_meshes(start, body, symbols, env),
        Family::Graphics => lower_graphics(start, body, symbols, env),
        Family::ControlScheme => lower_control_scheme(enums, start, body, symbols, Ghost(cx)),
        Family::Ui => use_all(start, lower_ui(&start.record, body, symbols, env)),
        Family::UiMiscThings => use_all(
            start,
            lower_ui_misc_things(&start.record, body, symbols, env),
        ),
        Family::FrontEnd => use_all(start, lower_front_end(&start.record, body, symbols, env)),
        Family::BlockAbility
        | Family::PlayerGui
        | Family::HeroExperience
        | Family::Script => lower_patched(f, start, body, symbols, env),
    }
}

/// What a definition is before its statements: `base` where it is of the kind, else
/// the default of the kind.
pub open spec fn start_of(
    types: Seq<TypeView>,
    kind: Seq<char>,
    base: Option<BodyView>,
) -> Option<BodyView> {
    match base {
        Some(b) => if b.kind == kind {
            Some(b)
        } else {
            default_of_kind(types, kind, 0)
        },
        None => default_of_kind(types, kind, 0),
    }
}

/// What the statements of a definition of the type `name` give on `base`.
pub open spec fn lowered_def(
    types: Seq<TypeView>,
    enums: ControlEnums,
    cx: Context,
    name: Seq<char>,
    base: Option<BodyView>,
    body: Seq<Spanned<StatementView>>,
) -> Result<(BodyView, Seq<Spanned<StatementView>>), LowerErrorView> {
    match family(name) {
        Some((f, kind)) => match start_of(types, kind, base) {
            Some(start) => lowered_in(f, enums, cx, start, body),
            None => Err(LowerErrorView::Unsupported(name)),
        },
        None => {
            let start = match base {
                Some(b) => Some(b),
                None => default_for_name(types, name, 0),
            };
            match start {
                Some(start) => plain(cx, start, body),
                None => Err(LowerErrorView::Unsupported(name)),
            }
        },
    }
}

/// Lowers a definition of the type `name` onto `base`; where there is no base of the
/// type, onto the default of the type. Gives back the definition, and the statements
/// that set nothing. For an element of the user interface the default font must have
/// an offset.
pub fn lower_def<E: LowerEnv>(
    types: &DefTypes,
    name: &str,
    base: Option<&DefBody>,
    body: &Vec<Spanned<Statement>>,
    symbols: &SymbolTable,
    env: &E,
) -> (r: Result<(DefBody, Vec<Spanned<Statement>>), LowerError>)
    requires
        name@ == "UI"@ ==> env.offset_of("ENG_ARIAL_16"@) is Some,
    ensures
        body_view(r) == lowered_def(
            base::views(types.types@),
            types.controls,
            env::context(symbols@, env),
            name@,
            body_opt(base),
            base::views(body@),
        ),
{
    match find_family(name) {
        Some((f, kind)) => {
            let start = match base {
                Some(b) => if same(b.kind.as_str(), kind) {
                    Some(b)
                } else {
                    types.of_kind(kind)
                },
                None => types.of_kind(kind),
            };
            match start {
                Some(start) => lower_in(f, &types.controls, start, body, symbols, env),
                None => Err(LowerError::Unsupported(name.to_owned())),
            }
        },
        None => {
            let start = match base {
                Some(b) => Some(b),
                None => types.def_default_for_name(name),
            };
            match start {
                Some(start) => lower_plain(start, body, symbols, env),
                None => Err(LowerError::Unsupported(name.to_owned())),
            }
        },
    }
}

} // verus!
