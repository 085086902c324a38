//! The classes of definitions.

use vstd::prelude::*;

use super::members;
use super::orders;
use crate::lower::anim;
use crate::lower::body;
use crate::lower::builders::{SoundCriterion, SoundRange, SoundsView};
use crate::lower::builders;
use crate::lower::calls as added;
use crate::lower::calls::{DegradableInfo, FireEffect, ModifierGraphic, ReplaceableMesh, SpecialEffect};
use crate::lower::controls;
use crate::lower::controls::ControlEnums;
use crate::lower::def;
use crate::lower::def::{BodyView, Family, TypeView};
use crate::lower::env::{Context, LowerErrorView};
use crate::lower::extra::ExtraView;
use crate::lower::fields;
use crate::lower::morph;
use crate::lower::opinions;
use crate::lower::patch;
use crate::lower::steps;
use crate::lower::things;
use crate::lower::things::WeaponTrail;
use crate::lower::ui;
use crate::order;
use crate::text::ast::StatementView;
use crate::text::base::Spanned;
use crate::value;
use crate::value::MemberView;

verus! {

// ── Names ────────────────────────────────────────────────────────────────────

proof fn lemma_class_names()
    ensures
        "CAnimatingObjectDef"@.len() == 19,
        "CAppearanceDef"@.len() == 14,
        "CAMERA_MANAGER"@.len() == 14,
        "CCombatAbilityBlockHeavyWeaponAttackDef"@.len() == 39,
        "CCombatAbilityBlockLightWeaponAttackDef"@.len() == 39,
        "CCombatAbilityBlockProjectileWeaponAttackDef"@.len() == 44,
        "CCombatAbilityBlockUnarmedAttackDef"@.len() == 35,
        "CCreatureDef"@.len() == 12,
        "CEntitySoundDef"@.len() == 15,
        "CFlammableDef"@.len() == 13,
        "CHeroMorphDef"@.len() == 13,
        "CLookDef"@.len() == 8,
        "OPINION_DEED_EFFECTS"@.len() == 20,
        "OPINION_PERSONALITY"@.len() == 19,
        "OPINION_REACTION_MANAGER"@.len() == 24,
        "OPINION_SOURCE"@.len() == 14,
        "PLAYER_GUI"@.len() == 10,
        "CSpecialEffectsDef"@.len() == 18,
        "THING"@.len() == 5,
        "BUILDING"@.len() == 8,
        "CREATURE"@.len() == 8,
        "HOLY_SITE"@.len() == 9,
        "MARKER"@.len() == 6,
        "NOISE"@.len() == 5,
        "OBJECT"@.len() == 6,
        "PHYSICAL_SWITCH"@.len() == 15,
        "SWITCH"@.len() == 6,
        "VILLAGE"@.len() == 7,
        "CWeaponDef"@.len() == 10,
        "CWillResponseDef"@.len() == 16,
        "CDegradableDef"@.len() == 14,
        "CReplaceableMeshDef"@.len() == 19,
        "CAppearanceModifierDef"@.len() == 22,
        "CONTROL_SCHEME"@.len() == 14,
        "UI"@.len() == 2,
        "UI_MISC_THINGS_DEF"@.len() == 18,
        "FRONT_END"@.len() == 9,
        "CHeroExperienceDef"@.len() == 18,
        "CScriptDef"@.len() == 10,
        "CAnimatingObjectDef"@ != "OPINION_PERSONALITY"@,
        "CAnimatingObjectDef"@ != "CReplaceableMeshDef"@,
        "OPINION_PERSONALITY"@ != "CReplaceableMeshDef"@,
        "CAppearanceDef"@ != "CAMERA_MANAGER"@,
        "CAppearanceDef"@ != "OPINION_SOURCE"@,
        "CAppearanceDef"@ != "CDegradableDef"@,
        "CAppearanceDef"@ != "CONTROL_SCHEME"@,
        "CAMERA_MANAGER"@ != "OPINION_SOURCE"@,
        "CAMERA_MANAGER"@ != "CDegradableDef"@,
        "CAMERA_MANAGER"@ != "CONTROL_SCHEME"@,
        "OPINION_SOURCE"@ != "CDegradableDef"@,
        "OPINION_SOURCE"@ != "CONTROL_SCHEME"@,
        "CDegradableDef"@ != "CONTROL_SCHEME"@,
        "CCombatAbilityBlockHeavyWeaponAttackDef"@ != "CCombatAbilityBlockLightWeaponAttackDef"@,
        "CEntitySoundDef"@ != "PHYSICAL_SWITCH"@,
        "CFlammableDef"@ != "CHeroMorphDef"@,
        "CLookDef"@ != "BUILDING"@,
        "CLookDef"@ != "CREATURE"@,
        "BUILDING"@ != "CREATURE"@,
        "PLAYER_GUI"@ != "CWeaponDef"@,
        "PLAYER_GUI"@ != "CScriptDef"@,
        "CWeaponDef"@ != "CScriptDef"@,
        "CSpecialEffectsDef"@ != "UI_MISC_THINGS_DEF"@,
        "CSpecialEffectsDef"@ != "CHeroExperienceDef"@,
        "UI_MISC_THINGS_DEF"@ != "CHeroExperienceDef"@,
        "THING"@ != "NOISE"@,
        "HOLY_SITE"@ != "FRONT_END"@,
        "MARKER"@ != "OBJECT"@,
        "MARKER"@ != "SWITCH"@,
        "OBJECT"@ != "SWITCH"@,
{
    reveal_strlit("CAnimatingObjectDef");
    reveal_strlit("CAppearanceDef");
    reveal_strlit("CAMERA_MANAGER");
    reveal_strlit("CCombatAbilityBlockHeavyWeaponAttackDef");
    reveal_strlit("CCombatAbilityBlockLightWeaponAttackDef");
    reveal_strlit("CCombatAbilityBlockProjectileWeaponAttackDef");
    reveal_strlit("CCombatAbilityBlockUnarmedAttackDef");
    reveal_strlit("CCreatureDef");
    reveal_strlit("CEntitySoundDef");
    reveal_strlit("CFlammableDef");
    reveal_strlit("CHeroMorphDef");
    reveal_strlit("CLookDef");
    reveal_strlit("OPINION_DEED_EFFECTS");
    reveal_strlit("OPINION_PERSONALITY");
    reveal_strlit("OPINION_REACTION_MANAGER");
    reveal_strlit("OPINION_SOURCE");
    reveal_strlit("PLAYER_GUI");
    reveal_strlit("CSpecialEffectsDef");
    reveal_strlit("THING");
    reveal_strlit("BUILDING");
    reveal_strlit("CREATURE");
    reveal_strlit("HOLY_SITE");
    reveal_strlit("MARKER");
    reveal_strlit("NOISE");
    reveal_strlit("OBJECT");
    reveal_strlit("PHYSICAL_SWITCH");
    reveal_strlit("SWITCH");
    reveal_strlit("VILLAGE");
    reveal_strlit("CWeaponDef");
    reveal_strlit("CWillResponseDef");
    reveal_strlit("CDegradableDef");
    reveal_strlit("CReplaceableMeshDef");
    reveal_strlit("CAppearanceModifierDef");
    reveal_strlit("CONTROL_SCHEME");
    reveal_strlit("UI");
    reveal_strlit("UI_MISC_THINGS_DEF");
    reveal_strlit("FRONT_END");
    reveal_strlit("CHeroExperienceDef");
    reveal_strlit("CScriptDef");
    assert("CAnimatingObjectDef"@[0] != "OPINION_PERSONALITY"@[0]);
    assert("CAnimatingObjectDef"@[1] != "CReplaceableMeshDef"@[1]);
    assert("OPINION_PERSONALITY"@[0] != "CReplaceableMeshDef"@[0]);
    assert("CAppearanceDef"@[2] != "CAMERA_MANAGER"@[2]);
    assert("CAppearanceDef"@[0] != "OPINION_SOURCE"@[0]);
    assert("CAppearanceDef"@[1] != "CDegradableDef"@[1]);
    assert("CAppearanceDef"@[1] != "CONTROL_SCHEME"@[1]);
    assert("CAMERA_MANAGER"@[0] != "OPINION_SOURCE"@[0]);
    assert("CAMERA_MANAGER"@[1] != "CDegradableDef"@[1]);
    assert("CAMERA_MANAGER"@[1] != "CONTROL_SCHEME"@[1]);
    assert("OPINION_SOURCE"@[0] != "CDegradableDef"@[0]);
    assert("OPINION_SOURCE"@[0] != "CONTROL_SCHEME"@[0]);
    assert("CDegradableDef"@[1] != "CONTROL_SCHEME"@[1]);
    assert("CCombatAbilityBlockHeavyWeaponAttackDef"@[19] != "CCombatAbilityBlockLightWeaponAttackDef"@[19]);
    assert("CEntitySoundDef"@[0] != "PHYSICAL_SWITCH"@[0]);
    assert("CFlammableDef"@[1] != "CHeroMorphDef"@[1]);
    assert("CLookDef"@[0] != "BUILDING"@[0]);
    assert("CLookDef"@[1] != "CREATURE"@[1]);
    assert("BUILDING"@[0] != "CREATURE"@[0]);
    assert("PLAYER_GUI"@[0] != "CWeaponDef"@[0]);
    assert("PLAYER_GUI"@[0] != "CScriptDef"@[0]);
    assert("CWeaponDef"@[1] != "CScriptDef"@[1]);
    assert("CSpecialEffectsDef"@[0] != "UI_MISC_THINGS_DEF"@[0]);
    assert("CSpecialEffectsDef"@[1] != "CHeroExperienceDef"@[1]);
    assert("UI_MISC_THINGS_DEF"@[0] != "CHeroExperienceDef"@[0]);
    assert("THING"@[0] != "NOISE"@[0]);
    assert("HOLY_SITE"@[0] != "FRONT_END"@[0]);
    assert("MARKER"@[0] != "OBJECT"@[0]);
    assert("MARKER"@[0] != "SWITCH"@[0]);
    assert("OBJECT"@[0] != "SWITCH"@[0]);
}

// ── Fields ───────────────────────────────────────────────────────────────────

proof fn lemma_default(types: Seq<TypeView>, name: Seq<char>, i: int, k: int)
    requires
        0 <= i <= k < types.len(),
        types[k].name == name,
        forall|j: int| 0 <= j < k ==> (#[trigger] types[j]).name != name,
    ensures
        def::default_for_name(types, name, i) == Some(types[k].default),
    decreases k - i,
{
    if i < k {
        assert(types[i].name != name);
        lemma_default(types, name, i + 1, k);
    }
}

/// A definition of a class without a way of its own is what its fields are set to: on its
/// base where it has one, and else on the default of its class. Nothing else of it changes.
pub proof fn plain_definitions_are_their_fields(
    types: Seq<TypeView>,
    enums: ControlEnums,
    cx: Context,
    name: Seq<char>,
    base: Option<BodyView>,
    body: Seq<Spanned<StatementView>>,
    k: int,
)
    requires
        def::family(name) is None,
        base is None ==> 0 <= k < types.len() && types[k].name == name && forall|j: int|
            0 <= j < k ==> (#[trigger] types[j]).name != name,
    ensures
        ({
            let start = match base {
                Some(b) => b,
                None => types[k].default,
            };
            match fields::generic(cx, start.record, body) {
                Ok((record, rest)) => def::lowered_def(types, enums, cx, name, base, body) == Ok::<
                    (BodyView, Seq<Spanned<StatementView>>),
                    LowerErrorView,
                >((BodyView { kind: start.kind, record, extra: start.extra }, rest)),
                Err(e) => def::lowered_def(types, enums, cx, name, base, body) == Err::<
                    (BodyView, Seq<Spanned<StatementView>>),
                    LowerErrorView,
                >(e),
            }
        }),
{
    if base is None {
        lemma_default(types, name, 0, k);
    }
}

/// A class that is not known has no definitions.
pub proof fn unknown_classes_are_unsupported(
    types: Seq<TypeView>,
    enums: ControlEnums,
    cx: Context,
    name: Seq<char>,
    body: Seq<Spanned<StatementView>>,
)
    requires
        def::family(name) is None,
        forall|j: int| 0 <= j < types.len() ==> (#[trigger] types[j]).name != name,
    ensures
        def::lowered_def(types, enums, cx, name, None, body) == Err::<
            (BodyView, Seq<Spanned<StatementView>>),
            LowerErrorView,
        >(LowerErrorView::Unsupported(name)),
{
    lemma_no_default(types, name, 0);
}

proof fn lemma_no_default(types: Seq<TypeView>, name: Seq<char>, k: int)
    requires
        0 <= k,
        forall|j: int| 0 <= j < types.len() ==> (#[trigger] types[j]).name != name,
    ensures
        def::default_for_name(types, name, k) is None,
    decreases types.len() - k,
{
    if k < types.len() {
        assert(types[k].name != name);
        lemma_no_default(types, name, k + 1);
    }
}

// ── Things ───────────────────────────────────────────────────────────────────

/// Whether definitions of the class have components.
pub open spec fn is_thing(name: Seq<char>) -> bool {
    name == "THING"@ || name == "BUILDING"@ || name == "CREATURE"@ || name == "HOLY_SITE"@ || name
        == "MARKER"@ || name == "NOISE"@ || name == "OBJECT"@ || name == "PHYSICAL_SWITCH"@ || name
        == "SWITCH"@ || name == "VILLAGE"@
}

/// A thing has the components that its statements add and do not remove, beside its fields,
/// which are set by all of its statements.
pub proof fn things_have_their_components(
    types: Seq<TypeView>,
    enums: ControlEnums,
    cx: Context,
    name: Seq<char>,
    base: Option<BodyView>,
    body: Seq<Spanned<StatementView>>,
)
    requires
        is_thing(name),
    ensures
        def::lowered_def(types, enums, cx, name, base, body) matches Ok((b, _)) ==> b.extra
            == ExtraView::Components(things::thing_components(cx, body)),
{
    lemma_class_names();
    assert(def::family(name) matches Some((Family::Thing, _)));
}

// ── Classes with lists of their own ──────────────────────────────────────────

/// An animated definition has the animations that its statements build on those of its base,
/// and its fields are set by the statements that build none.
pub proof fn animated_definitions_have_their_animations(
    types: Seq<TypeView>,
    enums: ControlEnums,
    cx: Context,
    name: Seq<char>,
    start: BodyView,
    body: Seq<Spanned<StatementView>>,
)
    requires
        (name == "CAnimatingObjectDef"@ && start.kind == "AnimatingObjectDef"@) || (name
            == "CAppearanceDef"@ && start.kind == "AppearanceDef"@),
    ensures
        ({
            let built = anim::animations(
                cx,
                match start.extra {
                    ExtraView::Animations(v) => v,
                    _ => Seq::empty(),
                },
                body,
            );
            def::lowered_def(types, enums, cx, name, Some(start), body) matches Ok((b, rest)) ==> {
                &&& b.extra == ExtraView::Animations(built.anims)
                &&& fields::generic(cx, start.record, built.rest) matches Ok((record, left))
                &&& rest == left
                &&& forall|other: Seq<char>|
                    other != "Animation"@ ==> #[trigger] value::member(b.record, other)
                        == value::member(record, other)
                &&& built.defaults.delay is None && built.defaults.group is None ==> b.record
                    == record
            }
        }),
{
    lemma_class_names();
    let built = anim::animations(cx, start.extra.animations(), body);
    if let Ok((record, _)) = fields::generic(cx, start.record, built.rest) {
        assert forall|other: Seq<char>| other != "Animation"@ implies #[trigger] value::member(
            patch::with_animation_defaults(record, built.defaults),
            other,
        ) == value::member(record, other) by {
            lemma_inner_keeps(record, built.defaults, other);
        }
    }
}

proof fn lemma_inner_keeps(
    v: Seq<MemberView>,
    d: anim::AnimDefaultOverrides,
    other: Seq<char>,
)
    requires
        other != "Animation"@,
    ensures
        value::member(patch::with_animation_defaults(v, d), other) == value::member(v, other),
{
    let delayed = match d.delay {
        Some(n) => patch::with_inner(
            v,
            "Animation"@,
            "DefaultDelay"@,
            value::ValueView::Scalar(value::ScalarView::U32(n)),
        ),
        None => v,
    };
    lemma_inner_other(v, "Animation"@, other);
    lemma_inner_other(delayed, "Animation"@, other);
}

proof fn lemma_inner_other(v: Seq<MemberView>, outer: Seq<char>, other: Seq<char>)
    requires
        other != outer,
    ensures
        forall|inner: Seq<char>, x: value::ValueView|
            value::member(#[trigger] patch::with_inner(v, outer, inner, x), other)
                == value::member(v, other),
{
    assert forall|inner: Seq<char>, x: value::ValueView| value::member(
        #[trigger] patch::with_inner(v, outer, inner, x),
        other,
    ) == value::member(v, other) by {
        if let Some(value::ValueView::Struct(s)) = value::member(v, outer) {
            let y = value::ValueView::Struct(
                value::StructView { members: value::with_member(s.members, inner, x), ..s },
            );
            members::setting_a_member_sets_that_one(v, outer, y, other);
        }
    }
}

/// The default delay and the default group that calls give are those of the field for the
/// animations.
pub proof fn default_delays_and_groups_are_stored(
    v: Seq<MemberView>,
    d: anim::AnimDefaultOverrides,
    s: value::StructView,
)
    requires
        value::member(v, "Animation"@) == Some(value::ValueView::Struct(s)),
        value::member(s.members, "DefaultDelay"@) is Some,
        value::member(s.members, "DefaultGroup"@) is Some,
    ensures
        value::member(patch::with_animation_defaults(v, d), "Animation"@) matches Some(
            value::ValueView::Struct(t),
        ) && value::member(t.members, "DefaultDelay"@) == (match d.delay {
            Some(n) => Some(value::ValueView::Scalar(value::ScalarView::U32(n))),
            None => value::member(s.members, "DefaultDelay"@),
        }) && value::member(t.members, "DefaultGroup"@) == (match d.group {
            Some(n) => Some(value::ValueView::Scalar(value::ScalarView::I32(n))),
            None => value::member(s.members, "DefaultGroup"@),
        }),
{
    reveal_strlit("DefaultDelay");
    reveal_strlit("DefaultGroup");
    assert("DefaultDelay"@[7] == 'D' && "DefaultGroup"@[7] == 'G');
    let (delay, group) = ("DefaultDelay"@, "DefaultGroup"@);
    let a = match d.delay {
        Some(n) => value::with_member(
            s.members,
            delay,
            value::ValueView::Scalar(value::ScalarView::U32(n)),
        ),
        None => s.members,
    };
    let x = value::ValueView::Struct(value::StructView { members: a, ..s });
    if let Some(n) = d.delay {
        let n = value::ValueView::Scalar(value::ScalarView::U32(n));
        members::setting_a_member_sets_that_one(s.members, delay, n, group);
        members::setting_a_member_sets_that_one(v, "Animation"@, x, "Animation"@);
    }
    let w = match d.delay {
        Some(n) => value::with_member(v, "Animation"@, x),
        None => v,
    };
    assert(value::member(w, "Animation"@) == Some(
        value::ValueView::Struct(value::StructView { members: a, ..s }),
    ));
    if let Some(n) = d.group {
        let n = value::ValueView::Scalar(value::ScalarView::I32(n));
        let b = value::with_member(a, group, n);
        members::setting_a_member_sets_that_one(a, group, n, delay);
        members::setting_a_member_sets_that_one(
            w,
            "Animation"@,
            value::ValueView::Struct(value::StructView { members: b, ..s }),
            "Animation"@,
        );
    }
}

/// A weapon has the trails that its statements set on those of its base, in ascending order;
/// an entity its sounds; something that burns its effects; and so on. The statements that
/// build a list set no field.
pub proof fn classes_have_the_lists_that_their_calls_build(
    types: Seq<TypeView>,
    enums: ControlEnums,
    cx: Context,
    name: Seq<char>,
    start: BodyView,
    body: Seq<Spanned<StatementView>>,
)
    ensures
        ({
            let r = def::lowered_def(types, enums, cx, name, Some(start), body);
            &&& name == "CWeaponDef"@ && start.kind == "WeaponDef"@ ==> (r matches Ok((b, rest))
                ==> {
                let t = things::trails(cx, start.extra.trails(), body, body.len() as int);
                &&& b.extra == ExtraView::Trails(order::in_order::<WeaponTrail>(t.0))
                &&& fields::generic(cx, start.record, t.1) matches Ok((record, left)) && b.record
                    == record && rest == left
            })
            &&& name == "CFlammableDef"@ && start.kind == "FlammableDef"@ ==> (r matches Ok((b, _))
                ==> {
                let found = body::all_selected(
                    body,
                    body::method_calls("EffectCreationSet"@, "Add"@),
                );
                b.extra == ExtraView::Fire(
                    order::in_order::<FireEffect>(
                        added::collected::<FireEffect>(
                            cx,
                            start.extra.fire(),
                            found,
                            found.len() as int,
                        ),
                    ),
                )
            })
            &&& name == "CReplaceableMeshDef"@ && start.kind == "ReplaceableMeshDef"@ ==> (r
                matches Ok((b, _)) ==> {
                let found = body::all_selected(body, body::method_calls("Meshes"@, "Add"@));
                b.extra == ExtraView::Meshes(
                    added::collected::<ReplaceableMesh>(
                        cx,
                        start.extra.meshes(),
                        found,
                        found.len() as int,
                    ),
                )
            })
            &&& name == "CAppearanceModifierDef"@ && start.kind == "AppearanceModifierDef"@ ==> (r
                matches Ok((b, _)) ==> {
                let found = body::all_selected(body, body::method_calls("Graphics"@, "Add"@));
                b.extra == ExtraView::Graphics(
                    added::collected::<ModifierGraphic>(
                        cx,
                        start.extra.graphics(),
                        found,
                        found.len() as int,
                    ),
                )
            })
            &&& name == "OPINION_PERSONALITY"@ && start.kind == "OpinionPersonalityDef"@ ==> (r
                matches Ok((b, rest)) ==> {
                let t = opinions::personality(cx, start.extra.traits(), body, body.len() as int);
                &&& b.extra == ExtraView::Traits(t.0)
                &&& fields::generic(cx, start.record, t.1) matches Ok((record, left)) && b.record
                    == record && rest == left
            })
            &&& name == "OPINION_DEED_EFFECTS"@ && start.kind == "OpinionDeedEffectsDef"@ ==> (r
                matches Ok((b, _)) ==> (opinions::deed_effects(
                cx,
                start.extra.deeds(),
                body,
                body.len() as int,
            ) matches Ok((deeds, _)) && b.extra == ExtraView::Deeds(deeds)))
            &&& name == "CONTROL_SCHEME"@ && start.kind == "ControlsDef"@ ==> (r matches Ok(
                (b, rest),
            ) ==> rest.len() == 0 && b.record == start.record && (controls::controls_lowered(
                enums,
                cx.symbols,
                start.extra.controls(),
                body,
            ) matches Ok(c) && b.extra == ExtraView::Controls(c)))
            &&& name == "UI"@ && start.kind == "UiDef"@ ==> (r matches Ok((b, rest)) ==> rest.len()
                == 0 && b.extra == start.extra && ui::ui_lowered(cx, start.record, body) == Ok::<
                Seq<MemberView>,
                LowerErrorView,
            >(b.record))
            &&& name == "CLookDef"@ && start.kind == "LookDef"@ ==> (r matches Ok((b, rest))
                ==> b.extra == start.extra && fields::generic(cx, start.record, body) == Ok::<
                (Seq<MemberView>, Seq<Spanned<StatementView>>),
                LowerErrorView,
            >((b.record, rest)))
        }),
{
    lemma_class_names();
}

/// A creature has the appearance, the expressions and the wounds that its statements build,
/// the expressions in ascending order; an entity has its sounds in ascending order; special
/// effects come once each; a stage of decay has the type of graphic of the whole.
pub proof fn creatures_and_sounds_are_built(
    types: Seq<TypeView>,
    enums: ControlEnums,
    cx: Context,
    name: Seq<char>,
    start: BodyView,
    body: Seq<Spanned<StatementView>>,
)
    ensures
        ({
            let r = def::lowered_def(types, enums, cx, name, Some(start), body);
            &&& name == "CCreatureDef"@ && start.kind == "CreatureDef"@ ==> (r matches Ok((b, _))
                ==> {
                let (look, left) = morph::appearance(cx.symbols, start.extra.appearance(), body);
                let more = builders::body_building(
                    cx,
                    start.extra.expressions(),
                    start.extra.wounds(),
                    left,
                    left.len() as int,
                );
                b.extra matches ExtraView::Creature { appearance, expressions, wounds }
                    && appearance == look && expressions == order::in_order::<
                    builders::ExpressionEntry,
                >(more.expressions) && wounds == more.wounds
            })
            &&& name == "CEntitySoundDef"@ && start.kind == "EntitySoundDef"@ ==> (r matches Ok(
                (b, _),
            ) ==> {
                let found = body::all_selected(body, body::field_calls("SoundMap"@));
                let s = builders::sounds_added(
                    cx,
                    SoundsView { ranges: start.extra.ranges(), criteria: start.extra.criteria() },
                    found,
                    found.len() as int,
                );
                b.extra matches ExtraView::Sounds { ranges, criteria } && ranges == order::in_order::<
                    SoundRange,
                >(s.ranges) && criteria == order::in_order::<SoundCriterion>(s.criteria)
            })
            &&& name == "CSpecialEffectsDef"@ && start.kind == "SpecialEffectsDef"@ ==> (r
                matches Ok((b, _)) ==> {
                let found = body::all_selected(body, body::method_calls("SpecialEffects"@, "Add"@));
                let all = added::collected::<SpecialEffect>(
                    cx,
                    start.extra.effects(),
                    found,
                    found.len() as int,
                );
                b.extra == ExtraView::Effects(
                    order::in_order::<SpecialEffect>(added::firsts(all, all.len() as int)),
                )
            })
            &&& name == "CDegradableDef"@ && start.kind == "DegradableDef"@ ==> (r matches Ok(
                (b, _),
            ) ==> {
                let found = body::all_selected(body, body::method_calls("Degradations"@, "Add"@));
                let all = added::collected::<DegradableInfo>(
                    cx,
                    start.extra.degradations(),
                    found,
                    found.len() as int,
                );
                b.extra matches ExtraView::Degradations(v) && v.len() == all.len() && forall|i: int|
                    0 <= i < v.len() ==> (#[trigger] v[i]).bank_index == all[i].bank_index
                        && v[i].type_ == (match value::member(b.record, "GraphicType"@) {
                        Some(x) => value::number(x) as u8,
                        None => 0,
                    })
            })
        }),
{
    lemma_class_names();
}

/// The maps of a manager of reactions ascend; a source of opinions has its reactions derived
/// before its opinions; the maps of the player's interface are in the order of the checksums
/// of their keys; and beside that all of these have the fields that their statements set.
pub proof fn reactions_and_interfaces_are_put_in_order(
    types: Seq<TypeView>,
    enums: ControlEnums,
    cx: Context,
    name: Seq<char>,
    start: BodyView,
    body: Seq<Spanned<StatementView>>,
    field: Seq<char>,
)
    ensures
        ({
            let r = def::lowered_def(types, enums, cx, name, Some(start), body);
            &&& name == "OPINION_REACTION_MANAGER"@ && start.kind == "OpinionReactionManagerDef"@
                ==> (r matches Ok((b, rest)) ==> {
                let built = opinions::reaction_building(cx, body, body.len() as int);
                &&& b.extra == (ExtraView::Reactions {
                    matches: built.matches,
                    frequencies: built.frequencies,
                })
                &&& fields::generic(cx, start.record, built.rest) matches Ok((record, left))
                &&& rest == left
                &&& !orders::of_reactions(field) ==> value::member(b.record, field)
                    == value::member(record, field)
                &&& orders::of_reactions(field) ==> (value::member(record, field) matches Some(
                    value::ValueView::Mapping(m),
                ) ==> (value::member(b.record, field) matches Some(value::ValueView::Mapping(n))
                    && orders::by_key(n) && orders::same_entries(m, n)))
            })
            &&& name == "OPINION_SOURCE"@ && start.kind == "OpinionSourceDef"@ ==> (r matches Ok(
                (b, rest),
            ) ==> (fields::generic(cx, start.record, body) matches Ok((record, left)) && rest
                == left && b.extra == start.extra && b.record == (cx.opinions)(
                (cx.reactions)(record),
            )))
            &&& name == "PLAYER_GUI"@ && start.kind == "PlayerGuiDef"@ ==> (r matches Ok((b, rest))
                ==> {
                let ordered = field == "ScriptSprites"@ || field == "GameActionValues"@ || field
                    == "MiniMapGraphics"@;
                &&& b.extra == start.extra
                &&& fields::generic(cx, start.record, body) matches Ok((record, left))
                &&& rest == left
                &&& !ordered ==> value::member(b.record, field) == value::member(record, field)
                &&& ordered ==> (value::member(record, field) matches Some(
                    value::ValueView::Mapping(m),
                ) ==> (value::member(b.record, field) matches Some(value::ValueView::Mapping(n)) && n
                    == patch::checksum_order(m)))
            })
        }),
{
    lemma_class_names();
    let built = opinions::reaction_building(cx, body, body.len() as int);
    if let Ok((record, _)) = fields::generic(cx, start.record, built.rest) {
        orders::the_maps_of_reactions_ascend(record, field);
    }
    if let Ok((record, _)) = fields::generic(cx, start.record, body) {
        orders::the_maps_of_the_interface_are_ordered(record, field);
    }
}

/// The hero has the textures and particles that calls add to those of the base, and the
/// statements that add none set the fields; the miscellaneous things of the user interface
/// and the front end are read by their tables, and every statement is about one of their
/// fields.
pub proof fn heroes_and_screens_are_built(
    types: Seq<TypeView>,
    enums: ControlEnums,
    cx: Context,
    name: Seq<char>,
    start: BodyView,
    body: Seq<Spanned<StatementView>>,
)
    ensures
        ({
            let r = def::lowered_def(types, enums, cx, name, Some(start), body);
            &&& name == "CHeroMorphDef"@ && start.kind == "HeroMorphDef"@ ==> (r matches Ok(
                (b, rest),
            ) ==> {
                let built = builders::hero_building(
                    cx,
                    builders::HeroBuilding {
                        textures: start.extra.textures(),
                        particles: start.extra.particles(),
                        idle_particles: start.extra.idle_particles(),
                        rest: Seq::empty(),
                    },
                    body,
                    body.len() as int,
                );
                &&& b.extra == (ExtraView::HeroMorphs {
                    textures: built.textures,
                    particles: built.particles,
                    idle_particles: built.idle_particles,
                })
                &&& fields::generic(cx, start.record, built.rest) == Ok::<
                    (Seq<MemberView>, Seq<Spanned<StatementView>>),
                    LowerErrorView,
                >((b.record, rest))
            })
            &&& name == "UI_MISC_THINGS_DEF"@ && start.kind == "UiMiscThingsDef"@ ==> (r matches Ok(
                (b, rest),
            ) ==> rest.len() == 0 && b.extra == start.extra && steps::run(
                cx,
                ui::misc_fields(),
                0,
                start.record,
                fields::over(cx, body),
            ) == Ok::<Seq<MemberView>, LowerErrorView>(b.record))
            &&& name == "FRONT_END"@ && start.kind == "FrontEndDef"@ ==> (r matches Ok((b, rest))
                ==> rest.len() == 0 && b.extra == start.extra && steps::run(
                cx,
                ui::front_end_fields(),
                0,
                start.record,
                fields::over(cx, body),
            ) == Ok::<Seq<MemberView>, LowerErrorView>(b.record))
        }),
{
    lemma_class_names();
}

// ── Changes behind the statements ────────────────────────────────────────────

/// Two fields that are stored twice are equal: of a script the highest factor of a prayer,
/// and of the experience of the hero what a hit brings.
pub proof fn doubled_fields_are_equal(
    types: Seq<TypeView>,
    enums: ControlEnums,
    cx: Context,
    base: Option<BodyView>,
    body: Seq<Spanned<StatementView>>,
)
    ensures
        def::lowered_def(types, enums, cx, "CScriptDef"@, base, body) matches Ok((b, _)) ==> (
        value::member(b.record, "TemplePrayerFactorHighest"@) is Some && value::member(
            b.record,
            "TemplePrayerFactorHighest2"@,
        ) is Some ==> value::member(b.record, "TemplePrayerFactorHighest"@) == value::member(
            b.record,
            "TemplePrayerFactorHighest2"@,
        )),
        def::lowered_def(types, enums, cx, "CHeroExperienceDef"@, base, body) matches Ok((b, _))
            ==> (value::member(b.record, "StatIncreasePerHitType"@) is Some && value::member(
            b.record,
            "StatIncreasePerHitType2"@,
        ) is Some ==> value::member(b.record, "StatIncreasePerHitType"@) == value::member(
            b.record,
            "StatIncreasePerHitType2"@,
        )),
{
    lemma_class_names();
    reveal_strlit("TemplePrayerFactorHighest");
    reveal_strlit("TemplePrayerFactorHighest2");
    reveal_strlit("StatIncreasePerHitType");
    reveal_strlit("StatIncreasePerHitType2");
    assert("TemplePrayerFactorHighest"@.len() == 25 && "TemplePrayerFactorHighest2"@.len() == 26);
    assert("StatIncreasePerHitType"@.len() == 22 && "StatIncreasePerHitType2"@.len() == 23);
    assert forall|v: Seq<MemberView>, from: Seq<char>, to: Seq<char>|
        from != to && value::member(#[trigger] patch::with_copy(v, from, to), to) is Some
            && value::member(patch::with_copy(v, from, to), from) is Some implies value::member(
        patch::with_copy(v, from, to),
        to,
    ) == value::member(patch::with_copy(v, from, to), from) by {
        if let Some(x) = value::member(v, from) {
            members::setting_a_member_sets_that_one(v, to, x, from);
        }
    }
}

proof fn lemma_selected_prefix(
    body: Seq<Spanned<StatementView>>,
    s: Spanned<StatementView>,
    pick: spec_fn(StatementView) -> bool,
    k: int,
)
    requires
        0 <= k <= body.len(),
    ensures
        body::selected(body.push(s), pick, k) == body::selected(body, pick, k),
    decreases k,
{
    if k > 0 {
        lemma_selected_prefix(body, s, pick, k - 1);
        assert(body.push(s)[k - 1] == body[k - 1]);
    }
}

/// A selection takes the statements that it holds of, one by one and in their order, and no
/// others.
pub proof fn selections_take_statements_in_order(
    body: Seq<Spanned<StatementView>>,
    s: Spanned<StatementView>,
    pick: spec_fn(StatementView) -> bool,
)
    ensures
        body::all_selected(Seq::empty(), pick).len() == 0,
        body::all_selected(body.push(s), pick) == (if pick(s.value) {
            body::all_selected(body, pick).push(s)
        } else {
            body::all_selected(body, pick)
        }),
{
    lemma_selected_prefix(body, s, pick, body.len() as int);
    assert(body.push(s)[body.len() as int] == s);
}

/// Of the answer to magic a statement about being struck by lightning counts for nothing, and
/// of the cameras a call of `clear`: a definition is the same with one more such statement.
pub proof fn some_statements_count_for_nothing(
    types: Seq<TypeView>,
    enums: ControlEnums,
    cx: Context,
    base: Option<BodyView>,
    body: Seq<Spanned<StatementView>>,
    s: Spanned<StatementView>,
)
    ensures
        fields::mentions(s.value, "ForceLightningable"@) ==> def::lowered_def(
            types,
            enums,
            cx,
            "CWillResponseDef"@,
            base,
            body.push(s),
        ) == def::lowered_def(types, enums, cx, "CWillResponseDef"@, base, body),
        (s.value matches StatementView::MethodCall { call, .. } && call.name == "clear"@)
            ==> def::lowered_def(types, enums, cx, "CAMERA_MANAGER"@, base, body.push(s))
            == def::lowered_def(types, enums, cx, "CAMERA_MANAGER"@, base, body),
{
    lemma_class_names();
    selections_take_statements_in_order(body, s, body::not_about("ForceLightningable"@));
    selections_take_statements_in_order(body, s, def::not_clearing());
}

/// The weapons that are blocked are a set, in ascending order.
pub proof fn blocked_weapons_are_a_set(
    types: Seq<TypeView>,
    enums: ControlEnums,
    cx: Context,
    name: Seq<char>,
    start: BodyView,
    body: Seq<Spanned<StatementView>>,
    l: value::ListView,
)
    requires
        name == "CCombatAbilityBlockHeavyWeaponAttackDef"@ || name
            == "CCombatAbilityBlockLightWeaponAttackDef"@ || name
            == "CCombatAbilityBlockProjectileWeaponAttackDef"@ || name
            == "CCombatAbilityBlockUnarmedAttackDef"@,
        start.kind == "CombatAbilityBlockDefBase"@,
        fields::generic(cx, start.record, body) matches Ok((record, _)) && value::member(
            record,
            "ValidBlockWeaponTypes"@,
        ) == Some(value::ValueView::List(l)),
    ensures
        def::lowered_def(types, enums, cx, name, Some(start), body) matches Ok((b, _))
            && value::member(b.record, "ValidBlockWeaponTypes"@) == Some(
            value::ValueView::List(patch::as_set(l)),
        ),
{
    lemma_class_names();
    let record = fields::generic(cx, start.record, body)->Ok_0.0;
    members::setting_a_member_sets_that_one(
        record,
        "ValidBlockWeaponTypes"@,
        value::ValueView::List(patch::as_set(l)),
        "ValidBlockWeaponTypes"@,
    );
}

/// A definition of a class with a way of its own starts from its base where that is of the
/// structure of the class, and else from the default of the structure.
pub proof fn definitions_start_from_their_base(
    types: Seq<TypeView>,
    kind: Seq<char>,
    base: BodyView,
    k: int,
)
    requires
        0 <= k < types.len(),
        types[k].default.kind == kind,
        forall|j: int| 0 <= j < k ==> (#[trigger] types[j]).default.kind != kind,
    ensures
        base.kind == kind ==> def::start_of(types, kind, Some(base)) == Some(base),
        base.kind != kind ==> def::start_of(types, kind, Some(base)) == Some(types[k].default),
        def::start_of(types, kind, None) == Some(types[k].default),
{
    lemma_default_of_kind(types, kind, 0, k);
}

proof fn lemma_default_of_kind(types: Seq<TypeView>, kind: Seq<char>, i: int, k: int)
    requires
        0 <= i <= k < types.len(),
        types[k].default.kind == kind,
        forall|j: int| 0 <= j < k ==> (#[trigger] types[j]).default.kind != kind,
    ensures
        def::default_of_kind(types, kind, i) == Some(types[k].default),
    decreases k - i,
{
    if i < k {
        assert(types[i].default.kind != kind);
        lemma_default_of_kind(types, kind, i + 1, k);
    }
}

} // verus!
