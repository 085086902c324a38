//! The animations of a definition.

use vstd::prelude::*;

use super::containers::calls;
use crate::crc32;
use crate::eval;
use crate::lower::anim;
use crate::lower::anim::{AnimView, AnimationSetAnimsEntry, Component, ComponentView};
use crate::lower::body;
use crate::lower::env::Context;
use crate::order;
use crate::single::Single;
use crate::text::ast::{CallView, ExprView, SegmentView, StatementView};
use crate::text::base::Spanned;

verus! {

// ── Arguments ────────────────────────────────────────────────────────────────

/// Whether argument `i` says the number `n`: nothing, or what is no number, is 0.
pub open spec fn says_number(cx: Context, a: Seq<Spanned<ExprView>>, i: int, n: i32) -> bool {
    if 0 <= i < a.len() && eval::as_i32(cx.symbols, a[i].value) is Ok {
        eval::as_i32(cx.symbols, a[i].value)->Ok_0 == n
    } else {
        n == 0
    }
}

/// Whether argument `i` says the real `x`: nothing, or what is no real, is 0.
pub open spec fn says_real(cx: Context, a: Seq<Spanned<ExprView>>, i: int, x: Single) -> bool {
    if 0 <= i < a.len() && eval::as_single(cx.symbols, a[i].value) is Ok {
        eval::as_single(cx.symbols, a[i].value)->Ok_0 == x
    } else {
        x.bits == 0
    }
}

/// Whether argument `i` says the truth value `b`: nothing, or what is none, is false.
pub open spec fn says_truth(a: Seq<Spanned<ExprView>>, i: int, b: bool) -> bool {
    if 0 <= i < a.len() && eval::as_bool(a[i].value) is Ok {
        eval::as_bool(a[i].value)->Ok_0 == b
    } else {
        !b
    }
}

/// Whether argument `i` says a string with the offset `n`: nothing, what is no string, and a
/// string that has no offset are -1.
pub open spec fn says_offset(cx: Context, a: Seq<Spanned<ExprView>>, i: int, n: i32) -> bool {
    if 0 <= i < a.len() && eval::as_string(a[i].value) is Ok && (cx.strings)(
        eval::as_string(a[i].value)->Ok_0,
    ) is Some {
        n == (cx.strings)(eval::as_string(a[i].value)->Ok_0)->0 as i32
    } else {
        n == -1
    }
}

// ── Statements ───────────────────────────────────────────────────────────────

proof fn lemma_prefix(
    cx: Context,
    anims: Seq<AnimView>,
    body: Seq<Spanned<StatementView>>,
    s: Spanned<StatementView>,
    k: int,
)
    requires
        0 <= k <= body.len(),
    ensures
        anim::building(cx, anims, body.push(s), k) == anim::building(cx, anims, body, k),
    decreases k,
{
    if k > 0 {
        lemma_prefix(cx, anims, body, s, k - 1);
        assert(body.push(s)[k - 1] == body[k - 1]);
    }
}

proof fn lemma_one_more(
    cx: Context,
    anims: Seq<AnimView>,
    body: Seq<Spanned<StatementView>>,
    s: Spanned<StatementView>,
)
    ensures
        ({
            let before = anim::building(cx, anims, body, body.len() as int);
            let after = anim::built(cx, before, s);
            let b = anim::animations(cx, anims, body);
            let a = anim::animations(cx, anims, body.push(s));
            &&& b.group == before.group && b.defaults == before.defaults && b.rest == before.rest
            &&& a.group == after.group && a.defaults == after.defaults && a.rest == after.rest
            &&& a.anims.to_multiset() == after.anims.to_multiset()
            &&& b.anims.to_multiset() == before.anims.to_multiset()
            &&& order::ascends::<AnimationSetAnimsEntry>(a.anims)
        }),
{
    lemma_prefix(cx, anims, body, s, body.len() as int);
    let before = anim::building(cx, anims, body, body.len() as int);
    assert(body.push(s)[body.len() as int] == s);
    assert(anim::building(cx, anims, body.push(s), (body.len() + 1) as int) == anim::built(cx, before, s));
    order::order_keeps_the_values::<AnimationSetAnimsEntry>(before.anims);
    order::order_keeps_the_values::<AnimationSetAnimsEntry>(anim::built(cx, before, s).anims);
}

proof fn lemma_method_names()
    ensures
        "StartGroup"@.len() == 10,
        "EndGroup"@.len() == 8,
        "Add"@.len() == 3,
        "AddCombat"@.len() == 9,
        "Remove"@.len() == 6,
        "SetDefaultDelay"@.len() == 15,
        "SetDefaultGroupName"@.len() == 19,
{
    reveal_strlit("StartGroup");
    reveal_strlit("EndGroup");
    reveal_strlit("Add");
    reveal_strlit("AddCombat");
    reveal_strlit("Remove");
    reveal_strlit("SetDefaultDelay");
    reveal_strlit("SetDefaultGroupName");
}

/// One more `Animation.Add(name, index, …);` or `Animation.AddCombat(name, index, …);` adds
/// one animation, under the checksum of its name: it has the index that the second argument
/// says, the offset of its name, and the group that is open. All others stay, and all are in
/// ascending order of checksum.
pub proof fn an_animation_is_added(
    cx: Context,
    anims: Seq<AnimView>,
    body: Seq<Spanned<StatementView>>,
    s: Spanned<StatementView>,
    method: Seq<char>,
    args: Seq<Spanned<ExprView>>,
    name: Seq<char>,
) -> (x: AnimView)
    requires
        method == "Add"@ || method == "AddCombat"@,
        calls(s.value, "Animation"@, method, args),
        args.len() > 0,
        eval::as_string(args[0].value) == Ok::<Seq<char>, eval::EvalErrorView>(name),
    ensures
        ({
            let before = anim::animations(cx, anims, body);
            let after = anim::animations(cx, anims, body.push(s));
            &&& after.anims.to_multiset() == before.anims.to_multiset().insert(x)
            &&& forall|i: int, j: int|
                0 <= i <= j < after.anims.len() ==> (#[trigger] after.anims[i]).key <= (
                #[trigger] after.anims[j]).key
            &&& after.group == before.group
            &&& after.rest == before.rest
            &&& after.defaults == before.defaults
            &&& x.key == crc32::text_checksum(name)
            &&& says_number(cx, args, 1, x.entry.bank_index)
            &&& says_offset(cx, args, 0, x.entry.anim_name)
            &&& x.entry.group_name == before.group
            &&& x.entry.components == anim::animation(
                cx,
                name,
                method == "AddCombat"@,
                before.group,
                args,
            ).entry.components
        }),
{
    broadcast use vstd::seq_lib::group_to_multiset_ensures;

    lemma_method_names();
    lemma_one_more(cx, anims, body, s);
    let object = seq![SegmentView::Field("Animation"@)];
    assert(object.len() == 1 && object[0] == SegmentView::Field("Animation"@));
    let before = anim::building(cx, anims, body, body.len() as int);
    let x = anim::animation(cx, name, method == "AddCombat"@, before.group, args);
    assert(anim::built(cx, before, s).anims == before.anims.push(x));
    let after = anim::animations(cx, anims, body.push(s));
    assert forall|i: int, j: int| 0 <= i <= j < after.anims.len() implies (
    #[trigger] after.anims[i]).key <= (#[trigger] after.anims[j]).key by {
        assert(order::at_most(
            <AnimationSetAnimsEntry as order::Ranked>::rank(after.anims[i]),
            <AnimationSetAnimsEntry as order::Ranked>::rank(after.anims[j]),
        ));
    }
    x
}

/// `Animation.StartGroup(name);` opens the group of that name for the animations behind it,
/// and `Animation.EndGroup();` closes it; without a group it is -1. Neither adds an
/// animation. At first no group is open.
pub proof fn groups_are_opened_and_closed(
    cx: Context,
    anims: Seq<AnimView>,
    body: Seq<Spanned<StatementView>>,
    s: Spanned<StatementView>,
    args: Seq<Spanned<ExprView>>,
)
    ensures
        anim::animations(cx, anims, Seq::empty()).group == -1,
        ({
            let before = anim::animations(cx, anims, body);
            let after = anim::animations(cx, anims, body.push(s));
            &&& calls(s.value, "Animation"@, "StartGroup"@, args) ==> says_offset(
                cx,
                args,
                0,
                after.group,
            ) && after.anims.to_multiset() == before.anims.to_multiset() && after.rest
                == before.rest
            &&& calls(s.value, "Animation"@, "EndGroup"@, args) ==> after.group == -1
                && after.anims.to_multiset() == before.anims.to_multiset() && after.rest
                == before.rest
        }),
{
    lemma_method_names();
    lemma_one_more(cx, anims, body, s);
    let object = seq![SegmentView::Field("Animation"@)];
    assert(object.len() == 1 && object[0] == SegmentView::Field("Animation"@));
}

/// `Animation.SetDefaultDelay(n);` and `Animation.SetDefaultGroupName(name);` set the default
/// delay and the default group, and nothing else.
pub proof fn defaults_are_set(
    cx: Context,
    anims: Seq<AnimView>,
    body: Seq<Spanned<StatementView>>,
    s: Spanned<StatementView>,
    args: Seq<Spanned<ExprView>>,
    n: i32,
)
    ensures
        ({
            let before = anim::animations(cx, anims, body);
            let after = anim::animations(cx, anims, body.push(s));
            &&& calls(s.value, "Animation"@, "SetDefaultDelay"@, args) && says_number(
                cx,
                args,
                0,
                n,
            ) ==> after.defaults.delay == Some(n as u32) && after.defaults.group
                == before.defaults.group && after.anims.to_multiset()
                == before.anims.to_multiset() && after.group == before.group && after.rest
                == before.rest
            &&& calls(s.value, "Animation"@, "SetDefaultGroupName"@, args) ==> (
            after.defaults.group matches Some(g) && says_offset(cx, args, 0, g))
                && after.defaults.delay == before.defaults.delay && after.anims.to_multiset()
                == before.anims.to_multiset() && after.group == before.group && after.rest
                == before.rest
        }),
{
    lemma_method_names();
    lemma_one_more(cx, anims, body, s);
    let object = seq![SegmentView::Field("Animation"@)];
    assert(object.len() == 1 && object[0] == SegmentView::Field("Animation"@));
}

/// A statement that is no call of the animations is left for the fields, in its order, and
/// changes no animation.
pub proof fn other_statements_are_left(
    cx: Context,
    anims: Seq<AnimView>,
    body: Seq<Spanned<StatementView>>,
    s: Spanned<StatementView>,
)
    requires
        !(s.value matches StatementView::MethodCall { object, .. } && object.len() == 1 && object[0]
            == SegmentView::Field("Animation"@)),
    ensures
        ({
            let before = anim::animations(cx, anims, body);
            let after = anim::animations(cx, anims, body.push(s));
            &&& after.rest == before.rest.push(s)
            &&& after.anims.to_multiset() == before.anims.to_multiset()
            &&& after.group == before.group
            &&& after.defaults == before.defaults
        }),
{
    lemma_one_more(cx, anims, body, s);
}

proof fn lemma_anim_place(v: Seq<AnimView>, key: u32, k: int)
    requires
        0 <= k <= v.len(),
    ensures
        k <= anim::anim_place(v, key, k) <= v.len(),
        forall|i: int| k <= i < anim::anim_place(v, key, k) ==> (#[trigger] v[i]).key != key,
        anim::anim_place(v, key, k) < v.len() ==> v[anim::anim_place(v, key, k)].key == key,
    decreases v.len() - k,
{
    if k < v.len() && v[k].key != key {
        lemma_anim_place(v, key, k + 1);
    }
}

/// Removing an animation takes one away that has the checksum, and leaves the others in
/// their order; where there is none nothing changes.
pub proof fn an_animation_is_removed(v: Seq<AnimView>, key: u32) -> (i: int)
    ensures
        (forall|j: int| 0 <= j < v.len() ==> (#[trigger] v[j]).key != key) ==> anim::removed(v, key)
            == v,
        (exists|j: int| 0 <= j < v.len() && (#[trigger] v[j]).key == key) ==> 0 <= i < v.len()
            && v[i].key == key && anim::removed(v, key) == v.take(i) + v.skip(i + 1),
{
    lemma_anim_place(v, key, 0);
    let i = anim::anim_place(v, key, 0);
    if i < v.len() {
        assert(v[i].key == key);
        assert(v.remove(i) =~= v.take(i) + v.skip(i + 1));
    }
    i
}

/// `Animation.Remove(name);` removes an animation of that name from those that came before.
pub proof fn remove_takes_the_animation_away(
    cx: Context,
    anims: Seq<AnimView>,
    body: Seq<Spanned<StatementView>>,
    s: Spanned<StatementView>,
    args: Seq<Spanned<ExprView>>,
    name: Seq<char>,
)
    requires
        calls(s.value, "Animation"@, "Remove"@, args),
        args.len() > 0,
        eval::as_string(args[0].value) == Ok::<Seq<char>, eval::EvalErrorView>(name),
        exists|j: int|
            0 <= j < anim::building(cx, anims, body, body.len() as int).anims.len() && (
            #[trigger] anim::building(cx, anims, body, body.len() as int).anims[j]).key
                == crc32::text_checksum(name),
    ensures
        ({
            let before = anim::animations(cx, anims, body);
            let after = anim::animations(cx, anims, body.push(s));
            &&& after.anims.len() + 1 == before.anims.len()
            &&& after.anims.to_multiset().subset_of(before.anims.to_multiset())
            &&& after.group == before.group
            &&& after.rest == before.rest
        }),
{
    broadcast use vstd::seq_lib::group_to_multiset_ensures;

    lemma_method_names();
    lemma_one_more(cx, anims, body, s);
    let object = seq![SegmentView::Field("Animation"@)];
    assert(object.len() == 1 && object[0] == SegmentView::Field("Animation"@));
    let before = anim::building(cx, anims, body, body.len() as int);
    let i = an_animation_is_removed(before.anims, crc32::text_checksum(name));
    lemma_anim_place(before.anims, crc32::text_checksum(name), 0);
    let p = anim::anim_place(before.anims, crc32::text_checksum(name), 0);
    assert(p < before.anims.len()) by {
        let j = choose|j: int|
            0 <= j < before.anims.len() && (#[trigger] before.anims[j]).key
                == crc32::text_checksum(name);
        if p == before.anims.len() {
            assert(before.anims[j].key != crc32::text_checksum(name));
        }
    }
    let after = anim::built(cx, before, s);
    assert(after.anims == before.anims.remove(p));
    vstd::seq_lib::to_multiset_remove(before.anims, p);
    let a = anim::animations(cx, anims, body.push(s)).anims;
    let b = anim::animations(cx, anims, body).anims;
    assert(a.len() == a.to_multiset().len());
    assert(b.len() == b.to_multiset().len());
    assert(after.anims.len() == after.anims.to_multiset().len());
    assert(before.anims.len() == before.anims.to_multiset().len());
}

// ── Components ───────────────────────────────────────────────────────────────

/// Whether a component is what a constructor behind the name and the index says.
pub open spec fn says_component(cx: Context, c: CallView, x: ComponentView) -> bool {
    let a = c.arguments;
    match x {
        ComponentView::Flags { flags } => c.name == "Flags"@ && says_number(cx, a, 0, flags),
        ComponentView::Combo { stage, id } => c.name == "Combo"@ && if a.len() >= 2 {
            says_number(cx, a, 0, stage) && says_number(cx, a, 1, id)
        } else {
            stage == -777 && says_number(cx, a, 0, id)
        },
        ComponentView::Handedness { start, end } => c.name == "Handedness"@ && says_number(
            cx,
            a,
            0,
            start,
        ) && says_number(cx, a, 1, end),
        ComponentView::Recoil { anim_index } => c.name == "Recoil"@ && says_number(
            cx,
            a,
            0,
            anim_index,
        ),
        ComponentView::CombatMisc { melee_flourish, melee_knockdown } => c.name == "CombatMisc"@
            && says_truth(a, 0, melee_flourish) && says_truth(a, 1, melee_knockdown),
        ComponentView::TargetOffset { x, y } => c.name == "TargetOffset"@ && says_real(cx, a, 0, x)
            && says_real(cx, a, 1, y),
        ComponentView::SpeedMultiplier { multiplier } => c.name == "SpeedMultiplier"@ && says_real(
            cx,
            a,
            0,
            multiplier,
        ),
        ComponentView::NextFilter { filter } => c.name == "NextAnimFilter"@ && says_offset(
            cx,
            a,
            0,
            filter,
        ),
        ComponentView::StrikeResponse { anim_name } => c.name == "StrikeResponseAnim"@
            && if a.len() > 0 && eval::as_string(a[0].value) is Ok {
            anim_name == vstd::utf8::encode_utf8(eval::as_string(a[0].value)->Ok_0)
        } else {
            anim_name.len() == 0
        },
        _ => false,
    }
}

/// Whether a constructor gives a component of its own.
pub open spec fn is_component(name: Seq<char>) -> bool {
    name == "Flags"@ || name == "Combo"@ || name == "Handedness"@ || name == "Recoil"@ || name
        == "CombatMisc"@ || name == "TargetOffset"@ || name == "SpeedMultiplier"@ || name
        == "NextAnimFilter"@ || name == "StrikeResponseAnim"@
}

proof fn lemma_component_names()
    ensures
        "Flags"@.len() == 5,
        "Combo"@.len() == 5,
        "Flags"@ != "Combo"@,
        "Delay"@.len() == 5,
        "Delay"@ != "Flags"@,
        "Delay"@ != "Combo"@,
        "TransTime"@.len() == 9,
        "Handedness"@.len() == 10,
        "CombatMisc"@.len() == 10,
        "Handedness"@ != "CombatMisc"@,
        "Recoil"@.len() == 6,
        "TargetOffset"@.len() == 12,
        "SpeedMultiplier"@.len() == 15,
        "NextAnimFilter"@.len() == 14,
        "StrikeResponseAnim"@.len() == 18,
{
    reveal_strlit("Flags");
    reveal_strlit("Combo");
    reveal_strlit("Delay");
    reveal_strlit("TransTime");
    reveal_strlit("Handedness");
    reveal_strlit("CombatMisc");
    reveal_strlit("Recoil");
    reveal_strlit("TargetOffset");
    reveal_strlit("SpeedMultiplier");
    reveal_strlit("NextAnimFilter");
    reveal_strlit("StrikeResponseAnim");
    assert("Flags"@[0] == 'F' && "Combo"@[0] == 'C' && "Delay"@[0] == 'D');
    assert("Handedness"@[0] == 'H' && "CombatMisc"@[0] == 'C');
}

proof fn lemma_component(cx: Context, c: CallView)
    ensures
        is_component(c.name) ==> anim::component(cx, c) is Some && says_component(
            cx,
            c,
            anim::component(cx, c)->0,
        ),
        !is_component(c.name) ==> anim::component(cx, c) is None,
{
    lemma_component_names();
}

/// Whether argument `i` is the constructor `name`.
pub open spec fn is_call(args: Seq<Spanned<ExprView>>, i: int, name: Seq<char>) -> bool {
    args[i].value matches ExprView::Constructor(c) && c.name == name
}

proof fn lemma_gathered(cx: Context, combat: bool, args: Seq<Spanned<ExprView>>, k: int)
    requires
        2 <= k <= args.len(),
    ensures
        ({
            let g = anim::gathered(cx, combat, args, k);
            &&& forall|i: int|
                2 <= i < k && (args[i].value matches ExprView::Constructor(c) && is_component(
                    c.name,
                )) ==> exists|x: ComponentView| #[trigger]
                    g.rest.contains(x) && says_component(
                        cx,
                        (#[trigger] args[i]).value->Constructor_0,
                        x,
                    )
            &&& forall|x: ComponentView| #[trigger]
                g.rest.contains(x) ==> exists|i: int|
                    2 <= i < k && #[trigger] args[i].value is Constructor && says_component(
                        cx,
                        args[i].value->Constructor_0,
                        x,
                    )
        }),
    decreases k,
{
    let g = anim::gathered(cx, combat, args, k);
    if k > 2 {
        lemma_gathered(cx, combat, args, k - 1);
        lemma_component_names();
        let b = anim::gathered(cx, combat, args, k - 1);
        if let ExprView::Constructor(c) = args[k - 1].value {
            lemma_component(cx, c);
        }
        let fresh = args[k - 1].value is Constructor && is_component(
            args[k - 1].value->Constructor_0.name,
        );
        if fresh {
            let x = anim::component(cx, args[k - 1].value->Constructor_0)->0;
            assert(g.rest == b.rest.push(x));
            assert(g.rest[b.rest.len() as int] == x);
            assert(g.rest.contains(x));
        } else {
            assert(g.rest == b.rest);
        }
        assert forall|i: int|
            2 <= i < k && (args[i].value matches ExprView::Constructor(c) && is_component(
                c.name,
            )) implies exists|x: ComponentView| #[trigger]
            g.rest.contains(x) && says_component(cx, (#[trigger] args[i]).value->Constructor_0, x) by {
            if i < k - 1 {
                let x = choose|x: ComponentView| #[trigger]
                    b.rest.contains(x) && says_component(cx, args[i].value->Constructor_0, x);
                let p = choose|p: int| 0 <= p < b.rest.len() && b.rest[p] == x;
                assert(g.rest[p] == x);
                assert(g.rest.contains(x));
            } else {
                let x = anim::component(cx, args[k - 1].value->Constructor_0)->0;
                assert(g.rest.contains(x));
            }
        }
        assert forall|x: ComponentView| #[trigger] g.rest.contains(x) implies exists|i: int|
            2 <= i < k && #[trigger] args[i].value is Constructor && says_component(
                cx,
                args[i].value->Constructor_0,
                x,
            ) by {
            let p = choose|p: int| 0 <= p < g.rest.len() && g.rest[p] == x;
            if p < b.rest.len() {
                assert(b.rest[p] == x);
                assert(b.rest.contains(x));
            } else {
                assert(args[k - 1].value is Constructor);
            }
        }
    }
}

proof fn lemma_times(cx: Context, combat: bool, args: Seq<Spanned<ExprView>>, k: int)
    requires
        2 <= k <= args.len(),
    ensures
        ({
            let g = anim::gathered(cx, combat, args, k);
            &&& (forall|i: int| 2 <= i < k ==> !#[trigger] is_call(args, i, "TransTime"@))
                ==> g.transition == (if combat {
                Some(1i32)
            } else {
                None
            })
            &&& (forall|i: int| 2 <= i < k ==> !#[trigger] is_call(args, i, "Delay"@)) ==> g.delay
                == (if combat {
                Some(0i32)
            } else {
                None
            })
            &&& forall|i: int|
                2 <= i < k && #[trigger] is_call(args, i, "TransTime"@) && (forall|j: int|
                    i < j < k ==> !#[trigger] is_call(args, j, "TransTime"@)) ==> (
                g.transition matches Some(n) && says_number(
                    cx,
                    args[i].value->Constructor_0.arguments,
                    0,
                    n,
                ))
            &&& forall|i: int|
                2 <= i < k && #[trigger] is_call(args, i, "Delay"@) && (forall|j: int|
                    i < j < k ==> !#[trigger] is_call(args, j, "Delay"@)) ==> (g.delay
                    matches Some(n) && says_number(
                    cx,
                    args[i].value->Constructor_0.arguments,
                    0,
                    n,
                ))
        }),
    decreases k,
{
    if k > 2 {
        lemma_times(cx, combat, args, k - 1);
        lemma_component_names();
        let b = anim::gathered(cx, combat, args, k - 1);
        let g = anim::gathered(cx, combat, args, k);
        assert(is_call(args, k - 1, "TransTime"@) ==> g.delay == b.delay);
        assert(is_call(args, k - 1, "Delay"@) ==> g.transition == b.transition);
        assert(!is_call(args, k - 1, "TransTime"@) ==> g.transition == b.transition);
        assert(!is_call(args, k - 1, "Delay"@) ==> g.delay == b.delay);
    }
}

/// An animation has a component for each constructor behind its name and its index, with what
/// the constructor says, and no other; the components stand in ascending order of kind. A
/// transition and a delay are there where a constructor gives one, the last one counting; a
/// combat animation has a transition of 1 and a delay of 0 where none does.
pub proof fn an_animation_has_its_components(
    cx: Context,
    key: Seq<char>,
    combat: bool,
    group: i32,
    args: Seq<Spanned<ExprView>>,
    i: int,
)
    requires
        2 <= i < args.len(),
    ensures
        ({
            let v = anim::animation(cx, key, combat, group, args).entry.components;
            &&& forall|a: int, b: int|
                0 <= a <= b < v.len() ==> anim::tag(#[trigger] v[a]) <= anim::tag(#[trigger] v[b])
            &&& (args[i].value matches ExprView::Constructor(c) && is_component(c.name)) ==> exists|
                x: ComponentView,
            |
                v.contains(x) && #[trigger] says_component(cx, args[i].value->Constructor_0, x)
            &&& forall|x: ComponentView| #[trigger]
                v.contains(x) && !(x is Transition) && !(x is Delay) ==> exists|j: int|
                    2 <= j < args.len() && #[trigger] args[j].value is Constructor
                        && says_component(cx, args[j].value->Constructor_0, x)
            &&& (is_call(args, i, "TransTime"@) && forall|j: int|
                i < j < args.len() ==> !#[trigger] is_call(args, j, "TransTime"@)) ==> exists|n: i32|
                v.contains(ComponentView::Transition { time: n }) && #[trigger] says_number(
                    cx,
                    args[i].value->Constructor_0.arguments,
                    0,
                    n,
                )
            &&& (is_call(args, i, "Delay"@) && forall|j: int|
                i < j < args.len() ==> !#[trigger] is_call(args, j, "Delay"@)) ==> exists|n: i32|
                v.contains(ComponentView::Delay { delay: n }) && #[trigger] says_number(
                    cx,
                    args[i].value->Constructor_0.arguments,
                    0,
                    n,
                )
            &&& (combat && forall|j: int|
                2 <= j < args.len() ==> !#[trigger] is_call(args, j, "TransTime"@)) ==> v.contains(
                ComponentView::Transition { time: 1 },
            )
            &&& (combat && forall|j: int|
                2 <= j < args.len() ==> !#[trigger] is_call(args, j, "Delay"@)) ==> v.contains(
                ComponentView::Delay { delay: 0 },
            )
            &&& (!combat && forall|j: int|
                2 <= j < args.len() ==> !#[trigger] is_call(args, j, "TransTime"@)) ==> forall|
                n: i32,
            | !#[trigger] v.contains(ComponentView::Transition { time: n })
        }),
{
    let g = anim::gathered(cx, combat, args, args.len() as int);
    lemma_gathered(cx, combat, args, args.len() as int);
    lemma_times(cx, combat, args, args.len() as int);
    let v = anim::animation(cx, key, combat, group, args).entry.components;
    let first = match g.transition {
        Some(time) => seq![ComponentView::Transition { time }],
        None => Seq::empty(),
    };
    let second = match g.delay {
        Some(delay) => first.push(ComponentView::Delay { delay }),
        None => first,
    };
    let all = second + g.rest;
    order::order_keeps_the_values::<Component>(all);
    assert(v == order::in_order::<Component>(all));
    assert forall|x: ComponentView| #[trigger] v.contains(x) <==> all.contains(x) by {
        broadcast use vstd::seq_lib::group_to_multiset_ensures;

        assert(v.to_multiset().contains(x) <==> v.contains(x));
        assert(all.to_multiset().contains(x) <==> all.contains(x));
    }
    assert forall|a: int, b: int| 0 <= a <= b < v.len() implies anim::tag(#[trigger] v[a])
        <= anim::tag(#[trigger] v[b]) by {
        assert(order::at_most(
            <Component as order::Ranked>::rank(v[a]),
            <Component as order::Ranked>::rank(v[b]),
        ));
    }
    assert forall|x: ComponentView| #[trigger] g.rest.contains(x) implies all.contains(x) by {
        let p = choose|p: int| 0 <= p < g.rest.len() && g.rest[p] == x;
        assert(all[second.len() + p] == x);
    }
    assert forall|x: ComponentView| #[trigger]
        all.contains(x) && !(x is Transition) && !(x is Delay) implies g.rest.contains(x) by {
        let p = choose|p: int| 0 <= p < all.len() && all[p] == x;
        assert(p >= second.len());
        assert(g.rest[p - second.len()] == x);
    }
    if let Some(time) = g.transition {
        assert(all[0] == ComponentView::Transition { time });
        assert(all.contains(ComponentView::Transition { time }));
        assert(v.contains(ComponentView::Transition { time }));
    } else {
        assert forall|n: i32| !#[trigger] v.contains(ComponentView::Transition { time: n }) by {
            let x = ComponentView::Transition { time: n };
            if v.contains(x) {
                assert(all.contains(x));
                let p = choose|p: int| 0 <= p < all.len() && all[p] == x;
                assert(p >= second.len());
                assert(g.rest[p - second.len()] == x);
                assert(g.rest.contains(x));
            }
        }
    }
    if let Some(delay) = g.delay {
        assert(all[second.len() - 1] == ComponentView::Delay { delay });
        assert(all.contains(ComponentView::Delay { delay }));
        assert(v.contains(ComponentView::Delay { delay }));
    }
    if let ExprView::Constructor(c) = args[i].value {
        if is_component(c.name) {
            let x = choose|x: ComponentView| #[trigger]
                g.rest.contains(x) && says_component(cx, args[i].value->Constructor_0, x);
            assert(all.contains(x));
            assert(v.contains(x));
        }
    }
    assert forall|x: ComponentView| #[trigger]
        v.contains(x) && !(x is Transition) && !(x is Delay) implies exists|j: int|
        2 <= j < args.len() && #[trigger] args[j].value is Constructor && says_component(
            cx,
            args[j].value->Constructor_0,
            x,
        ) by {
        assert(all.contains(x));
        assert(g.rest.contains(x));
    }
}

} // verus!
