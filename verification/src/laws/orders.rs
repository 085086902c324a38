//! Maps and lists that are put in order once they are built.

use vstd::prelude::*;

use super::members;
use crate::lower::patch;
use crate::lower::patch::Checked;
use crate::order;
use crate::value;
use crate::value::{MapView, MemberView, Pair, ScalarView, ValueView};

verus! {

/// Whether a map is in ascending order of key.
pub open spec fn by_key(m: MapView) -> bool {
    forall|a: int, b: int|
        0 <= a < b < m.entries.len() ==> value::number((#[trigger] m.entries[a]).key)
            <= value::number((#[trigger] m.entries[b]).key)
}

/// Whether one map has the entries of the other.
pub open spec fn same_entries(a: MapView, b: MapView) -> bool {
    a.entries.to_multiset() == b.entries.to_multiset()
}

/// Whether a field is a map that reactions are ordered by.
pub open spec fn of_reactions(name: Seq<char>) -> bool {
    ||| name == "AttitudeCondition"@
    ||| name == "TargetingCondition"@
    ||| name == "PreReactionDelay"@
    ||| name == "ToleranceToBeingHit"@
    ||| name == "BlockFurtherReactions"@
    ||| name == "AllowSpeechOnNonPureAISpeaker"@
    ||| name == "AllowWhileCarrying"@
    ||| name == "AllowWhileFollowingPlayer"@
}

/// Whether `w` is `v`, or differs from it only in that a map has been put in order.
spec fn kept(v: Option<ValueView>, w: Option<ValueView>) -> bool {
    w == v || (v matches Some(ValueView::Mapping(m)) && w matches Some(ValueView::Mapping(n))
        && same_entries(m, n) && by_key(n))
}

spec fn sorted_there(w: Option<ValueView>) -> bool {
    w matches Some(ValueView::Mapping(n)) ==> by_key(n)
}

proof fn lemma_sorted(v: Seq<MemberView>, name: Seq<char>, other: Seq<char>)
    ensures
        ({
            let w = patch::with_sorted(v, name);
            &&& kept(value::member(v, other), value::member(w, other))
            &&& other != name ==> value::member(w, other) == value::member(v, other)
            &&& other == name ==> sorted_there(value::member(w, other))
        }),
{
    if let Some(ValueView::Mapping(m)) = value::member(v, name) {
        order::order_keeps_the_values::<Pair>(m.entries);
        members::setting_a_member_sets_that_one(v, name, ValueView::Mapping(m.sorted()), other);
        assert(by_key(m.sorted()));
        assert(same_entries(m, m.sorted()));
    }
}

/// The maps of a manager of reactions are put in ascending order of key and keep their
/// entries, and no other field changes.
pub proof fn the_maps_of_reactions_ascend(v: Seq<MemberView>, name: Seq<char>)
    ensures
        ({
            let w = patch::with_reaction_order(v);
            &&& !of_reactions(name) ==> value::member(w, name) == value::member(v, name)
            &&& (value::member(v, name) matches Some(ValueView::Mapping(m)) ==> (value::member(
                w,
                name,
            ) matches Some(ValueView::Mapping(n)) && same_entries(m, n) && (of_reactions(name)
                ==> by_key(n))))
            &&& !(value::member(v, name) matches Some(ValueView::Mapping(_))) ==> value::member(
                w,
                name,
            ) == value::member(v, name)
        }),
{
    let a = patch::with_sorted(v, "AttitudeCondition"@);
    let b = patch::with_sorted(a, "TargetingCondition"@);
    let c = patch::with_sorted(b, "PreReactionDelay"@);
    let d = patch::with_sorted(c, "ToleranceToBeingHit"@);
    let e = patch::with_sorted(d, "BlockFurtherReactions"@);
    let f = patch::with_sorted(e, "AllowSpeechOnNonPureAISpeaker"@);
    let g = patch::with_sorted(f, "AllowWhileCarrying"@);
    lemma_sorted(v, "AttitudeCondition"@, name);
    lemma_sorted(a, "TargetingCondition"@, name);
    lemma_sorted(b, "PreReactionDelay"@, name);
    lemma_sorted(c, "ToleranceToBeingHit"@, name);
    lemma_sorted(d, "BlockFurtherReactions"@, name);
    lemma_sorted(e, "AllowSpeechOnNonPureAISpeaker"@, name);
    lemma_sorted(f, "AllowWhileCarrying"@, name);
    lemma_sorted(g, "AllowWhileFollowingPlayer"@, name);
}

/// A map by the checksums of its keys is in ascending order of them, and keeps its entries.
pub proof fn maps_are_ordered_by_checksum(m: MapView, a: int, b: int, s: Seq<char>, t: Seq<char>)
    ensures
        same_entries(patch::checksum_order(m), m),
        ({
            let e = patch::checksum_order(m).entries;
            (0 <= a < b < e.len() && e[a].key == ValueView::Scalar(ScalarView::Str(s)) && e[b].key
                == ValueView::Scalar(ScalarView::Str(t))) ==> crate::crc32::text_checksum(s)
                <= crate::crc32::text_checksum(t)
        }),
{
    order::order_keeps_the_values::<Checked>(m.entries);
    let e = patch::checksum_order(m).entries;
    if 0 <= a < b < e.len() {
        assert(order::at_most(
            <Checked as order::Ranked>::rank(e[a]),
            <Checked as order::Ranked>::rank(e[b]),
        ));
    }
}

/// The maps of the player's interface are put in order of the checksums of their keys, and no
/// other field changes.
pub proof fn the_maps_of_the_interface_are_ordered(v: Seq<MemberView>, name: Seq<char>)
    ensures
        ({
            let w = patch::with_gui_order(v);
            let ordered = name == "ScriptSprites"@ || name == "GameActionValues"@ || name
                == "MiniMapGraphics"@;
            &&& !ordered ==> value::member(w, name) == value::member(v, name)
            &&& ordered ==> (value::member(v, name) matches Some(x) ==> value::member(w, name)
                == Some(patch::in_checksum_order(x)))
        }),
{
    reveal_strlit("ScriptSprites");
    reveal_strlit("GameActionValues");
    reveal_strlit("MiniMapGraphics");
    assert("ScriptSprites"@.len() == 13 && "GameActionValues"@.len() == 16 && "MiniMapGraphics"@
        .len() == 15);
    let a = patch::with_checksum_order(v, "ScriptSprites"@);
    let b = patch::with_checksum_order(a, "GameActionValues"@);
    lemma_checked(v, "ScriptSprites"@, name);
    lemma_checked(a, "GameActionValues"@, name);
    lemma_checked(b, "MiniMapGraphics"@, name);
}

proof fn lemma_checked(v: Seq<MemberView>, name: Seq<char>, other: Seq<char>)
    ensures
        ({
            let w = patch::with_checksum_order(v, name);
            &&& other != name ==> value::member(w, other) == value::member(v, other)
            &&& other == name ==> (value::member(v, name) matches Some(x) ==> value::member(w, name)
                == Some(patch::in_checksum_order(x)))
        }),
{
    if let Some(x) = value::member(v, name) {
        members::setting_a_member_sets_that_one(v, name, patch::in_checksum_order(x), other);
    }
}

} // verus!
