//! Changes to the fields of a definition behind its statements.

use vstd::prelude::*;

use crate::crc32;
use crate::crc32::crc_text;
use crate::lower::anim::AnimDefaultOverrides;
use crate::order;
use crate::order::{sort, Ranked};
use crate::text::base;
use crate::value;
use crate::value::{
    find_member, number_of, same_value, set_member, ListView, MapView, Mapping, Member, MemberView,
    Pair, PairView, Scalar, ScalarView, StructView, Value, ValueView,
};

verus! {

broadcast use base::group_views;

// ── Members ──────────────────────────────────────────────────────────────────

/// The fields with the member `inner` of the structure `outer` set.
pub open spec fn with_inner(
    v: Seq<MemberView>,
    outer: Seq<char>,
    inner: Seq<char>,
    x: ValueView,
) -> Seq<MemberView> {
    match value::member(v, outer) {
        Some(ValueView::Struct(s)) => value::with_member(
            v,
            outer,
            ValueView::Struct(
                StructView { members: value::with_member(s.members, inner, x), ..s },
            ),
        ),
        _ => v,
    }
}

fn set_inner(v: &mut Vec<Member>, outer: &str, inner: &str, x: Value)
    ensures
        base::views(final(v)@) == with_inner(base::views(old(v)@), outer@, inner@, x@),
{
    let ghost before = base::views(v@);
    match find_member(v, outer) {
        Some(i) => {
            proof {
                assert(before[i as int] == v@[i as int]@);
                value::lemma_value_view(v@[i as int].value);
            }
            match &mut v[i].value {
                Value::Struct(s) => set_member(&mut s.members, inner, x),
                _ => {},
            }
            proof {
                value::lemma_value_view(v@[i as int].value);
                assert(base::views(v@) =~= before.update(
                    i as int,
                    MemberView { name: before[i as int].name, value: v@[i as int].value@ },
                ));
                assert(base::views(v@) =~= with_inner(before, outer@, inner@, x@));
            }
        },
        None => {},
    }
}

/// The fields with the defaults of animations, where calls set them.
pub open spec fn with_animation_defaults(v: Seq<MemberView>, d: AnimDefaultOverrides) -> Seq<
    MemberView,
> {
    let delayed = match d.delay {
        Some(n) => with_inner(
            v,
            "Animation"@,
            "DefaultDelay"@,
            ValueView::Scalar(ScalarView::U32(n)),
        ),
        None => v,
    };
    match d.group {
        Some(n) => with_inner(
            delayed,
            "Animation"@,
            "DefaultGroup"@,
            ValueView::Scalar(ScalarView::I32(n)),
        ),
        None => delayed,
    }
}

/// Sets the defaults of animations.
pub fn set_animation_defaults(v: &mut Vec<Member>, d: AnimDefaultOverrides)
    ensures
        base::views(final(v)@) == with_animation_defaults(base::views(old(v)@), d),
{
    match d.delay {
        Some(n) => {
            let x = Value::Scalar(Scalar::U32(n));
            proof {
                value::lemma_value_view(x);
            }
            set_inner(v, "Animation", "DefaultDelay", x);
        },
        None => {},
    }
    match d.group {
        Some(n) => {
            let x = Value::Scalar(Scalar::I32(n));
            proof {
                value::lemma_value_view(x);
            }
            set_inner(v, "Animation", "DefaultGroup", x);
        },
        None => {},
    }
}

/// The fields with `to` set to what `from` is.
pub open spec fn with_copy(v: Seq<MemberView>, from: Seq<char>, to: Seq<char>) -> Seq<MemberView> {
    match value::member(v, from) {
        Some(x) => value::with_member(v, to, x),
        None => v,
    }
}

/// Sets `to` to what `from` is.
pub fn copy_member(v: &mut Vec<Member>, from: &str, to: &str)
    ensures
        base::views(final(v)@) == with_copy(base::views(old(v)@), from@, to@),
{
    match find_member(v, from) {
        Some(i) => {
            assert(base::views(v@)[i as int] == v@[i as int]@);
            let x = v[i].value.clone();
            set_member(v, to, x);
        },
        None => {},
    }
}

/// The number that the field `name` is, as a byte.
pub open spec fn byte_of(v: Seq<MemberView>, name: Seq<char>) -> u8 {
    match value::member(v, name) {
        Some(x) => value::number(x) as u8,
        None => 0,
    }
}

/// The number that the field `name` is, as a byte.
pub fn member_byte(v: &Vec<Member>, name: &str) -> (r: u8)
    ensures
        r == byte_of(base::views(v@), name@),
{
    match find_member(v, name) {
        Some(i) => {
            assert(base::views(v@)[i as int] == v@[i as int]@);
            number_of(&v[i].value) as u8
        },
        None => 0,
    }
}

// ── Orders ───────────────────────────────────────────────────────────────────

/// The fields with the map `name` in ascending order of key.
pub open spec fn with_sorted(v: Seq<MemberView>, name: Seq<char>) -> Seq<MemberView> {
    match value::member(v, name) {
        Some(ValueView::Mapping(m)) => value::with_member(
            v,
            name,
            ValueView::Mapping(m.sorted()),
        ),
        _ => v,
    }
}

fn sort_map(v: &mut Vec<Member>, name: &str)
    ensures
        base::views(final(v)@) == with_sorted(base::views(old(v)@), name@),
{
    let ghost before = base::views(v@);
    match find_member(v, name) {
        Some(i) => {
            proof {
                assert(before[i as int] == v@[i as int]@);
                value::lemma_value_view(v@[i as int].value);
            }
            match &mut v[i].value {
                Value::Mapping(m) => m.sort(),
                _ => {},
            }
            proof {
                value::lemma_value_view(v@[i as int].value);
                assert(base::views(v@) =~= before.update(
                    i as int,
                    MemberView { name: before[i as int].name, value: v@[i as int].value@ },
                ));
                assert(base::views(v@) =~= with_sorted(before, name@));
            }
        },
        None => {},
    }
}

/// The fields of a reaction manager with its maps in ascending order of key.
pub open spec fn with_reaction_order(v: Seq<MemberView>) -> Seq<MemberView> {
    let v = with_sorted(v, "AttitudeCondition"@);
    let v = with_sorted(v, "TargetingCondition"@);
    let v = with_sorted(v, "PreReactionDelay"@);
    let v = with_sorted(v, "ToleranceToBeingHit"@);
    let v = with_sorted(v, "BlockFurtherReactions"@);
    let v = with_sorted(v, "AllowSpeechOnNonPureAISpeaker"@);
    let v = with_sorted(v, "AllowWhileCarrying"@);
    with_sorted(v, "AllowWhileFollowingPlayer"@)
}

/// Puts the maps of a reaction manager in ascending order of key.
pub fn sort_reaction_maps(v: &mut Vec<Member>)
    ensures
        base::views(final(v)@) == with_reaction_order(base::views(old(v)@)),
{
    sort_map(v, "AttitudeCondition");
    sort_map(v, "TargetingCondition");
    sort_map(v, "PreReactionDelay");
    sort_map(v, "ToleranceToBeingHit");
    sort_map(v, "BlockFurtherReactions");
    sort_map(v, "AllowSpeechOnNonPureAISpeaker");
    sort_map(v, "AllowWhileCarrying");
    sort_map(v, "AllowWhileFollowingPlayer");
}

/// The checksum of a key that is text; 0 for another.
pub open spec fn key_checksum(key: ValueView) -> u32 {
    match key {
        ValueView::Scalar(ScalarView::Str(text)) => crc32::text_checksum(text),
        _ => 0,
    }
}

/// An entry that is ordered by the checksum of its key.
pub struct Checked {
    pub pair: Pair,
}

impl View for Checked {
    type V = PairView;

    open spec fn view(&self) -> PairView {
        self.pair@
    }
}

impl Ranked for Checked {
    open spec fn rank(v: PairView) -> (int, int) {
        (key_checksum(v.key) as int, 0)
    }

    fn rank_of(&self) -> (r: (i128, i128)) {
        proof {
            value::lemma_value_view(self.pair.key);
        }
        let n: i128 = match &self.pair.key {
            Value::Scalar(Scalar::Str(text)) => crc_text(text.as_str()) as i128,
            _ => 0,
        };
        (n, 0)
    }
}

/// A map with its entries in ascending order of the checksums of their keys.
pub open spec fn checksum_order(m: MapView) -> MapView {
    MapView { entries: order::in_order::<Checked>(m.entries), ..m }
}

fn sort_by_checksum(m: &mut Mapping)
    ensures
        final(m)@ == checksum_order(old(m)@),
{
    let ghost all = base::views(m.entries@);
    let mut checked: Vec<Checked> = Vec::new();
    let mut k: usize = 0;
    while k < m.entries.len()
        invariant
            k <= m.entries@.len(),
            *m == *old(m),
            all == base::views(m.entries@),
            base::views(checked@) == all.take(k as int),
        decreases m.entries@.len() - k,
    {
        let p = &m.entries[k];
        checked.push(Checked { pair: Pair { key: p.key.clone(), value: p.value.clone() } });
        assert(all[k as int] == m.entries@[k as int]@);
        assert(all.take(k as int + 1) =~= all.take(k as int).push(all[k as int]));
        k = k + 1;
    }
    assert(all.take(m.entries@.len() as int) =~= all);
    let sorted = sort(checked);
    let ghost whole = base::views(sorted@);
    let mut entries: Vec<Pair> = Vec::new();
    let mut k: usize = 0;
    while k < sorted.len()
        invariant
            k <= sorted@.len(),
            whole == base::views(sorted@),
            base::views(entries@) == whole.take(k as int),
        decreases sorted@.len() - k,
    {
        let p = &sorted[k].pair;
        entries.push(Pair { key: p.key.clone(), value: p.value.clone() });
        assert(whole[k as int] == sorted@[k as int]@);
        assert(whole.take(k as int + 1) =~= whole.take(k as int).push(whole[k as int]));
        k = k + 1;
    }
    assert(whole.take(sorted@.len() as int) =~= whole);
    m.entries = entries;
}

/// A value that is a map, or a structure whose first member is one, with the map in
/// order of the checksums of its keys.
pub open spec fn in_checksum_order(v: ValueView) -> ValueView {
    match v {
        ValueView::Mapping(m) => ValueView::Mapping(checksum_order(m)),
        ValueView::Struct(s) => if s.members.len() > 0 && s.members[0].value is Mapping {
            let m = s.members[0].value->Mapping_0;
            ValueView::Struct(
                StructView {
                    members: s.members.update(
                        0,
                        MemberView {
                            name: s.members[0].name,
                            value: ValueView::Mapping(checksum_order(m)),
                        },
                    ),
                    ..s
                },
            )
        } else {
            v
        },
        _ => v,
    }
}

/// The fields with the map `name` in order of the checksums of its keys.
pub open spec fn with_checksum_order(v: Seq<MemberView>, name: Seq<char>) -> Seq<MemberView> {
    match value::member(v, name) {
        Some(x) => value::with_member(v, name, in_checksum_order(x)),
        None => v,
    }
}

fn order_value(v: &mut Value)
    ensures
        final(v)@ == in_checksum_order(old(v)@),
{
    proof {
        value::lemma_value_view(*v);
    }
    match v {
        Value::Mapping(m) => sort_by_checksum(m),
        Value::Struct(s) => {
            if s.members.len() > 0 {
                let ghost before = base::views(s.members@);
                proof {
                    assert(before[0] == s.members@[0]@);
                    value::lemma_value_view(s.members@[0].value);
                }
                match &mut s.members[0].value {
                    Value::Mapping(m) => sort_by_checksum(m),
                    _ => {},
                }
                proof {
                    value::lemma_value_view(s.members@[0].value);
                    assert(base::views(s.members@) =~= before.update(
                        0,
                        MemberView { name: before[0].name, value: s.members@[0].value@ },
                    ));
                    if before[0].value !is Mapping {
                        assert(base::views(s.members@) =~= before);
                    }
                }
            }
        },
        _ => {},
    }
    proof {
        value::lemma_value_view(*v);
    }
}

fn order_map(v: &mut Vec<Member>, name: &str)
    ensures
        base::views(final(v)@) == with_checksum_order(base::views(old(v)@), name@),
{
    let ghost before = base::views(v@);
    match find_member(v, name) {
        Some(i) => {
            assert(before[i as int] == v@[i as int]@);
            order_value(&mut v[i].value);
            assert(base::views(v@) =~= with_checksum_order(before, name@));
        },
        None => {},
    }
}

/// The fields of the player's interface with its maps in the order in which they are
/// stored: by the checksums of their keys.
pub open spec fn with_gui_order(v: Seq<MemberView>) -> Seq<MemberView> {
    let v = with_checksum_order(v, "ScriptSprites"@);
    let v = with_checksum_order(v, "GameActionValues"@);
    with_checksum_order(v, "MiniMapGraphics"@)
}

/// Puts the maps of the player's interface in order of the checksums of their keys.
pub fn sort_gui_maps(v: &mut Vec<Member>)
    ensures
        base::views(final(v)@) == with_gui_order(base::views(old(v)@)),
{
    order_map(v, "ScriptSprites");
    order_map(v, "GameActionValues");
    order_map(v, "MiniMapGraphics");
}

// ── Lists without repetition ─────────────────────────────────────────────────

/// The first `k` values without those that are equal to the one before.
pub open spec fn unrepeated(v: Seq<ValueView>, k: int) -> Seq<ValueView>
    decreases k,
{
    if k <= 0 || k > v.len() {
        Seq::empty()
    } else if k >= 2 && v[k - 1] == v[k - 2] {
        unrepeated(v, k - 1)
    } else {
        unrepeated(v, k - 1).push(v[k - 1])
    }
}

/// A list in ascending order, each value once.
pub open spec fn as_set(l: ListView) -> ListView {
    let v = order::in_order::<Value>(l.items);
    ListView { items: unrepeated(v, v.len() as int), ..l }
}

/// The fields with the list `name` in ascending order, each value once.
pub open spec fn with_set(v: Seq<MemberView>, name: Seq<char>) -> Seq<MemberView> {
    match value::member(v, name) {
        Some(ValueView::List(l)) => value::with_member(v, name, ValueView::List(as_set(l))),
        _ => v,
    }
}

fn drop_repeated(v: &Vec<Value>) -> (r: Vec<Value>)
    ensures
        base::views(r@) == unrepeated(base::views(v@), v@.len() as int),
{
    let ghost all = base::views(v@);
    let mut out: Vec<Value> = Vec::new();
    let mut k: usize = 0;
    while k < v.len()
        invariant
            k <= v@.len(),
            all == base::views(v@),
            base::views(out@) == unrepeated(all, k as int),
        decreases v@.len() - k,
    {
        assert(all[k as int] == v@[k as int]@);
        let mut repeated = false;
        if k >= 1 {
            assert(all[k - 1] == v@[k - 1]@);
            repeated = same_value(&v[k], &v[k - 1]);
        }
        if !repeated {
            out.push(v[k].clone());
        }
        k = k + 1;
    }
    out
}

/// Puts the list `name` in ascending order, each value once.
pub fn make_set(v: &mut Vec<Member>, name: &str)
    ensures
        base::views(final(v)@) == with_set(base::views(old(v)@), name@),
{
    let ghost before = base::views(v@);
    match find_member(v, name) {
        Some(i) => {
            proof {
                assert(before[i as int] == v@[i as int]@);
                value::lemma_value_view(v@[i as int].value);
            }
            match &mut v[i].value {
                Value::List(l) => {
                    let mut items: Vec<Value> = Vec::new();
                    std::mem::swap(&mut items, &mut l.items);
                    let sorted = sort(items);
                    l.items = drop_repeated(&sorted);
                },
                _ => {},
            }
            proof {
                value::lemma_value_view(v@[i as int].value);
                assert(base::views(v@) =~= before.update(
                    i as int,
                    MemberView { name: before[i as int].name, value: v@[i as int].value@ },
                ));
                assert(base::views(v@) =~= with_set(before, name@));
            }
        },
        None => {},
    }
}

// ── Laws ─────────────────────────────────────────────────────────────────────

proof fn lemma_unrepeated(v: Seq<ValueView>, k: int)
    requires
        0 <= k <= v.len(),
    ensures
        unrepeated(v, k).len() <= k,
        k > 0 ==> unrepeated(v, k).len() > 0 && unrepeated(v, k).last() == v[k - 1],
        forall|i: int|
            0 < i < unrepeated(v, k).len() ==> #[trigger] unrepeated(v, k)[i] != unrepeated(
                v,
                k,
            )[i - 1],
        forall|i: int| 0 <= i < k ==> unrepeated(v, k).contains(#[trigger] v[i]),
        forall|i: int| 0 <= i < unrepeated(v, k).len() ==> v.contains(#[trigger] unrepeated(v, k)[i]),
    decreases k,
{
    if 0 < k {
        lemma_unrepeated(v, k - 1);
        let before = unrepeated(v, k - 1);
        let after = unrepeated(v, k);
        if k >= 2 && v[k - 1] == v[k - 2] {
            assert(before.contains(v[k - 2]));
        } else {
            assert(after[before.len() as int] == v[k - 1]);
            assert forall|i: int| 0 <= i < k implies after.contains(#[trigger] v[i]) by {
                if i < k - 1 {
                    assert(before.contains(v[i]));
                    let p = before.index_of(v[i]);
                    assert(after[p] == v[i]);
                }
            }
        }
    }
}

/// A list made a set holds the values that it held, and no value next to an equal one.
pub proof fn a_set_holds_the_same_values(l: ListView)
    ensures
        forall|x: ValueView| as_set(l).items.contains(x) == #[trigger] l.items.contains(x),
        forall|i: int|
            0 < i < as_set(l).items.len() ==> #[trigger] as_set(l).items[i] != as_set(l).items[i
                - 1],
{
    let v = order::in_order::<Value>(l.items);
    let u = unrepeated(v, v.len() as int);
    order::order_keeps_the_values::<Value>(l.items);
    lemma_unrepeated(v, v.len() as int);
    assert forall|x: ValueView| u.contains(x) == #[trigger] l.items.contains(x) by {
        v.to_multiset_ensures();
        l.items.to_multiset_ensures();
        assert(v.contains(x) == l.items.contains(x)) by {
            assert(v.to_multiset().count(x) == l.items.to_multiset().count(x));
        }
        if v.contains(x) {
            let i = v.index_of(x);
            assert(u.contains(v[i]));
        }
        if u.contains(x) {
            let i = u.index_of(x);
            assert(v.contains(u[i]));
        }
    }
}

} // verus!
