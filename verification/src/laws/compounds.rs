//! Compounds and choices, and the constructors that set them.

use vstd::prelude::*;

use crate::eval;
use crate::eval::EvalErrorView;
use crate::lower::construct;
use crate::lower::env;
use crate::lower::env::{Context, LowerErrorView};
use crate::lower::fields;
use crate::single::Single;
use crate::text::ast::ExprView;
use crate::text::base::Spanned;
use crate::value::{
    CaseView, ChoiceView, ListView, MapView, MemberView, ScalarView, StructView, ValueView,
};

verus! {

/// The expression `name(args)`.
pub open spec fn constructs(e: ExprView, args: Seq<Spanned<ExprView>>) -> bool {
    e matches ExprView::Constructor(c) && c.arguments == args
}

/// Whether `x` is `v` set from the expression `e`.
pub open spec fn set_from(cx: Context, v: ValueView, e: Spanned<ExprView>, x: ValueView) -> bool {
    construct::from_expr(cx, v, e) == Ok::<ValueView, (ValueView, LowerErrorView)>(x)
}

/// Whether a constructor of the class takes the members in turn.
pub open spec fn takes_members_in_turn(class: Seq<char>) -> bool {
    &&& class != "RGBColour"@
    &&& class != "BlendedParticleEffectSet"@
    &&& class != "ObjectAugmentationParticleSet"@
    &&& class != "ExplosionRing"@
    &&& class != "ParticleAttachmentInfo"@
    &&& class != "AttackHistoryCombo"@
}

// ── Members in turn ──────────────────────────────────────────────────────────

spec fn no_containers(v: Seq<MemberView>) -> bool {
    forall|i: int|
        0 <= i < v.len() ==> !((#[trigger] v[i]).value is List) && !(v[i].value is Mapping)
}

proof fn lemma_kind_kept(cx: Context, v: ValueView, e: Spanned<ExprView>)
    requires
        !(v is List),
        !(v is Mapping),
    ensures
        construct::from_expr(cx, v, e) matches Ok(x) ==> !(x is List) && !(x is Mapping),
{
}

proof fn lemma_positional(
    cx: Context,
    v: Seq<MemberView>,
    args: Seq<Spanned<ExprView>>,
    i: int,
)
    requires
        0 <= i <= v.len(),
        no_containers(v),
    ensures
        construct::positional(cx, v, args, i) matches Ok(w) ==> {
            &&& w.len() == v.len()
            &&& forall|j: int| 0 <= j < v.len() ==> (#[trigger] w[j]).name == v[j].name
            &&& forall|j: int|
                i <= j < v.len() && j < args.len() ==> set_from(
                    cx,
                    v[j].value,
                    args[j],
                    (#[trigger] w[j]).value,
                )
            &&& forall|j: int|
                0 <= j < v.len() && (j < i || j >= args.len()) ==> #[trigger] w[j] == v[j]
        },
        (forall|j: int|
            i <= j < v.len() && j < args.len() ==> construct::from_expr(
                cx,
                (#[trigger] v[j]).value,
                args[j],
            ) is Ok) ==> construct::positional(cx, v, args, i) is Ok,
    decreases v.len() - i,
{
    if i < v.len() && i < args.len() {
        assert(!(v[i].value is List) && !(v[i].value is Mapping));
        lemma_kind_kept(cx, v[i].value, args[i]);
        if let Ok(x) = construct::from_expr(cx, v[i].value, args[i]) {
            let next = construct::with_value(v, i, x);
            lemma_positional(cx, next, args, i + 1);
            if let Ok(w) = construct::positional(cx, next, args, i + 1) {
                assert forall|j: int| i <= j < v.len() && j < args.len() implies set_from(
                    cx,
                    v[j].value,
                    args[j],
                    (#[trigger] w[j]).value,
                ) by {
                    if j > i {
                        assert(next[j] == v[j]);
                    } else {
                        assert(w[i] == next[i]);
                    }
                }
            }
            if forall|j: int|
                i <= j < v.len() && j < args.len() ==> construct::from_expr(
                    cx,
                    (#[trigger] v[j]).value,
                    args[j],
                ) is Ok {
                assert forall|j: int| i + 1 <= j < next.len() && j < args.len() implies construct::from_expr(
                    cx,
                    (#[trigger] next[j]).value,
                    args[j],
                ) is Ok by {
                    assert(next[j] == v[j]);
                }
            }
        }
    }
}

/// A constructor sets the members of a compound in turn, each from the argument at its place:
/// `C(a, b)` sets the first member from `a` and the second from `b`, and leaves those behind
/// as they are. It succeeds where every argument can be read as its member.
pub proof fn a_constructor_sets_members_in_turn(
    cx: Context,
    s: StructView,
    e: Spanned<ExprView>,
    args: Seq<Spanned<ExprView>>,
)
    requires
        constructs(e.value, args),
        takes_members_in_turn(s.class),
        !(s.members.len() == 1 && s.members[0].value is Variant),
        forall|i: int|
            0 <= i < s.members.len() ==> !((#[trigger] s.members[i]).value is List) && !(
            s.members[i].value is Mapping),
    ensures
        construct::from_expr(cx, ValueView::Struct(s), e) matches Ok(r) ==> {
            &&& r matches ValueView::Struct(t)
            &&& t.class == s.class && t.named == s.named
            &&& t.members.len() == s.members.len()
            &&& forall|j: int|
                0 <= j < s.members.len() ==> (#[trigger] t.members[j]).name == s.members[j].name
            &&& forall|j: int|
                0 <= j < s.members.len() && j < args.len() ==> set_from(
                    cx,
                    s.members[j].value,
                    args[j],
                    (#[trigger] t.members[j]).value,
                )
            &&& forall|j: int|
                args.len() <= j < s.members.len() ==> #[trigger] t.members[j] == s.members[j]
        },
        (forall|j: int|
            0 <= j < s.members.len() && j < args.len() ==> construct::from_expr(
                cx,
                (#[trigger] s.members[j]).value,
                args[j],
            ) is Ok) ==> construct::from_expr(cx, ValueView::Struct(s), e) is Ok,
{
    lemma_positional(cx, s.members, args, 0);
    assert(construct::by_class(cx, s.class, s.members, args) is None);
    assert(construct::struct_from(cx, s, e) == (match construct::positional(
        cx,
        s.members,
        args,
        0,
    ) {
        Ok(members) => Ok(StructView { members, ..s }),
        Err((members, x)) => Err::<StructView, (StructView, LowerErrorView)>(
            (StructView { members, ..s }, x),
        ),
    }));
}

/// What is no constructor does not set a compound or a choice, and no expression sets a
/// container as a whole.
pub proof fn compounds_need_a_constructor(
    cx: Context,
    s: StructView,
    c: ChoiceView,
    l: ListView,
    m: MapView,
    e: Spanned<ExprView>,
)
    ensures
        !(e.value is Constructor) ==> construct::from_expr(cx, ValueView::Struct(s), e) is Err,
        !(e.value is Constructor) ==> construct::from_expr(cx, ValueView::Variant(c), e) is Err,
        construct::from_expr(cx, ValueView::List(l), e) is Err,
        construct::from_expr(cx, ValueView::Mapping(m), e) is Err,
        construct::from_expr(cx, ValueView::Complex, e) is Err,
        construct::from_expr(cx, ValueView::Array, e) is Err,
{
}

// ── Colours ──────────────────────────────────────────────────────────────────

proof fn lemma_packed(r: u32, g: u32, b: u32, a: u32)
    requires
        r < 256,
        g < 256,
        b < 256,
        a < 256,
    ensures
        construct::packed(r, g, b, a) == a * 0x100_0000 + r * 0x1_0000 + g * 0x100 + b,
{
    assert((a << 24u32) | (r << 16u32) | (g << 8u32) | b == a * 0x100_0000 + r * 0x1_0000 + g
        * 0x100 + b) by (bit_vector)
        requires
            r < 256u32,
            g < 256u32,
            b < 256u32,
            a < 256u32,
    ;
}

/// `CRGBColour(r, g, b)` and `CRGBColour(r, g, b, a)` are one number: alpha counts 2^24, red
/// 2^16, green 2^8 and blue 1. Without an alpha the colour is opaque. With any other number
/// of arguments it is an error.
pub proof fn colours_hold_their_channels(
    cx: Context,
    s: StructView,
    e: Spanned<ExprView>,
    args: Seq<Spanned<ExprView>>,
    c: Seq<int>,
)
    requires
        constructs(e.value, args),
        s.class == "RGBColour"@,
        s.members.len() > 0,
        s.members[0].value matches ValueView::Scalar(x) && x is U32,
        c.len() == args.len(),
        forall|i: int|
            0 <= i < args.len() ==> 0 <= #[trigger] c[i] < 256 && eval::as_i32(
                cx.symbols,
                args[i].value,
            ) == Ok::<i32, EvalErrorView>(c[i] as i32),
    ensures
        ({
            let r = construct::from_expr(cx, ValueView::Struct(s), e);
            if args.len() == 3 || args.len() == 4 {
                let alpha = if args.len() == 4 {
                    c[3]
                } else {
                    255
                };
                let n = alpha * 0x100_0000 + c[0] * 0x1_0000 + c[1] * 0x100 + c[2];
                r == Ok::<ValueView, (ValueView, LowerErrorView)>(
                    ValueView::Struct(
                        StructView {
                            members: s.members.update(
                                0,
                                MemberView {
                                    name: s.members[0].name,
                                    value: ValueView::Scalar(ScalarView::U32(n as u32)),
                                },
                            ),
                            ..s
                        },
                    ),
                )
            } else {
                r is Err
            }
        }),
{
    assert(construct::by_class(cx, s.class, s.members, args) == Some(
        construct::colour(cx, s.members, args),
    ));
    if args.len() == 3 || args.len() == 4 {
        assert(0 <= c[0] < 256 && 0 <= c[1] < 256 && 0 <= c[2] < 256);
        assert(construct::channel(cx, args[0]) == Ok::<u32, LowerErrorView>(c[0] as u32));
        assert(construct::channel(cx, args[1]) == Ok::<u32, LowerErrorView>(c[1] as u32));
        assert(construct::channel(cx, args[2]) == Ok::<u32, LowerErrorView>(c[2] as u32));
        if args.len() == 4 {
            assert(0 <= c[3] < 256);
            assert(construct::channel(cx, args[3]) == Ok::<u32, LowerErrorView>(c[3] as u32));
            lemma_packed(c[0] as u32, c[1] as u32, c[2] as u32, c[3] as u32);
        } else {
            lemma_packed(c[0] as u32, c[1] as u32, c[2] as u32, 255);
        }
    }
}

/// A channel that is set by its name replaces its own byte of the number, and leaves the
/// three others: blue is the lowest byte, then green, red and alpha.
pub proof fn channels_have_their_byte(n: u32, byte: u32)
    requires
        byte < 256,
    ensures
        fields::with_byte(n, byte, 0) == n - n % 0x100 + byte,
        fields::with_byte(n, byte, 8) == n - n % 0x1_0000 + n % 0x100 + byte * 0x100,
        fields::with_byte(n, byte, 16) == n - n % 0x100_0000 + n % 0x1_0000 + byte * 0x1_0000,
        fields::with_byte(n, byte, 24) == n % 0x100_0000 + byte * 0x100_0000,
{
    assert((n & !(0xffu32 << 0u32)) | ((byte & 0xffu32) << 0u32) == n - n % 0x100 + byte) by (bit_vector)
        requires
            byte < 256u32,
    ;
    assert((n & !(0xffu32 << 8u32)) | ((byte & 0xffu32) << 8u32) == n - n % 0x1_0000 + n % 0x100
        + byte * 0x100) by (bit_vector)
        requires
            byte < 256u32,
    ;
    assert((n & !(0xffu32 << 16u32)) | ((byte & 0xffu32) << 16u32) == n - n % 0x100_0000 + n
        % 0x1_0000 + byte * 0x1_0000) by (bit_vector)
        requires
            byte < 256u32,
    ;
    assert((n & !(0xffu32 << 24u32)) | ((byte & 0xffu32) << 24u32) == n % 0x100_0000 + byte
        * 0x100_0000) by (bit_vector)
        requires
            byte < 256u32,
    ;
}

// ── Members in another order ─────────────────────────────────────────────────

proof fn lemma_mapped_four(
    cx: Context,
    v: Seq<MemberView>,
    args: Seq<Spanned<ExprView>>,
    pairs: Seq<(int, int)>,
    message: Seq<char>,
)
    requires
        v.len() == 4,
        args.len() == 4,
        pairs.len() == 4,
        pairs[0].0 == 0,
        pairs[1].0 == 1 || pairs[1].0 == 2,
        pairs[2].0 == 3 - pairs[1].0,
        pairs[3].0 == 3,
        forall|k: int| 0 <= k < 4 ==> 0 <= (#[trigger] pairs[k]).1 < 4,
    ensures
        construct::mapped(cx, v, args, pairs, 0, message) matches Ok(w) ==> {
            &&& w.len() == 4
            &&& forall|k: int|
                0 <= k < 4 ==> set_from(
                    cx,
                    v[(#[trigger] pairs[k]).0].value,
                    args[pairs[k].1],
                    w[pairs[k].0].value,
                )
        },
{
    let (a, b, c, d) = (pairs[0], pairs[1], pairs[2], pairs[3]);
    if let Ok(x0) = construct::from_expr(cx, v[0].value, args[a.1]) {
        let v1 = construct::with_value(v, 0, x0);
        assert(construct::mapped(cx, v, args, pairs, 0, message) == construct::mapped(
            cx,
            v1,
            args,
            pairs,
            1,
            message,
        ));
        assert(v1[b.0] == v[b.0]);
        if let Ok(x1) = construct::from_expr(cx, v1[b.0].value, args[b.1]) {
            let v2 = construct::with_value(v1, b.0, x1);
            assert(construct::mapped(cx, v1, args, pairs, 1, message) == construct::mapped(
                cx,
                v2,
                args,
                pairs,
                2,
                message,
            ));
            assert(v2[c.0] == v[c.0]);
            if let Ok(x2) = construct::from_expr(cx, v2[c.0].value, args[c.1]) {
                let v3 = construct::with_value(v2, c.0, x2);
                assert(construct::mapped(cx, v2, args, pairs, 2, message) == construct::mapped(
                    cx,
                    v3,
                    args,
                    pairs,
                    3,
                    message,
                ));
                assert(v3[3] == v[3]);
                if let Ok(x3) = construct::from_expr(cx, v3[3].value, args[d.1]) {
                    let v4 = construct::with_value(v3, 3, x3);
                    assert(construct::mapped(cx, v3, args, pairs, 3, message) == construct::mapped(
                        cx,
                        v4,
                        args,
                        pairs,
                        4,
                        message,
                    ));
                    assert(construct::mapped(cx, v4, args, pairs, 4, message) == Ok::<
                        Seq<MemberView>,
                        (Seq<MemberView>, LowerErrorView),
                    >(v4));
                }
            }
        }
    }
}

/// Some constructors take their members in another order. A set of blended effects takes its
/// third member second; a ring of an explosion, and what a particle is attached to, take
/// their second member first.
pub proof fn some_constructors_take_another_order(
    cx: Context,
    s: StructView,
    e: Spanned<ExprView>,
    args: Seq<Spanned<ExprView>>,
)
    requires
        constructs(e.value, args),
        args.len() == 4,
        s.members.len() == 4,
    ensures
        s.class == "BlendedParticleEffectSet"@ ==> (construct::from_expr(
            cx,
            ValueView::Struct(s),
            e,
        ) matches Ok(r) ==> {
            &&& r matches ValueView::Struct(t)
            &&& t.members.len() == 4
            &&& set_from(cx, s.members[0].value, args[0], t.members[0].value)
            &&& set_from(cx, s.members[2].value, args[1], t.members[2].value)
            &&& set_from(cx, s.members[1].value, args[2], t.members[1].value)
            &&& set_from(cx, s.members[3].value, args[3], t.members[3].value)
        }),
        (s.class == "ExplosionRing"@ || s.class == "ParticleAttachmentInfo"@) ==> (
        construct::from_expr(cx, ValueView::Struct(s), e) matches Ok(r) ==> {
            &&& r matches ValueView::Struct(t)
            &&& t.members.len() == 4
            &&& set_from(cx, s.members[1].value, args[0], t.members[1].value)
            &&& set_from(cx, s.members[0].value, args[1], t.members[0].value)
            &&& set_from(cx, s.members[2].value, args[2], t.members[2].value)
            &&& set_from(cx, s.members[3].value, args[3], t.members[3].value)
        }),
{
    lemma_classes_differ();
    let blended = seq![(0int, 0int), (2, 1), (1, 2), (3, 3)];
    let turned = seq![(0int, 1int), (1, 0), (2, 2), (3, 3)];
    assert(blended.len() == 4 && blended[0] == (0int, 0int) && blended[1] == (2int, 1int)
        && blended[2] == (1int, 2int) && blended[3] == (3int, 3int));
    assert(turned.len() == 4 && turned[0] == (0int, 1int) && turned[1] == (1int, 0int) && turned[2]
        == (2int, 2int) && turned[3] == (3int, 3int));
    lemma_mapped_four(
        cx,
        s.members,
        args,
        blended,
        "BlendedParticleEffectSet member out of range"@,
    );
    lemma_mapped_four(cx, s.members, args, turned, "ExplosionRing member out of range"@);
    lemma_mapped_four(cx, s.members, args, turned, "ParticleAttachmentInfo member out of range"@);
}

proof fn lemma_classes_differ()
    ensures
        "RGBColour"@.len() == 9,
        "BlendedParticleEffectSet"@.len() == 24,
        "ObjectAugmentationParticleSet"@.len() == 29,
        "ExplosionRing"@.len() == 13,
        "ParticleAttachmentInfo"@.len() == 22,
        "AttackHistoryCombo"@.len() == 18,
        "PhysicalPrimitiveInitType"@.len() == 25,
        "ReactionMatchListElementsEntry"@.len() == 30,
{
    reveal_strlit("RGBColour");
    reveal_strlit("BlendedParticleEffectSet");
    reveal_strlit("ObjectAugmentationParticleSet");
    reveal_strlit("ExplosionRing");
    reveal_strlit("ParticleAttachmentInfo");
    reveal_strlit("AttackHistoryCombo");
    reveal_strlit("PhysicalPrimitiveInitType");
    reveal_strlit("ReactionMatchListElementsEntry");
}

// ── Combos ───────────────────────────────────────────────────────────────────

/// Whether an argument adds an attack: `Add(…)`.
pub open spec fn adds(e: ExprView) -> bool {
    e matches ExprView::Constructor(c) && c.name == "Add"@
}

/// How many of the arguments from `j` on add an attack.
pub open spec fn adding(args: Seq<Spanned<ExprView>>, j: int) -> nat
    decreases args.len() - j,
{
    if j < 0 || j >= args.len() {
        0
    } else {
        adding(args, j + 1) + (if adds(args[j].value) {
            1nat
        } else {
            0nat
        })
    }
}

proof fn lemma_attacks(cx: Context, l: ListView, args: Seq<Spanned<ExprView>>, j: int)
    requires
        0 <= j,
    ensures
        construct::combo_attacks(cx, l, args, j) matches Ok(r) ==> r.element == l.element
            && r.items.len() == l.items.len() + adding(args, j) && forall|k: int|
            0 <= k < l.items.len() ==> #[trigger] r.items[k] == l.items[k],
    decreases args.len() - j,
{
    if j < args.len() {
        if construct::is_add(args[j].value, 0) {
            let inner = args[j].value->Constructor_0.arguments;
            if let Ok(x) = construct::combo_attack(cx, *l.element, inner) {
                let next = ListView { items: l.items.push(x), ..l };
                lemma_attacks(cx, next, args, j + 1);
                if let Ok(r) = construct::combo_attacks(cx, next, args, j + 1) {
                    assert forall|k: int| 0 <= k < l.items.len() implies #[trigger] r.items[k]
                        == l.items[k] by {
                        assert(r.items[k] == next.items[k]);
                    }
                }
            }
        } else {
            lemma_attacks(cx, l, args, j + 1);
        }
    }
}

/// The constructor of a combo has the multiplier first, which is the second member; each
/// `Add(…)` behind it adds one attack to the list that is the first member, and the attacks
/// that were there stay.
pub proof fn a_combo_has_its_multiplier_and_its_attacks(
    cx: Context,
    s: StructView,
    e: Spanned<ExprView>,
    args: Seq<Spanned<ExprView>>,
    l: ListView,
)
    requires
        constructs(e.value, args),
        s.class == "AttackHistoryCombo"@,
        args.len() > 0,
        s.members.len() >= 2,
        s.members[0].value == ValueView::List(l),
    ensures
        construct::from_expr(cx, ValueView::Struct(s), e) matches Ok(r) ==> {
            &&& r matches ValueView::Struct(t)
            &&& t.members.len() == s.members.len()
            &&& set_from(cx, s.members[1].value, args[0], t.members[1].value)
            &&& t.members[0].value matches ValueView::List(m)
            &&& m.items.len() == l.items.len() + adding(args, 1)
            &&& forall|k: int| 0 <= k < l.items.len() ==> #[trigger] m.items[k] == l.items[k]
            &&& forall|k: int| 2 <= k < s.members.len() ==> #[trigger] t.members[k] == s.members[k]
        },
{
    lemma_classes_differ();
    lemma_attacks(cx, l, args, 1);
    assert(construct::by_class(cx, s.class, s.members, args) == Some(
        construct::combo(cx, s.members, args),
    ));
    if let Ok(x) = construct::from_expr(cx, s.members[1].value, args[0]) {
        let set = construct::with_value(s.members, 1, x);
        assert(set[0] == s.members[0]);
    }
}

/// An attack of a combo has its type and its attribute from the arguments of `Add(…)`; the
/// type is 0 and the attribute -1 where they are left out.
pub proof fn an_attack_has_its_type_and_attribute(
    cx: Context,
    s: StructView,
    args: Seq<Spanned<ExprView>>,
)
    requires
        s.members.len() == 2,
        s.members[0].value matches ValueView::Scalar(x) && x is I32,
        s.members[1].value matches ValueView::Scalar(y) && y is I32,
    ensures
        construct::combo_attack(cx, ValueView::Struct(s), args) matches Ok(r) ==> {
            &&& r matches ValueView::Struct(t)
            &&& t.members.len() == 2
            &&& args.len() > 0 ==> set_from(cx, s.members[0].value, args[0], t.members[0].value)
            &&& args.len() > 1 ==> set_from(cx, s.members[1].value, args[1], t.members[1].value)
            &&& args.len() == 0 ==> t.members[0].value == ValueView::Scalar(ScalarView::I32(0i32))
            &&& args.len() < 2 ==> t.members[1].value == ValueView::Scalar(ScalarView::I32(-1i32))
        },
{
    super::numbers::integers_read_back(0);
    super::numbers::integers_read_back(-1);
    super::expressions::lemma_integer_shape(0);
    super::expressions::lemma_integer_shape(-1);
    reveal_strlit("0");
    reveal_strlit("-1");
    reveal_strlit("-");
    reveal_with_fuel(crate::strings::nat_text, 2);
    assert(crate::strings::int_text(0) =~= "0"@);
    assert(crate::strings::int_text(-1) =~= "-1"@);
}

// ── Augmentations ────────────────────────────────────────────────────────────

/// The particles of an augmentation are the period, the number of pairs of points, four
/// effects and the points: the period is the first member, and the offsets of the names of
/// the effects are the four behind it.
pub proof fn an_augmentation_has_its_effects(
    cx: Context,
    s: StructView,
    e: Spanned<ExprView>,
    args: Seq<Spanned<ExprView>>,
    n: Seq<i32>,
)
    requires
        constructs(e.value, args),
        s.class == "ObjectAugmentationParticleSet"@,
        args.len() == 6,
        s.members.len() == 5,
        n.len() == 4,
        forall|k: int|
            1 <= k < 5 ==> ((#[trigger] s.members[k]).value matches ValueView::Scalar(x)
                && x is I32),
        forall|k: int|
            0 <= k < 4 ==> env::string_offset(cx, args[k + 2]) == Ok::<i32, LowerErrorView>(
                #[trigger] n[k],
            ),
    ensures
        construct::from_expr(cx, ValueView::Struct(s), e) matches Ok(r) ==> {
            &&& r matches ValueView::Struct(t)
            &&& t.members.len() == 5
            &&& set_from(cx, s.members[0].value, args[0], t.members[0].value)
            &&& t.members[1].value == ValueView::Scalar(ScalarView::I32(n[0]))
            &&& t.members[2].value == ValueView::Scalar(ScalarView::I32(n[1]))
            &&& t.members[3].value == ValueView::Scalar(ScalarView::I32(n[2]))
            &&& t.members[4].value == ValueView::Scalar(ScalarView::I32(n[3]))
        },
{
    lemma_classes_differ();
    assert(construct::by_class(cx, s.class, s.members, args) == Some(
        construct::augmentation(cx, s.members, args),
    ));
    let v = s.members;
    assert(v[1].value is Scalar && v[2].value is Scalar && v[3].value is Scalar && v[4].value is Scalar);
    assert(env::string_offset(cx, args[2]) == Ok::<i32, LowerErrorView>(n[0]));
    assert(env::string_offset(cx, args[3]) == Ok::<i32, LowerErrorView>(n[1]));
    assert(env::string_offset(cx, args[4]) == Ok::<i32, LowerErrorView>(n[2]));
    assert(env::string_offset(cx, args[5]) == Ok::<i32, LowerErrorView>(n[3]));
    if let Ok(x) = construct::from_expr(cx, v[0].value, args[0]) {
        let a = construct::with_value(v, 0, x);
        let b = construct::with_value(a, 1, construct::as_number(a[1].value, n[0]));
        let c = construct::with_value(b, 2, construct::as_number(b[2].value, n[1]));
        let d = construct::with_value(c, 3, construct::as_number(c[3].value, n[2]));
        let f = construct::with_value(d, 4, construct::as_number(d[4].value, n[3]));
        assert(construct::augmentation_effects(cx, v, args, 0) == construct::augmentation_effects(
            cx,
            a,
            args,
            1,
        ));
        assert(construct::augmentation_effects(cx, a, args, 1) == construct::augmentation_effects(
            cx,
            b,
            args,
            2,
        ));
        assert(construct::augmentation_effects(cx, b, args, 2) == construct::augmentation_effects(
            cx,
            c,
            args,
            3,
        ));
        assert(construct::augmentation_effects(cx, c, args, 3) == construct::augmentation_effects(
            cx,
            d,
            args,
            4,
        ));
        assert(construct::augmentation_effects(cx, d, args, 4) == construct::augmentation_effects(
            cx,
            f,
            args,
            5,
        ));
        assert(construct::augmentation_effects(cx, f, args, 5) == Ok::<
            Seq<MemberView>,
            (Seq<MemberView>, LowerErrorView),
        >(f));
        let pairs = eval::arg_i32(cx.symbols, args, 1, 0i32) as int;
        assert(construct::augmentation_points(cx, f, args, pairs, 0) == Ok::<
            Seq<MemberView>,
            (Seq<MemberView>, LowerErrorView),
        >(f));
    }
}

// ── Containers in constructors ───────────────────────────────────────────────

proof fn lemma_items(
    cx: Context,
    l: ListView,
    args: Seq<Spanned<ExprView>>,
    xs: Seq<ValueView>,
    j: int,
)
    requires
        0 <= j <= args.len(),
        xs.len() == args.len(),
        forall|k: int|
            0 <= k < args.len() ==> ((#[trigger] args[k]).value matches ExprView::Constructor(c)
                && c.name == "Add"@ && c.arguments.len() > 0 && set_from(
                cx,
                *l.element,
                c.arguments[0],
                xs[k],
            )),
    ensures
        construct::items_added(cx, l, args, j) == Ok::<ListView, (ListView, LowerErrorView)>(
            ListView { items: l.items + xs.skip(j), ..l },
        ),
    decreases args.len() - j,
{
    if j < args.len() {
        let c = args[j].value->Constructor_0;
        assert(construct::is_add(args[j].value, 0));
        let next = ListView { items: l.items.push(xs[j]), ..l };
        lemma_items(cx, next, args, xs, j + 1);
        assert(next.items + xs.skip(j + 1) =~= l.items + xs.skip(j));
    } else {
        assert(l.items + xs.skip(j) =~= l.items);
    }
}

/// A constructor of a compound around a list takes `Add(…)` for each element, and adds them
/// in the order in which they come.
pub proof fn a_constructor_adds_to_a_list(
    cx: Context,
    s: StructView,
    e: Spanned<ExprView>,
    args: Seq<Spanned<ExprView>>,
    l: ListView,
    xs: Seq<ValueView>,
)
    requires
        constructs(e.value, args),
        takes_members_in_turn(s.class),
        s.members.len() == 1,
        s.members[0].value == ValueView::List(l),
        args.len() > 0,
        xs.len() == args.len(),
        forall|k: int|
            0 <= k < args.len() ==> ((#[trigger] args[k]).value matches ExprView::Constructor(c)
                && c.name == "Add"@ && c.arguments.len() > 0 && set_from(
                cx,
                *l.element,
                c.arguments[0],
                xs[k],
            )),
    ensures
        construct::from_expr(cx, ValueView::Struct(s), e) == Ok::<
            ValueView,
            (ValueView, LowerErrorView),
        >(
            ValueView::Struct(
                StructView {
                    members: seq![
                        MemberView {
                            name: s.members[0].name,
                            value: ValueView::List(
                                ListView { element: l.element, items: l.items + xs },
                            ),
                        },
                    ],
                    ..s
                },
            ),
        ),
{
    lemma_items(cx, l, args, xs, 0);
    assert(xs.skip(0) =~= xs);
    assert(args[0].value is Constructor);
    let made = ListView { items: l.items + xs, ..l };
    let members = construct::with_value(s.members, 0, ValueView::List(made));
    assert(construct::positional(cx, s.members, args, 0) == Ok::<
        Seq<MemberView>,
        (Seq<MemberView>, LowerErrorView),
    >(members));
    assert(members =~= seq![
        MemberView { name: s.members[0].name, value: ValueView::List(made) },
    ]);
    assert(construct::by_class(cx, s.class, s.members, args) is None);
}

// ── Choices ──────────────────────────────────────────────────────────────────

/// The constructor names the case: of a physical primitive nothing, a sphere, a cylinder or a
/// mesh; of what a reaction matches a secondary trait, one that is centred, a pyramid or a
/// blob. Another name is an error.
pub proof fn a_constructor_names_its_case()
    ensures
        construct::case_tag("PhysicalPrimitiveInitType"@, "CPhysicalPrimitiveNull"@) == Some(0u32),
        construct::case_tag("PhysicalPrimitiveInitType"@, "CPhysicalPrimitiveSphere"@) == Some(
            1u32,
        ),
        construct::case_tag("PhysicalPrimitiveInitType"@, "CPhysicalPrimitiveCylinder"@) == Some(
            2u32,
        ),
        construct::case_tag("PhysicalPrimitiveInitType"@, "CPhysicalPrimitiveMesh"@) == Some(3u32),
        construct::case_tag("ReactionMatchListElementsEntry"@, "Secondary"@) == Some(0u32),
        construct::case_tag("ReactionMatchListElementsEntry"@, "SecondaryCentred"@) == Some(1u32),
        construct::case_tag("ReactionMatchListElementsEntry"@, "Pyramid"@) == Some(2u32),
        construct::case_tag("ReactionMatchListElementsEntry"@, "MRBlob"@) == Some(3u32),
{
    lemma_classes_differ();
    reveal_strlit("CPhysicalPrimitiveNull");
    reveal_strlit("CPhysicalPrimitiveSphere");
    reveal_strlit("CPhysicalPrimitiveCylinder");
    reveal_strlit("CPhysicalPrimitiveMesh");
    reveal_strlit("Secondary");
    reveal_strlit("SecondaryCentred");
    reveal_strlit("Pyramid");
    reveal_strlit("MRBlob");
    assert("CPhysicalPrimitiveNull"@.len() == 22 && "CPhysicalPrimitiveSphere"@.len() == 24
        && "CPhysicalPrimitiveCylinder"@.len() == 26 && "CPhysicalPrimitiveMesh"@.len() == 22);
    assert("CPhysicalPrimitiveNull"@[18] == 'N' && "CPhysicalPrimitiveMesh"@[18] == 'M');
    assert("Secondary"@.len() == 9 && "SecondaryCentred"@.len() == 16 && "Pyramid"@.len() == 7
        && "MRBlob"@.len() == 6);
}

proof fn lemma_in_turn(cx: Context, v: Seq<MemberView>, args: Seq<Spanned<ExprView>>, i: int)
    requires
        0 <= i <= v.len(),
    ensures
        construct::in_turn(cx, v, args, i) matches Ok(w) ==> {
            &&& w.len() == v.len()
            &&& forall|j: int|
                i <= j < v.len() && j < args.len() ==> set_from(
                    cx,
                    v[j].value,
                    args[j],
                    (#[trigger] w[j]).value,
                )
            &&& forall|j: int|
                0 <= j < v.len() && (j < i || j >= args.len()) ==> #[trigger] w[j] == v[j]
        },
    decreases v.len() - i,
{
    if i < v.len() && i < args.len() {
        if let Ok(x) = construct::from_expr(cx, v[i].value, args[i]) {
            let next = construct::with_value(v, i, x);
            lemma_in_turn(cx, next, args, i + 1);
            if let Ok(w) = construct::in_turn(cx, next, args, i + 1) {
                assert forall|j: int| i <= j < v.len() && j < args.len() implies set_from(
                    cx,
                    v[j].value,
                    args[j],
                    (#[trigger] w[j]).value,
                ) by {
                    if j > i {
                        assert(next[j] == v[j]);
                    } else {
                        assert(w[i] == next[i]);
                    }
                }
            }
        }
    }
}

/// A constructor selects the case that it names. A case that was not selected before starts
/// with the members that the choice has for it; one that was selected keeps its members; and
/// the arguments set the first of them.
pub proof fn a_choice_has_the_members_of_its_case(
    cx: Context,
    c: ChoiceView,
    e: Spanned<ExprView>,
    args: Seq<Spanned<ExprView>>,
    name: Seq<char>,
    tag: u32,
    k: int,
)
    requires
        e.value matches ExprView::Constructor(call) && call.name == name && call.arguments == args,
        construct::case_tag(c.class, name) == Some(tag),
        0 <= k < c.cases.len(),
        c.cases[k].tag == tag,
        forall|j: int| 0 <= j < k ==> (#[trigger] c.cases[j]).tag != tag,
        c.class != "PhysicalPrimitiveInitType"@ || tag == 0 || tag == 3,
    ensures
        construct::from_expr(cx, ValueView::Variant(c), e) matches Ok(r) ==> {
            let start = if c.tag == tag {
                c.members
            } else {
                c.cases[k].members
            };
            &&& r matches ValueView::Variant(d)
            &&& d.tag == tag
            &&& d.cases == c.cases
            &&& d.class == c.class
            &&& d.members.len() == start.len()
            &&& forall|j: int|
                0 <= j < start.len() && j < args.len() ==> set_from(
                    cx,
                    start[j].value,
                    args[j],
                    (#[trigger] d.members[j]).value,
                )
            &&& forall|j: int|
                args.len() <= j < start.len() ==> #[trigger] d.members[j] == start[j]
        },
{
    lemma_case(c.cases, tag, 0, k);
    if let Ok(d) = construct::with_case(c, tag) {
        lemma_in_turn(cx, d.members, args, 0);
    }
}

proof fn lemma_case(cases: Seq<CaseView>, tag: u32, i: int, k: int)
    requires
        0 <= i <= k < cases.len(),
        cases[k].tag == tag,
        forall|j: int| 0 <= j < k ==> (#[trigger] cases[j]).tag != tag,
    ensures
        construct::case_place(cases, tag, i) == k,
    decreases k - i,
{
    if i < k {
        assert(cases[i].tag != tag);
        lemma_case(cases, tag, i + 1, k);
    }
}

/// A sphere that is newly selected starts with no bone and no radius, which are -1; a
/// cylinder with no height either.
pub proof fn spheres_and_cylinders_start_without_a_size(
    c: ChoiceView,
    tag: u32,
    k: int,
)
    requires
        c.class == "PhysicalPrimitiveInitType"@,
        tag == 1 || tag == 2,
        c.tag != tag,
        0 <= k < c.cases.len(),
        c.cases[k].tag == tag,
        forall|j: int| 0 <= j < k ==> (#[trigger] c.cases[j]).tag != tag,
        c.cases[k].members.len() == 3,
        c.cases[k].members[0].value matches ValueView::Scalar(x) && x is I32,
        c.cases[k].members[1].value matches ValueView::Scalar(y) && y is Single,
        c.cases[k].members[2].value matches ValueView::Scalar(z) && z is Single,
    ensures
        construct::with_case(c, tag) matches Ok(d) && {
            &&& d.members[0].value == ValueView::Scalar(ScalarView::I32(-1i32))
            &&& d.members[1].value == ValueView::Scalar(
                ScalarView::Single(Single { bits: 0xBF80_0000 }),
            )
            &&& tag == 2 ==> d.members[2].value == ValueView::Scalar(
                ScalarView::Single(Single { bits: 0xBF80_0000 }),
            )
            &&& tag == 1 ==> d.members[2] == c.cases[k].members[2]
        },
{
    lemma_case(c.cases, tag, 0, k);
}

} // verus!
