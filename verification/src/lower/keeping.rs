//! What a definition is lowered to stays so where more strings have offsets: a table of
//! names may grow behind a definition that is lowered.

use vstd::prelude::*;

use crate::eval;
use crate::lower::anim;
use crate::lower::asking;
use crate::lower::body;
use crate::lower::builders;
use crate::lower::builders::{ExpressionEntry, HeroBuilding, SoundsView, WoundView};
use crate::lower::calls;
use crate::lower::calls::{DegradableInfo, ModifierGraphic, ReplaceableMesh, SpecialEffect};
use crate::lower::construct;
use crate::lower::controls::ControlEnums;
use crate::lower::def;
use crate::lower::def::{BodyView, Family, TypeView};
use crate::lower::env;
use crate::lower::env::Context;
use crate::lower::fields;
use crate::lower::morph;
use crate::lower::opinions;
use crate::lower::opinions::DeedEffect;
use crate::lower::steps;
use crate::lower::steps::{Item, Key, Step};
use crate::lower::things;
use crate::lower::things::WeaponTrail;
use crate::lower::ui;
use crate::reader;
use crate::reader::{ArgsView, PickView, ReaderView};
use crate::single::Single;
use crate::text::ast::{ExprView, StatementView};
use crate::text::base::Spanned;
use crate::value;
use crate::value::{ChoiceView, ListView, MapView, MemberView, ScalarView, StructView, ValueView};

verus! {

/// Whether `b` is `a`, but for strings that have offsets in `b` and none in `a`.
pub open spec fn grows(a: Context, b: Context) -> bool {
    &&& a.symbols == b.symbols
    &&& a.defs == b.defs
    &&& a.reactions == b.reactions
    &&& a.opinions == b.opinions
    &&& forall|s: Seq<char>| (#[trigger] (a.strings)(s)) is Some ==> (b.strings)(s) == (a.strings)(s)
}

/// Whether a success is kept.
pub open spec fn kept<T, E>(x: Result<T, E>, y: Result<T, E>) -> bool {
    x is Ok ==> y == x
}

// ── Expressions ──────────────────────────────────────────────────────────────

proof fn keep_string(a: Context, b: Context, e: Spanned<ExprView>)
    requires
        grows(a, b),
    ensures
        kept(env::string_offset(a, e), env::string_offset(b, e)),
{
    if let ExprView::String(s) = e.value {
        assert((a.strings)(s) is Some ==> (b.strings)(s) == (a.strings)(s));
    }
}

proof fn keep_scalar(a: Context, b: Context, s: ScalarView, e: Spanned<ExprView>)
    requires
        grows(a, b),
    ensures
        kept(construct::scalar_from(a, s, e), construct::scalar_from(b, s, e)),
{
    keep_string(a, b, e);
}

proof fn keep_plain(a: Context, b: Context, v: ValueView, e: Spanned<ExprView>)
    requires
        grows(a, b),
    ensures
        kept(construct::from_plain(a, v, e), construct::from_plain(b, v, e)),
{
    if let ValueView::Scalar(s) = v {
        keep_scalar(a, b, s, e);
    }
}

proof fn keep_expr(a: Context, b: Context, v: ValueView, e: Spanned<ExprView>)
    requires
        grows(a, b),
    ensures
        kept(construct::from_expr(a, v, e), construct::from_expr(b, v, e)),
    decreases e, 3nat,
{
    match v {
        ValueView::Struct(s) => keep_struct(a, b, s, e),
        ValueView::Variant(c) => keep_variant(a, b, c, e),
        _ => keep_plain(a, b, v, e),
    }
}

proof fn keep_variant(a: Context, b: Context, c: ChoiceView, e: Spanned<ExprView>)
    requires
        grows(a, b),
    ensures
        kept(construct::variant_from(a, c, e), construct::variant_from(b, c, e)),
    decreases e, 1nat,
{
    if let ExprView::Constructor(call) = e.value {
        if let Some(tag) = construct::case_tag(c.class, call.name) {
            if let Ok(c) = construct::with_case(c, tag) {
                keep_in_turn(a, b, c.members, call.arguments, 0);
            }
        }
    }
}

proof fn keep_in_turn(
    a: Context,
    b: Context,
    v: Seq<MemberView>,
    args: Seq<Spanned<ExprView>>,
    i: int,
)
    requires
        grows(a, b),
    ensures
        kept(construct::in_turn(a, v, args, i), construct::in_turn(b, v, args, i)),
    decreases args, v.len() - i,
{
    if 0 <= i < v.len() && i < args.len() {
        keep_expr(a, b, v[i].value, args[i]);
        if let Ok(x) = construct::from_expr(a, v[i].value, args[i]) {
            keep_in_turn(a, b, construct::with_value(v, i, x), args, i + 1);
        }
    }
}

proof fn keep_struct(a: Context, b: Context, s: StructView, e: Spanned<ExprView>)
    requires
        grows(a, b),
    ensures
        kept(construct::struct_from(a, s, e), construct::struct_from(b, s, e)),
    decreases e, 2nat,
{
    if let ExprView::Constructor(call) = e.value {
        keep_class(a, b, s.class, s.members, call.arguments);
        if construct::by_class(a, s.class, s.members, call.arguments) is None {
            if s.members.len() == 1 && s.members[0].value is Variant {
                keep_variant(a, b, s.members[0].value->Variant_0, e);
            } else {
                keep_positional(a, b, s.members, call.arguments, 0);
            }
        }
    }
}

proof fn keep_class(
    a: Context,
    b: Context,
    class: Seq<char>,
    v: Seq<MemberView>,
    args: Seq<Spanned<ExprView>>,
)
    requires
        grows(a, b),
    ensures
        match construct::by_class(a, class, v, args) {
            Some(x) => construct::by_class(b, class, v, args) matches Some(y) && kept(x, y),
            None => construct::by_class(b, class, v, args) is None,
        },
    decreases args, args.len() + 8,
{
    if class == "RGBColour"@ {
    } else if class == "BlendedParticleEffectSet"@ && args.len() == 4 {
        keep_mapped(
            a,
            b,
            v,
            args,
            seq![(0int, 0int), (2, 1), (1, 2), (3, 3)],
            0,
            "BlendedParticleEffectSet member out of range"@,
        );
    } else if class == "ObjectAugmentationParticleSet"@ {
        keep_augmentation(a, b, v, args);
    } else if class == "ExplosionRing"@ && args.len() >= 2 {
        keep_mapped(
            a,
            b,
            v,
            args,
            seq![(0int, 1int), (1, 0), (2, 2), (3, 3)],
            0,
            "ExplosionRing member out of range"@,
        );
    } else if class == "ParticleAttachmentInfo"@ && args.len() >= 2 {
        keep_mapped(
            a,
            b,
            v,
            args,
            seq![(0int, 1int), (1, 0), (2, 2), (3, 3)],
            0,
            "ParticleAttachmentInfo member out of range"@,
        );
    } else if class == "AttackHistoryCombo"@ && args.len() > 0 {
        keep_combo(a, b, v, args);
    }
}

proof fn keep_mapped(
    a: Context,
    b: Context,
    v: Seq<MemberView>,
    args: Seq<Spanned<ExprView>>,
    pairs: Seq<(int, int)>,
    k: int,
    message: Seq<char>,
)
    requires
        grows(a, b),
    ensures
        kept(
            construct::mapped(a, v, args, pairs, k, message),
            construct::mapped(b, v, args, pairs, k, message),
        ),
    decreases args, pairs.len() - k,
{
    if 0 <= k < pairs.len() {
        let (m, x) = pairs[k];
        if x < 0 || x >= args.len() {
            keep_mapped(a, b, v, args, pairs, k + 1, message);
        } else if 0 <= m < v.len() {
            keep_expr(a, b, v[m].value, args[x]);
            if let Ok(y) = construct::from_expr(a, v[m].value, args[x]) {
                keep_mapped(a, b, construct::with_value(v, m, y), args, pairs, k + 1, message);
            }
        }
    }
}

proof fn keep_augmentation(
    a: Context,
    b: Context,
    v: Seq<MemberView>,
    args: Seq<Spanned<ExprView>>,
)
    requires
        grows(a, b),
    ensures
        kept(construct::augmentation(a, v, args), construct::augmentation(b, v, args)),
    decreases args, args.len() + 7,
{
    keep_effects(a, b, v, args, 0);
    if let Ok(v) = construct::augmentation_effects(a, v, args, 0) {
        keep_points(a, b, v, args, eval::arg_i32(a.symbols, args, 1, 0i32) as int, 0);
    }
}

proof fn keep_effects(
    a: Context,
    b: Context,
    v: Seq<MemberView>,
    args: Seq<Spanned<ExprView>>,
    k: int,
)
    requires
        grows(a, b),
    ensures
        kept(
            construct::augmentation_effects(a, v, args, k),
            construct::augmentation_effects(b, v, args, k),
        ),
    decreases args, 5 - k,
{
    if 0 <= k < 5 {
        let x = construct::augmentation_arg(k);
        if x >= args.len() {
            keep_effects(a, b, v, args, k + 1);
        } else if k < v.len() {
            if k == 0 {
                keep_expr(a, b, v[k].value, args[x]);
                if let Ok(y) = construct::from_expr(a, v[k].value, args[x]) {
                    keep_effects(a, b, construct::with_value(v, k, y), args, k + 1);
                }
            } else {
                keep_string(a, b, args[x]);
                if let Ok(n) = env::string_offset(a, args[x]) {
                    keep_effects(
                        a,
                        b,
                        construct::with_value(v, k, construct::as_number(v[k].value, n)),
                        args,
                        k + 1,
                    );
                }
            }
        }
    }
}

proof fn keep_point(a: Context, b: Context, v: Seq<MemberView>, i: int, e: Spanned<ExprView>)
    requires
        grows(a, b),
    ensures
        kept(construct::point_added(a, v, i, e), construct::point_added(b, v, i, e)),
    decreases e, 4nat,
{
    if i < v.len() && v[i].value is List {
        keep_expr(a, b, *v[i].value->List_0.element, e);
    }
}

proof fn keep_points(
    a: Context,
    b: Context,
    v: Seq<MemberView>,
    args: Seq<Spanned<ExprView>>,
    n: int,
    p: int,
)
    requires
        grows(a, b),
    ensures
        kept(
            construct::augmentation_points(a, v, args, n, p),
            construct::augmentation_points(b, v, args, n, p),
        ),
    decreases args, args.len() - p,
{
    if 0 <= p < n && 6 + 2 * p < args.len() {
        keep_point(a, b, v, 5, args[6 + 2 * p]);
        if let Ok(v) = construct::point_added(a, v, 5, args[6 + 2 * p]) {
            if 7 + 2 * p < args.len() {
                keep_point(a, b, v, 6, args[7 + 2 * p]);
                if let Ok(v) = construct::point_added(a, v, 6, args[7 + 2 * p]) {
                    keep_points(a, b, v, args, n, p + 1);
                }
            }
        }
    }
}

proof fn keep_combo(a: Context, b: Context, v: Seq<MemberView>, args: Seq<Spanned<ExprView>>)
    requires
        grows(a, b),
    ensures
        kept(construct::combo(a, v, args), construct::combo(b, v, args)),
    decreases args, args.len() + 1,
{
    if v.len() >= 2 && args.len() > 0 {
        keep_expr(a, b, v[1].value, args[0]);
        if let Ok(x) = construct::from_expr(a, v[1].value, args[0]) {
            if let ValueView::List(list) = construct::with_value(v, 1, x)[0].value {
                keep_attacks(a, b, list, args, 1);
            }
        }
    }
}

proof fn keep_attacks(
    a: Context,
    b: Context,
    list: ListView,
    args: Seq<Spanned<ExprView>>,
    j: int,
)
    requires
        grows(a, b),
    ensures
        kept(
            construct::combo_attacks(a, list, args, j),
            construct::combo_attacks(b, list, args, j),
        ),
    decreases args, args.len() - j,
{
    if 0 <= j < args.len() {
        if !construct::is_add(args[j].value, 0) {
            keep_attacks(a, b, list, args, j + 1);
        } else {
            let inner = args[j].value->Constructor_0.arguments;
            keep_attack(a, b, *list.element, inner);
            if let Ok(x) = construct::combo_attack(a, *list.element, inner) {
                keep_attacks(a, b, ListView { items: list.items.push(x), ..list }, args, j + 1);
            }
        }
    }
}

proof fn keep_attack(a: Context, b: Context, v: ValueView, args: Seq<Spanned<ExprView>>)
    requires
        grows(a, b),
    ensures
        kept(construct::combo_attack(a, v, args), construct::combo_attack(b, v, args)),
    decreases args, 0nat,
{
    if let ValueView::Struct(s) = v {
        if s.members.len() > 0 {
            let first = s.members[0].value;
            if args.len() > 0 {
                keep_expr(a, b, first, args[0]);
            } else {
                keep_plain(a, b, first, construct::literal("0"@));
            }
            let r = if args.len() > 0 {
                construct::from_expr(a, first, args[0])
            } else {
                construct::from_plain(a, first, construct::literal("0"@))
            };
            if let Ok(x) = r {
                let m = construct::with_value(s.members, 0, x);
                if m.len() >= 2 {
                    if args.len() > 1 {
                        keep_expr(a, b, m[1].value, args[1]);
                    } else {
                        keep_plain(a, b, m[1].value, construct::literal("-1"@));
                    }
                }
            }
        }
    }
}

proof fn keep_positional(
    a: Context,
    b: Context,
    v: Seq<MemberView>,
    args: Seq<Spanned<ExprView>>,
    i: int,
)
    requires
        grows(a, b),
    ensures
        kept(construct::positional(a, v, args, i), construct::positional(b, v, args, i)),
    decreases args, args.len() + v.len() - i + 1,
{
    if 0 <= i < v.len() && i < args.len() {
        if v[i].value is Mapping && construct::is_add(args[i].value, 2) {
            keep_entries(a, b, v[i].value->Mapping_0, args, i);
        } else if v[i].value is List && construct::is_add(args[i].value, 0) {
            keep_items(a, b, v[i].value->List_0, args, i);
        } else {
            keep_expr(a, b, v[i].value, args[i]);
            if let Ok(x) = construct::from_expr(a, v[i].value, args[i]) {
                keep_positional(a, b, construct::with_value(v, i, x), args, i + 1);
            }
        }
    }
}

proof fn keep_entries(a: Context, b: Context, m: MapView, args: Seq<Spanned<ExprView>>, j: int)
    requires
        grows(a, b),
    ensures
        kept(construct::entries_added(a, m, args, j), construct::entries_added(b, m, args, j)),
    decreases args, args.len() - j,
{
    if 0 <= j < args.len() {
        if !construct::is_add(args[j].value, 2) {
            keep_entries(a, b, m, args, j + 1);
        } else {
            let inner = args[j].value->Constructor_0.arguments;
            keep_expr(a, b, *m.key, inner[0]);
            if let Ok(key) = construct::from_expr(a, *m.key, inner[0]) {
                keep_expr(a, b, *m.value, inner[1]);
                if let Ok(value) = construct::from_expr(a, *m.value, inner[1]) {
                    keep_entries(a, b, m.put(key, value), args, j + 1);
                }
            }
        }
    }
}

proof fn keep_items(a: Context, b: Context, l: ListView, args: Seq<Spanned<ExprView>>, j: int)
    requires
        grows(a, b),
    ensures
        kept(construct::items_added(a, l, args, j), construct::items_added(b, l, args, j)),
    decreases args, args.len() - j,
{
    if 0 <= j < args.len() {
        if !construct::is_add(args[j].value, 0) {
            keep_items(a, b, l, args, j + 1);
        } else {
            let inner = args[j].value->Constructor_0.arguments;
            if inner.len() == 0 {
                keep_items(
                    a,
                    b,
                    ListView { items: l.items.push(*l.element), ..l },
                    args,
                    j + 1,
                );
            } else {
                keep_expr(a, b, *l.element, inner[0]);
                if let Ok(x) = construct::from_expr(a, *l.element, inner[0]) {
                    keep_items(a, b, ListView { items: l.items.push(x), ..l }, args, j + 1);
                }
            }
        }
    }
}

// ── Fields ───────────────────────────────────────────────────────────────────

proof fn keep_named_scalar(a: Context, b: Context, s: ScalarView, e: Spanned<ExprView>)
    requires
        grows(a, b),
    ensures
        kept(fields::scalar_named(a, s, e), fields::scalar_named(b, s, e)),
{
    keep_scalar(a, b, s, e);
}

proof fn keep_resized(a: Context, b: Context, l: ListView, calls: Seq<ArgsView>, k: int)
    requires
        grows(a, b),
    ensures
        fields::resized(a, l, calls, k) == fields::resized(b, l, calls, k),
    decreases calls.len() - k,
{
    if 0 <= k < calls.len() {
        if calls[k].args.len() == 0 {
            keep_resized(a, b, l, calls, k + 1);
        } else if let Ok(n) = calls[k].i32(0) {
            if n >= 0 {
                keep_resized(a, b, l.grown(n as int), calls, k + 1);
            }
        }
    }
}

proof fn keep_args(a: Context, b: Context, v: ValueView, args: Seq<Spanned<ExprView>>)
    requires
        grows(a, b),
    ensures
        kept(fields::from_args(a, v, args), fields::from_args(b, v, args)),
{
    match v {
        ValueView::Struct(s) => if args.len() == 1 && args[0].value is Constructor {
            keep_struct(a, b, s, args[0]);
        } else {
            keep_in_turn(a, b, s.members, args, 0);
        },
        ValueView::Variant(c) => if args.len() > 0 {
            if args[0].value is Constructor {
                keep_variant(a, b, c, args[0]);
            } else if args.len() > 1 {
                keep_variant(a, b, c, args[1]);
                if let Ok(c) = construct::variant_from(a, c, args[1]) {
                    if c.members.len() > 0 {
                        keep_expr(a, b, c.members[0].value, args[0]);
                    }
                }
            }
        },
        _ => if args.len() > 0 {
            keep_expr(a, b, v, args[0]);
        },
    }
}

proof fn keep_added(
    a: Context,
    b: Context,
    l: ListView,
    name: Seq<char>,
    calls: Seq<ArgsView>,
    k: int,
)
    requires
        grows(a, b),
    ensures
        kept(fields::added(a, l, name, calls, k), fields::added(b, l, name, calls, k)),
    decreases calls.len() - k,
{
    if 0 <= k < calls.len() {
        if fields::is_repeated(a, l, name, calls[k]) {
            keep_added(a, b, l, name, calls, k + 1);
        } else {
            keep_args(a, b, *l.element, calls[k].args);
            if let Ok(x) = fields::from_args(a, *l.element, calls[k].args) {
                keep_added(a, b, ListView { items: l.items.push(x), ..l }, name, calls, k + 1);
            }
        }
    }
}

proof fn keep_members(a: Context, b: Context, v: Seq<MemberView>, k: int, r: ReaderView)
    requires
        grows(a, b),
    ensures
        kept(fields::members_from(a, v, k, r), fields::members_from(b, v, k, r)),
    decreases v.len() - k,
{
    if 0 <= k < v.len() {
        let rest = r.without(PickView::Member(v[k].name));
        match r.value(PickView::Member(v[k].name)) {
            None => keep_members(a, b, v, k + 1, rest),
            Some(e) => {
                keep_expr(a, b, v[k].value, e);
                if let Ok(x) = construct::from_expr(a, v[k].value, e) {
                    keep_members(a, b, construct::with_value(v, k, x), k + 1, rest);
                }
            },
        }
    }
}

proof fn keep_compound(a: Context, b: Context, s: StructView, r: ReaderView)
    requires
        grows(a, b),
    ensures
        kept(fields::compound_from(a, s, r), fields::compound_from(b, s, r)),
{
    if s.class != "RGBColour"@ {
        keep_members(a, b, s.members, 0, r);
    }
}

proof fn keep_group(a: Context, b: Context, v: ValueView, r: ReaderView)
    requires
        grows(a, b),
    ensures
        kept(fields::from_group(a, v, r), fields::from_group(b, v, r)),
    decreases r.room(), 6nat, 0nat,
{
    match v {
        ValueView::Struct(s) => if s.named {
            keep_walk(a, b, s.members, 0, r);
        } else if fields::any_is_constructor(r) {
            keep_struct(a, b, s, r.value(PickView::Any)->0);
        } else {
            keep_compound(a, b, s, r);
        },
        _ => if let Ok(e) = r.any() {
            keep_expr(a, b, v, e);
        },
    }
}

proof fn keep_walk(a: Context, b: Context, v: Seq<MemberView>, k: int, r: ReaderView)
    requires
        grows(a, b),
    ensures
        kept(fields::walk(a, v, k, r), fields::walk(b, v, k, r)),
    decreases r.room(), 5nat, v.len() - k,
{
    if 0 <= k < v.len() {
        fields::lemma_after_room(v[k].value, v[k].name, r);
        keep_named(a, b, v[k].value, v[k].name, r);
        if let Ok(x) = fields::named(a, v[k].value, v[k].name, r) {
            keep_walk(
                a,
                b,
                construct::with_value(v, k, x),
                k + 1,
                fields::after(v[k].value, v[k].name, r),
            );
        }
    }
}

proof fn keep_named(a: Context, b: Context, v: ValueView, name: Seq<char>, r: ReaderView)
    requires
        grows(a, b),
    ensures
        kept(fields::named(a, v, name, r), fields::named(b, v, name, r)),
    decreases r.room(), 4nat, 0nat,
{
    match v {
        ValueView::Scalar(s) => if let Some(e) = r.value(PickView::Leaf(name)) {
            keep_named_scalar(a, b, s, e);
        },
        ValueView::Variant(c) => if let Some(e) = r.value(PickView::Leaf(name)) {
            keep_variant(a, b, c, e);
        },
        ValueView::List(l) => keep_list(a, b, l, name, r),
        ValueView::Mapping(m) => keep_map(a, b, m, name, r),
        ValueView::Struct(s) => keep_named_struct(a, b, s, name, r),
        _ => {},
    }
}

proof fn keep_list(a: Context, b: Context, l: ListView, name: Seq<char>, r: ReaderView)
    requires
        grows(a, b),
    ensures
        kept(fields::list_named(a, l, name, r), fields::list_named(b, l, name, r)),
    decreases r.room(), 2nat, 0nat,
{
    let clears = PickView::Calls(name, "clear"@);
    let resizes = PickView::Calls(name, "resize"@);
    let adds = PickView::Calls(name, "Add"@);
    let l = if r.call_args(name, "clear"@).len() > 0 {
        ListView { items: Seq::empty(), ..l }
    } else {
        l
    };
    let behind_clears = r.without(clears);
    let behind_resizes = behind_clears.without(resizes);
    let behind_adds = behind_resizes.without(adds);
    reader::lemma_without_room(r, clears);
    reader::lemma_without_room(behind_clears, resizes);
    reader::lemma_without_room(behind_resizes, adds);
    let sizes = behind_clears.call_args(name, "resize"@);
    keep_resized(a, b, l, sizes, 0);
    if let Ok(l) = fields::resized(a, l, sizes, 0) {
        let calls = behind_resizes.call_args(name, "Add"@);
        keep_added(a, b, l, name, calls, 0);
        if let Ok(l) = fields::added(a, l, name, calls, 0) {
            keep_indexed(a, b, l, name, behind_adds, 0);
        }
    }
}

proof fn keep_indexed(
    a: Context,
    b: Context,
    l: ListView,
    name: Seq<char>,
    r: ReaderView,
    k: int,
)
    requires
        grows(a, b),
    ensures
        kept(fields::indexed(a, l, name, r, k), fields::indexed(b, l, name, r, k)),
    decreases r.room(), 1nat, r.index_count(name) - k,
{
    if let Ok(groups) = r.by_index(name) {
        if 0 <= k < groups.len() {
            let g = r.below(groups[k].stmts, 2);
            reader::lemma_index_room(r, name, k);
            keep_placed(a, b, l, groups[k].index as int, g);
            if let Ok(l) = fields::placed(a, l, groups[k].index as int, g) {
                keep_indexed(a, b, l, name, r, k + 1);
            }
        }
    }
}

proof fn keep_placed(a: Context, b: Context, l: ListView, i: int, g: ReaderView)
    requires
        grows(a, b),
    ensures
        kept(fields::placed(a, l, i, g), fields::placed(b, l, i, g)),
    decreases g.room(), 7nat, 0nat,
{
    keep_group(a, b, l.grown(i + 1).items[i], g);
}

proof fn keep_map(a: Context, b: Context, m: MapView, name: Seq<char>, r: ReaderView)
    requires
        grows(a, b),
    ensures
        kept(fields::map_named(a, m, name, r), fields::map_named(b, m, name, r)),
    decreases r.room(), 2nat, 0nat,
{
    let clears = PickView::Calls(name, "clear"@);
    let m = if r.call_args(name, "clear"@).len() > 0 {
        MapView { entries: Seq::empty(), ..m }
    } else {
        m
    };
    reader::lemma_without_room(r, clears);
    keep_keyed(a, b, m, name, r.without(clears), 0);
}

proof fn keep_keyed(a: Context, b: Context, m: MapView, name: Seq<char>, r: ReaderView, k: int)
    requires
        grows(a, b),
    ensures
        kept(fields::keyed(a, m, name, r, k), fields::keyed(b, m, name, r, k)),
    decreases r.room(), 1nat, r.by_key(name).len() - k,
{
    let groups = r.by_key(name);
    if 0 <= k < groups.len() {
        let g = r.below(groups[k].stmts, 2);
        reader::lemma_key_room(r, name, k);
        keep_expr(a, b, *m.key, groups[k].key);
        if let Ok(key) = construct::from_expr(a, *m.key, groups[k].key) {
            keep_group(a, b, *m.value, g);
            if let Ok(value) = fields::from_group(a, *m.value, g) {
                keep_keyed(a, b, m.put(key, value), name, r, k + 1);
            }
        }
    }
}

proof fn keep_named_struct(a: Context, b: Context, s: StructView, name: Seq<char>, r: ReaderView)
    requires
        grows(a, b),
    ensures
        kept(fields::struct_named(a, s, name, r), fields::struct_named(b, s, name, r)),
    decreases r.room(), 3nat, 0nat,
{
    match r.value(PickView::Leaf(name)) {
        Some(e) => if e.value is Constructor {
            keep_struct(a, b, s, e);
        },
        None => {
            let rest = r.without(PickView::Leaf(name));
            let behind = rest.without(PickView::Group(name));
            reader::lemma_without_room(r, PickView::Leaf(name));
            reader::lemma_without_room(rest, PickView::Group(name));
            let set = match rest.members(name) {
                None => Ok(s),
                Some(g) => match fields::compound_from(a, s, g) {
                    Err(x) => Err(x),
                    Ok(set) => match fields::used_up(fields::compound_after(s, g)) {
                        Err(x) => Err((set, x)),
                        Ok(_) => Ok(set),
                    },
                },
            };
            if let Some(g) = rest.members(name) {
                keep_compound(a, b, s, g);
            }
            if let Ok(s) = set {
                if s.members.len() == 1 {
                    match s.members[0].value {
                        ValueView::List(l) => keep_list(a, b, l, name, behind),
                        ValueView::Mapping(m) => keep_map(a, b, m, name, behind),
                        _ => {},
                    }
                }
            }
        },
    }
}

proof fn keep_generic(
    a: Context,
    b: Context,
    base: Seq<MemberView>,
    body: Seq<Spanned<StatementView>>,
)
    requires
        grows(a, b),
    ensures
        kept(fields::generic(a, base, body), fields::generic(b, base, body)),
{
    keep_walk(a, b, base, 0, fields::over(a, body::stripped(body)));
}

// ── Tables ───────────────────────────────────────────────────────────────────

proof fn keep_items_from(
    a: Context,
    b: Context,
    item: Item,
    items: Seq<ValueView>,
    groups: Seq<(usize, ReaderView)>,
    k: int,
)
    requires
        grows(a, b),
    ensures
        steps::items_from(a, item, items, groups, k) == steps::items_from(
            b,
            item,
            items,
            groups,
            k,
        ),
    decreases groups.len() - k,
{
    if 0 <= k < groups.len() {
        if let Ok(x) = steps::lone_item(a, item, groups[k].1) {
            keep_items_from(
                a,
                b,
                item,
                steps::set_at(items, groups[k].0 as int, x, steps::filler(item)),
                groups,
                k + 1,
            );
        }
    }
}

proof fn keep_entries_from(
    a: Context,
    b: Context,
    key: Key,
    item: Item,
    m: MapView,
    groups: Seq<(Spanned<ExprView>, ReaderView)>,
    k: int,
)
    requires
        grows(a, b),
    ensures
        steps::entries_from(a, key, item, m, groups, k) == steps::entries_from(
            b,
            key,
            item,
            m,
            groups,
            k,
        ),
    decreases groups.len() - k,
{
    if 0 <= k < groups.len() {
        if let Ok(name) = steps::key_from(a, key, groups[k].0) {
            if let Ok(x) = steps::lone_item(a, item, groups[k].1) {
                keep_entries_from(a, b, key, item, m.put(name, x), groups, k + 1);
            }
        }
    }
}

proof fn keep_step(a: Context, b: Context, s: Step, v: Seq<MemberView>, r: ReaderView)
    requires
        grows(a, b),
    ensures
        kept(steps::step(a, s, v, r), steps::step(b, s, v, r)),
{
    match s {
        Step::Field(name, how) => if let Some(e) = r.value(PickView::Leaf(name@)) {
            if let ExprView::String(text) = e.value {
                assert((a.strings)(text) is Some ==> (b.strings)(text) == (a.strings)(text));
            }
            assert(kept(steps::scalar_as(a, how, v, e), steps::scalar_as(b, how, v, e)));
        },
        Step::Items(name, item) => if let Some(ValueView::List(l)) = value::member(v, name@) {
            if let Ok(groups) = r.by_index(name@) {
                keep_items_from(a, b, item, l.items, r.indexed_readers(groups), 0);
            }
        },
        Step::Entries(name, key, item) => if let Some(ValueView::Mapping(m)) = value::member(
            v,
            name@,
        ) {
            keep_entries_from(a, b, key, item, m, r.keyed_readers(r.by_key(name@)), 0);
        },
        _ => {},
    }
}

proof fn keep_run(
    a: Context,
    b: Context,
    table: Seq<Step>,
    k: int,
    v: Seq<MemberView>,
    r: ReaderView,
)
    requires
        grows(a, b),
    ensures
        kept(steps::run(a, table, k, v, r), steps::run(b, table, k, v, r)),
    decreases table.len() - k,
{
    if 0 <= k < table.len() {
        keep_step(a, b, table[k], v, r);
        if let Ok(v) = steps::step(a, table[k], v, r) {
            keep_run(a, b, table, k + 1, v, steps::step_after(table[k], r));
        }
    }
}

proof fn keep_tabled(
    a: Context,
    b: Context,
    table: Seq<Step>,
    base: Seq<MemberView>,
    body: Seq<Spanned<StatementView>>,
)
    requires
        grows(a, b),
    ensures
        kept(ui::tabled(a, table, base, body), ui::tabled(b, table, base, body)),
{
    keep_run(a, b, table, 0, base, fields::over(a, body));
}

proof fn keep_states(
    a: Context,
    b: Context,
    l: ListView,
    groups: Seq<(usize, ReaderView)>,
    k: int,
)
    requires
        grows(a, b),
    ensures
        kept(ui::states_from(a, l, groups, k), ui::states_from(b, l, groups, k)),
    decreases groups.len() - k,
{
    if 0 <= k < groups.len() {
        let i = groups[k].0 as int;
        let items = ui::states_upto(l, i);
        if let ValueView::Struct(s) = items[i] {
            keep_run(a, b, ui::state_fields(), 0, s.members, groups[k].1);
        }
        if let Ok(x) = ui::state_from(a, items[i], groups[k].1) {
            keep_states(a, b, ListView { items: items.update(i, x), ..l }, groups, k + 1);
        }
    }
}

proof fn keep_ui(
    a: Context,
    b: Context,
    base: Seq<MemberView>,
    body: Seq<Spanned<StatementView>>,
)
    requires
        grows(a, b),
        (a.strings)("ENG_ARIAL_16"@) is Some,
    ensures
        kept(ui::ui_lowered(a, base, body), ui::ui_lowered(b, base, body)),
{
    let r = fields::over(a, body);
    let behind_fields = steps::run_after(ui::ui_fields(), 0, r);
    let behind_states = behind_fields.without(PickView::Indexed("States"@));
    let start = ui::ui_start(a, base);
    assert(start == ui::ui_start(b, base));
    keep_run(a, b, ui::ui_fields(), 0, start, r);
    if let Ok(v) = steps::run(a, ui::ui_fields(), 0, start, r) {
        if let Some(ValueView::List(l)) = value::member(v, "States"@) {
            if let Ok(groups) = behind_fields.by_index("States"@) {
                keep_states(a, b, l, behind_fields.indexed_readers(groups), 0);
            }
        }
        if let Ok(v) = ui::with_states(a, v, behind_fields) {
            keep_run(a, b, ui::ui_lists(), 0, v, behind_states);
        }
    }
}

// ── Calls ────────────────────────────────────────────────────────────────────

/// Whether strings have offsets.
pub open spec fn all_known(a: Context, v: Seq<Seq<char>>) -> bool {
    forall|i: int| 0 <= i < v.len() ==> (a.strings)(#[trigger] v[i]) is Some
}

proof fn lemma_known(a: Context, b: Context, v: Seq<Seq<char>>)
    requires
        grows(a, b),
        all_known(a, v),
    ensures
        asking::agree(a, b, v),
{
    assert forall|i: int| 0 <= i < v.len() implies (a.strings)(#[trigger] v[i]) == (b.strings)(
        v[i],
    ) by {
        assert((a.strings)(v[i]) is Some);
    }
}

proof fn keep_collected<T: calls::Added>(
    a: Context,
    b: Context,
    entries: Seq<T::V>,
    found: Seq<Spanned<StatementView>>,
    k: int,
)
    requires
        forall|args: Seq<Spanned<ExprView>>| T::entry(a, args) == #[trigger] T::entry(b, args),
    ensures
        calls::collected::<T>(a, entries, found, k) == calls::collected::<T>(
            b,
            entries,
            found,
            k,
        ),
    decreases k,
{
    if 0 < k <= found.len() {
        keep_collected::<T>(a, b, entries, found, k - 1);
        if let Some(args) = calls::call_arguments(found[k - 1].value) {
            assert(T::entry(a, args) == T::entry(b, args));
        }
    }
}

proof fn keep_additions<T: calls::Added>(
    a: Context,
    b: Context,
    entries: Seq<T::V>,
    body: Seq<Spanned<StatementView>>,
    field: Seq<char>,
)
    requires
        forall|args: Seq<Spanned<ExprView>>| T::entry(a, args) == #[trigger] T::entry(b, args),
    ensures
        def::additions::<T>(a, entries, body, field) == def::additions::<T>(
            b,
            entries,
            body,
            field,
        ),
{
    let found = body::all_selected(body, body::method_calls(field, "Add"@));
    keep_collected::<T>(a, b, entries, found, found.len() as int);
}

proof fn keep_body_building(
    a: Context,
    b: Context,
    expressions: Seq<ExpressionEntry>,
    wounds: Seq<WoundView>,
    body: Seq<Spanned<StatementView>>,
    k: int,
)
    requires
        grows(a, b),
    ensures
        builders::body_building(a, expressions, wounds, body, k) == builders::body_building(
            b,
            expressions,
            wounds,
            body,
            k,
        ),
    decreases k,
{
    if 0 < k <= body.len() {
        keep_body_building(a, b, expressions, wounds, body, k - 1);
        let st = builders::body_building(a, expressions, wounds, body, k - 1);
        assert(builders::body_built(a, st, body[k - 1]) == builders::body_built(
            b,
            st,
            body[k - 1],
        ));
    }
}

proof fn keep_deeds(
    a: Context,
    b: Context,
    v: Seq<DeedEffect>,
    body: Seq<Spanned<StatementView>>,
    k: int,
)
    requires
        grows(a, b),
    ensures
        opinions::deed_effects(a, v, body, k) == opinions::deed_effects(b, v, body, k),
    decreases k,
{
    if 0 < k <= body.len() {
        keep_deeds(a, b, v, body, k - 1);
    }
}

proof fn keep_traits(
    a: Context,
    b: Context,
    v: Seq<Single>,
    index: int,
    args: Seq<Spanned<ExprView>>,
    i: int,
)
    requires
        grows(a, b),
    ensures
        opinions::traits_from(a, v, index, args, i) == opinions::traits_from(
            b,
            v,
            index,
            args,
            i,
        ),
    decreases 9 - i,
{
    if 0 <= i < 9 && i + 1 < args.len() {
        if let Ok(x) = eval::as_single(a.symbols, args[i + 1].value) {
            keep_traits(
                a,
                b,
                v.update(index * 9 + opinions::trait_slot(i), x),
                index,
                args,
                i + 1,
            );
        }
    }
}

proof fn keep_personality(
    a: Context,
    b: Context,
    v: Seq<Single>,
    body: Seq<Spanned<StatementView>>,
    k: int,
)
    requires
        grows(a, b),
    ensures
        opinions::personality(a, v, body, k) == opinions::personality(b, v, body, k),
    decreases k,
{
    if 0 < k <= body.len() {
        keep_personality(a, b, v, body, k - 1);
        if body::calls_method(body[k - 1].value, "PersonalityTraits"@, "Set"@) {
            let args = calls::call_arguments(body[k - 1].value)->0;
            if let Some(index) = calls::number_at(a, args, 0) {
                let before = opinions::personality(a, v, body, k - 1).0;
                keep_traits(a, b, before, index as int, args, 0);
            }
        }
    }
}

proof fn keep_reactions(a: Context, b: Context, body: Seq<Spanned<StatementView>>, k: int)
    requires
        grows(a, b),
    ensures
        opinions::reaction_building(a, body, k) == opinions::reaction_building(b, body, k),
    decreases k,
{
    if 0 < k <= body.len() {
        keep_reactions(a, b, body, k - 1);
        if let StatementView::MethodCall { call, .. } = body[k - 1].value {
            if let Some(c) = opinions::second_constructor(call.arguments) {
                let args = c.arguments;
                assert(opinions::singles(a, args, 1, 7) =~= opinions::singles(b, args, 1, 7));
                assert(opinions::singles(a, args, 1, 4) =~= opinions::singles(b, args, 1, 4));
                assert(opinions::singles(a, args, 5, 8) =~= opinions::singles(b, args, 5, 8));
                assert(opinions::singles(a, args, 0, 7) =~= opinions::singles(b, args, 0, 7));
            }
        }
    }
}

proof fn keep_trails(
    a: Context,
    b: Context,
    v: Seq<WeaponTrail>,
    body: Seq<Spanned<StatementView>>,
    k: int,
)
    requires
        grows(a, b),
    ensures
        things::trails(a, v, body, k) == things::trails(b, v, body, k),
    decreases k,
{
    if 0 < k <= body.len() {
        keep_trails(a, b, v, body, k - 1);
    }
}

// ── Definitions ──────────────────────────────────────────────────────────────

/// Whether the strings that a definition of the type `name` asks for beside its fields have
/// offsets.
pub open spec fn is_provided(
    a: Context,
    name: Seq<char>,
    body: Seq<Spanned<StatementView>>,
) -> bool {
    all_known(a, asking::asked_first(name, a.symbols, body)) && all_known(
        a,
        asking::asked_last(name, body),
    )
}

proof fn keep_in(
    a: Context,
    b: Context,
    f: Family,
    enums: ControlEnums,
    start: BodyView,
    body: Seq<Spanned<StatementView>>,
)
    requires
        grows(a, b),
        f == Family::Ui ==> (a.strings)("ENG_ARIAL_16"@) is Some,
        f != Family::Ui ==> all_known(
            a,
            asking::asked_upto(f, a.symbols, body, body.len() as int),
        ),
        f == Family::Thing ==> all_known(a, things::names_added(body)),
    ensures
        kept(
            def::lowered_in(f, enums, a, start, body),
            def::lowered_in(f, enums, b, start, body),
        ),
{
    let n = body.len() as int;
    if f != Family::Ui {
        lemma_known(a, b, asking::asked_upto(f, a.symbols, body, n));
    }
    match f {
        Family::Animated => {
            asking::animations_read_what_they_ask_for(a, b, start.extra.animations(), body);
            keep_generic(
                a,
                b,
                start.record,
                anim::animations(a, start.extra.animations(), body).rest,
            );
        },
        Family::CameraManager => keep_generic(
            a,
            b,
            start.record,
            body::all_selected(body, def::not_clearing()),
        ),
        Family::Creature => {
            let left = morph::appearance(a.symbols, start.extra.appearance(), body).1;
            let (x, w) = (start.extra.expressions(), start.extra.wounds());
            keep_body_building(a, b, x, w, left, left.len() as int);
            keep_generic(
                a,
                b,
                start.record,
                builders::body_building(a, x, w, left, left.len() as int).rest,
            );
        },
        Family::EntitySound => {
            asking::sounds_read_what_they_ask_for(
                a,
                b,
                SoundsView { ranges: start.extra.ranges(), criteria: start.extra.criteria() },
                body,
            );
            keep_generic(
                a,
                b,
                start.record,
                body::all_selected(body, body::no_field_calls("SoundMap"@)),
            );
        },
        Family::Flammable => {
            asking::fires_read_what_they_ask_for(a, b, start.extra.fire(), body);
            keep_generic(a, b, start.record, def::no_additions(body, "EffectCreationSet"@));
        },
        Family::HeroMorph => {
            let st = HeroBuilding {
                textures: start.extra.textures(),
                particles: start.extra.particles(),
                idle_particles: start.extra.idle_particles(),
                rest: Seq::empty(),
            };
            asking::morphs_read_what_they_ask_for(a, b, st, body, n);
            keep_generic(a, b, start.record, builders::hero_building(a, st, body, n).rest);
        },
        Family::DeedEffects => {
            keep_deeds(a, b, start.extra.deeds(), body, n);
            if let Ok((_, left)) = opinions::deed_effects(a, start.extra.deeds(), body, n) {
                keep_generic(a, b, start.record, left);
            }
        },
        Family::Personality => {
            keep_personality(a, b, start.extra.traits(), body, n);
            keep_generic(
                a,
                b,
                start.record,
                opinions::personality(a, start.extra.traits(), body, n).1,
            );
        },
        Family::ReactionManager => {
            keep_reactions(a, b, body, n);
            keep_generic(a, b, start.record, opinions::reaction_building(a, body, n).rest);
        },
        Family::SpecialEffects => {
            keep_additions::<SpecialEffect>(a, b, start.extra.effects(), body, "SpecialEffects"@);
            keep_generic(a, b, start.record, def::no_additions(body, "SpecialEffects"@));
        },
        Family::Thing => {
            lemma_known(a, b, things::names_added(body));
            asking::components_read_what_they_ask_for(a, b, body);
            keep_generic(a, b, start.record, body);
        },
        Family::Weapon => {
            keep_trails(a, b, start.extra.trails(), body, n);
            keep_generic(
                a,
                b,
                start.record,
                things::trails(a, start.extra.trails(), body, n).1,
            );
        },
        Family::WillResponse => keep_generic(
            a,
            b,
            start.record,
            body::all_selected(body, body::not_about("ForceLightningable"@)),
        ),
        Family::Degradable => {
            keep_additions::<DegradableInfo>(
                a,
                b,
                start.extra.degradations(),
                body,
                "Degradations"@,
            );
            keep_generic(a, b, start.record, def::no_additions(body, "Degradations"@));
        },
        Family::Meshes => {
            keep_additions::<ReplaceableMesh>(a, b, start.extra.meshes(), body, "Meshes"@);
            keep_generic(a, b, start.record, def::no_additions(body, "Meshes"@));
        },
        Family::Graphics => {
            keep_additions::<ModifierGraphic>(a, b, start.extra.graphics(), body, "Graphics"@);
            keep_generic(a, b, start.record, def::no_additions(body, "Graphics"@));
        },
        Family::ControlScheme => {},
        Family::Ui => keep_ui(a, b, start.record, body),
        Family::UiMiscThings => keep_tabled(a, b, ui::misc_fields(), start.record, body),
        Family::FrontEnd => keep_tabled(a, b, ui::front_end_fields(), start.record, body),
        Family::Plain
        | Family::OpinionSource
        | Family::BlockAbility
        | Family::PlayerGui
        | Family::HeroExperience
        | Family::Script => keep_generic(a, b, start.record, body),
    }
}

/// A definition that is lowered is lowered to the same where more strings have offsets, if
/// those that it asks for beside its fields have theirs.
pub proof fn a_lowered_definition_is_kept(
    a: Context,
    b: Context,
    types: Seq<TypeView>,
    enums: ControlEnums,
    name: Seq<char>,
    base: Option<BodyView>,
    body: Seq<Spanned<StatementView>>,
)
    requires
        grows(a, b),
        is_provided(a, name, body),
    ensures
        kept(
            def::lowered_def(types, enums, a, name, base, body),
            def::lowered_def(types, enums, b, name, base, body),
        ),
{
    match def::family(name) {
        Some((f, kind)) => if let Some(start) = def::start_of(types, kind, base) {
            if f == Family::Ui {
                let first = asking::asked_first(name, a.symbols, body);
                assert((a.strings)(first[0]) is Some);
            }
            keep_in(a, b, f, enums, start, body);
        },
        None => {
            let start = match base {
                Some(x) => Some(x),
                None => def::default_for_name(types, name, 0),
            };
            if let Some(start) = start {
                keep_generic(a, b, start.record, body);
            }
        },
    }
}

} // verus!
