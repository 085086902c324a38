//! What the calls of the families of definitions build.

use vstd::prelude::*;

use super::animations::{says_number, says_offset, says_real, says_truth};
use super::containers::calls;
use crate::bytes;
use crate::crc32;
use crate::eval;
use crate::eval::{EvalErrorView, Symbols};
use crate::lower::anim;
use crate::lower::body;
use crate::lower::builders;
use crate::lower::builders::{BodyBuilding, HeroBuilding, SoundsView};
use crate::lower::calls as added;
use crate::lower::calls::{
    Added, DegradableInfo, FireEffect, ModifierGraphic, ReplaceableMesh, SpecialEffect,
};
use crate::lower::controls;
use crate::lower::controls::ControlEnums;
use crate::lower::env::Context;
use crate::lower::morph;
use crate::lower::morph::{MeshEntryView, Replacement, Shaping, TexCallView, TextureMorph};
use crate::lower::opinions;
use crate::lower::opinions::Frequency;
use crate::lower::things;
use crate::lower::things::{Addition, WeaponTrail};
use crate::reader::ArgsView;
use crate::single::Single;
use crate::text::ast::{CallView, ExprView, SegmentView, StatementView};
use crate::text::base::Spanned;

verus! {

proof fn lemma_object(name: Seq<char>)
    ensures
        seq![SegmentView::Field(name)].len() == 1,
        seq![SegmentView::Field(name)][0] == SegmentView::Field(name),
{
}

// ── Bytes ────────────────────────────────────────────────────────────────────

/// A number is stored with its least significant byte first.
pub proof fn bytes_count_from_the_least(n: u32)
    ensures
        bytes::little_endian(n).len() == 4,
        n == bytes::little_endian(n)[0] + 0x100 * bytes::little_endian(n)[1] + 0x1_0000
            * bytes::little_endian(n)[2] + 0x100_0000 * bytes::little_endian(n)[3],
{
    let (a, b, c, d) = (
        (n & 0xff) as u8,
        ((n >> 8) & 0xff) as u8,
        ((n >> 16) & 0xff) as u8,
        ((n >> 24) & 0xff) as u8,
    );
    assert(n == a + 0x100 * b + 0x1_0000 * c + 0x100_0000 * d) by (bit_vector)
        requires
            a == (n & 0xff) as u8,
            b == ((n >> 8) & 0xff) as u8,
            c == ((n >> 16) & 0xff) as u8,
            d == ((n >> 24) & 0xff) as u8,
    ;
}

/// The number that stands in four bytes from place `4 * i` on.
pub open spec fn word(data: Seq<u8>, i: int) -> int {
    data[4 * i] + 0x100 * data[4 * i + 1] + 0x1_0000 * data[4 * i + 2] + 0x100_0000 * data[4 * i
        + 3]
}

proof fn lemma_words(v: Seq<u32>, k: int)
    requires
        0 <= k <= v.len(),
    ensures
        added::words(v, k).len() == 4 * k,
        forall|i: int| 0 <= i < k ==> word(added::words(v, k), i) == #[trigger] v[i],
    decreases k,
{
    if k > 0 {
        lemma_words(v, k - 1);
        let before = added::words(v, k - 1);
        let now = added::words(v, k);
        bytes_count_from_the_least(v[k - 1]);
        assert forall|i: int| 0 <= i < k implies word(now, i) == #[trigger] v[i] by {
            if i < k - 1 {
                assert(now[4 * i] == before[4 * i] && now[4 * i + 1] == before[4 * i + 1] && now[4
                    * i + 2] == before[4 * i + 2] && now[4 * i + 3] == before[4 * i + 3]);
            }
        }
    }
}

/// Numbers are stored one behind the other, four bytes each.
pub proof fn words_stand_one_behind_the_other(v: Seq<u32>, i: int)
    requires
        0 <= i < v.len(),
    ensures
        added::word_bytes(v).len() == 4 * v.len(),
        word(added::word_bytes(v), i) == v[i],
{
    lemma_words(v, v.len() as int);
}

// ── Components of things ─────────────────────────────────────────────────────

proof fn lemma_additions_prefix(
    body: Seq<Spanned<StatementView>>,
    s: Spanned<StatementView>,
    k: int,
)
    requires
        0 <= k <= body.len(),
    ensures
        things::additions(body.push(s), k) == things::additions(body, k),
    decreases k,
{
    if k > 0 {
        lemma_additions_prefix(body, s, k - 1);
        assert(body.push(s)[k - 1] == body[k - 1]);
    }
}

proof fn lemma_additions_more(body: Seq<Spanned<StatementView>>, s: Spanned<StatementView>)
    ensures
        things::additions(body.push(s), (body.len() + 1) as int) == things::addition_step(
            things::additions(body, body.len() as int),
            s.value,
        ),
{
    lemma_additions_prefix(body, s, body.len() as int);
    assert(body.push(s)[body.len() as int] == s);
}

proof fn lemma_entries_prefix(cx: Context, v: Seq<Addition>, x: Addition, k: int)
    requires
        0 <= k <= v.len(),
    ensures
        things::component_entries(cx, v.push(x), k) == things::component_entries(cx, v, k),
    decreases k,
{
    if k > 0 {
        lemma_entries_prefix(cx, v, x, k - 1);
        assert(v.push(x)[k - 1] == v[k - 1]);
    }
}

/// One more `Components.Add(name);` adds one component behind the others: it has the offset
/// of the name and the type of its driver, and says whether it replaces one, which the second
/// argument says. A name without an offset adds nothing, and a statement that is no call of
/// the components changes nothing.
pub proof fn a_component_is_added(
    cx: Context,
    body: Seq<Spanned<StatementView>>,
    s: Spanned<StatementView>,
    args: Seq<Spanned<ExprView>>,
    name: Seq<char>,
)
    ensures
        things::thing_components(cx, Seq::empty()).entries.len() == 0,
        (calls(s.value, "Components"@, "Add"@, args) && args.len() > 0 && args[0].value
            == ExprView::String(name)) ==> ({
            let before = things::thing_components(cx, body).entries;
            let after = things::thing_components(cx, body.push(s)).entries;
            match (cx.strings)(name) {
                Some(o) => {
                    &&& after.len() == before.len() + 1
                    &&& after.take(before.len() as int) == before
                    &&& after.last().name == o as i32
                    &&& after.last().driver_type == things::driver_type(name)
                    &&& after.last().over == (args.len() > 1 && (args[1].value == ExprView::Bool(
                        true,
                    ) || args[1].value is Symbol))
                },
                None => after == before,
            }
        }),
        !body::calls_field(s.value, "Components"@) ==> things::thing_components(cx, body.push(s))
            == things::thing_components(cx, body),
        things::thing_components(cx, body).trailing == 28_011_726u32,
{
    lemma_object("Components"@);
    lemma_additions_more(body, s);
    let v = things::additions(body, body.len() as int);
    if calls(s.value, "Components"@, "Add"@, args) && args.len() > 0 && args[0].value
        == ExprView::String(name) {
        let x = Addition { name, over: args.len() > 1 && things::says_yes(args[1].value) };
        assert(things::additions(body.push(s), (body.len() + 1) as int) == v.push(x));
        lemma_entries_prefix(cx, v, x, v.len() as int);
        let before = things::thing_components(cx, body).entries;
        let after = things::thing_components(cx, body.push(s)).entries;
        if (cx.strings)(name) is Some {
            assert(after.take(before.len() as int) =~= before);
        }
    }
}

/// The drivers have their types, and what is no driver has none.
pub proof fn drivers_have_their_types(name: Seq<char>)
    ensures
        things::driver_type("CTCDInternalMarker"@) == 12,
        things::driver_type("CTCDParticleEmitter"@) == 19,
        things::driver_type("CTCDCameraPoint"@) == 20,
        things::driver_type("CTCDNavigationSeed"@) == 21,
        things::driver_type("CTCDHeroSuit"@) == 22,
        things::driver_type("CTCDNone"@) == 23,
        things::driver_type("CTCDRegionEntrance"@) == 24,
        things::driver_type("CTCDRegionExit"@) == 25,
        things::driver_type("CTCDExperienceOrb"@) == 26,
        things::driver_type("CTCDExplosion"@) == 27,
        things::driver_type("CTCDRumble"@) == 28,
        things::driver_type("CTCDPhysicalObstruction"@) == 29,
        things::driver_type("CTCDExplosiveTrail"@) == 30,
        name.len() < 8 || name[3] != 'D' ==> things::driver_type(name) == 0,
{
    reveal_strlit("CTCDInternalMarker");
    reveal_strlit("CTCDParticleEmitter");
    reveal_strlit("CTCDCameraPoint");
    reveal_strlit("CTCDNavigationSeed");
    reveal_strlit("CTCDHeroSuit");
    reveal_strlit("CTCDNone");
    reveal_strlit("CTCDRegionEntrance");
    reveal_strlit("CTCDRegionExit");
    reveal_strlit("CTCDExperienceOrb");
    reveal_strlit("CTCDExplosion");
    reveal_strlit("CTCDRumble");
    reveal_strlit("CTCDPhysicalObstruction");
    reveal_strlit("CTCDExplosiveTrail");
    assert("CTCDInternalMarker"@.len() == 18 && "CTCDInternalMarker"@[4] == 'I'
        && "CTCDInternalMarker"@[3] == 'D');
    assert("CTCDParticleEmitter"@.len() == 19 && "CTCDParticleEmitter"@[3] == 'D');
    assert("CTCDCameraPoint"@.len() == 15 && "CTCDCameraPoint"@[3] == 'D');
    assert("CTCDNavigationSeed"@.len() == 18 && "CTCDNavigationSeed"@[4] == 'N'
        && "CTCDNavigationSeed"@[3] == 'D');
    assert("CTCDHeroSuit"@.len() == 12 && "CTCDHeroSuit"@[3] == 'D');
    assert("CTCDNone"@.len() == 8 && "CTCDNone"@[3] == 'D');
    assert("CTCDRegionEntrance"@.len() == 18 && "CTCDRegionEntrance"@[4] == 'R'
        && "CTCDRegionEntrance"@[3] == 'D');
    assert("CTCDRegionExit"@.len() == 14 && "CTCDRegionExit"@[3] == 'D');
    assert("CTCDExperienceOrb"@.len() == 17 && "CTCDExperienceOrb"@[3] == 'D');
    assert("CTCDExplosion"@.len() == 13 && "CTCDExplosion"@[3] == 'D');
    assert("CTCDRumble"@.len() == 10 && "CTCDRumble"@[3] == 'D');
    assert("CTCDPhysicalObstruction"@.len() == 23 && "CTCDPhysicalObstruction"@[3] == 'D');
    assert("CTCDExplosiveTrail"@.len() == 18 && "CTCDExplosiveTrail"@[4] == 'E'
        && "CTCDExplosiveTrail"@[3] == 'D');
}

// ── Trails of weapons ────────────────────────────────────────────────────────

proof fn lemma_trails_prefix(
    cx: Context,
    v: Seq<WeaponTrail>,
    body: Seq<Spanned<StatementView>>,
    s: Spanned<StatementView>,
    k: int,
)
    requires
        0 <= k <= body.len(),
    ensures
        things::trails(cx, v, body.push(s), k) == things::trails(cx, v, body, k),
    decreases k,
{
    if k > 0 {
        lemma_trails_prefix(cx, v, body, s, k - 1);
        assert(body.push(s)[k - 1] == body[k - 1]);
    }
}

proof fn lemma_trail_place(v: Seq<WeaponTrail>, attack: i32, k: int)
    requires
        0 <= k <= v.len(),
    ensures
        k <= things::trail_place(v, attack, k) <= v.len(),
        forall|i: int| k <= i < things::trail_place(v, attack, k) ==> (#[trigger] v[i]).attack
            != attack,
        things::trail_place(v, attack, k) < v.len() ==> v[things::trail_place(v, attack, k)].attack
            == attack,
    decreases v.len() - k,
{
    if k < v.len() && v[k].attack != attack {
        lemma_trail_place(v, attack, k + 1);
    }
}

/// `WeaponTrails[attack] Set(knockdown, augmentation);` gives the trail of that attack what
/// its arguments say, whatever it was before, and leaves those of other attacks. Another
/// statement is left.
pub proof fn a_trail_is_set(
    cx: Context,
    v: Seq<WeaponTrail>,
    body: Seq<Spanned<StatementView>>,
    s: Spanned<StatementView>,
    at: Spanned<ExprView>,
    e: Spanned<ExprView>,
    args: Seq<Spanned<ExprView>>,
    attack: i32,
) -> (t: WeaponTrail)
    requires
        s.value == (StatementView::Field {
            path: seq![SegmentView::Field("WeaponTrails"@), SegmentView::Index(at)],
            expr: e,
        }),
        e.value matches ExprView::Constructor(c) && c.arguments == args,
        eval::as_i32(cx.symbols, at.value) == Ok::<i32, EvalErrorView>(attack),
    ensures
        ({
            let before = things::trails(cx, v, body, body.len() as int);
            let after = things::trails(cx, v, body.push(s), (body.len() + 1) as int);
            &&& after.1 == before.1
            &&& after.0.contains(t)
            &&& t.attack == attack
            &&& says_number(cx, args, 0, t.knockdown)
            &&& says_number(cx, args, 1, t.augmentation)
            &&& forall|i: int|
                0 <= i < before.0.len() && (#[trigger] before.0[i]).attack != attack ==> after.0[i]
                    == before.0[i]
            &&& after.0.len() <= before.0.len() + 1
        }),
{
    let path = seq![SegmentView::Field("WeaponTrails"@), SegmentView::Index(at)];
    assert(path.len() == 2 && path[0] == SegmentView::Field("WeaponTrails"@) && path[1]
        == SegmentView::Index(at));
    lemma_trails_prefix(cx, v, body, s, body.len() as int);
    assert(body.push(s)[body.len() as int] == s);
    let before = things::trails(cx, v, body, body.len() as int);
    let after = things::trails(cx, v, body.push(s), (body.len() + 1) as int);
    let t = things::trail(cx, s.value)->0;
    assert(after == (things::with_trail(before.0, t), before.1));
    lemma_trail_place(before.0, attack, 0);
    let p = things::trail_place(before.0, attack, 0);
    assert(after.0[p] == t);
    t
}

// ── Sounds ───────────────────────────────────────────────────────────────────

/// One more call of the sounds: `AddSingle(name, n)` adds a range from `n` to `n`,
/// `AddPair(name, a, b)` one from `a` to `b`, and `AddCriteria(name, text)` the offset of the
/// text, each under the checksum of the name and behind those that are there.
pub proof fn a_sound_is_added(
    cx: Context,
    s: SoundsView,
    c: CallView,
    name: Seq<char>,
    n: u32,
    m: u32,
)
    requires
        c.arguments.len() >= 3,
        eval::as_string(c.arguments[0].value) == Ok::<Seq<char>, EvalErrorView>(name),
    ensures
        ({
            let r = builders::sound_added(cx, s, c);
            let key = crc32::text_checksum(name);
            &&& c.name == "AddSingle"@ && eval::as_u32(cx.symbols, c.arguments[1].value) == Ok::<
                u32,
                EvalErrorView,
            >(n) ==> r.criteria == s.criteria && r.ranges.len() == s.ranges.len() + 1
                && r.ranges.take(s.ranges.len() as int) == s.ranges && r.ranges.last().key == key
                && r.ranges.last().first_sound == n && r.ranges.last().last_sound == n
            &&& c.name == "AddPair"@ && eval::as_u32(cx.symbols, c.arguments[1].value) == Ok::<
                u32,
                EvalErrorView,
            >(n) && eval::as_u32(cx.symbols, c.arguments[2].value) == Ok::<u32, EvalErrorView>(m)
                ==> r.criteria == s.criteria && r.ranges.len() == s.ranges.len() + 1
                && r.ranges.take(s.ranges.len() as int) == s.ranges && r.ranges.last().key == key
                && r.ranges.last().first_sound == n && r.ranges.last().last_sound == m
            &&& c.name == "AddCriteria"@ && eval::as_string(c.arguments[1].value) is Ok
                ==> r.ranges == s.ranges && r.criteria.len() == s.criteria.len() + 1
                && r.criteria.take(s.criteria.len() as int) == s.criteria && r.criteria.last().key
                == key && says_offset(cx, c.arguments, 1, r.criteria.last().criterion)
            &&& c.name != "AddSingle"@ && c.name != "AddPair"@ && c.name != "AddCriteria"@ ==> r
                == s
        }),
{
    reveal_strlit("AddSingle");
    reveal_strlit("AddPair");
    reveal_strlit("AddCriteria");
    assert("AddSingle"@.len() == 9 && "AddPair"@.len() == 7 && "AddCriteria"@.len() == 11);
    let r = builders::sound_added(cx, s, c);
    if r.ranges.len() > s.ranges.len() {
        assert(r.ranges.take(s.ranges.len() as int) =~= s.ranges);
    }
    if r.criteria.len() > s.criteria.len() {
        assert(r.criteria.take(s.criteria.len() as int) =~= s.criteria);
    }
}

// ── Lists of one kind of entry ───────────────────────────────────────────────

/// What `Add(…)` adds: an effect of fire has the offset of its name and its number; a special
/// effect the checksum of its name and its number; a stage of decay how much health is left,
/// its graphic, its emitter and whether it is in the way, at full size; a mesh its graphic
/// and type.
pub proof fn entries_have_what_their_arguments_say(cx: Context, args: Seq<Spanned<ExprView>>, n: i32)
    requires
        args.len() >= 2,
        eval::as_i32(cx.symbols, args[1].value) == Ok::<i32, EvalErrorView>(n),
    ensures
        eval::as_string(args[0].value) is Ok ==> (<FireEffect as Added>::entry(cx, args)
            matches Some(x) && says_offset(cx, args, 0, x.name) && x.effect == n),
        eval::as_string(args[0].value) is Ok ==> (<SpecialEffect as Added>::entry(cx, args)
            matches Some(x) && x.key == crc32::text_checksum(
            eval::as_string(args[0].value)->Ok_0,
        ) && x.effect == n),
        eval::as_string(args[0].value) is Err ==> <FireEffect as Added>::entry(cx, args) is None
            && <SpecialEffect as Added>::entry(cx, args) is None,
        <DegradableInfo as Added>::entry(cx, args) matches Some(x) && says_real(
            cx,
            args,
            0,
            x.health_percentage,
        ) && x.bank_index == n && says_number(cx, args, 2, x.smash_particle_emitter)
            && says_truth(args, 3, x.blocks_navigation) && x.anim_step.bits == 0
            && x.render_size_x.bits == 0x3F80_0000 && x.additive_alpha == 0,
        <ReplaceableMesh as Added>::entry(cx, args) matches Some(x) && x.bank_index == n
            && x.anim_step.bits == 0x3F80_0000 && x.render_size_x.bits == 0x3F80_0000
            && x.additive_alpha == 0,
{
}

/// A graphic that modifies an appearance is stored as six numbers: the first, the fourth, the
/// second, the third, the fifth and the sixth argument.
pub proof fn a_graphic_is_six_numbers(cx: Context, args: Seq<Spanned<ExprView>>, a: i32, b: i32, c: i32)
    requires
        says_number(cx, args, 0, a),
        says_number(cx, args, 3, b),
        says_number(cx, args, 1, c),
    ensures
        <ModifierGraphic as Added>::entry(cx, args) matches Some(data) && data.len() == 24 && word(
            data,
            0,
        ) == a as u32 && word(data, 1) == b as u32 && word(data, 2) == c as u32,
        forall|x: Single|
            #![trigger says_real(cx, args, 2, x)]
            says_real(cx, args, 2, x) ==> word(
                <ModifierGraphic as Added>::entry(cx, args)->0,
                3,
            ) == x.bits,
{
    let w = added::modifier_words(cx, args);
    lemma_words(w, 6);
    assert(w[0] == a as u32 && w[1] == b as u32 && w[2] == c as u32);
    assert(word(added::words(w, 6), 0) == w[0]);
    assert(word(added::words(w, 6), 1) == w[1]);
    assert(word(added::words(w, 6), 2) == w[2]);
    assert(word(added::words(w, 6), 3) == w[3]);
}

proof fn lemma_collected_prefix<T: Added>(
    cx: Context,
    v: Seq<T::V>,
    found: Seq<Spanned<StatementView>>,
    s: Spanned<StatementView>,
    k: int,
)
    requires
        0 <= k <= found.len(),
    ensures
        added::collected::<T>(cx, v, found.push(s), k) == added::collected::<T>(cx, v, found, k),
    decreases k,
{
    if k > 0 {
        lemma_collected_prefix::<T>(cx, v, found, s, k - 1);
        assert(found.push(s)[k - 1] == found[k - 1]);
    }
}

/// One more call adds its entry behind the entries that are there.
pub proof fn an_entry_is_added<T: Added>(
    cx: Context,
    v: Seq<T::V>,
    found: Seq<Spanned<StatementView>>,
    s: Spanned<StatementView>,
    field: Seq<char>,
    args: Seq<Spanned<ExprView>>,
)
    requires
        calls(s.value, field, "Add"@, args),
    ensures
        added::collected::<T>(cx, v, Seq::empty(), 0) == v,
        ({
            let before = added::collected::<T>(cx, v, found, found.len() as int);
            let after = added::collected::<T>(cx, v, found.push(s), (found.len() + 1) as int);
            match T::entry(cx, args) {
                Some(x) => after == before.push(x),
                None => after == before,
            }
        }),
{
    lemma_collected_prefix::<T>(cx, v, found, s, found.len() as int);
    assert(found.push(s)[found.len() as int] == s);
}

// ── Wounds, expressions and the morphs of the hero ───────────────────────────

/// A wound is stored as ten numbers: the seven that the first arguments say, the time until
/// it is a scar, how long it lasts, and how strong the scar is. One without a scar has its
/// duration as the eighth argument, and no time and strength of a scar.
pub proof fn a_wound_is_ten_numbers(cx: Context, c: CallView, i: int, n: i32)
    requires
        0 <= i < 10,
        says_number(cx, c.arguments, i, n),
    ensures
        c.name == "AddWound"@ && c.arguments.len() >= 8 ==> (builders::wound(cx, c)
            matches Some(w) && w.data.len() == 40 && says_number(
            cx,
            c.arguments,
            0,
            w.body_location,
        ) && (i < 7 ==> word(w.data, i) == n as u32) && word(w.data, 7) == 0 && (i == 7 ==> word(
            w.data,
            8,
        ) == n as u32) && word(w.data, 9) == 0),
        c.name == "AddWoundAndScar"@ && c.arguments.len() >= 10 ==> (builders::wound(cx, c)
            matches Some(w) && w.data.len() == 40 && says_number(
            cx,
            c.arguments,
            0,
            w.body_location,
        ) && (i < 9 ==> word(w.data, i) == n as u32) && says_real(
            cx,
            c.arguments,
            9,
            Single { bits: word(w.data, 9) as u32 },
        )),
        c.name != "AddWound"@ && c.name != "AddWoundAndScar"@ ==> builders::wound(cx, c) is None,
{
    reveal_strlit("AddWound");
    reveal_strlit("AddWoundAndScar");
    assert("AddWound"@.len() == 8 && "AddWoundAndScar"@.len() == 15);
    let a = c.arguments;
    let plain = builders::wound_words(
        cx,
        a,
        0,
        anim::number_arg(cx, a, 7),
        Single { bits: 0 },
    );
    let scar = builders::wound_words(
        cx,
        a,
        anim::number_arg(cx, a, 7),
        anim::number_arg(cx, a, 8),
        anim::single_arg(cx, a, 9),
    );
    lemma_words(plain, 10);
    lemma_words(scar, 10);
    assert(word(added::words(plain, 10), i) == plain[i]);
    assert(word(added::words(plain, 10), 7) == plain[7]);
    assert(word(added::words(plain, 10), 8) == plain[8]);
    assert(word(added::words(plain, 10), 9) == plain[9]);
    assert(word(added::words(scar, 10), i) == scar[i]);
    assert(word(added::words(scar, 10), 9) == scar[9]);
}

/// `Expressions.Add(type, index);` adds one expression, and a call of the wounds one wound,
/// each behind those that are there; another statement is left.
pub proof fn expressions_and_wounds_are_added(
    cx: Context,
    b: BodyBuilding,
    s: Spanned<StatementView>,
    args: Seq<Spanned<ExprView>>,
    n: i32,
    m: i32,
)
    ensures
        (calls(s.value, "Expressions"@, "Add"@, args) && args.len() >= 2 && eval::as_i32(
            cx.symbols,
            args[0].value,
        ) == Ok::<i32, EvalErrorView>(n) && eval::as_i32(cx.symbols, args[1].value) == Ok::<
            i32,
            EvalErrorView,
        >(m)) ==> ({
            let r = builders::body_built(cx, b, s);
            &&& r.expressions.len() == b.expressions.len() + 1
            &&& r.expressions.take(b.expressions.len() as int) == b.expressions
            &&& r.expressions.last().type_ == n
            &&& r.expressions.last().anim_index == m
            &&& r.wounds == b.wounds
            &&& r.rest == b.rest
        }),
        (!body::calls_field(s.value, "Expressions"@) && !body::calls_field(
            s.value,
            "WoundMorphs"@,
        )) ==> builders::body_built(cx, b, s) == (BodyBuilding { rest: b.rest.push(s), ..b }),
{
    lemma_object("Expressions"@);
    let r = builders::body_built(cx, b, s);
    if r.expressions.len() > b.expressions.len() {
        assert(r.expressions.take(b.expressions.len() as int) =~= b.expressions);
    }
}

/// `TextureMorphs.Add(layer, type, replaced, graphic, blend);` adds one texture of the hero,
/// with what its arguments say.
pub proof fn a_texture_of_the_hero_is_added(
    cx: Context,
    b: HeroBuilding,
    s: Spanned<StatementView>,
    args: Seq<Spanned<ExprView>>,
)
    requires
        calls(s.value, "TextureMorphs"@, "Add"@, args),
    ensures
        ({
            let r = builders::hero_built(cx, b, s);
            &&& r.textures.len() == b.textures.len() + 1
            &&& r.textures.take(b.textures.len() as int) == b.textures
            &&& says_number(cx, args, 0, r.textures.last().texture_layer)
            &&& says_number(cx, args, 1, r.textures.last().morph_type)
            &&& says_number(cx, args, 2, r.textures.last().replacing_texture_index)
            &&& says_number(cx, args, 3, r.textures.last().bank_index)
            &&& says_number(cx, args, 4, r.textures.last().blend)
            &&& r.particles == b.particles
            &&& r.idle_particles == b.idle_particles
            &&& r.rest == b.rest
        }),
{
    lemma_object("TextureMorphs"@);
    let r = builders::hero_built(cx, b, s);
    assert(r.textures.take(b.textures.len() as int) =~= b.textures);
}

/// The particles of the hero are stored as nine numbers. With one kind of particles the
/// strengths are the third and fourth argument; with two kinds that blend the second kind
/// comes before them.
pub proof fn particles_are_nine_numbers(cx: Context, c: CallView, i: int, n: i32)
    requires
        0 <= i < 8,
        says_number(cx, c.arguments, i, n),
    ensures
        c.name == "Add"@ ==> (builders::particle(cx, c) matches Some(p) && p.data.len() == 36
            && says_number(cx, c.arguments, 0, p.morph_type) && (i == 0 ==> word(p.data, 0)
            == n as u32) && word(p.data, 1) == 0 && (i == 4 ==> word(p.data, 2) == n as u32) && (i
            == 6 ==> word(p.data, 4) == n as u32) && (i == 1 ==> word(p.data, 5) == n as u32)
            && word(p.data, 6) == 0 && says_real(
            cx,
            c.arguments,
            2,
            Single { bits: word(p.data, 7) as u32 },
        ) && says_real(cx, c.arguments, 3, Single { bits: word(p.data, 8) as u32 })),
        c.name == "AddBlend"@ ==> (builders::particle(cx, c) matches Some(p) && p.data.len() == 36
            && says_number(cx, c.arguments, 0, p.morph_type) && (i == 0 ==> word(p.data, 0)
            == n as u32) && word(p.data, 1) == 1 && (i == 5 ==> word(p.data, 2) == n as u32) && (i
            == 7 ==> word(p.data, 4) == n as u32) && (i == 1 ==> word(p.data, 5) == n as u32) && (i
            == 2 ==> word(p.data, 6) == n as u32) && says_real(
            cx,
            c.arguments,
            3,
            Single { bits: word(p.data, 7) as u32 },
        ) && says_real(cx, c.arguments, 4, Single { bits: word(p.data, 8) as u32 })),
        c.name != "Add"@ && c.name != "AddBlend"@ ==> builders::particle(cx, c) is None,
{
    reveal_strlit("Add");
    reveal_strlit("AddBlend");
    assert("Add"@.len() == 3 && "AddBlend"@.len() == 8);
    let a = c.arguments;
    let one = builders::particle_words(cx, a, 0);
    let two = builders::particle_words(cx, a, 1);
    lemma_words(one, 9);
    lemma_words(two, 9);
    assert forall|k: int| 0 <= k < 9 implies word(added::words(one, 9), k) == #[trigger] one[k]
        && word(added::words(two, 9), k) == two[k] by {
        assert(word(added::words(two, 9), k) == two[k]);
    }
    assert(one[0] == one[0] && one[1] == 0 && one[2] == one[2] && one[4] == one[4] && one[5]
        == one[5] && one[6] == 0 && one[7] == one[7] && one[8] == one[8]);
}

// ── Appearances ──────────────────────────────────────────────────────────────

/// `RandomAppearanceMorph.AddBodyPart(part, texture, mesh, …);` adds a mesh for each of the
/// numbers behind the texture, in their order: to the head for part 0, to the torso for 1,
/// and to the legs for 2. The other parts stay as they are.
pub proof fn meshes_are_added_to_a_part(
    symbols: Symbols,
    b: Shaping,
    s: Spanned<StatementView>,
    args: Seq<Spanned<ExprView>>,
    part: i32,
    texture: i32,
) -> (more: Seq<MeshEntryView>)
    requires
        calls(s.value, "RandomAppearanceMorph"@, "AddBodyPart"@, args),
        args.len() >= 2,
        eval::as_i32(symbols, args[0].value) == Ok::<i32, EvalErrorView>(part),
        eval::as_i32(symbols, args[1].value) == Ok::<i32, EvalErrorView>(texture),
    ensures
        ({
            let r = morph::shaped(symbols, b, s);
            let (x, y) = (b.appearance, r.appearance);
            &&& more.len() == args.len() - 2
            &&& forall|i: int|
                0 <= i < more.len() ==> (#[trigger] more[i]).texture_id == texture && (eval::as_i32(
                    symbols,
                    args[i + 2].value,
                ) matches Ok(id) ==> more[i].mesh_id == id)
            &&& y.head == (if part == 0 {
                x.head + more
            } else {
                x.head
            })
            &&& y.torso == (if part == 1 {
                x.torso + more
            } else {
                x.torso
            })
            &&& y.legs == (if part == 2 {
                x.legs + more
            } else {
                x.legs
            })
            &&& r.calls == b.calls
            &&& r.max_n == b.max_n
            &&& r.rest == b.rest
        }),
{
    lemma_object("RandomAppearanceMorph"@);
    reveal_strlit("AddBodyPart");
    reveal_strlit("AddTextureToMesh");
    assert("AddBodyPart"@.len() == 11 && "AddTextureToMesh"@.len() == 16);
    morph::new_meshes(morph::numbers_from(symbols, args, 2), texture)
}

proof fn lemma_replacements_len(mesh_id: i32, all: Seq<TexCallView>, k: int)
    requires
        0 <= k <= all.len(),
    ensures
        forall|c: int, r: int|
            0 <= c < k && all[c].mesh_id == mesh_id && 0 <= r < all[c].replacements.len()
                ==> morph::replacements(mesh_id, all, k).contains(
                Replacement {
                    original: all[c].original,
                    replacement: #[trigger] all[c].replacements[r],
                    n: all[c].n,
                },
            ),
    decreases k,
{
    if k > 0 {
        lemma_replacements_len(mesh_id, all, k - 1);
        let before = morph::replacements(mesh_id, all, k - 1);
        let now = morph::replacements(mesh_id, all, k);
        assert forall|c: int, r: int|
            0 <= c < k && all[c].mesh_id == mesh_id && 0 <= r
                < all[c].replacements.len() implies now.contains(
            Replacement {
                original: all[c].original,
                replacement: #[trigger] all[c].replacements[r],
                n: all[c].n,
            },
        ) by {
            let x = Replacement {
                original: all[c].original,
                replacement: all[c].replacements[r],
                n: all[c].n,
            };
            if c < k - 1 {
                assert(before.contains(x));
                let p = choose|p: int| 0 <= p < before.len() && before[p] == x;
                assert(now[p] == x);
            } else {
                assert(now[before.len() + r] == x);
            }
        }
    }
}

proof fn lemma_with_origin(s: Seq<i32>, x: i32, k: int)
    requires
        0 <= k <= s.len(),
        forall|a: int, b: int| 0 <= a < b < s.len() ==> s[a] < s[b],
        forall|a: int| 0 <= a < k ==> s[a] < x,
    ensures
        ({
            let r = morph::with_origin(s, x, k);
            &&& r.contains(x)
            &&& forall|a: int, b: int| 0 <= a < b < r.len() ==> r[a] < r[b]
            &&& forall|y: i32| s.contains(y) ==> #[trigger] r.contains(y)
            &&& forall|y: i32| #[trigger] r.contains(y) ==> s.contains(y) || y == x
        }),
    decreases s.len() - k,
{
    let r = morph::with_origin(s, x, k);
    if k >= s.len() || x < s[k] {
        assert(r[k] == x);
        assert forall|y: i32| s.contains(y) implies #[trigger] r.contains(y) by {
            let p = choose|p: int| 0 <= p < s.len() && s[p] == y;
            if p < k {
                assert(r[p] == y);
            } else {
                assert(r[p + 1] == y);
            }
        }
        assert forall|y: i32| #[trigger] r.contains(y) implies s.contains(y) || y == x by {
            let p = choose|p: int| 0 <= p < r.len() && r[p] == y;
            if p < k {
                assert(s[p] == y);
            } else if p > k {
                assert(s[p - 1] == y);
            }
        }
    } else if x == s[k] {
        assert(r.contains(x));
    } else {
        lemma_with_origin(s, x, k + 1);
    }
}

proof fn lemma_origins(items: Seq<Replacement>, k: int)
    requires
        0 <= k <= items.len(),
    ensures
        ({
            let r = morph::origins(items, k);
            &&& forall|a: int, b: int| 0 <= a < b < r.len() ==> r[a] < r[b]
            &&& forall|i: int| 0 <= i < k ==> r.contains((#[trigger] items[i]).original)
            &&& forall|y: i32| #[trigger]
                r.contains(y) ==> exists|i: int| 0 <= i < k && (#[trigger] items[i]).original == y
        }),
    decreases k,
{
    if k > 0 {
        lemma_origins(items, k - 1);
        let before = morph::origins(items, k - 1);
        let r = morph::origins(items, k);
        lemma_with_origin(before, items[k - 1].original, 0);
        assert forall|y: i32| #[trigger] r.contains(y) implies exists|i: int|
            0 <= i < k && (#[trigger] items[i]).original == y by {
            if before.contains(y) {
                let i = choose|i: int| 0 <= i < k - 1 && (#[trigger] items[i]).original == y;
                assert(items[i].original == y);
            } else {
                assert(items[k - 1].original == y);
            }
        }
    }
}

/// The textures that are replaced come in ascending order, each once, and every texture that
/// a replacement replaces is among them.
pub proof fn replaced_textures_ascend(items: Seq<Replacement>, i: int)
    requires
        0 <= i < items.len(),
    ensures
        ({
            let r = morph::origins(items, items.len() as int);
            &&& forall|a: int, b: int| 0 <= a < b < r.len() ==> r[a] < r[b]
            &&& r.contains(items[i].original)
        }),
{
    lemma_origins(items, items.len() as int);
}

proof fn lemma_group(items: Seq<Replacement>, original: i32, k: int)
    requires
        0 <= k <= items.len(),
    ensures
        forall|i: int|
            0 <= i < k && (#[trigger] items[i]).original == original ==> morph::group_of(
                items,
                original,
                k,
            ).contains(items[i]),
        forall|j: int|
            0 <= j < morph::group_of(items, original, k).len() ==> (#[trigger] morph::group_of(
                items,
                original,
                k,
            )[j]).original == original && items.contains(morph::group_of(items, original, k)[j]),
    decreases k,
{
    if k > 0 {
        lemma_group(items, original, k - 1);
        let before = morph::group_of(items, original, k - 1);
        let now = morph::group_of(items, original, k);
        assert forall|i: int|
            0 <= i < k && (#[trigger] items[i]).original == original implies now.contains(
            items[i],
        ) by {
            if i < k - 1 {
                let p = choose|p: int| 0 <= p < before.len() && before[p] == items[i];
                assert(now[p] == items[i]);
            } else {
                assert(now[before.len() as int] == items[i]);
            }
        }
        assert forall|j: int| 0 <= j < now.len() implies (#[trigger] now[j]).original == original
            && items.contains(now[j]) by {
            if j < before.len() {
                assert(now[j] == before[j]);
            } else {
                assert(items[k - 1] == now[j]);
            }
        }
    }
}

proof fn lemma_morphs(items: Seq<Replacement>, order: Seq<i32>, j: int, g: int, x: Replacement)
    requires
        0 <= g < j <= order.len(),
        morph::group_at(items, order, g).contains(x),
    ensures
        exists|m: TextureMorph| #[trigger]
            morph::morphs(items, order, j).contains(m) && m.new_texture == x.original && m.group_id
                == x.replacement,
    decreases j,
{
    let before = morph::morphs(items, order, j - 1);
    let group = morph::group_at(items, order, j - 1);
    let more = morph::group_morphs(group, morph::first_key(items, order, j - 1));
    let now = morph::morphs(items, order, j);
    if g < j - 1 {
        lemma_morphs(items, order, j - 1, g, x);
        let m = choose|m: TextureMorph| #[trigger]
            before.contains(m) && m.new_texture == x.original && m.group_id == x.replacement;
        let p = choose|p: int| 0 <= p < before.len() && before[p] == m;
        assert(now[p] == m);
        assert(now.contains(m));
    } else {
        let p = choose|p: int| 0 <= p < group.len() && group[p] == x;
        let m = more[p];
        assert(now[before.len() + p] == m);
        assert(now.contains(m));
    }
}

/// A texture that a call replaces on a mesh is replaced on that mesh, by the texture that the
/// call says.
pub proof fn every_replacement_is_a_morph(mesh_id: i32, all: Seq<TexCallView>, c: int, r: int)
    requires
        0 <= c < all.len(),
        all[c].mesh_id == mesh_id,
        0 <= r < all[c].replacements.len(),
    ensures
        exists|m: TextureMorph| #[trigger]
            morph::mesh_morphs(mesh_id, all).contains(m) && m.new_texture == all[c].original
                && m.group_id == all[c].replacements[r],
{
    let items = morph::replacements(mesh_id, all, all.len() as int);
    let order = morph::origins(items, items.len() as int);
    lemma_replacements_len(mesh_id, all, all.len() as int);
    let x = Replacement {
        original: all[c].original,
        replacement: all[c].replacements[r],
        n: all[c].n,
    };
    assert(items.contains(x));
    let p = choose|p: int| 0 <= p < items.len() && items[p] == x;
    lemma_origins(items, items.len() as int);
    assert(order.contains(items[p].original));
    let g = choose|g: int| 0 <= g < order.len() && order[g] == x.original;
    lemma_group(items, x.original, items.len() as int);
    assert(morph::group_at(items, order, g).contains(items[p]));
    lemma_morphs(items, order, order.len() as int, g, x);
    let m = choose|m: TextureMorph| #[trigger]
        morph::morphs(items, order, order.len() as int).contains(m) && m.new_texture == x.original
            && m.group_id == x.replacement;
    assert(morph::mesh_morphs(mesh_id, all).contains(m));
}

/// The largest group of textures is the greatest number that a call of `AddTextureToMesh` has
/// as its second argument; the call itself is kept with its mesh, its texture and what
/// replaces it.
pub proof fn texture_calls_are_kept(
    symbols: Symbols,
    b: Shaping,
    s: Spanned<StatementView>,
    args: Seq<Spanned<ExprView>>,
    n: i32,
    mesh: i32,
    original: i32,
)
    requires
        calls(s.value, "RandomAppearanceMorph"@, "AddTextureToMesh"@, args),
        args.len() >= 3,
        eval::as_i32(symbols, args[0].value) == Ok::<i32, EvalErrorView>(mesh),
        eval::as_i32(symbols, args[1].value) == Ok::<i32, EvalErrorView>(n),
        eval::as_i32(symbols, args[2].value) == Ok::<i32, EvalErrorView>(original),
    ensures
        ({
            let r = morph::shaped(symbols, b, s);
            &&& r.max_n >= n && r.max_n >= b.max_n && (r.max_n == n || r.max_n == b.max_n)
            &&& r.appearance == b.appearance
            &&& r.calls.len() == b.calls.len() + 1
            &&& r.calls.take(b.calls.len() as int) == b.calls
            &&& r.calls.last().mesh_id == mesh
            &&& r.calls.last().n == n
            &&& r.calls.last().original == original
            &&& r.calls.last().replacements.len() == args.len() - 3
            &&& forall|i: int|
                3 <= i < args.len() ==> (eval::as_i32(symbols, (#[trigger] args[i]).value)
                    matches Ok(x) ==> r.calls.last().replacements[i - 3] == x)
            &&& r.rest == b.rest
        }),
{
    lemma_object("RandomAppearanceMorph"@);
    reveal_strlit("AddBodyPart");
    reveal_strlit("AddTextureToMesh");
    assert("AddBodyPart"@.len() == 11 && "AddTextureToMesh"@.len() == 16);
    let r = morph::shaped(symbols, b, s);
    assert(r.calls.take(b.calls.len() as int) =~= b.calls);
}

// ── Controls ─────────────────────────────────────────────────────────────────

/// A control has its action, its controller and its key from the first three arguments: the
/// key is a key of the keyboard with controller 2, a button of the pad with 1 and a button of
/// the mouse with 3, and the other two are 0; another controller is an error. Everything in it
/// is a value of its enumeration. A fourth argument is its direction, which is 0 without one.
pub proof fn a_control_fills_the_slot_of_its_controller(enums: ControlEnums, a: ArgsView)
    ensures
        controls::control_from(enums, a) matches Ok(c) ==> {
            &&& a.args.len() >= 3
            &&& eval::as_i32(a.symbols, a.args[0].value) == Ok::<i32, EvalErrorView>(c.game_action)
            &&& eval::as_i32(a.symbols, a.args[1].value) == Ok::<i32, EvalErrorView>(
                c.controller_type,
            )
            &&& eval::as_i32(a.symbols, a.args[2].value) == Ok::<i32, EvalErrorView>(
                if c.controller_type == 1 {
                    c.xbox_button
                } else if c.controller_type == 2 {
                    c.keyboard_key
                } else {
                    c.mouse_button
                },
            )
            &&& 1 <= c.controller_type <= 3
            &&& c.controller_type != 1 ==> c.xbox_button == 0
            &&& c.controller_type != 2 ==> c.keyboard_key == 0
            &&& c.controller_type != 3 ==> c.mouse_button == 0
            &&& enums.game_action@.contains(c.game_action)
            &&& enums.controller_type@.contains(c.controller_type)
            &&& enums.input_key@.contains(c.keyboard_key)
            &&& enums.xbox_button@.contains(c.xbox_button)
            &&& enums.mouse_button@.contains(c.mouse_button)
            &&& a.args.len() == 3 ==> c.direction_x.bits == 0 && c.direction_y.bits == 0
            &&& a.args.len() > 3 ==> (a.args[3].value matches ExprView::Constructor(d) && d.name
                == "C2DCoordF"@ && d.arguments.len() >= 2 && eval::as_single(
                a.symbols,
                d.arguments[0].value,
            ) == Ok::<Single, EvalErrorView>(c.direction_x) && eval::as_single(
                a.symbols,
                d.arguments[1].value,
            ) == Ok::<Single, EvalErrorView>(c.direction_y))
        },
{
}

// ── Opinions ─────────────────────────────────────────────────────────────────

/// An effect of a deed has its opinion first. With five arguments the four behind it are its
/// peak, how long it comes and goes, and what stays; with fewer the second is what stays, and
/// the others are 0.
pub proof fn deeds_have_two_arguments_or_five(cx: Context, a: Seq<Spanned<ExprView>>)
    ensures
        ({
            let d = opinions::deed_effect(cx, a);
            &&& says_number(cx, a, 0, d.opinion)
            &&& a.len() >= 5 ==> says_real(cx, a, 1, d.peak) && says_real(cx, a, 2, d.run_in_secs)
                && says_real(cx, a, 3, d.run_out_secs) && says_real(cx, a, 4, d.persist)
            &&& a.len() < 5 ==> d.peak.bits == 0 && d.run_in_secs.bits == 0 && d.run_out_secs.bits
                == 0 && says_real(cx, a, 1, d.persist)
        }),
{
}

proof fn lemma_traits(
    cx: Context,
    v: Seq<Single>,
    index: int,
    a: Seq<Spanned<ExprView>>,
    i: int,
)
    requires
        v.len() == 45,
        0 <= index < 5,
        0 <= i <= 9,
        a.len() == 10,
        forall|j: int|
            1 <= j < 10 ==> eval::as_single(cx.symbols, (#[trigger] a[j]).value) is Ok,
    ensures
        ({
            let r = opinions::traits_from(cx, v, index, a, i);
            &&& r.len() == 45
            &&& forall|j: int|
                i <= j < 9 ==> r[index * 9 + #[trigger] opinions::trait_slot(j)]
                    == eval::as_single(cx.symbols, a[j + 1].value)->Ok_0
            &&& forall|p: int|
                0 <= p < 45 && (forall|j: int|
                    i <= j < 9 ==> p != index * 9 + #[trigger] opinions::trait_slot(j))
                    ==> #[trigger] r[p] == v[p]
        }),
    decreases 9 - i,
{
    if i < 9 {
        assert(eval::as_single(cx.symbols, a[i + 1].value) is Ok);
        let x = eval::as_single(cx.symbols, a[i + 1].value)->Ok_0;
        let at = index * 9 + opinions::trait_slot(i);
        let next = v.update(at, x);
        lemma_traits(cx, next, index, a, i + 1);
        let r = opinions::traits_from(cx, v, index, a, i);
        assert(r == opinions::traits_from(cx, next, index, a, i + 1));
        assert forall|j: int| i <= j < 9 implies r[index * 9 + #[trigger] opinions::trait_slot(j)]
            == eval::as_single(cx.symbols, a[j + 1].value)->Ok_0 by {
            if j == i {
                assert forall|m: int| i + 1 <= m < 9 implies at != index * 9
                    + #[trigger] opinions::trait_slot(m) by {}
                assert(r[at] == next[at]);
            }
        }
        assert forall|p: int|
            0 <= p < 45 && (forall|j: int|
                i <= j < 9 ==> p != index * 9 + #[trigger] opinions::trait_slot(
                    j,
                )) implies #[trigger] r[p] == v[p] by {
            assert(p != index * 9 + opinions::trait_slot(i));
            assert(r[p] == next[p]);
        }
    }
}

/// `PersonalityTraits.Set(opinion, …);` with nine numbers sets the nine traits of that
/// opinion in their order, except that the seventh and the eighth change places, and no trait
/// of another opinion.
pub proof fn two_traits_change_places(
    cx: Context,
    v: Seq<Single>,
    a: Seq<Spanned<ExprView>>,
    index: i32,
)
    requires
        v.len() == 45,
        a.len() == 10,
        eval::as_i32(cx.symbols, a[0].value) == Ok::<i32, EvalErrorView>(index),
        forall|j: int| 1 <= j < 10 ==> eval::as_single(cx.symbols, (#[trigger] a[j]).value) is Ok,
    ensures
        ({
            let r = opinions::traits_step(cx, v, a);
            let said = |j: int| eval::as_single(cx.symbols, a[j].value)->Ok_0;
            &&& r.len() == 45
            &&& 0 <= index < 5 ==> {
                &&& r[9 * index] == said(1)
                &&& r[9 * index + 1] == said(2)
                &&& r[9 * index + 2] == said(3)
                &&& r[9 * index + 3] == said(4)
                &&& r[9 * index + 4] == said(5)
                &&& r[9 * index + 5] == said(6)
                &&& r[9 * index + 6] == said(8)
                &&& r[9 * index + 7] == said(7)
                &&& r[9 * index + 8] == said(9)
            }
            &&& forall|p: int|
                0 <= p < 45 && !(9 * index <= p < 9 * index + 9) ==> #[trigger] r[p] == v[p]
            &&& !(0 <= index < 5) ==> r == v
        }),
{
    if 0 <= index < 5 {
        lemma_traits(cx, v, index as int, a, 0);
        let r = opinions::traits_step(cx, v, a);
        assert(opinions::trait_slot(0) == 0 && opinions::trait_slot(1) == 1 && opinions::trait_slot(
            2,
        ) == 2 && opinions::trait_slot(3) == 3 && opinions::trait_slot(4) == 4
            && opinions::trait_slot(5) == 5 && opinions::trait_slot(6) == 7 && opinions::trait_slot(
            7,
        ) == 6 && opinions::trait_slot(8) == 8);
        assert forall|p: int| 0 <= p < 45 && !(9 * index <= p < 9 * index
            + 9) implies #[trigger] r[p] == v[p] by {
            assert forall|j: int| 0 <= j < 9 implies p != index * 9
                + #[trigger] opinions::trait_slot(j) by {}
        }
    }
}

/// A match of a reaction has the axes and the seven or six numbers that its constructor says.
pub proof fn matches_have_what_their_constructor_says(cx: Context, reaction: i32, c: CallView)
    ensures
        ({
            let a = c.arguments;
            let m = opinions::reaction_match(cx, reaction, c);
            &&& (c.name == "Secondary"@ || c.name == "SecondaryCentred"@) ==> (m matches Some(x)
                && x.reaction_type == reaction && says_number(cx, a, 0, x.x_axis) && x.y_axis == 0
                && x.numbers.len() == 6 && says_real(cx, a, 1, x.numbers[0]) && says_real(
                cx,
                a,
                6,
                x.numbers[5],
            ) && (x.kind is Secondary <==> c.name == "Secondary"@) && (x.kind is SecondaryCentred
                <==> c.name == "SecondaryCentred"@))
            &&& c.name == "Pyramid"@ ==> (m matches Some(x) && x.reaction_type == reaction
                && x.kind is Pyramid && says_number(cx, a, 0, x.x_axis) && says_number(
                cx,
                a,
                4,
                x.y_axis,
            ) && x.numbers.len() == 6 && says_real(cx, a, 1, x.numbers[0]) && says_real(
                cx,
                a,
                3,
                x.numbers[2],
            ) && says_real(cx, a, 5, x.numbers[3]) && says_real(cx, a, 7, x.numbers[5]))
            &&& c.name == "MRBlob"@ ==> (m matches Some(x) && x.reaction_type == reaction
                && x.kind is Blob && x.x_axis == 0 && x.y_axis == 1 && x.numbers.len() == 7
                && says_real(cx, a, 0, x.numbers[0]) && says_real(cx, a, 6, x.numbers[6]))
            &&& c.name == "Linear"@ ==> (opinions::reaction_frequency(cx, c) matches Some(
                Frequency::Linear { min_wait, max_wait },
            ) && says_real(cx, a, 0, min_wait) && says_real(cx, a, 1, max_wait))
            &&& c.name == "ControlledCount"@ ==> (opinions::reaction_frequency(cx, c) matches Some(
                Frequency::ControlledCount { max_count, min_gap, recharge_time, allow_repeats },
            ) && says_real(cx, a, 0, max_count) && says_real(cx, a, 1, min_gap) && says_real(
                cx,
                a,
                2,
                recharge_time,
            ) && allow_repeats == (a.len() > 3 && (a[3].value == ExprView::Bool(true)
                || a[3].value is Symbol)))
        }),
{
    reveal_strlit("Secondary");
    reveal_strlit("SecondaryCentred");
    reveal_strlit("Pyramid");
    reveal_strlit("MRBlob");
    reveal_strlit("Linear");
    reveal_strlit("ControlledCount");
    assert("Secondary"@.len() == 9 && "SecondaryCentred"@.len() == 16 && "Pyramid"@.len() == 7
        && "MRBlob"@.len() == 6 && "Linear"@.len() == 6 && "ControlledCount"@.len() == 15);
}

} // verus!
