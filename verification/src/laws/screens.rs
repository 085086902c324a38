//! Definitions that are read by a table.

use vstd::prelude::*;

use super::members;
use crate::lower::env::{Context, LowerErrorView};
use crate::lower::fields;
use crate::lower::steps;
use crate::lower::steps::{How, Item, Key, Step};
use crate::lower::ui;
use crate::order;
use crate::reader;
use crate::reader::{ArgsView, PickView, ReaderErrorView, ReaderView};
use crate::text::ast::{ExprView, StatementView};
use crate::text::base::Spanned;
use crate::value;
use crate::value::{ListView, MapView, MemberView, Pair, ScalarView, ValueView};

verus! {

// ── Scalars ──────────────────────────────────────────────────────────────────

proof fn lemma_picked(r: ReaderView, pick: PickView, name: Seq<char>, k: int)
    requires
        pick is Indexed || pick is Keyed || pick is Calls || (pick matches PickView::Leaf(n) && n
            != name),
    ensures
        reader::picked(r.without(pick).entries, PickView::Leaf(name), r.depth, k)
            == reader::picked(r.entries, PickView::Leaf(name), r.depth, k),
    decreases k,
{
    if 0 < k <= r.entries.len() {
        lemma_picked(r, pick, name, k - 1);
    }
}

proof fn lemma_after(s: Step, r: ReaderView, name: Seq<char>)
    requires
        members::step_name(s) != name,
    ensures
        steps::step_after(s, r).value(PickView::Leaf(name)) == r.value(PickView::Leaf(name)),
{
    let n = r.entries.len() as int;
    match s {
        Step::Field(x, _) => lemma_picked(r, PickView::Leaf(x@), name, n),
        Step::Strict(x, _) => lemma_picked(r, PickView::Leaf(x@), name, n),
        Step::Items(x, _) => lemma_picked(r, PickView::Indexed(x@), name, n),
        Step::Entries(x, _, _) => lemma_picked(r, PickView::Keyed(x@), name, n),
        Step::Strings(x) => lemma_picked(r, PickView::Calls(x@, "Add"@), name, n),
        Step::Sorted(_) => {},
    }
}

/// A table sets a field that one of its steps is about to what the last statement about it
/// says, whatever else it reads.
pub proof fn a_table_sets_its_fields(
    cx: Context,
    table: Seq<Step>,
    k: int,
    j: int,
    name: &'static str,
    how: How,
    v: Seq<MemberView>,
    r: ReaderView,
    e: Spanned<ExprView>,
)
    requires
        0 <= k <= j < table.len(),
        table[j] == Step::Field(name, how),
        !(how is Mesh),
        forall|i: int|
            k <= i < table.len() && i != j ==> members::step_name(#[trigger] table[i]) != name@,
        value::member(v, name@) is Some,
        r.value(PickView::Leaf(name@)) == Some(e),
    ensures
        steps::run(cx, table, k, v, r) matches Ok(w) ==> (steps::scalar_as(cx, how, v, e)
            matches Ok(x) && value::member(w, name@) == Some(ValueView::Scalar(x))),
    decreases table.len() - k,
{
    if let Ok(next) = steps::step(cx, table[k], v, r) {
        let rest = steps::step_after(table[k], r);
        if k < j {
            assert(members::step_name(table[k]) != name@);
            lemma_after(table[k], r, name@);
            let one = seq![table[k]];
            assert(one.len() == 1 && one[0] == table[k]);
            members::a_table_keeps_other_fields(cx, one, 0, v, r, name@);
            assert(steps::run(cx, one, 1, next, rest) == Ok::<Seq<MemberView>, LowerErrorView>(
                next,
            ));
            assert(steps::run(cx, one, 0, v, r) == Ok::<Seq<MemberView>, LowerErrorView>(next));
            a_table_sets_its_fields(cx, table, k + 1, j, name, how, next, rest, e);
        } else {
            let x = steps::scalar_as(cx, how, v, e)->Ok_0;
            members::setting_a_member_sets_that_one(v, name@, ValueView::Scalar(x), name@);
            members::a_table_keeps_other_fields(cx, table, k + 1, next, rest, name@);
        }
    }
}

// ── Lists and maps ───────────────────────────────────────────────────────────

/// What a new element of a list is, before a statement sets it: nothing, of its kind.
pub open spec fn is_nothing(item: Item, v: ValueView) -> bool {
    v matches ValueView::Scalar(s) && match item {
        Item::Single => s matches ScalarView::Single(x) && x.bits == 0,
        Item::I32 => s == ScalarView::I32(0),
        Item::U32 => s == ScalarView::U32(0),
        Item::Str => s matches ScalarView::Str(t) && t.len() == 0,
        Item::Ref => s == ScalarView::DefIndex(0),
    }
}

/// The elements that statements are about are set, one for each index, and the others stay;
/// where the list was shorter, elements of nothing stand between.
pub proof fn lists_are_read_by_element(
    cx: Context,
    item: Item,
    items: Seq<ValueView>,
    groups: Seq<(usize, ReaderView)>,
    k: int,
    i: int,
)
    requires
        0 <= k <= groups.len(),
        0 <= i,
    ensures
        steps::items_from(cx, item, items, groups, k) matches Ok(w) ==> {
            &&& items.len() <= w.len()
            &&& forall|g: int| k <= g < groups.len() ==> (#[trigger] groups[g]).0 < w.len()
            &&& forall|g: int|
                k <= g < groups.len() && (forall|h: int|
                    g < h < groups.len() ==> (#[trigger] groups[h]).0 != groups[g].0) ==> (
                steps::lone_item(cx, item, (#[trigger] groups[g]).1) matches Ok(x)
                    && w[groups[g].0 as int] == x)
            &&& i < w.len() && (forall|g: int|
                k <= g < groups.len() ==> (#[trigger] groups[g]).0 != i) ==> if i < items.len() {
                w[i] == items[i]
            } else {
                is_nothing(item, w[i])
            }
        },
    decreases groups.len() - k,
{
    if k < groups.len() {
        if let Ok(x) = steps::lone_item(cx, item, groups[k].1) {
            let at = groups[k].0 as int;
            let next = steps::set_at(items, at, x, steps::filler(item));
            lists_are_read_by_element(cx, item, next, groups, k + 1, i);
            lists_are_read_by_element(cx, item, next, groups, k + 1, at);
            if let Ok(w) = steps::items_from(cx, item, items, groups, k) {
                assert(steps::items_from(cx, item, next, groups, k + 1) == Ok::<
                    Seq<ValueView>,
                    LowerErrorView,
                >(w));
                assert(at < next.len() && next[at] == x);
                assert(items.len() <= next.len());
                if forall|g: int| k <= g < groups.len() ==> (#[trigger] groups[g]).0 != i {
                    assert(groups[k].0 != i);
                    if i < next.len() && i >= items.len() {
                        assert(is_nothing(item, next[i]));
                    }
                }
            }
        }
    }
}

/// `name.Add("…")` puts one more string behind a list, for each call in turn.
pub proof fn strings_are_added(items: Seq<ValueView>, calls: Seq<ArgsView>, k: int)
    requires
        0 <= k <= calls.len(),
    ensures
        steps::strings_from(items, calls, k) matches Ok(w) ==> {
            &&& w.len() == items.len() + calls.len() - k
            &&& forall|p: int| 0 <= p < items.len() ==> w[p] == items[p]
            &&& forall|p: int|
                items.len() <= p < w.len() ==> (calls[p - items.len() + k].string(0) matches Ok(s)
                    && #[trigger] w[p] == ValueView::Scalar(ScalarView::Str(s)))
        },
    decreases calls.len() - k,
{
    if k < calls.len() {
        if let Ok(s) = calls[k].string(0) {
            let next = items.push(ValueView::Scalar(ScalarView::Str(s)));
            strings_are_added(next, calls, k + 1);
            if let Ok(w) = steps::strings_from(items, calls, k) {
                assert forall|p: int| 0 <= p < items.len() implies w[p] == items[p] by {
                    assert(w[p] == next[p]);
                }
                assert(w[items.len() as int] == next[items.len() as int]);
            }
        }
    }
}

/// One more key that statements are about sets one more entry of a map.
pub proof fn maps_are_read_by_key(
    cx: Context,
    key: Key,
    item: Item,
    m: MapView,
    groups: Seq<(Spanned<ExprView>, ReaderView)>,
    g: (Spanned<ExprView>, ReaderView),
    k: int,
)
    requires
        0 <= k <= groups.len(),
    ensures
        (steps::entries_from(cx, key, item, m, groups, k) matches Ok(w) ==> (steps::key_from(
            cx,
            key,
            g.0,
        ) matches Ok(name) ==> (steps::lone_item(cx, item, g.1) matches Ok(x)
            ==> steps::entries_from(cx, key, item, m, groups.push(g), k) == Ok::<
            MapView,
            LowerErrorView,
        >(w.put(name, x))))),
        steps::entries_from(cx, key, item, m, Seq::empty(), 0) == Ok::<MapView, LowerErrorView>(m),
    decreases groups.len() - k,
{
    let more = groups.push(g);
    if k < groups.len() {
        assert(more[k] == groups[k]);
        if let Ok(name) = steps::key_from(cx, key, groups[k].0) {
            if let Ok(x) = steps::lone_item(cx, item, groups[k].1) {
                maps_are_read_by_key(cx, key, item, m.put(name, x), groups, g, k + 1);
            }
        }
    } else {
        assert(more[k] == g);
        if let Ok(name) = steps::key_from(cx, key, g.0) {
            if let Ok(x) = steps::lone_item(cx, item, g.1) {
                assert(steps::entries_from(cx, key, item, m.put(name, x), more, k + 1) == Ok::<
                    MapView,
                    LowerErrorView,
                >(m.put(name, x)));
            }
        }
    }
}

/// An element is read as what the table says it is, from the one statement about it.
pub proof fn elements_are_read_as_what_they_are(
    cx: Context,
    g: ReaderView,
    e: Spanned<ExprView>,
)
    requires
        g.symbols == cx.symbols,
        g.any() == Ok::<Spanned<ExprView>, ReaderErrorView>(e),
    ensures
        steps::item_from(cx, Item::Single, g) == value_of(
            steps::scalar_as(cx, How::Single, Seq::empty(), e),
        ),
        steps::item_from(cx, Item::I32, g) == value_of(
            steps::scalar_as(cx, How::I32, Seq::empty(), e),
        ),
        steps::item_from(cx, Item::U32, g) == value_of(
            steps::scalar_as(cx, How::U32, Seq::empty(), e),
        ),
        steps::item_from(cx, Item::Str, g) == value_of(
            steps::scalar_as(cx, How::Str, Seq::empty(), e),
        ),
        (e.value matches ExprView::String(s) ==> ((cx.defs)(s) matches Some(o) ==> steps::item_from(
            cx,
            Item::Ref,
            g,
        ) == Ok::<ValueView, LowerErrorView>(ValueView::Scalar(ScalarView::DefIndex(o as i32))))),
        steps::key_from(cx, Key::I32, e) == value_of(
            steps::scalar_as(cx, How::I32, Seq::empty(), e),
        ),
        steps::key_from(cx, Key::U32, e) == value_of(
            steps::scalar_as(cx, How::U32, Seq::empty(), e),
        ),
        steps::key_from(cx, Key::Str, e) == value_of(
            steps::scalar_as(cx, How::Str, Seq::empty(), e),
        ),
{
}

/// A scalar that was read, as a value.
pub open spec fn value_of(r: Result<ScalarView, LowerErrorView>) -> Result<
    ValueView,
    LowerErrorView,
> {
    match r {
        Ok(x) => Ok(ValueView::Scalar(x)),
        Err(x) => Err(x),
    }
}

/// A map that is put in order has its entries in ascending order of key, the same entries as
/// before.
pub proof fn a_map_is_put_in_order(m: MapView)
    ensures
        m.sorted().entries.to_multiset() == m.entries.to_multiset(),
        forall|a: int, b: int|
            0 <= a < b < m.sorted().entries.len() ==> value::number(
                (#[trigger] m.sorted().entries[a]).key,
            ) <= value::number((#[trigger] m.sorted().entries[b]).key),
{
    order::order_keeps_the_values::<Pair>(m.entries);
}

// ── Tables ───────────────────────────────────────────────────────────────────

/// Whether a table reads a field as the given kind.
pub open spec fn reads_as(table: Seq<Step>, name: Seq<char>, how: How) -> bool {
    exists|j: int|
        0 <= j < table.len() && (#[trigger] table[j] matches Step::Field(n, h) && n@ == name && h
            == how)
}

proof fn lemma_joined(a: Seq<Step>, b: Seq<Step>, name: Seq<char>, how: How)
    ensures
        reads_as(a, name, how) || reads_as(b, name, how) ==> reads_as(a + b, name, how),
{
    if reads_as(a, name, how) {
        let j = choose|j: int|
            0 <= j < a.len() && (#[trigger] a[j] matches Step::Field(n, h) && n@ == name && h
                == how);
        assert((a + b)[j] == a[j]);
    } else if reads_as(b, name, how) {
        let j = choose|j: int|
            0 <= j < b.len() && (#[trigger] b[j] matches Step::Field(n, h) && n@ == name && h
                == how);
        assert((a + b)[a.len() + j] == b[j]);
    }
}

/// Whether a field of the miscellaneous things is a text that is shown.
pub open spec fn is_text(name: Seq<char>) -> bool {
    ||| name == "SpaceSeparator"@
    ||| name == "CommaSeparator"@
    ||| name == "NewLineSeparator"@
    ||| name == "OpenBracket"@
    ||| name == "CloseBracket"@
    ||| name == "Positive"@
    ||| name == "ColonSeparator"@
    ||| name == "WeaponValueString"@
    ||| name == "WeaponAugString"@
    ||| name == "WeaponAugNone"@
    ||| name == "WeaponWeightString"@
    ||| name == "WeaponLightString"@
    ||| name == "WeaponHeavyString"@
    ||| name == "WeaponKillsString"@
    ||| name == "WeaponCatMeleeString"@
    ||| name == "WeaponCatRangedString"@
    ||| name == "WeaponDamageString"@
    ||| name == "TradeCostString"@
    ||| name == "TradeProfitString"@
    ||| name == "TradeLossString"@
    ||| name == "TradeAlreadyOwnsString"@
    ||| name == "TradeNumberInStockString"@
    ||| name == "TradeDeliveryString"@
    ||| name == "TradeNoDeliveryString"@
    ||| name == "TradeDaysString"@
    ||| name == "TradeBuyString"@
    ||| name == "TradeSellString"@
    ||| name == "TradeWantedString"@
    ||| name == "QuestFailedString"@
    ||| name == "FailedString"@
    ||| name == "SucceededString"@
    ||| name == "Plus"@
    ||| name == "Minus"@
    ||| name == "ObjectsRewardString"@
    ||| name == "NoneString"@
    ||| name == "CheckGuildString"@
    ||| name == "QuestStartingString"@
    ||| name == "YouString"@
    ||| name == "OwnString"@
    ||| name == "NoString"@
    ||| name == "HousesString"@
    ||| name == "HouseString"@
    ||| name == "InString"@
    ||| name == "ShopsString"@
    ||| name == "ShopString"@
    ||| name == "ThereString"@
    ||| name == "AreString"@
    ||| name == "IsString"@
    ||| name == "ForString"@
    ||| name == "SaleString"@
    ||| name == "GeneralString"@
    ||| name == "TatooString"@
    ||| name == "BarberString"@
    ||| name == "TitleString"@
    ||| name == "LevelString"@
    ||| name == "LogBookBasicsCategoryString"@
    ||| name == "LogBookObjectsCategoryString"@
    ||| name == "LogBookTownsCategoryString"@
    ||| name == "LogBookHeroCategoryString"@
    ||| name == "LogBookCombatCategoryString"@
    ||| name == "LogBookQuestCategoryString"@
    ||| name == "LogBookStoryCategoryString"@
    ||| name == "LogBookBasicsCategoryNameString"@
    ||| name == "LogBookObjectsCategoryNameString"@
    ||| name == "LogBookTownsCategoryNameString"@
    ||| name == "LogBookHeroCategoryNameString"@
    ||| name == "LogBookCombatCategoryNameString"@
    ||| name == "LogBookQuestCategoryNameString"@
    ||| name == "LogBookStoryCategoryNameString"@
    ||| name == "FrontEndMusic"@
}

/// Whether a field of the miscellaneous things is the name of a sound.
pub open spec fn is_sound(name: Seq<char>) -> bool {
    ||| name == "SoundUpDown"@
    ||| name == "SoundSlider"@
    ||| name == "SoundBack"@
    ||| name == "SoundForward"@
    ||| name == "SoundError"@
    ||| name == "SoundExit"@
    ||| name == "CountUpSound"@
    ||| name == "SoundKeyboardUp"@
    ||| name == "SoundKeyboardDown"@
    ||| name == "SoundKeyboardLeft"@
    ||| name == "SoundKeyboardRight"@
    ||| name == "SoundKeyboardEnterCharacter"@
    ||| name == "SoundKeyboardDeleteCharacter"@
    ||| name == "SoundKeyboardDone"@
}

/// Whether a field of the miscellaneous things is a number.
pub open spec fn is_count(name: Seq<char>) -> bool {
    ||| name == "CoreGraphic"@
    ||| name == "VignetteGraphic"@
    ||| name == "OptionalGraphic"@
    ||| name == "FeatGraphic"@
    ||| name == "TotalSpellsInPalettes"@
    ||| name == "TotalSpellsInContainer"@
    ||| name == "TotalAssignableThings"@
    ||| name == "QuestStartScreenMusic"@
    ||| name == "QuestCompleteScreenMusic"@
    ||| name == "QuestFailureScreenMusic"@
    ||| name == "DeathScreenMusic"@
    ||| name == "SaveHeroGraphicIndex"@
    ||| name == "KeyboardSmallKeyGraphic"@
    ||| name == "KeyboardLargeKeyGraphic"@
}

/// Whether a field of the miscellaneous things is a real.
pub open spec fn is_measure(name: Seq<char>) -> bool {
    ||| name == "RingCenterX"@
    ||| name == "RingCenterY"@
    ||| name == "PCRingCenterX"@
    ||| name == "PCRingCenterY"@
    ||| name == "WorldMapOffsetX"@
    ||| name == "WorldMapOffsetY"@
    ||| name == "WorldMapWidth"@
    ||| name == "WorldMapHeight"@
    ||| name == "HeroDollTLX"@
    ||| name == "HeroDollTLY"@
    ||| name == "HeroDollBRX"@
    ||| name == "HeroDollBRY"@
    ||| name == "HeroDollSphereRadius"@
    ||| name == "HeroDollTLX_PC"@
    ||| name == "HeroDollTLY_PC"@
    ||| name == "HeroDollBRX_PC"@
    ||| name == "HeroDollBRY_PC"@
    ||| name == "HeroDollSphereRadius_PC"@
    ||| name == "HeroDollFrameTLX_PC"@
    ||| name == "HeroDollFrameTLY_PC"@
    ||| name == "HeroDollFrameEmulateListOffset"@
    ||| name == "DigitCountTime"@
    ||| name == "TimeInSecsForFade"@
    ||| name == "BackBufferFilterSaturation"@
    ||| name == "BackBufferFilterContrast"@
    ||| name == "BackBufferFilterBrightness"@
    ||| name == "BackBufferFilterTintR"@
    ||| name == "BackBufferFilterTintG"@
    ||| name == "BackBufferFilterTintB"@
    ||| name == "BackBufferFilterTintScale"@
    ||| name == "BackBufferDiffuseScale"@
    ||| name == "BackBufferAmbientScale"@
    ||| name == "MinimumFilterColor"@
}

proof fn lemma_misc_item_texts()
    ensures
        reads_as(ui::misc_item_texts(), "SpaceSeparator"@, How::WStr),
        reads_as(ui::misc_item_texts(), "CommaSeparator"@, How::WStr),
        reads_as(ui::misc_item_texts(), "NewLineSeparator"@, How::WStr),
        reads_as(ui::misc_item_texts(), "OpenBracket"@, How::WStr),
        reads_as(ui::misc_item_texts(), "CloseBracket"@, How::WStr),
        reads_as(ui::misc_item_texts(), "Positive"@, How::WStr),
        reads_as(ui::misc_item_texts(), "ColonSeparator"@, How::WStr),
        reads_as(ui::misc_item_texts(), "WeaponValueString"@, How::WStr),
        reads_as(ui::misc_item_texts(), "WeaponAugString"@, How::WStr),
        reads_as(ui::misc_item_texts(), "WeaponAugNone"@, How::WStr),
        reads_as(ui::misc_item_texts(), "WeaponWeightString"@, How::WStr),
        reads_as(ui::misc_item_texts(), "WeaponLightString"@, How::WStr),
        reads_as(ui::misc_item_texts(), "WeaponHeavyString"@, How::WStr),
        reads_as(ui::misc_item_texts(), "WeaponKillsString"@, How::WStr),
        reads_as(ui::misc_item_texts(), "WeaponCatMeleeString"@, How::WStr),
        reads_as(ui::misc_item_texts(), "WeaponCatRangedString"@, How::WStr),
        reads_as(ui::misc_item_texts(), "WeaponDamageString"@, How::WStr),
{
    let t = ui::misc_item_texts();
    assert(t[0] == Step::Field("SpaceSeparator", How::WStr));
    assert(t[1] == Step::Field("CommaSeparator", How::WStr));
    assert(t[2] == Step::Field("NewLineSeparator", How::WStr));
    assert(t[3] == Step::Field("OpenBracket", How::WStr));
    assert(t[4] == Step::Field("CloseBracket", How::WStr));
    assert(t[5] == Step::Field("Positive", How::WStr));
    assert(t[6] == Step::Field("ColonSeparator", How::WStr));
    assert(t[7] == Step::Field("WeaponValueString", How::WStr));
    assert(t[8] == Step::Field("WeaponAugString", How::WStr));
    assert(t[9] == Step::Field("WeaponAugNone", How::WStr));
    assert(t[10] == Step::Field("WeaponWeightString", How::WStr));
    assert(t[11] == Step::Field("WeaponLightString", How::WStr));
    assert(t[12] == Step::Field("WeaponHeavyString", How::WStr));
    assert(t[13] == Step::Field("WeaponKillsString", How::WStr));
    assert(t[14] == Step::Field("WeaponCatMeleeString", How::WStr));
    assert(t[15] == Step::Field("WeaponCatRangedString", How::WStr));
    assert(t[16] == Step::Field("WeaponDamageString", How::WStr));
}

proof fn lemma_misc_trade_texts()
    ensures
        reads_as(ui::misc_trade_texts(), "TradeCostString"@, How::WStr),
        reads_as(ui::misc_trade_texts(), "TradeProfitString"@, How::WStr),
        reads_as(ui::misc_trade_texts(), "TradeLossString"@, How::WStr),
        reads_as(ui::misc_trade_texts(), "TradeAlreadyOwnsString"@, How::WStr),
        reads_as(ui::misc_trade_texts(), "TradeNumberInStockString"@, How::WStr),
        reads_as(ui::misc_trade_texts(), "TradeDeliveryString"@, How::WStr),
        reads_as(ui::misc_trade_texts(), "TradeNoDeliveryString"@, How::WStr),
        reads_as(ui::misc_trade_texts(), "TradeDaysString"@, How::WStr),
        reads_as(ui::misc_trade_texts(), "TradeBuyString"@, How::WStr),
        reads_as(ui::misc_trade_texts(), "TradeSellString"@, How::WStr),
        reads_as(ui::misc_trade_texts(), "TradeWantedString"@, How::WStr),
        reads_as(ui::misc_trade_texts(), "QuestFailedString"@, How::WStr),
        reads_as(ui::misc_trade_texts(), "FailedString"@, How::WStr),
        reads_as(ui::misc_trade_texts(), "SucceededString"@, How::WStr),
        reads_as(ui::misc_trade_texts(), "Plus"@, How::WStr),
        reads_as(ui::misc_trade_texts(), "Minus"@, How::WStr),
{
    let t = ui::misc_trade_texts();
    assert(t[0] == Step::Field("TradeCostString", How::WStr));
    assert(t[1] == Step::Field("TradeProfitString", How::WStr));
    assert(t[2] == Step::Field("TradeLossString", How::WStr));
    assert(t[3] == Step::Field("TradeAlreadyOwnsString", How::WStr));
    assert(t[4] == Step::Field("TradeNumberInStockString", How::WStr));
    assert(t[5] == Step::Field("TradeDeliveryString", How::WStr));
    assert(t[6] == Step::Field("TradeNoDeliveryString", How::WStr));
    assert(t[7] == Step::Field("TradeDaysString", How::WStr));
    assert(t[8] == Step::Field("TradeBuyString", How::WStr));
    assert(t[9] == Step::Field("TradeSellString", How::WStr));
    assert(t[10] == Step::Field("TradeWantedString", How::WStr));
    assert(t[11] == Step::Field("QuestFailedString", How::WStr));
    assert(t[12] == Step::Field("FailedString", How::WStr));
    assert(t[13] == Step::Field("SucceededString", How::WStr));
    assert(t[14] == Step::Field("Plus", How::WStr));
    assert(t[15] == Step::Field("Minus", How::WStr));
}

proof fn lemma_misc_house_texts()
    ensures
        reads_as(ui::misc_house_texts(), "ObjectsRewardString"@, How::WStr),
        reads_as(ui::misc_house_texts(), "NoneString"@, How::WStr),
        reads_as(ui::misc_house_texts(), "CheckGuildString"@, How::WStr),
        reads_as(ui::misc_house_texts(), "QuestStartingString"@, How::WStr),
        reads_as(ui::misc_house_texts(), "YouString"@, How::WStr),
        reads_as(ui::misc_house_texts(), "OwnString"@, How::WStr),
        reads_as(ui::misc_house_texts(), "NoString"@, How::WStr),
        reads_as(ui::misc_house_texts(), "HousesString"@, How::WStr),
        reads_as(ui::misc_house_texts(), "HouseString"@, How::WStr),
        reads_as(ui::misc_house_texts(), "InString"@, How::WStr),
        reads_as(ui::misc_house_texts(), "ShopsString"@, How::WStr),
        reads_as(ui::misc_house_texts(), "ShopString"@, How::WStr),
        reads_as(ui::misc_house_texts(), "ThereString"@, How::WStr),
        reads_as(ui::misc_house_texts(), "AreString"@, How::WStr),
        reads_as(ui::misc_house_texts(), "IsString"@, How::WStr),
        reads_as(ui::misc_house_texts(), "ForString"@, How::WStr),
        reads_as(ui::misc_house_texts(), "SaleString"@, How::WStr),
        reads_as(ui::misc_house_texts(), "GeneralString"@, How::WStr),
{
    let t = ui::misc_house_texts();
    assert(t[0] == Step::Field("ObjectsRewardString", How::WStr));
    assert(t[1] == Step::Field("NoneString", How::WStr));
    assert(t[2] == Step::Field("CheckGuildString", How::WStr));
    assert(t[3] == Step::Field("QuestStartingString", How::WStr));
    assert(t[4] == Step::Field("YouString", How::WStr));
    assert(t[5] == Step::Field("OwnString", How::WStr));
    assert(t[6] == Step::Field("NoString", How::WStr));
    assert(t[7] == Step::Field("HousesString", How::WStr));
    assert(t[8] == Step::Field("HouseString", How::WStr));
    assert(t[9] == Step::Field("InString", How::WStr));
    assert(t[10] == Step::Field("ShopsString", How::WStr));
    assert(t[11] == Step::Field("ShopString", How::WStr));
    assert(t[12] == Step::Field("ThereString", How::WStr));
    assert(t[13] == Step::Field("AreString", How::WStr));
    assert(t[14] == Step::Field("IsString", How::WStr));
    assert(t[15] == Step::Field("ForString", How::WStr));
    assert(t[16] == Step::Field("SaleString", How::WStr));
    assert(t[17] == Step::Field("GeneralString", How::WStr));
}

proof fn lemma_misc_log_texts()
    ensures
        reads_as(ui::misc_log_texts(), "TatooString"@, How::WStr),
        reads_as(ui::misc_log_texts(), "BarberString"@, How::WStr),
        reads_as(ui::misc_log_texts(), "TitleString"@, How::WStr),
        reads_as(ui::misc_log_texts(), "LevelString"@, How::WStr),
        reads_as(ui::misc_log_texts(), "LogBookBasicsCategoryString"@, How::WStr),
        reads_as(ui::misc_log_texts(), "LogBookObjectsCategoryString"@, How::WStr),
        reads_as(ui::misc_log_texts(), "LogBookTownsCategoryString"@, How::WStr),
        reads_as(ui::misc_log_texts(), "LogBookHeroCategoryString"@, How::WStr),
        reads_as(ui::misc_log_texts(), "LogBookCombatCategoryString"@, How::WStr),
        reads_as(ui::misc_log_texts(), "LogBookQuestCategoryString"@, How::WStr),
        reads_as(ui::misc_log_texts(), "LogBookStoryCategoryString"@, How::WStr),
        reads_as(ui::misc_log_texts(), "LogBookBasicsCategoryNameString"@, How::WStr),
        reads_as(ui::misc_log_texts(), "LogBookObjectsCategoryNameString"@, How::WStr),
        reads_as(ui::misc_log_texts(), "LogBookTownsCategoryNameString"@, How::WStr),
        reads_as(ui::misc_log_texts(), "LogBookHeroCategoryNameString"@, How::WStr),
        reads_as(ui::misc_log_texts(), "LogBookCombatCategoryNameString"@, How::WStr),
        reads_as(ui::misc_log_texts(), "LogBookQuestCategoryNameString"@, How::WStr),
        reads_as(ui::misc_log_texts(), "LogBookStoryCategoryNameString"@, How::WStr),
        reads_as(ui::misc_log_texts(), "FrontEndMusic"@, How::WStr),
        reads_as(ui::misc_log_texts(), "SoundUpDown"@, How::Str),
{
    let t = ui::misc_log_texts();
    assert(t[0] == Step::Field("TatooString", How::WStr));
    assert(t[1] == Step::Field("BarberString", How::WStr));
    assert(t[2] == Step::Field("TitleString", How::WStr));
    assert(t[3] == Step::Field("LevelString", How::WStr));
    assert(t[4] == Step::Field("LogBookBasicsCategoryString", How::WStr));
    assert(t[5] == Step::Field("LogBookObjectsCategoryString", How::WStr));
    assert(t[6] == Step::Field("LogBookTownsCategoryString", How::WStr));
    assert(t[7] == Step::Field("LogBookHeroCategoryString", How::WStr));
    assert(t[8] == Step::Field("LogBookCombatCategoryString", How::WStr));
    assert(t[9] == Step::Field("LogBookQuestCategoryString", How::WStr));
    assert(t[10] == Step::Field("LogBookStoryCategoryString", How::WStr));
    assert(t[11] == Step::Field("LogBookBasicsCategoryNameString", How::WStr));
    assert(t[12] == Step::Field("LogBookObjectsCategoryNameString", How::WStr));
    assert(t[13] == Step::Field("LogBookTownsCategoryNameString", How::WStr));
    assert(t[14] == Step::Field("LogBookHeroCategoryNameString", How::WStr));
    assert(t[15] == Step::Field("LogBookCombatCategoryNameString", How::WStr));
    assert(t[16] == Step::Field("LogBookQuestCategoryNameString", How::WStr));
    assert(t[17] == Step::Field("LogBookStoryCategoryNameString", How::WStr));
    assert(t[18] == Step::Field("FrontEndMusic", How::WStr));
    assert(t[19] == Step::Field("SoundUpDown", How::Str));
}

proof fn lemma_misc_sounds()
    ensures
        reads_as(ui::misc_sounds(), "SoundSlider"@, How::Str),
        reads_as(ui::misc_sounds(), "SoundBack"@, How::Str),
        reads_as(ui::misc_sounds(), "SoundForward"@, How::Str),
        reads_as(ui::misc_sounds(), "SoundError"@, How::Str),
        reads_as(ui::misc_sounds(), "SoundExit"@, How::Str),
        reads_as(ui::misc_sounds(), "CountUpSound"@, How::Str),
        reads_as(ui::misc_sounds(), "SoundKeyboardUp"@, How::Str),
        reads_as(ui::misc_sounds(), "SoundKeyboardDown"@, How::Str),
        reads_as(ui::misc_sounds(), "SoundKeyboardLeft"@, How::Str),
        reads_as(ui::misc_sounds(), "SoundKeyboardRight"@, How::Str),
        reads_as(ui::misc_sounds(), "SoundKeyboardEnterCharacter"@, How::Str),
        reads_as(ui::misc_sounds(), "SoundKeyboardDeleteCharacter"@, How::Str),
        reads_as(ui::misc_sounds(), "SoundKeyboardDone"@, How::Str),
        reads_as(ui::misc_sounds(), "CoreGraphic"@, How::U32),
{
    let t = ui::misc_sounds();
    assert(t[0] == Step::Field("SoundSlider", How::Str));
    assert(t[1] == Step::Field("SoundBack", How::Str));
    assert(t[2] == Step::Field("SoundForward", How::Str));
    assert(t[3] == Step::Field("SoundError", How::Str));
    assert(t[4] == Step::Field("SoundExit", How::Str));
    assert(t[5] == Step::Field("CountUpSound", How::Str));
    assert(t[6] == Step::Field("SoundKeyboardUp", How::Str));
    assert(t[7] == Step::Field("SoundKeyboardDown", How::Str));
    assert(t[8] == Step::Field("SoundKeyboardLeft", How::Str));
    assert(t[9] == Step::Field("SoundKeyboardRight", How::Str));
    assert(t[10] == Step::Field("SoundKeyboardEnterCharacter", How::Str));
    assert(t[11] == Step::Field("SoundKeyboardDeleteCharacter", How::Str));
    assert(t[12] == Step::Field("SoundKeyboardDone", How::Str));
    assert(t[13] == Step::Field("CoreGraphic", How::U32));
}

proof fn lemma_misc_graphics()
    ensures
        reads_as(ui::misc_graphics(), "VignetteGraphic"@, How::U32),
        reads_as(ui::misc_graphics(), "OptionalGraphic"@, How::U32),
        reads_as(ui::misc_graphics(), "FeatGraphic"@, How::U32),
        reads_as(ui::misc_graphics(), "TotalSpellsInPalettes"@, How::U32),
        reads_as(ui::misc_graphics(), "TotalSpellsInContainer"@, How::U32),
        reads_as(ui::misc_graphics(), "TotalAssignableThings"@, How::U32),
        reads_as(ui::misc_graphics(), "QuestStartScreenMusic"@, How::U32),
        reads_as(ui::misc_graphics(), "QuestCompleteScreenMusic"@, How::U32),
        reads_as(ui::misc_graphics(), "QuestFailureScreenMusic"@, How::U32),
        reads_as(ui::misc_graphics(), "DeathScreenMusic"@, How::U32),
        reads_as(ui::misc_graphics(), "SaveHeroGraphicIndex"@, How::U32),
        reads_as(ui::misc_graphics(), "KeyboardSmallKeyGraphic"@, How::U32),
        reads_as(ui::misc_graphics(), "KeyboardLargeKeyGraphic"@, How::U32),
        reads_as(ui::misc_graphics(), "RingCenterX"@, How::Single),
{
    let t = ui::misc_graphics();
    assert(t[0] == Step::Field("VignetteGraphic", How::U32));
    assert(t[1] == Step::Field("OptionalGraphic", How::U32));
    assert(t[2] == Step::Field("FeatGraphic", How::U32));
    assert(t[3] == Step::Field("TotalSpellsInPalettes", How::U32));
    assert(t[4] == Step::Field("TotalSpellsInContainer", How::U32));
    assert(t[5] == Step::Field("TotalAssignableThings", How::U32));
    assert(t[6] == Step::Field("QuestStartScreenMusic", How::U32));
    assert(t[7] == Step::Field("QuestCompleteScreenMusic", How::U32));
    assert(t[8] == Step::Field("QuestFailureScreenMusic", How::U32));
    assert(t[9] == Step::Field("DeathScreenMusic", How::U32));
    assert(t[10] == Step::Field("SaveHeroGraphicIndex", How::U32));
    assert(t[11] == Step::Field("KeyboardSmallKeyGraphic", How::U32));
    assert(t[12] == Step::Field("KeyboardLargeKeyGraphic", How::U32));
    assert(t[13] == Step::Field("RingCenterX", How::Single));
}

proof fn lemma_misc_places()
    ensures
        reads_as(ui::misc_places(), "RingCenterY"@, How::Single),
        reads_as(ui::misc_places(), "PCRingCenterX"@, How::Single),
        reads_as(ui::misc_places(), "PCRingCenterY"@, How::Single),
        reads_as(ui::misc_places(), "WorldMapOffsetX"@, How::Single),
        reads_as(ui::misc_places(), "WorldMapOffsetY"@, How::Single),
        reads_as(ui::misc_places(), "WorldMapWidth"@, How::Single),
        reads_as(ui::misc_places(), "WorldMapHeight"@, How::Single),
        reads_as(ui::misc_places(), "HeroDollTLX"@, How::Single),
        reads_as(ui::misc_places(), "HeroDollTLY"@, How::Single),
        reads_as(ui::misc_places(), "HeroDollBRX"@, How::Single),
        reads_as(ui::misc_places(), "HeroDollBRY"@, How::Single),
        reads_as(ui::misc_places(), "HeroDollSphereRadius"@, How::Single),
        reads_as(ui::misc_places(), "HeroDollTLX_PC"@, How::Single),
        reads_as(ui::misc_places(), "HeroDollTLY_PC"@, How::Single),
        reads_as(ui::misc_places(), "HeroDollBRX_PC"@, How::Single),
        reads_as(ui::misc_places(), "HeroDollBRY_PC"@, How::Single),
        reads_as(ui::misc_places(), "HeroDollSphereRadius_PC"@, How::Single),
        reads_as(ui::misc_places(), "HeroDollFrameTLX_PC"@, How::Single),
{
    let t = ui::misc_places();
    assert(t[0] == Step::Field("RingCenterY", How::Single));
    assert(t[1] == Step::Field("PCRingCenterX", How::Single));
    assert(t[2] == Step::Field("PCRingCenterY", How::Single));
    assert(t[3] == Step::Field("WorldMapOffsetX", How::Single));
    assert(t[4] == Step::Field("WorldMapOffsetY", How::Single));
    assert(t[5] == Step::Field("WorldMapWidth", How::Single));
    assert(t[6] == Step::Field("WorldMapHeight", How::Single));
    assert(t[7] == Step::Field("HeroDollTLX", How::Single));
    assert(t[8] == Step::Field("HeroDollTLY", How::Single));
    assert(t[9] == Step::Field("HeroDollBRX", How::Single));
    assert(t[10] == Step::Field("HeroDollBRY", How::Single));
    assert(t[11] == Step::Field("HeroDollSphereRadius", How::Single));
    assert(t[12] == Step::Field("HeroDollTLX_PC", How::Single));
    assert(t[13] == Step::Field("HeroDollTLY_PC", How::Single));
    assert(t[14] == Step::Field("HeroDollBRX_PC", How::Single));
    assert(t[15] == Step::Field("HeroDollBRY_PC", How::Single));
    assert(t[16] == Step::Field("HeroDollSphereRadius_PC", How::Single));
    assert(t[17] == Step::Field("HeroDollFrameTLX_PC", How::Single));
}

proof fn lemma_misc_filters()
    ensures
        reads_as(ui::misc_filters(), "HeroDollFrameTLY_PC"@, How::Single),
        reads_as(ui::misc_filters(), "HeroDollFrameEmulateListOffset"@, How::Single),
        reads_as(ui::misc_filters(), "DigitCountTime"@, How::Single),
        reads_as(ui::misc_filters(), "TimeInSecsForFade"@, How::Single),
        reads_as(ui::misc_filters(), "BackBufferFilterSaturation"@, How::Single),
        reads_as(ui::misc_filters(), "BackBufferFilterContrast"@, How::Single),
        reads_as(ui::misc_filters(), "BackBufferFilterBrightness"@, How::Single),
        reads_as(ui::misc_filters(), "BackBufferFilterTintR"@, How::Single),
        reads_as(ui::misc_filters(), "BackBufferFilterTintG"@, How::Single),
        reads_as(ui::misc_filters(), "BackBufferFilterTintB"@, How::Single),
        reads_as(ui::misc_filters(), "BackBufferFilterTintScale"@, How::Single),
        reads_as(ui::misc_filters(), "BackBufferDiffuseScale"@, How::Single),
        reads_as(ui::misc_filters(), "BackBufferAmbientScale"@, How::Single),
        reads_as(ui::misc_filters(), "MinimumFilterColor"@, How::Single),
{
    let t = ui::misc_filters();
    assert(t[0] == Step::Field("HeroDollFrameTLY_PC", How::Single));
    assert(t[1] == Step::Field("HeroDollFrameEmulateListOffset", How::Single));
    assert(t[2] == Step::Field("DigitCountTime", How::Single));
    assert(t[3] == Step::Field("TimeInSecsForFade", How::Single));
    assert(t[4] == Step::Field("BackBufferFilterSaturation", How::Single));
    assert(t[5] == Step::Field("BackBufferFilterContrast", How::Single));
    assert(t[6] == Step::Field("BackBufferFilterBrightness", How::Single));
    assert(t[7] == Step::Field("BackBufferFilterTintR", How::Single));
    assert(t[8] == Step::Field("BackBufferFilterTintG", How::Single));
    assert(t[9] == Step::Field("BackBufferFilterTintB", How::Single));
    assert(t[10] == Step::Field("BackBufferFilterTintScale", How::Single));
    assert(t[11] == Step::Field("BackBufferDiffuseScale", How::Single));
    assert(t[12] == Step::Field("BackBufferAmbientScale", How::Single));
    assert(t[13] == Step::Field("MinimumFilterColor", How::Single));
}

proof fn lemma_misc(name: Seq<char>, how: How)
    ensures
        reads_as(ui::misc_item_texts(), name, how) || reads_as(ui::misc_trade_texts(), name, how)
            || reads_as(ui::misc_house_texts(), name, how) || reads_as(
            ui::misc_log_texts(),
            name,
            how,
        ) || reads_as(ui::misc_sounds(), name, how) || reads_as(ui::misc_graphics(), name, how)
            || reads_as(ui::misc_places(), name, how) || reads_as(ui::misc_filters(), name, how)
            ==> reads_as(ui::misc_fields(), name, how),
{
    let a = ui::misc_maps();
    let b = a + ui::misc_item_texts();
    let c = b + ui::misc_trade_texts();
    let d = c + ui::misc_house_texts();
    let e = d + ui::misc_log_texts();
    let f = e + ui::misc_sounds();
    let g = f + ui::misc_graphics();
    let h = g + ui::misc_places();
    lemma_joined(a, ui::misc_item_texts(), name, how);
    lemma_joined(b, ui::misc_trade_texts(), name, how);
    lemma_joined(c, ui::misc_house_texts(), name, how);
    lemma_joined(d, ui::misc_log_texts(), name, how);
    lemma_joined(e, ui::misc_sounds(), name, how);
    lemma_joined(f, ui::misc_graphics(), name, how);
    lemma_joined(g, ui::misc_places(), name, how);
    lemma_joined(h, ui::misc_filters(), name, how);
}

/// Every field of the miscellaneous things of the user interface is read, and read as what it
/// is.
pub proof fn the_miscellaneous_things_are_read(name: Seq<char>)
    ensures
        is_text(name) ==> reads_as(ui::misc_fields(), name, How::WStr),
        is_sound(name) ==> reads_as(ui::misc_fields(), name, How::Str),
        is_count(name) ==> reads_as(ui::misc_fields(), name, How::U32),
        is_measure(name) ==> reads_as(ui::misc_fields(), name, How::Single),
        ui::misc_fields()[0] == Step::Entries("MiniMapGraphics", Key::Str, Item::I32),
        ui::misc_fields()[1] == Step::Entries("MapPaths", Key::U32, Item::I32),
        ui::misc_fields()[2] == Step::Sorted("MapPaths"),
{
    lemma_misc_item_texts();
    lemma_misc_trade_texts();
    lemma_misc_house_texts();
    lemma_misc_log_texts();
    lemma_misc_sounds();
    lemma_misc_graphics();
    lemma_misc_places();
    lemma_misc_filters();
    lemma_misc(name, How::WStr);
    lemma_misc(name, How::Str);
    lemma_misc(name, How::U32);
    lemma_misc(name, How::Single);
}

/// Every field of the front end is read, and read as what it is: its films are strings that
/// are added, or set by their index, and the others numbers.
pub proof fn the_front_end_is_read(name: Seq<char>)
    ensures
        name == "ErrorMessageBackgroundGraphic"@ || name == "ButtonABigGraphic"@ || name
            == "ButtonBBigGraphic"@ ==> reads_as(ui::front_end_fields(), name, How::I32),
        ui::front_end_fields().contains(Step::Strings("vAttractModeMovie")),
        ui::front_end_fields().contains(Step::Items("vAttractModeMovie", Item::Str)),
{
    let t = ui::front_end_fields();
    assert(t[0] == Step::Strings("vAttractModeMovie"));
    assert(t[1] == Step::Items("vAttractModeMovie", Item::Str));
    assert(t[2] == Step::Field("ErrorMessageBackgroundGraphic", How::I32));
    assert(t[3] == Step::Field("ButtonABigGraphic", How::I32));
    assert(t[4] == Step::Field("ButtonBBigGraphic", How::I32));
}

/// Every field of a state is read, and read as what it is.
pub proof fn states_are_read(name: Seq<char>)
    ensures
        name == "PositionX"@ || name == "PositionY"@ || name == "ZoomX"@ || name == "ZoomY"@ || name
            == "ColourR"@ || name == "ColourG"@ || name == "ColourB"@ || name == "ColourA"@ || name
            == "UpdateTime"@ ==> reads_as(ui::state_fields(), name, How::Single),
        reads_as(ui::state_fields(), "GraphicIndex"@, How::Graphic),
        reads_as(ui::state_fields(), "LinearChange"@, How::Bool),
        reads_as(ui::state_fields(), "StateChangeFlag"@, How::U32),
        ui::state_fields().contains(Step::Strict("StateChangeType", "StateChangeType")),
        ui::state_fields().contains(Step::Items("ChildrenNotAffected", Item::I32)),
{
    let t = ui::state_fields();
    assert(t[0] == Step::Field("GraphicIndex", How::Graphic));
    assert(t[1] == Step::Field("PositionX", How::Single));
    assert(t[2] == Step::Field("PositionY", How::Single));
    assert(t[3] == Step::Field("ZoomX", How::Single));
    assert(t[4] == Step::Field("ZoomY", How::Single));
    assert(t[5] == Step::Field("ColourR", How::Single));
    assert(t[6] == Step::Field("ColourG", How::Single));
    assert(t[7] == Step::Field("ColourB", How::Single));
    assert(t[8] == Step::Field("ColourA", How::Single));
    assert(t[9] == Step::Field("UpdateTime", How::Single));
    assert(t[10] == Step::Strict("StateChangeType", "StateChangeType"));
    assert(t[11] == Step::Field("LinearChange", How::Bool));
    assert(t[12] == Step::Field("StateChangeFlag", How::U32));
    assert(t[13] == Step::Items("ChildrenNotAffected", Item::I32));
}

// ── Elements of the user interface ───────────────────────────────────────────

/// Whether a table sets the field, if at all, only where a statement names it.
spec fn spares(table: Seq<Step>, name: Seq<char>) -> bool {
    forall|j: int|
        0 <= j < table.len() ==> members::step_name(#[trigger] table[j]) != name || table[j] is Field
            || table[j] is Strict
}

proof fn lemma_spares_joined(a: Seq<Step>, b: Seq<Step>, name: Seq<char>)
    requires
        spares(a, name),
        spares(b, name),
    ensures
        spares(a + b, name),
{
    assert forall|j: int| 0 <= j < (a + b).len() implies members::step_name(#[trigger] (a + b)[j])
        != name || (a + b)[j] is Field || (a + b)[j] is Strict by {
        if j < a.len() {
            assert((a + b)[j] == a[j]);
        } else {
            assert((a + b)[j] == b[j - a.len()]);
        }
    }
}

proof fn lemma_font_is_spared()
    ensures
        spares(ui::ui_fields(), "Font"@),
        spares(ui::ui_lists(), "Font"@),
        "Font"@ != "States"@,
{
    reveal_strlit("Font");
    reveal_strlit("States");
    reveal_strlit("Children");
    reveal_strlit("Sprites");
    reveal_strlit("HorizontalSeparations");
    reveal_strlit("VerticalSeparations");
    reveal_strlit("NonScrollingChildren");
    reveal_strlit("ActionMap");
    reveal_strlit("ActionMapAliases");
    reveal_strlit("ActionOrder");
    reveal_strlit("SwappingStates");
    reveal_strlit("SwappingTimes");
    reveal_strlit("ShapeChildren");
    assert("Font"@.len() == 4 && "States"@.len() == 6 && "Children"@.len() == 8 && "Sprites"@.len()
        == 7 && "HorizontalSeparations"@.len() == 21 && "VerticalSeparations"@.len() == 19
        && "NonScrollingChildren"@.len() == 20 && "ActionMap"@.len() == 9 && "ActionMapAliases"@
        .len() == 16 && "ActionOrder"@.len() == 11 && "SwappingStates"@.len() == 14
        && "SwappingTimes"@.len() == 13 && "ShapeChildren"@.len() == 13);
    let a = ui::ui_basics() + ui::ui_space();
    let b = a + ui::ui_scrolling();
    let c = b + ui::ui_actions();
    let d = c + ui::ui_input();
    let e = d + ui::ui_layout();
    lemma_spares_joined(ui::ui_basics(), ui::ui_space(), "Font"@);
    lemma_spares_joined(a, ui::ui_scrolling(), "Font"@);
    lemma_spares_joined(b, ui::ui_actions(), "Font"@);
    lemma_spares_joined(c, ui::ui_input(), "Font"@);
    lemma_spares_joined(d, ui::ui_layout(), "Font"@);
    lemma_spares_joined(e, ui::ui_children(), "Font"@);
    assert(ui::ui_fields() == e + ui::ui_children());
}

/// An element whose statements name no font has the font of the game, whatever font its base
/// has.
pub proof fn elements_have_the_font_of_the_game(
    cx: Context,
    base: Seq<MemberView>,
    body: Seq<Spanned<StatementView>>,
    o: u32,
)
    requires
        value::member(base, "Font"@) is Some,
        (cx.strings)("ENG_ARIAL_16"@) == Some(o),
        forall|i: int|
            0 <= i < body.len() ==> !PickView::Leaf("Font"@).picks((#[trigger] body[i]).value, 0),
    ensures
        ui::ui_lowered(cx, base, body) matches Ok(w) ==> value::member(w, "Font"@) == Some(
            ValueView::Scalar(ScalarView::DefString(o as i32)),
        ),
{
    lemma_font_is_spared();
    let font = ValueView::Scalar(ScalarView::DefString(o as i32));
    let flagged = ui::with_flags(base);
    if let Some(ValueView::List(l)) = value::member(base, "States"@) {
        let x = choose|x: ValueView| flagged == #[trigger] value::with_member(base, "States"@, x);
        assert(exists|x: ValueView| flagged == #[trigger] value::with_member(base, "States"@, x));
        members::setting_a_member_sets_that_one(base, "States"@, x, "Font"@);
    }
    let start = ui::ui_start(cx, base);
    members::setting_a_member_sets_that_one(flagged, "Font"@, font, "Font"@);
    let r = fields::over(cx, body);
    assert(members::silent(r, PickView::Leaf("Font"@)));
    members::a_table_keeps_other_fields(cx, ui::ui_fields(), 0, start, r, "Font"@);
    let behind = steps::run_after(ui::ui_fields(), 0, r);
    members::lemma_run_after_statements(ui::ui_fields(), 0, r);
    let last = behind.without(PickView::Indexed("States"@));
    assert(members::silent(last, PickView::Leaf("Font"@))) by {
        assert forall|i: int| 0 <= i < last.entries.len() implies !PickView::Leaf("Font"@).picks(
            (#[trigger] last.entries[i]).stmt.value,
            last.depth,
        ) by {
            assert(r.entries[i].stmt == behind.entries[i].stmt);
            assert(body[i] == r.entries[i].stmt);
        }
    }
    if let Ok(v) = steps::run(cx, ui::ui_fields(), 0, start, r) {
        if let Ok(w) = ui::with_states(cx, v, behind) {
            let x = choose|x: ValueView| w == #[trigger] value::with_member(v, "States"@, x);
            assert(exists|x: ValueView| w == #[trigger] value::with_member(v, "States"@, x));
            members::setting_a_member_sets_that_one(v, "States"@, x, "Font"@);
            members::a_table_keeps_other_fields(cx, ui::ui_lists(), 0, w, last, "Font"@);
        }
    }
}

/// The states that statements are about are set, one for each index, from what they were or
/// from a new state; the others stay, and new states stand between.
pub proof fn states_are_set_by_their_index(
    cx: Context,
    l: ListView,
    groups: Seq<(usize, ReaderView)>,
    k: int,
    i: int,
)
    requires
        0 <= k <= groups.len(),
        0 <= i,
        forall|a: int, b: int|
            k <= a < b < groups.len() ==> (#[trigger] groups[a]).0 != (#[trigger] groups[b]).0,
    ensures
        ui::states_from(cx, l, groups, k) matches Ok(w) ==> {
            let before = if i < l.items.len() {
                l.items[i]
            } else {
                ui::new_element(*l.element)
            };
            &&& w.element == l.element
            &&& l.items.len() <= w.items.len()
            &&& forall|g: int|
                k <= g < groups.len() && (#[trigger] groups[g]).0 == i ==> i < w.items.len() && (
                ui::state_from(cx, before, groups[g].1) matches Ok(x) && w.items[i] == x)
            &&& (i < w.items.len() && forall|g: int|
                k <= g < groups.len() ==> (#[trigger] groups[g]).0 != i) ==> w.items[i] == before
        },
    decreases groups.len() - k,
{
    if k < groups.len() {
        let at = groups[k].0 as int;
        let items = ui::states_upto(l, at);
        if let Ok(x) = ui::state_from(cx, items[at], groups[k].1) {
            let next = ListView { items: items.update(at, x), ..l };
            states_are_set_by_their_index(cx, next, groups, k + 1, i);
            if let Ok(w) = ui::states_from(cx, l, groups, k) {
                assert(ui::states_from(cx, next, groups, k + 1) == Ok::<ListView, LowerErrorView>(
                    w,
                ));
                assert(at < items.len());
                if at == i {
                    assert forall|g: int| k < g < groups.len() implies (#[trigger] groups[g]).0
                        != i by {
                        assert(groups[k].0 != groups[g].0);
                    }
                } else if i < items.len() {
                    assert(next.items[i] == items[i]);
                }
            }
        }
    }
}

} // verus!
