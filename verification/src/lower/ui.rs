//! Lowering of the definitions that are read by a table.

use vstd::prelude::*;

use crate::lower::construct;
use crate::lower::env;
use crate::lower::env::{semantic_error, Context, LowerEnv, LowerError, LowerErrorView};
use crate::lower::fields;
use crate::lower::steps;
use crate::lower::steps::{apply_steps, How, Item, Key, Step};
use crate::reader;
use crate::reader::{DefReader, PickView, ReaderView};
use crate::single::Single;
use crate::text::ast::{Statement, StatementView};
use crate::text::base;
use crate::text::base::Spanned;
use crate::text::symbols::SymbolTable;
use crate::value;
use crate::value::{
    copy_members, find_member, set_member, List, ListView, Member, MemberView, Record, Scalar,
    ScalarView, StructView, Value, ValueView,
};

verus! {

broadcast use base::group_views;

/// Adds steps behind steps.
fn append(v: &mut Vec<Step>, more: Vec<Step>)
    ensures
        final(v)@ == old(v)@ + more@,
{
    let ghost before = v@;
    let mut i: usize = 0;
    assert(before + more@.take(0) =~= before);
    while i < more.len()
        invariant
            i <= more@.len(),
            before == old(v)@,
            v@ == before + more@.take(i as int),
        decreases more@.len() - i,
    {
        v.push(more[i]);
        assert(before + more@.take(i as int + 1) =~= (before + more@.take(i as int)).push(
            more@[i as int],
        ));
        i = i + 1;
    }
    assert(more@.take(more@.len() as int) =~= more@);
}

/// What an element shows.
pub open spec fn ui_basics() -> Seq<Step> {
    seq![
        Step::Strict("Type", "UiType"),
        Step::Field("MeshIndex", How::Mesh),
        Step::Field("TextValue", How::WStr),
        Step::Field("Height", How::Single),
        Step::Field("Width", How::Single),
        Step::Field("ExpansionType", How::Flags),
        Step::Field("TextLineBreak", How::Bool),
        Step::Field("ScaleText", How::Bool),
        Step::Field("Independant", How::Bool),
        Step::Strict("MeshType", "EngineGraphicType"),
        Step::Field("TextWindowTLX", How::Single),
        Step::Field("TextWindowTLY", How::Single),
        Step::Field("TextWindowBRX", How::Single),
        Step::Field("TextWindowBRY", How::Single),
        Step::Field("Layer", How::I32),
        Step::Field("Angle", How::Single),
        Step::Field("PositionIsCenter", How::Bool),
        Step::Field("ScrollingSpeed", How::Single),
        Step::Field("Wrapping", How::Bool),
        Step::Field("Inverted", How::Bool),
    ]
}

fn ui_basics_steps() -> (r: Vec<Step>)
    ensures
        r@ == ui_basics(),
{
    let mut v: Vec<Step> = Vec::new();
    v.push(Step::Strict("Type", "UiType"));
    v.push(Step::Field("MeshIndex", How::Mesh));
    v.push(Step::Field("TextValue", How::WStr));
    v.push(Step::Field("Height", How::Single));
    v.push(Step::Field("Width", How::Single));
    v.push(Step::Field("ExpansionType", How::Flags));
    v.push(Step::Field("TextLineBreak", How::Bool));
    v.push(Step::Field("ScaleText", How::Bool));
    v.push(Step::Field("Independant", How::Bool));
    v.push(Step::Strict("MeshType", "EngineGraphicType"));
    v.push(Step::Field("TextWindowTLX", How::Single));
    v.push(Step::Field("TextWindowTLY", How::Single));
    v.push(Step::Field("TextWindowBRX", How::Single));
    v.push(Step::Field("TextWindowBRY", How::Single));
    v.push(Step::Field("Layer", How::I32));
    v.push(Step::Field("Angle", How::Single));
    v.push(Step::Field("PositionIsCenter", How::Bool));
    v.push(Step::Field("ScrollingSpeed", How::Single));
    v.push(Step::Field("Wrapping", How::Bool));
    v.push(Step::Field("Inverted", How::Bool));
    v
}

/// Where an element is.
pub open spec fn ui_space() -> Seq<Step> {
    seq![
        Step::Field("PositionOffsetX", How::Single),
        Step::Field("PositionOffsetY", How::Single),
        Step::Field("AlphaOffset", How::U32),
        Step::Field("UpX", How::Single),
        Step::Field("UpY", How::Single),
        Step::Field("UpZ", How::Single),
        Step::Field("ForwardX", How::Single),
        Step::Field("ForwardY", How::Single),
        Step::Field("ForwardZ", How::Single),
        Step::Field("RotationAxisX", How::Single),
        Step::Field("RotationAxisY", How::Single),
        Step::Field("RotationAxisZ", How::Single),
        Step::Field("RotationSpeed", How::Single),
        Step::Field("AnimationIndex", How::Mesh),
        Step::Field("DownArrow", How::Ref),
    ]
}

fn ui_space_steps() -> (r: Vec<Step>)
    ensures
        r@ == ui_space(),
{
    let mut v: Vec<Step> = Vec::new();
    v.push(Step::Field("PositionOffsetX", How::Single));
    v.push(Step::Field("PositionOffsetY", How::Single));
    v.push(Step::Field("AlphaOffset", How::U32));
    v.push(Step::Field("UpX", How::Single));
    v.push(Step::Field("UpY", How::Single));
    v.push(Step::Field("UpZ", How::Single));
    v.push(Step::Field("ForwardX", How::Single));
    v.push(Step::Field("ForwardY", How::Single));
    v.push(Step::Field("ForwardZ", How::Single));
    v.push(Step::Field("RotationAxisX", How::Single));
    v.push(Step::Field("RotationAxisY", How::Single));
    v.push(Step::Field("RotationAxisZ", How::Single));
    v.push(Step::Field("RotationSpeed", How::Single));
    v.push(Step::Field("AnimationIndex", How::Mesh));
    v.push(Step::Field("DownArrow", How::Ref));
    v
}

/// How an element moves.
pub open spec fn ui_scrolling() -> Seq<Step> {
    seq![
        Step::Field("UpArrow", How::Ref),
        Step::Field("UpLimit", How::I32),
        Step::Field("DownLimit", How::I32),
        Step::Field("Scrolling", How::Bool),
        Step::Field("ComputeOffsetsOnActivate", How::Bool),
        Step::Field("MinX", How::Single),
        Step::Field("MinY", How::Single),
        Step::Field("MaxX", How::Single),
        Step::Field("MaxY", How::Single),
        Step::Field("StepX", How::Single),
        Step::Field("StepY", How::Single),
        Step::Field("DimensionsX", How::Single),
        Step::Field("DimensionsY", How::Single),
        Step::Field("SliderLeft", How::Ref),
        Step::Field("SliderRight", How::Ref),
    ]
}

fn ui_scrolling_steps() -> (r: Vec<Step>)
    ensures
        r@ == ui_scrolling(),
{
    let mut v: Vec<Step> = Vec::new();
    v.push(Step::Field("UpArrow", How::Ref));
    v.push(Step::Field("UpLimit", How::I32));
    v.push(Step::Field("DownLimit", How::I32));
    v.push(Step::Field("Scrolling", How::Bool));
    v.push(Step::Field("ComputeOffsetsOnActivate", How::Bool));
    v.push(Step::Field("MinX", How::Single));
    v.push(Step::Field("MinY", How::Single));
    v.push(Step::Field("MaxX", How::Single));
    v.push(Step::Field("MaxY", How::Single));
    v.push(Step::Field("StepX", How::Single));
    v.push(Step::Field("StepY", How::Single));
    v.push(Step::Field("DimensionsX", How::Single));
    v.push(Step::Field("DimensionsY", How::Single));
    v.push(Step::Field("SliderLeft", How::Ref));
    v.push(Step::Field("SliderRight", How::Ref));
    v
}

/// What an element does.
pub open spec fn ui_actions() -> Seq<Step> {
    seq![
        Step::Strict("Action", "ActionType"),
        Step::Strict("ActionOnBack", "ActionType"),
        Step::Strict("ActionOnSelected", "ActionType"),
        Step::Strict("ActionOnUnselected", "ActionType"),
        Step::Strict("ActionOnDestruction", "ActionType"),
        Step::Strict("ActionOnLeftClicked", "ActionType"),
        Step::Strict("ActionOnLeftUnclicked", "ActionType"),
        Step::Strict("ActionOnLeftHeld", "ActionType"),
        Step::Strict("ActionOnRightClicked", "ActionType"),
        Step::Strict("ActionOnDropped", "ActionType"),
        Step::Strict("ActionOnDroppedNowhere", "ActionType"),
        Step::Strict("PreAction", "ActionType"),
        Step::Strict("ActionOnDraggedUp", "ActionType"),
        Step::Strict("ActionOnDraggedDown", "ActionType"),
        Step::Strict("ActionOnLeftClickedAbove", "ActionType"),
        Step::Strict("ActionOnLeftClickedUnder", "ActionType"),
    ]
}

fn ui_actions_steps() -> (r: Vec<Step>)
    ensures
        r@ == ui_actions(),
{
    let mut v: Vec<Step> = Vec::new();
    v.push(Step::Strict("Action", "ActionType"));
    v.push(Step::Strict("ActionOnBack", "ActionType"));
    v.push(Step::Strict("ActionOnSelected", "ActionType"));
    v.push(Step::Strict("ActionOnUnselected", "ActionType"));
    v.push(Step::Strict("ActionOnDestruction", "ActionType"));
    v.push(Step::Strict("ActionOnLeftClicked", "ActionType"));
    v.push(Step::Strict("ActionOnLeftUnclicked", "ActionType"));
    v.push(Step::Strict("ActionOnLeftHeld", "ActionType"));
    v.push(Step::Strict("ActionOnRightClicked", "ActionType"));
    v.push(Step::Strict("ActionOnDropped", "ActionType"));
    v.push(Step::Strict("ActionOnDroppedNowhere", "ActionType"));
    v.push(Step::Strict("PreAction", "ActionType"));
    v.push(Step::Strict("ActionOnDraggedUp", "ActionType"));
    v.push(Step::Strict("ActionOnDraggedDown", "ActionType"));
    v.push(Step::Strict("ActionOnLeftClickedAbove", "ActionType"));
    v.push(Step::Strict("ActionOnLeftClickedUnder", "ActionType"));
    v
}

/// What an element takes in.
pub open spec fn ui_input() -> Seq<Step> {
    seq![
        Step::Field("InputDelay", How::Single),
        Step::Field("DrawFromViewport", How::Bool),
        Step::Field("TextBankIndex", How::U32),
        Step::Field("ActionText", How::Ref),
        Step::Field("KeyText", How::Ref),
        Step::Field("Redefiner", How::Ref),
        Step::Field("UndefinedWarning", How::Ref),
        Step::Field("EditBoxParentIsButton", How::Bool),
        Step::Field("PasswordBox", How::Bool),
        Step::Field("EditBoxCharLimit", How::I32),
        Step::Field("EditBoxUsesIME", How::Bool),
        Step::Field("MovieFilename", How::WStr),
        Step::Field("DisallowSpaceAsFirstChar", How::Bool),
        Step::Field("LayerIndependant", How::Bool),
        Step::Field("BastardChild", How::Bool),
    ]
}

fn ui_input_steps() -> (r: Vec<Step>)
    ensures
        r@ == ui_input(),
{
    let mut v: Vec<Step> = Vec::new();
    v.push(Step::Field("InputDelay", How::Single));
    v.push(Step::Field("DrawFromViewport", How::Bool));
    v.push(Step::Field("TextBankIndex", How::U32));
    v.push(Step::Field("ActionText", How::Ref));
    v.push(Step::Field("KeyText", How::Ref));
    v.push(Step::Field("Redefiner", How::Ref));
    v.push(Step::Field("UndefinedWarning", How::Ref));
    v.push(Step::Field("EditBoxParentIsButton", How::Bool));
    v.push(Step::Field("PasswordBox", How::Bool));
    v.push(Step::Field("EditBoxCharLimit", How::I32));
    v.push(Step::Field("EditBoxUsesIME", How::Bool));
    v.push(Step::Field("MovieFilename", How::WStr));
    v.push(Step::Field("DisallowSpaceAsFirstChar", How::Bool));
    v.push(Step::Field("LayerIndependant", How::Bool));
    v.push(Step::Field("BastardChild", How::Bool));
    v
}

/// How an element is laid out.
pub open spec fn ui_layout() -> Seq<Step> {
    seq![
        Step::Strict("Alignement", "TextAlignment"),
        Step::Field("RandomSwap", How::Bool),
        Step::Field("UseRelativeZoom", How::Bool),
        Step::Field("UseRelativePosition", How::Bool),
        Step::Field("HoveredState", How::I32),
        Step::Field("LeftClickedState", How::I32),
        Step::Field("RightClickedState", How::I32),
        Step::Field("ViewAreaTLX", How::I32),
        Step::Field("ViewAreaTLY", How::I32),
        Step::Field("ViewAreaBRX", How::I32),
        Step::Field("ViewAreaBRY", How::I32),
        Step::Field("UseViewArea", How::Bool),
        Step::Field("PartOfListTree", How::Bool),
        Step::Field("PCStyle", How::Bool),
        Step::Field("Sprite2DFlag", How::Flags),
    ]
}

fn ui_layout_steps() -> (r: Vec<Step>)
    ensures
        r@ == ui_layout(),
{
    let mut v: Vec<Step> = Vec::new();
    v.push(Step::Strict("Alignement", "TextAlignment"));
    v.push(Step::Field("RandomSwap", How::Bool));
    v.push(Step::Field("UseRelativeZoom", How::Bool));
    v.push(Step::Field("UseRelativePosition", How::Bool));
    v.push(Step::Field("HoveredState", How::I32));
    v.push(Step::Field("LeftClickedState", How::I32));
    v.push(Step::Field("RightClickedState", How::I32));
    v.push(Step::Field("ViewAreaTLX", How::I32));
    v.push(Step::Field("ViewAreaTLY", How::I32));
    v.push(Step::Field("ViewAreaBRX", How::I32));
    v.push(Step::Field("ViewAreaBRY", How::I32));
    v.push(Step::Field("UseViewArea", How::Bool));
    v.push(Step::Field("PartOfListTree", How::Bool));
    v.push(Step::Field("PCStyle", How::Bool));
    v.push(Step::Field("Sprite2DFlag", How::Flags));
    v
}

/// What an element is made of.
pub open spec fn ui_children() -> Seq<Step> {
    seq![
        Step::Items("Children", Item::Ref),
        Step::Field("Font", How::Font),
        Step::Entries("Sprites", Key::I32, Item::Ref),
        Step::Items("HorizontalSeparations", Item::U32),
        Step::Items("VerticalSeparations", Item::U32),
    ]
}

fn ui_children_steps() -> (r: Vec<Step>)
    ensures
        r@ == ui_children(),
{
    let mut v: Vec<Step> = Vec::new();
    v.push(Step::Items("Children", Item::Ref));
    v.push(Step::Field("Font", How::Font));
    v.push(Step::Entries("Sprites", Key::I32, Item::Ref));
    v.push(Step::Items("HorizontalSeparations", Item::U32));
    v.push(Step::Items("VerticalSeparations", Item::U32));
    v
}

/// The fields of an element of the user interface up to its states.
pub open spec fn ui_fields() -> Seq<Step> {
    ui_basics() + ui_space() + ui_scrolling() + ui_actions() + ui_input() + ui_layout() + ui_children()
}

fn ui_field_steps() -> (r: Vec<Step>)
    ensures
        r@ == ui_fields(),
{
    let mut v = ui_basics_steps();
    append(&mut v, ui_space_steps());
    append(&mut v, ui_scrolling_steps());
    append(&mut v, ui_actions_steps());
    append(&mut v, ui_input_steps());
    append(&mut v, ui_layout_steps());
    append(&mut v, ui_children_steps());
    v
}

/// The fields of an element of the user interface behind its states.
pub open spec fn ui_lists() -> Seq<Step> {
    seq![
        Step::Items("NonScrollingChildren", Item::Ref),
        Step::Entries("ActionMap", Key::U32, Item::Str),
        Step::Entries("ActionMapAliases", Key::U32, Item::U32),
        Step::Items("ActionOrder", Item::U32),
        Step::Items("SwappingStates", Item::U32),
        Step::Items("SwappingTimes", Item::Single),
        Step::Items("ShapeChildren", Item::Ref),
    ]
}

fn ui_list_steps() -> (r: Vec<Step>)
    ensures
        r@ == ui_lists(),
{
    let mut v: Vec<Step> = Vec::new();
    v.push(Step::Items("NonScrollingChildren", Item::Ref));
    v.push(Step::Entries("ActionMap", Key::U32, Item::Str));
    v.push(Step::Entries("ActionMapAliases", Key::U32, Item::U32));
    v.push(Step::Items("ActionOrder", Item::U32));
    v.push(Step::Items("SwappingStates", Item::U32));
    v.push(Step::Items("SwappingTimes", Item::Single));
    v.push(Step::Items("ShapeChildren", Item::Ref));
    v
}

/// The fields of a state.
pub open spec fn state_fields() -> Seq<Step> {
    seq![
        Step::Field("GraphicIndex", How::Graphic),
        Step::Field("PositionX", How::Single),
        Step::Field("PositionY", How::Single),
        Step::Field("ZoomX", How::Single),
        Step::Field("ZoomY", How::Single),
        Step::Field("ColourR", How::Single),
        Step::Field("ColourG", How::Single),
        Step::Field("ColourB", How::Single),
        Step::Field("ColourA", How::Single),
        Step::Field("UpdateTime", How::Single),
        Step::Strict("StateChangeType", "StateChangeType"),
        Step::Field("LinearChange", How::Bool),
        Step::Field("StateChangeFlag", How::U32),
        Step::Items("ChildrenNotAffected", Item::I32),
    ]
}

fn state_field_steps() -> (r: Vec<Step>)
    ensures
        r@ == state_fields(),
{
    let mut v: Vec<Step> = Vec::new();
    v.push(Step::Field("GraphicIndex", How::Graphic));
    v.push(Step::Field("PositionX", How::Single));
    v.push(Step::Field("PositionY", How::Single));
    v.push(Step::Field("ZoomX", How::Single));
    v.push(Step::Field("ZoomY", How::Single));
    v.push(Step::Field("ColourR", How::Single));
    v.push(Step::Field("ColourG", How::Single));
    v.push(Step::Field("ColourB", How::Single));
    v.push(Step::Field("ColourA", How::Single));
    v.push(Step::Field("UpdateTime", How::Single));
    v.push(Step::Strict("StateChangeType", "StateChangeType"));
    v.push(Step::Field("LinearChange", How::Bool));
    v.push(Step::Field("StateChangeFlag", How::U32));
    v.push(Step::Items("ChildrenNotAffected", Item::I32));
    v
}

/// The maps.
pub open spec fn misc_maps() -> Seq<Step> {
    seq![
        Step::Entries("MiniMapGraphics", Key::Str, Item::I32),
        Step::Entries("MapPaths", Key::U32, Item::I32),
        Step::Sorted("MapPaths"),
    ]
}

fn misc_maps_steps() -> (r: Vec<Step>)
    ensures
        r@ == misc_maps(),
{
    let mut v: Vec<Step> = Vec::new();
    v.push(Step::Entries("MiniMapGraphics", Key::Str, Item::I32));
    v.push(Step::Entries("MapPaths", Key::U32, Item::I32));
    v.push(Step::Sorted("MapPaths"));
    v
}

/// Texts about items.
pub open spec fn misc_item_texts() -> Seq<Step> {
    seq![
        Step::Field("SpaceSeparator", How::WStr),
        Step::Field("CommaSeparator", How::WStr),
        Step::Field("NewLineSeparator", How::WStr),
        Step::Field("OpenBracket", How::WStr),
        Step::Field("CloseBracket", How::WStr),
        Step::Field("Positive", How::WStr),
        Step::Field("ColonSeparator", How::WStr),
        Step::Field("WeaponValueString", How::WStr),
        Step::Field("WeaponAugString", How::WStr),
        Step::Field("WeaponAugNone", How::WStr),
        Step::Field("WeaponWeightString", How::WStr),
        Step::Field("WeaponLightString", How::WStr),
        Step::Field("WeaponHeavyString", How::WStr),
        Step::Field("WeaponKillsString", How::WStr),
        Step::Field("WeaponCatMeleeString", How::WStr),
        Step::Field("WeaponCatRangedString", How::WStr),
        Step::Field("WeaponDamageString", How::WStr),
    ]
}

fn misc_item_texts_steps() -> (r: Vec<Step>)
    ensures
        r@ == misc_item_texts(),
{
    let mut v: Vec<Step> = Vec::new();
    v.push(Step::Field("SpaceSeparator", How::WStr));
    v.push(Step::Field("CommaSeparator", How::WStr));
    v.push(Step::Field("NewLineSeparator", How::WStr));
    v.push(Step::Field("OpenBracket", How::WStr));
    v.push(Step::Field("CloseBracket", How::WStr));
    v.push(Step::Field("Positive", How::WStr));
    v.push(Step::Field("ColonSeparator", How::WStr));
    v.push(Step::Field("WeaponValueString", How::WStr));
    v.push(Step::Field("WeaponAugString", How::WStr));
    v.push(Step::Field("WeaponAugNone", How::WStr));
    v.push(Step::Field("WeaponWeightString", How::WStr));
    v.push(Step::Field("WeaponLightString", How::WStr));
    v.push(Step::Field("WeaponHeavyString", How::WStr));
    v.push(Step::Field("WeaponKillsString", How::WStr));
    v.push(Step::Field("WeaponCatMeleeString", How::WStr));
    v.push(Step::Field("WeaponCatRangedString", How::WStr));
    v.push(Step::Field("WeaponDamageString", How::WStr));
    v
}

/// Texts about trade.
pub open spec fn misc_trade_texts() -> Seq<Step> {
    seq![
        Step::Field("TradeCostString", How::WStr),
        Step::Field("TradeProfitString", How::WStr),
        Step::Field("TradeLossString", How::WStr),
        Step::Field("TradeAlreadyOwnsString", How::WStr),
        Step::Field("TradeNumberInStockString", How::WStr),
        Step::Field("TradeDeliveryString", How::WStr),
        Step::Field("TradeNoDeliveryString", How::WStr),
        Step::Field("TradeDaysString", How::WStr),
        Step::Field("TradeBuyString", How::WStr),
        Step::Field("TradeSellString", How::WStr),
        Step::Field("TradeWantedString", How::WStr),
        Step::Field("QuestFailedString", How::WStr),
        Step::Field("FailedString", How::WStr),
        Step::Field("SucceededString", How::WStr),
        Step::Field("Plus", How::WStr),
        Step::Field("Minus", How::WStr),
    ]
}

fn misc_trade_texts_steps() -> (r: Vec<Step>)
    ensures
        r@ == misc_trade_texts(),
{
    let mut v: Vec<Step> = Vec::new();
    v.push(Step::Field("TradeCostString", How::WStr));
    v.push(Step::Field("TradeProfitString", How::WStr));
    v.push(Step::Field("TradeLossString", How::WStr));
    v.push(Step::Field("TradeAlreadyOwnsString", How::WStr));
    v.push(Step::Field("TradeNumberInStockString", How::WStr));
    v.push(Step::Field("TradeDeliveryString", How::WStr));
    v.push(Step::Field("TradeNoDeliveryString", How::WStr));
    v.push(Step::Field("TradeDaysString", How::WStr));
    v.push(Step::Field("TradeBuyString", How::WStr));
    v.push(Step::Field("TradeSellString", How::WStr));
    v.push(Step::Field("TradeWantedString", How::WStr));
    v.push(Step::Field("QuestFailedString", How::WStr));
    v.push(Step::Field("FailedString", How::WStr));
    v.push(Step::Field("SucceededString", How::WStr));
    v.push(Step::Field("Plus", How::WStr));
    v.push(Step::Field("Minus", How::WStr));
    v
}

/// Texts about houses and shops.
pub open spec fn misc_house_texts() -> Seq<Step> {
    seq![
        Step::Field("ObjectsRewardString", How::WStr),
        Step::Field("NoneString", How::WStr),
        Step::Field("CheckGuildString", How::WStr),
        Step::Field("QuestStartingString", How::WStr),
        Step::Field("YouString", How::WStr),
        Step::Field("OwnString", How::WStr),
        Step::Field("NoString", How::WStr),
        Step::Field("HousesString", How::WStr),
        Step::Field("HouseString", How::WStr),
        Step::Field("InString", How::WStr),
        Step::Field("ShopsString", How::WStr),
        Step::Field("ShopString", How::WStr),
        Step::Field("ThereString", How::WStr),
        Step::Field("AreString", How::WStr),
        Step::Field("IsString", How::WStr),
        Step::Field("ForString", How::WStr),
        Step::Field("SaleString", How::WStr),
        Step::Field("GeneralString", How::WStr),
    ]
}

fn misc_house_texts_steps() -> (r: Vec<Step>)
    ensures
        r@ == misc_house_texts(),
{
    let mut v: Vec<Step> = Vec::new();
    v.push(Step::Field("ObjectsRewardString", How::WStr));
    v.push(Step::Field("NoneString", How::WStr));
    v.push(Step::Field("CheckGuildString", How::WStr));
    v.push(Step::Field("QuestStartingString", How::WStr));
    v.push(Step::Field("YouString", How::WStr));
    v.push(Step::Field("OwnString", How::WStr));
    v.push(Step::Field("NoString", How::WStr));
    v.push(Step::Field("HousesString", How::WStr));
    v.push(Step::Field("HouseString", How::WStr));
    v.push(Step::Field("InString", How::WStr));
    v.push(Step::Field("ShopsString", How::WStr));
    v.push(Step::Field("ShopString", How::WStr));
    v.push(Step::Field("ThereString", How::WStr));
    v.push(Step::Field("AreString", How::WStr));
    v.push(Step::Field("IsString", How::WStr));
    v.push(Step::Field("ForString", How::WStr));
    v.push(Step::Field("SaleString", How::WStr));
    v.push(Step::Field("GeneralString", How::WStr));
    v
}

/// Texts of the log book.
pub open spec fn misc_log_texts() -> Seq<Step> {
    seq![
        Step::Field("TatooString", How::WStr),
        Step::Field("BarberString", How::WStr),
        Step::Field("TitleString", How::WStr),
        Step::Field("LevelString", How::WStr),
        Step::Field("LogBookBasicsCategoryString", How::WStr),
        Step::Field("LogBookObjectsCategoryString", How::WStr),
        Step::Field("LogBookTownsCategoryString", How::WStr),
        Step::Field("LogBookHeroCategoryString", How::WStr),
        Step::Field("LogBookCombatCategoryString", How::WStr),
        Step::Field("LogBookQuestCategoryString", How::WStr),
        Step::Field("LogBookStoryCategoryString", How::WStr),
        Step::Field("LogBookBasicsCategoryNameString", How::WStr),
        Step::Field("LogBookObjectsCategoryNameString", How::WStr),
        Step::Field("LogBookTownsCategoryNameString", How::WStr),
        Step::Field("LogBookHeroCategoryNameString", How::WStr),
        Step::Field("LogBookCombatCategoryNameString", How::WStr),
        Step::Field("LogBookQuestCategoryNameString", How::WStr),
        Step::Field("LogBookStoryCategoryNameString", How::WStr),
        Step::Field("FrontEndMusic", How::WStr),
        Step::Field("SoundUpDown", How::Str),
    ]
}

fn misc_log_texts_steps() -> (r: Vec<Step>)
    ensures
        r@ == misc_log_texts(),
{
    let mut v: Vec<Step> = Vec::new();
    v.push(Step::Field("TatooString", How::WStr));
    v.push(Step::Field("BarberString", How::WStr));
    v.push(Step::Field("TitleString", How::WStr));
    v.push(Step::Field("LevelString", How::WStr));
    v.push(Step::Field("LogBookBasicsCategoryString", How::WStr));
    v.push(Step::Field("LogBookObjectsCategoryString", How::WStr));
    v.push(Step::Field("LogBookTownsCategoryString", How::WStr));
    v.push(Step::Field("LogBookHeroCategoryString", How::WStr));
    v.push(Step::Field("LogBookCombatCategoryString", How::WStr));
    v.push(Step::Field("LogBookQuestCategoryString", How::WStr));
    v.push(Step::Field("LogBookStoryCategoryString", How::WStr));
    v.push(Step::Field("LogBookBasicsCategoryNameString", How::WStr));
    v.push(Step::Field("LogBookObjectsCategoryNameString", How::WStr));
    v.push(Step::Field("LogBookTownsCategoryNameString", How::WStr));
    v.push(Step::Field("LogBookHeroCategoryNameString", How::WStr));
    v.push(Step::Field("LogBookCombatCategoryNameString", How::WStr));
    v.push(Step::Field("LogBookQuestCategoryNameString", How::WStr));
    v.push(Step::Field("LogBookStoryCategoryNameString", How::WStr));
    v.push(Step::Field("FrontEndMusic", How::WStr));
    v.push(Step::Field("SoundUpDown", How::Str));
    v
}

/// Sounds.
pub open spec fn misc_sounds() -> Seq<Step> {
    seq![
        Step::Field("SoundSlider", How::Str),
        Step::Field("SoundBack", How::Str),
        Step::Field("SoundForward", How::Str),
        Step::Field("SoundError", How::Str),
        Step::Field("SoundExit", How::Str),
        Step::Field("CountUpSound", How::Str),
        Step::Field("SoundKeyboardUp", How::Str),
        Step::Field("SoundKeyboardDown", How::Str),
        Step::Field("SoundKeyboardLeft", How::Str),
        Step::Field("SoundKeyboardRight", How::Str),
        Step::Field("SoundKeyboardEnterCharacter", How::Str),
        Step::Field("SoundKeyboardDeleteCharacter", How::Str),
        Step::Field("SoundKeyboardDone", How::Str),
        Step::Field("CoreGraphic", How::U32),
    ]
}

fn misc_sounds_steps() -> (r: Vec<Step>)
    ensures
        r@ == misc_sounds(),
{
    let mut v: Vec<Step> = Vec::new();
    v.push(Step::Field("SoundSlider", How::Str));
    v.push(Step::Field("SoundBack", How::Str));
    v.push(Step::Field("SoundForward", How::Str));
    v.push(Step::Field("SoundError", How::Str));
    v.push(Step::Field("SoundExit", How::Str));
    v.push(Step::Field("CountUpSound", How::Str));
    v.push(Step::Field("SoundKeyboardUp", How::Str));
    v.push(Step::Field("SoundKeyboardDown", How::Str));
    v.push(Step::Field("SoundKeyboardLeft", How::Str));
    v.push(Step::Field("SoundKeyboardRight", How::Str));
    v.push(Step::Field("SoundKeyboardEnterCharacter", How::Str));
    v.push(Step::Field("SoundKeyboardDeleteCharacter", How::Str));
    v.push(Step::Field("SoundKeyboardDone", How::Str));
    v.push(Step::Field("CoreGraphic", How::U32));
    v
}

/// Graphics and counts.
pub open spec fn misc_graphics() -> Seq<Step> {
    seq![
        Step::Field("VignetteGraphic", How::U32),
        Step::Field("OptionalGraphic", How::U32),
        Step::Field("FeatGraphic", How::U32),
        Step::Field("TotalSpellsInPalettes", How::U32),
        Step::Field("TotalSpellsInContainer", How::U32),
        Step::Field("TotalAssignableThings", How::U32),
        Step::Field("QuestStartScreenMusic", How::U32),
        Step::Field("QuestCompleteScreenMusic", How::U32),
        Step::Field("QuestFailureScreenMusic", How::U32),
        Step::Field("DeathScreenMusic", How::U32),
        Step::Field("SaveHeroGraphicIndex", How::U32),
        Step::Field("KeyboardSmallKeyGraphic", How::U32),
        Step::Field("KeyboardLargeKeyGraphic", How::U32),
        Step::Field("RingCenterX", How::Single),
    ]
}

fn misc_graphics_steps() -> (r: Vec<Step>)
    ensures
        r@ == misc_graphics(),
{
    let mut v: Vec<Step> = Vec::new();
    v.push(Step::Field("VignetteGraphic", How::U32));
    v.push(Step::Field("OptionalGraphic", How::U32));
    v.push(Step::Field("FeatGraphic", How::U32));
    v.push(Step::Field("TotalSpellsInPalettes", How::U32));
    v.push(Step::Field("TotalSpellsInContainer", How::U32));
    v.push(Step::Field("TotalAssignableThings", How::U32));
    v.push(Step::Field("QuestStartScreenMusic", How::U32));
    v.push(Step::Field("QuestCompleteScreenMusic", How::U32));
    v.push(Step::Field("QuestFailureScreenMusic", How::U32));
    v.push(Step::Field("DeathScreenMusic", How::U32));
    v.push(Step::Field("SaveHeroGraphicIndex", How::U32));
    v.push(Step::Field("KeyboardSmallKeyGraphic", How::U32));
    v.push(Step::Field("KeyboardLargeKeyGraphic", How::U32));
    v.push(Step::Field("RingCenterX", How::Single));
    v
}

/// Places on the screen.
pub open spec fn misc_places() -> Seq<Step> {
    seq![
        Step::Field("RingCenterY", How::Single),
        Step::Field("PCRingCenterX", How::Single),
        Step::Field("PCRingCenterY", How::Single),
        Step::Field("WorldMapOffsetX", How::Single),
        Step::Field("WorldMapOffsetY", How::Single),
        Step::Field("WorldMapWidth", How::Single),
        Step::Field("WorldMapHeight", How::Single),
        Step::Field("HeroDollTLX", How::Single),
        Step::Field("HeroDollTLY", How::Single),
        Step::Field("HeroDollBRX", How::Single),
        Step::Field("HeroDollBRY", How::Single),
        Step::Field("HeroDollSphereRadius", How::Single),
        Step::Field("HeroDollTLX_PC", How::Single),
        Step::Field("HeroDollTLY_PC", How::Single),
        Step::Field("HeroDollBRX_PC", How::Single),
        Step::Field("HeroDollBRY_PC", How::Single),
        Step::Field("HeroDollSphereRadius_PC", How::Single),
        Step::Field("HeroDollFrameTLX_PC", How::Single),
    ]
}

fn misc_places_steps() -> (r: Vec<Step>)
    ensures
        r@ == misc_places(),
{
    let mut v: Vec<Step> = Vec::new();
    v.push(Step::Field("RingCenterY", How::Single));
    v.push(Step::Field("PCRingCenterX", How::Single));
    v.push(Step::Field("PCRingCenterY", How::Single));
    v.push(Step::Field("WorldMapOffsetX", How::Single));
    v.push(Step::Field("WorldMapOffsetY", How::Single));
    v.push(Step::Field("WorldMapWidth", How::Single));
    v.push(Step::Field("WorldMapHeight", How::Single));
    v.push(Step::Field("HeroDollTLX", How::Single));
    v.push(Step::Field("HeroDollTLY", How::Single));
    v.push(Step::Field("HeroDollBRX", How::Single));
    v.push(Step::Field("HeroDollBRY", How::Single));
    v.push(Step::Field("HeroDollSphereRadius", How::Single));
    v.push(Step::Field("HeroDollTLX_PC", How::Single));
    v.push(Step::Field("HeroDollTLY_PC", How::Single));
    v.push(Step::Field("HeroDollBRX_PC", How::Single));
    v.push(Step::Field("HeroDollBRY_PC", How::Single));
    v.push(Step::Field("HeroDollSphereRadius_PC", How::Single));
    v.push(Step::Field("HeroDollFrameTLX_PC", How::Single));
    v
}

/// Timing and filters.
pub open spec fn misc_filters() -> Seq<Step> {
    seq![
        Step::Field("HeroDollFrameTLY_PC", How::Single),
        Step::Field("HeroDollFrameEmulateListOffset", How::Single),
        Step::Field("DigitCountTime", How::Single),
        Step::Field("TimeInSecsForFade", How::Single),
        Step::Field("BackBufferFilterSaturation", How::Single),
        Step::Field("BackBufferFilterContrast", How::Single),
        Step::Field("BackBufferFilterBrightness", How::Single),
        Step::Field("BackBufferFilterTintR", How::Single),
        Step::Field("BackBufferFilterTintG", How::Single),
        Step::Field("BackBufferFilterTintB", How::Single),
        Step::Field("BackBufferFilterTintScale", How::Single),
        Step::Field("BackBufferDiffuseScale", How::Single),
        Step::Field("BackBufferAmbientScale", How::Single),
        Step::Field("MinimumFilterColor", How::Single),
    ]
}

fn misc_filters_steps() -> (r: Vec<Step>)
    ensures
        r@ == misc_filters(),
{
    let mut v: Vec<Step> = Vec::new();
    v.push(Step::Field("HeroDollFrameTLY_PC", How::Single));
    v.push(Step::Field("HeroDollFrameEmulateListOffset", How::Single));
    v.push(Step::Field("DigitCountTime", How::Single));
    v.push(Step::Field("TimeInSecsForFade", How::Single));
    v.push(Step::Field("BackBufferFilterSaturation", How::Single));
    v.push(Step::Field("BackBufferFilterContrast", How::Single));
    v.push(Step::Field("BackBufferFilterBrightness", How::Single));
    v.push(Step::Field("BackBufferFilterTintR", How::Single));
    v.push(Step::Field("BackBufferFilterTintG", How::Single));
    v.push(Step::Field("BackBufferFilterTintB", How::Single));
    v.push(Step::Field("BackBufferFilterTintScale", How::Single));
    v.push(Step::Field("BackBufferDiffuseScale", How::Single));
    v.push(Step::Field("BackBufferAmbientScale", How::Single));
    v.push(Step::Field("MinimumFilterColor", How::Single));
    v
}

/// The fields of the miscellaneous things of the user interface.
pub open spec fn misc_fields() -> Seq<Step> {
    misc_maps() + misc_item_texts() + misc_trade_texts() + misc_house_texts() + misc_log_texts() + misc_sounds() + misc_graphics() + misc_places() + misc_filters()
}

fn misc_field_steps() -> (r: Vec<Step>)
    ensures
        r@ == misc_fields(),
{
    let mut v = misc_maps_steps();
    append(&mut v, misc_item_texts_steps());
    append(&mut v, misc_trade_texts_steps());
    append(&mut v, misc_house_texts_steps());
    append(&mut v, misc_log_texts_steps());
    append(&mut v, misc_sounds_steps());
    append(&mut v, misc_graphics_steps());
    append(&mut v, misc_places_steps());
    append(&mut v, misc_filters_steps());
    v
}

/// The fields of the front end.
pub open spec fn front_end_fields() -> Seq<Step> {
    seq![
        Step::Strings("vAttractModeMovie"),
        Step::Items("vAttractModeMovie", Item::Str),
        Step::Field("ErrorMessageBackgroundGraphic", How::I32),
        Step::Field("ButtonABigGraphic", How::I32),
        Step::Field("ButtonBBigGraphic", How::I32),
    ]
}

fn front_end_field_steps() -> (r: Vec<Step>)
    ensures
        r@ == front_end_fields(),
{
    let mut v: Vec<Step> = Vec::new();
    v.push(Step::Strings("vAttractModeMovie"));
    v.push(Step::Items("vAttractModeMovie", Item::Str));
    v.push(Step::Field("ErrorMessageBackgroundGraphic", How::I32));
    v.push(Step::Field("ButtonABigGraphic", How::I32));
    v.push(Step::Field("ButtonBBigGraphic", How::I32));
    v
}

/// The view of lowered fields.
pub open spec fn record_view(r: Result<Record, LowerError>) -> Result<
    Seq<MemberView>,
    LowerErrorView,
> {
    match r {
        Ok(fields) => Ok(fields@),
        Err(e) => Err(e@),
    }
}

// ── Tables alone ─────────────────────────────────────────────────────────────

/// The fields that a table sets, where the statements say nothing else.
pub open spec fn tabled(
    cx: Context,
    table: Seq<Step>,
    base: Seq<MemberView>,
    body: Seq<Spanned<StatementView>>,
) -> Result<Seq<MemberView>, LowerErrorView> {
    let r = fields::over(cx, body);
    match steps::run(cx, table, 0, base, r) {
        Err(x) => Err(x),
        Ok(v) => match fields::used_up(steps::run_after(table, 0, r)) {
            Err(x) => Err(x),
            Ok(_) => Ok(v),
        },
    }
}

fn lower_table<E: LowerEnv>(
    table: &Vec<Step>,
    base: &Record,
    body: &Vec<Spanned<Statement>>,
    symbols: &SymbolTable,
    env: &E,
) -> (r: Result<Record, LowerError>)
    ensures
        record_view(r) == tabled(
            env::context(symbols@, env),
            table@,
            base@,
            base::views(body@),
        ),
{
    let mut reader = DefReader::new(body, symbols);
    let mut fields = copy_members(&base.fields);
    match apply_steps(table, &mut fields, &mut reader, env) {
        Ok(_) => {},
        Err(e) => return Err(e),
    }
    match reader.finish() {
        Ok(_) => Ok(Record { fields }),
        Err(e) => Err(LowerError::Reader(e)),
    }
}

/// Lowers the front end onto `base`.
pub fn lower_front_end<E: LowerEnv>(
    base: &Record,
    body: &Vec<Spanned<Statement>>,
    symbols: &SymbolTable,
    env: &E,
) -> (r: Result<Record, LowerError>)
    ensures
        record_view(r) == tabled(
            env::context(symbols@, env),
            front_end_fields(),
            base@,
            base::views(body@),
        ),
{
    lower_table(&front_end_field_steps(), base, body, symbols, env)
}

/// Lowers the miscellaneous things of the user interface onto `base`.
pub fn lower_ui_misc_things<E: LowerEnv>(
    base: &Record,
    body: &Vec<Spanned<Statement>>,
    symbols: &SymbolTable,
    env: &E,
) -> (r: Result<Record, LowerError>)
    ensures
        record_view(r) == tabled(
            env::context(symbols@, env),
            misc_fields(),
            base@,
            base::views(body@),
        ),
{
    lower_table(&misc_field_steps(), base, body, symbols, env)
}

// ── States ───────────────────────────────────────────────────────────────────

/// One.
pub const ONE: u32 = 0x3F80_0000;

/// A field that holds a single.
pub open spec fn single_value(bits: u32) -> ValueView {
    ValueView::Scalar(ScalarView::Single(Single { bits }))
}

/// A new state: white, at its own size, without a time, and with everything to be
/// updated.
pub open spec fn new_state(v: Seq<MemberView>) -> Seq<MemberView> {
    let v = value::with_member(v, "ColourR"@, single_value(ONE));
    let v = value::with_member(v, "ColourG"@, single_value(ONE));
    let v = value::with_member(v, "ColourB"@, single_value(ONE));
    let v = value::with_member(v, "ColourA"@, single_value(ONE));
    let v = value::with_member(v, "ZoomX"@, single_value(ONE));
    let v = value::with_member(v, "ZoomY"@, single_value(ONE));
    let v = value::with_member(v, "UpdateTime"@, single_value(construct::MINUS_ONE));
    value::with_member(v, "StateChangeFlag"@, ValueView::Scalar(ScalarView::U32(7)))
}

/// What the list of states is filled up with.
pub open spec fn new_element(v: ValueView) -> ValueView {
    match v {
        ValueView::Struct(s) => ValueView::Struct(
            StructView { members: new_state(s.members), ..s },
        ),
        _ => v,
    }
}

fn set_bits(v: &mut Vec<Member>, name: &str, bits: u32)
    ensures
        base::views(final(v)@) == value::with_member(
            base::views(old(v)@),
            name@,
            single_value(bits),
        ),
{
    let x = Value::Scalar(Scalar::Single(Single { bits }));
    proof {
        value::lemma_value_view(x);
    }
    set_member(v, name, x);
}

fn set_unsigned(v: &mut Vec<Member>, name: &str, n: u32)
    ensures
        base::views(final(v)@) == value::with_member(
            base::views(old(v)@),
            name@,
            ValueView::Scalar(ScalarView::U32(n)),
        ),
{
    let x = Value::Scalar(Scalar::U32(n));
    proof {
        value::lemma_value_view(x);
    }
    set_member(v, name, x);
}

/// Makes the members those of a new state.
fn default_ui_state(v: &mut Vec<Member>)
    ensures
        base::views(final(v)@) == new_state(base::views(old(v)@)),
{
    set_bits(v, "ColourR", ONE);
    set_bits(v, "ColourG", ONE);
    set_bits(v, "ColourB", ONE);
    set_bits(v, "ColourA", ONE);
    set_bits(v, "ZoomX", ONE);
    set_bits(v, "ZoomY", ONE);
    set_bits(v, "UpdateTime", construct::MINUS_ONE);
    set_unsigned(v, "StateChangeFlag", 7);
}

fn new_state_element(v: &Value) -> (r: Value)
    ensures
        r@ == new_element(v@),
{
    let mut r = v.clone();
    proof {
        value::lemma_value_view(*v);
        value::lemma_value_view(r);
    }
    match &mut r {
        Value::Struct(s) => default_ui_state(&mut s.members),
        _ => {},
    }
    proof {
        value::lemma_value_view(r);
    }
    r
}

/// The states filled up to place `i`.
pub open spec fn states_upto(l: ListView, i: int) -> Seq<ValueView> {
    if i < l.items.len() {
        l.items
    } else {
        l.items + Seq::new(
            (i + 1 - l.items.len()) as nat,
            |j: int| new_element(*l.element),
        )
    }
}

/// A state set by the statements of a group.
pub open spec fn state_from(cx: Context, v: ValueView, g: ReaderView) -> Result<
    ValueView,
    LowerErrorView,
> {
    match v {
        ValueView::Struct(s) => match steps::run(cx, state_fields(), 0, s.members, g) {
            Err(x) => Err(x),
            Ok(members) => match fields::used_up(steps::run_after(state_fields(), 0, g)) {
                Err(x) => Err(x),
                Ok(_) => Ok(ValueView::Struct(StructView { members, ..s })),
            },
        },
        _ => env::semantic("state is not a compound"@),
    }
}

/// The states of the groups from `k` on.
pub open spec fn states_from(
    cx: Context,
    l: ListView,
    groups: Seq<(usize, ReaderView)>,
    k: int,
) -> Result<ListView, LowerErrorView>
    decreases groups.len() - k,
{
    if k < 0 || k >= groups.len() {
        Ok(l)
    } else {
        let i = groups[k].0 as int;
        let items = states_upto(l, i);
        match state_from(cx, items[i], groups[k].1) {
            Err(x) => Err(x),
            Ok(x) => states_from(cx, ListView { items: items.update(i, x), ..l }, groups, k + 1),
        }
    }
}

/// The fields with the states set.
pub open spec fn with_states(cx: Context, v: Seq<MemberView>, r: ReaderView) -> Result<
    Seq<MemberView>,
    LowerErrorView,
> {
    match value::member(v, "States"@) {
        Some(ValueView::List(l)) => match r.by_index("States"@) {
            Err(e) => Err(LowerErrorView::Reader(e)),
            Ok(groups) => match states_from(cx, l, r.indexed_readers(groups), 0) {
                Ok(l) => Ok(value::with_member(v, "States"@, ValueView::List(l))),
                Err(x) => Err(x),
            },
        },
        _ => env::semantic("field is not a list"@),
    }
}

fn fill_states(l: &mut List, i: usize)
    ensures
        final(l)@ == (ListView { items: states_upto(old(l)@, i as int), ..old(l)@ }),
        i < final(l)@.items.len(),
{
    let ghost before = l@;
    if i < l.items.len() {
        return;
    }
    let fill = new_state_element(&*l.element);
    let n: usize = l.items.len();
    while l.items.len() <= i
        invariant
            n <= l.items@.len() <= i + 1,
            n == before.items.len(),
            before == old(l)@,
            l.element == old(l).element,
            fill@ == new_element(*before.element),
            base::views(l.items@) == before.items + Seq::new(
                (l.items@.len() - n) as nat,
                |j: int| new_element(*before.element),
            ),
        decreases i + 1 - l.items@.len(),
    {
        let ghost k = l.items@.len() - n;
        l.items.push(fill.clone());
        assert(before.items + Seq::new((k + 1) as nat, |j: int| new_element(*before.element))
            =~= (before.items + Seq::new(k as nat, |j: int| new_element(*before.element))).push(
            fill@,
        ));
    }
}

/// Sets a state by the statements of a group.
fn apply_ui_state<'a, 's, E: LowerEnv>(v: &mut Value, g: &mut DefReader<'a, 's>, env: &E) -> (r: Result<
    (),
    LowerError,
>)
    ensures
        construct::outcome(r, final(v)@) == state_from(
            env::context(old(g)@.symbols, env),
            old(v)@,
            old(g)@,
        ),
{
    proof {
        value::lemma_value_view(*v);
    }
    match v {
        Value::Struct(s) => {
            let table = state_field_steps();
            match apply_steps(&table, &mut s.members, g, env) {
                Ok(_) => {},
                Err(e) => return Err(e),
            }
            match g.is_finished() {
                Ok(_) => {},
                Err(e) => return Err(LowerError::Reader(e)),
            }
        },
        _ => return Err(semantic_error("state is not a compound")),
    }
    proof {
        value::lemma_value_view(*v);
    }
    Ok(())
}

fn apply_state_at<'a, 's, E: LowerEnv>(
    l: &mut List,
    i: usize,
    g: &mut DefReader<'a, 's>,
    env: &E,
) -> (r: Result<(), LowerError>)
    ensures
        (match r {
            Ok(_) => Ok(final(l)@),
            Err(e) => Err(e@),
        }) == (match state_from(
            env::context(old(g)@.symbols, env),
            states_upto(old(l)@, i as int)[i as int],
            old(g)@,
        ) {
            Ok(x) => Ok(
                ListView {
                    items: states_upto(old(l)@, i as int).update(i as int, x),
                    ..old(l)@
                },
            ),
            Err(e) => Err(e),
        }),
{
    fill_states(l, i);
    let ghost filled = l@;
    assert(filled.items[i as int] == l.items@[i as int]@);
    match apply_ui_state(&mut l.items[i], g, env) {
        Ok(_) => {},
        Err(e) => return Err(e),
    }
    assert(l@.items =~= filled.items.update(i as int, l.items@[i as int]@));
    Ok(())
}

fn apply_states_to<'a, 's, E: LowerEnv>(l: &mut List, r: &mut DefReader<'a, 's>, env: &E) -> (res: Result<
    (),
    LowerError,
>)
    ensures
        match (res, old(r)@.by_index("States"@)) {
            (Ok(_), Ok(groups)) => states_from(
                env::context(old(r)@.symbols, env),
                old(l)@,
                old(r)@.indexed_readers(groups),
                0,
            ) == Ok::<ListView, LowerErrorView>(final(l)@) && final(r)@ == old(r)@.without(
                PickView::Indexed("States"@),
            ),
            (Err(e), Ok(groups)) => states_from(
                env::context(old(r)@.symbols, env),
                old(l)@,
                old(r)@.indexed_readers(groups),
                0,
            ) == Err::<ListView, LowerErrorView>(e@),
            (Ok(_), Err(_)) => false,
            (Err(e), Err(f)) => e@ == LowerErrorView::Reader(f),
        },
{
    let ghost cx = env::context(r@.symbols, env);
    let mut groups = match r.indexed_sparse("States") {
        Ok(g) => g,
        Err(e) => return Err(LowerError::Reader(e)),
    };
    let ghost readers = reader::indexed_views(groups@);
    let ghost whole = states_from(cx, l@, readers, 0);
    let n: usize = groups.len();
    let mut k: usize = 0;
    assert(forall|j: int|
        0 <= j < n ==> #[trigger] readers[j] == (groups@[j].0, groups@[j].1@));
    while k < n
        invariant
            k <= n,
            n == groups@.len(),
            n == readers.len(),
            cx == env::context(old(r)@.symbols, env),
            old(r)@.by_index("States"@) is Ok,
            readers == old(r)@.indexed_readers(old(r)@.by_index("States"@)->Ok_0),
            forall|j: int| 0 <= j < n ==> (#[trigger] readers[j]).1.symbols == old(r)@.symbols,
            forall|j: int|
                k <= j < n ==> #[trigger] readers[j] == (groups@[j].0, groups@[j].1@),
            whole == states_from(cx, old(l)@, readers, 0),
            whole == states_from(cx, l@, readers, k as int),
        decreases n - k,
    {
        assert(readers[k as int] == (groups@[k as int].0, groups@[k as int].1@));
        let i = groups[k].0;
        match apply_state_at(l, i, &mut groups[k].1, env) {
            Ok(_) => {},
            Err(e) => return Err(e),
        }
        k = k + 1;
    }
    Ok(())
}

fn find_states(v: &Vec<Member>) -> (r: Option<usize>)
    ensures
        match r {
            Some(i) => i < v@.len() && i == value::member_place(base::views(v@), "States"@, 0)
                && v@[i as int].value is List && value::member(base::views(v@), "States"@)
                == Some(ValueView::List(v@[i as int].value->List_0@)),
            None => !(value::member(base::views(v@), "States"@) matches Some(ValueView::List(_))),
        },
{
    match find_member(v, "States") {
        Some(i) => {
            proof {
                assert(base::views(v@)[i as int] == v@[i as int]@);
                value::lemma_value_view(v@[i as int].value);
            }
            match &v[i].value {
                Value::List(_) => Some(i),
                _ => None,
            }
        },
        None => None,
    }
}

fn apply_states<'a, 's, E: LowerEnv>(v: &mut Vec<Member>, r: &mut DefReader<'a, 's>, env: &E) -> (res: Result<
    (),
    LowerError,
>)
    ensures
        construct::outcome_members(res, final(v)@) == with_states(
            env::context(old(r)@.symbols, env),
            base::views(old(v)@),
            old(r)@,
        ),
        res is Ok ==> final(r)@ == old(r)@.without(PickView::Indexed("States"@)),
{
    let ghost before = base::views(v@);
    let i = match find_states(v) {
        Some(i) => i,
        None => return Err(semantic_error("field is not a list")),
    };
    assert(before[i as int] == v@[i as int]@);
    match &mut v[i].value {
        Value::List(l) => match apply_states_to(l, r, env) {
            Ok(_) => {},
            Err(e) => return Err(e),
        },
        _ => {},
    }
    proof {
        value::lemma_value_view(v@[i as int].value);
        assert(base::views(v@) =~= value::with_member(before, "States"@, v@[i as int].value@));
    }
    Ok(())
}

// ── Elements of the user interface ───────────────────────────────────────────

/// A state whose flag is set: where it is 0 everything is to be updated.
pub open spec fn flagged(v: ValueView) -> ValueView {
    match v {
        ValueView::Struct(s) => if value::member(s.members, "StateChangeFlag"@) == Some(
            ValueView::Scalar(ScalarView::U32(0)),
        ) {
            ValueView::Struct(
                StructView {
                    members: value::with_member(
                        s.members,
                        "StateChangeFlag"@,
                        ValueView::Scalar(ScalarView::U32(7)),
                    ),
                    ..s
                },
            )
        } else {
            v
        },
        _ => v,
    }
}

/// The fields with the flags of the states set.
pub open spec fn with_flags(v: Seq<MemberView>) -> Seq<MemberView> {
    match value::member(v, "States"@) {
        Some(ValueView::List(l)) => value::with_member(
            v,
            "States"@,
            ValueView::List(
                ListView {
                    items: Seq::new(l.items.len(), |i: int| flagged(l.items[i])),
                    ..l
                },
            ),
        ),
        _ => v,
    }
}

fn apply_flag(v: &mut Value)
    ensures
        final(v)@ == flagged(old(v)@),
{
    proof {
        value::lemma_value_view(*v);
    }
    match v {
        Value::Struct(s) => {
            let zero = match find_member(&s.members, "StateChangeFlag") {
                Some(i) => {
                    proof {
                        assert(base::views(s.members@)[i as int] == s.members@[i as int]@);
                        value::lemma_value_view(s.members@[i as int].value);
                    }
                    match &s.members[i].value {
                        Value::Scalar(Scalar::U32(n)) => *n == 0,
                        _ => false,
                    }
                },
                None => false,
            };
            if zero {
                set_unsigned(&mut s.members, "StateChangeFlag", 7);
            }
        },
        _ => {},
    }
    proof {
        value::lemma_value_view(*v);
    }
}

fn apply_flags_to(items: &mut Vec<Value>)
    ensures
        base::views(final(items)@) == Seq::new(
            old(items)@.len(),
            |i: int| flagged(base::views(old(items)@)[i]),
        ),
{
    let ghost before = base::views(items@);
    let n: usize = items.len();
    let mut i: usize = 0;
    while i < n
        invariant
            i <= n,
            n == items@.len(),
            n == before.len(),
            before == base::views(old(items)@),
            forall|j: int| 0 <= j < i ==> (#[trigger] items@[j])@ == flagged(before[j]),
            forall|j: int| i <= j < n ==> (#[trigger] items@[j])@ == before[j],
        decreases n - i,
    {
        assert(items@[i as int]@ == before[i as int]);
        apply_flag(&mut items[i]);
        i = i + 1;
    }
    assert(base::views(items@) =~= Seq::new(n as nat, |i: int| flagged(before[i])));
}

fn apply_flags(v: &mut Vec<Member>)
    ensures
        base::views(final(v)@) == with_flags(base::views(old(v)@)),
{
    let ghost before = base::views(v@);
    let i = match find_states(v) {
        Some(i) => i,
        None => return,
    };
    assert(before[i as int] == v@[i as int]@);
    match &mut v[i].value {
        Value::List(l) => apply_flags_to(&mut l.items),
        _ => {},
    }
    proof {
        value::lemma_value_view(v@[i as int].value);
        assert(base::views(v@) =~= value::with_member(before, "States"@, v@[i as int].value@));
    }
}

/// The fields of an element before any statement: its font has a name.
pub open spec fn ui_start(cx: Context, base: Seq<MemberView>) -> Seq<MemberView> {
    value::with_member(
        with_flags(base),
        "Font"@,
        ValueView::Scalar(ScalarView::DefString((cx.strings)("ENG_ARIAL_16"@)->0 as i32)),
    )
}

/// The fields of an element of the user interface.
pub open spec fn ui_lowered(
    cx: Context,
    base: Seq<MemberView>,
    body: Seq<Spanned<StatementView>>,
) -> Result<Seq<MemberView>, LowerErrorView> {
    let r = fields::over(cx, body);
    let behind_fields = steps::run_after(ui_fields(), 0, r);
    let behind_states = behind_fields.without(PickView::Indexed("States"@));
    match steps::run(cx, ui_fields(), 0, ui_start(cx, base), r) {
        Err(x) => Err(x),
        Ok(v) => match with_states(cx, v, behind_fields) {
            Err(x) => Err(x),
            Ok(v) => match steps::run(cx, ui_lists(), 0, v, behind_states) {
                Err(x) => Err(x),
                Ok(v) => match fields::used_up(steps::run_after(ui_lists(), 0, behind_states)) {
                    Err(x) => Err(x),
                    Ok(_) => Ok(v),
                },
            },
        },
    }
}

proof fn lemma_step_symbols(table: Seq<Step>, k: int, r: ReaderView)
    ensures
        steps::run_after(table, k, r).symbols == r.symbols,
    decreases table.len() - k,
{
    if 0 <= k < table.len() {
        lemma_step_symbols(table, k + 1, steps::step_after(table[k], r));
    }
}

/// Lowers an element of the user interface onto `base`. The default font must have
/// an offset.
pub fn lower_ui<E: LowerEnv>(
    base: &Record,
    body: &Vec<Spanned<Statement>>,
    symbols: &SymbolTable,
    env: &E,
) -> (r: Result<Record, LowerError>)
    requires
        env.offset_of("ENG_ARIAL_16"@) is Some,
    ensures
        record_view(r) == ui_lowered(env::context(symbols@, env), base@, base::views(body@)),
{
    let ghost cx = env::context(symbols@, env);
    let mut reader = DefReader::new(body, symbols);
    let ghost start = reader@;
    let mut fields = copy_members(&base.fields);
    apply_flags(&mut fields);
    let font: u32 = match env.def_string_offset("ENG_ARIAL_16") {
        Some(o) => o,
        None => 0,
    };
    let x = Value::Scalar(Scalar::DefString(font as i32));
    proof {
        value::lemma_value_view(x);
    }
    set_member(&mut fields, "Font", x);
    proof {
        lemma_step_symbols(ui_fields(), 0, start);
    }
    let table = ui_field_steps();
    match apply_steps(&table, &mut fields, &mut reader, env) {
        Ok(_) => {},
        Err(e) => return Err(e),
    }
    match apply_states(&mut fields, &mut reader, env) {
        Ok(_) => {},
        Err(e) => return Err(e),
    }
    let table = ui_list_steps();
    match apply_steps(&table, &mut fields, &mut reader, env) {
        Ok(_) => {},
        Err(e) => return Err(e),
    }
    match reader.finish() {
        Ok(_) => Ok(Record { fields }),
        Err(e) => Err(LowerError::Reader(e)),
    }
}

} // verus!
