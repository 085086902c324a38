//! The tables of fields, and the structures that they fill.

use vstd::prelude::*;

use super::members;
use crate::defs::screens;
use crate::defs::screens::UiPartsView;
use crate::eval;
use crate::eval::EvalErrorView;
use crate::lower::construct;
use crate::lower::env::{Context, LowerErrorView};
use crate::lower::fields;
use crate::lower::steps;
use crate::lower::steps::{How, Item, Key, Step};
use crate::lower::ui;
use crate::reader::{PickView, ReaderView};
use crate::single::Single;
use crate::text::ast::ExprView;
use crate::text::base::Spanned;
use crate::value;
use crate::value::{MemberView, ScalarView, ValueView};

verus! {

// ── Kinds ────────────────────────────────────────────────────────────────────

/// Whether a scalar is of the kind that a step reads.
pub open spec fn fits_scalar(how: How, v: ScalarView) -> bool {
    match how {
        How::Single => v is Single,
        How::I32 => v is I32,
        How::U32 => v is U32,
        How::Bool => v is Bool,
        How::Str => v is Str,
        How::WStr => v is WStr,
        How::Flags => v is Flags,
        How::Ref => v is DefIndex,
        How::Mesh => v is U32 || v is DefIndex,
        How::Graphic => v is U32,
        How::Font => v is DefString,
    }
}

/// Whether the elements of a list, or the values of a map, are of the kind that a step reads.
pub open spec fn fits_item(item: Item, v: ValueView) -> bool {
    v matches ValueView::Scalar(s) && match item {
        Item::Single => s is Single,
        Item::I32 => s is I32,
        Item::U32 => s is U32,
        Item::Str => s is Str,
        Item::Ref => s is DefIndex,
    }
}

/// Whether the keys of a map are of the kind that a step reads.
pub open spec fn fits_key(key: Key, v: ValueView) -> bool {
    v matches ValueView::Scalar(s) && match key {
        Key::I32 => s is I32,
        Key::U32 => s is U32,
        Key::Str => s is Str,
    }
}

/// Whether a field is of the kind that a step reads.
pub open spec fn fits(s: Step, v: ValueView) -> bool {
    match s {
        Step::Field(_, how) => v matches ValueView::Scalar(x) && fits_scalar(how, x),
        Step::Strict(_, _) => v matches ValueView::Scalar(x) && x is Enum,
        Step::Items(_, item) => v matches ValueView::List(l) && fits_item(item, *l.element),
        Step::Entries(_, key, item) => v matches ValueView::Mapping(m) && fits_key(key, *m.key)
            && fits_item(item, *m.value),
        Step::Strings(_) => v matches ValueView::List(l) && fits_item(Item::Str, *l.element),
        Step::Sorted(_) => v is Mapping,
    }
}

/// Whether a table reads the field, as what it is.
pub open spec fn reads(table: Seq<Step>, m: MemberView) -> bool {
    exists|j: int|
        0 <= j < table.len() && members::step_name(#[trigger] table[j]) == m.name && fits(
            table[j],
            m.value,
        )
}

proof fn lemma_reads_joined(a: Seq<Step>, b: Seq<Step>, m: MemberView)
    requires
        reads(a, m) || reads(b, m),
    ensures
        reads(a + b, m),
{
    if reads(a, m) {
        let j = choose|j: int|
            0 <= j < a.len() && members::step_name(#[trigger] a[j]) == m.name && fits(
                a[j],
                m.value,
            );
        assert((a + b)[j] == a[j]);
    } else {
        let j = choose|j: int|
            0 <= j < b.len() && members::step_name(#[trigger] b[j]) == m.name && fits(
                b[j],
                m.value,
            );
        assert((a + b)[a.len() + j] == b[j]);
    }
}

/// Whether one of the tables of an element reads the field.
spec fn read_somewhere(m: MemberView) -> bool {
    reads(ui::ui_basics(), m) || reads(ui::ui_space(), m) || reads(ui::ui_scrolling(), m) || reads(
        ui::ui_actions(),
        m,
    ) || reads(ui::ui_input(), m) || reads(ui::ui_layout(), m) || reads(ui::ui_children(), m)
        || reads(ui::ui_lists(), m)
}

proof fn lemma_read_somewhere(m: MemberView)
    requires
        read_somewhere(m),
    ensures
        reads(ui::ui_fields() + ui::ui_lists(), m),
{
    let a = ui::ui_basics() + ui::ui_space();
    let b = a + ui::ui_scrolling();
    let c = b + ui::ui_actions();
    let d = c + ui::ui_input();
    let e = d + ui::ui_layout();
    if reads(ui::ui_basics(), m) || reads(ui::ui_space(), m) {
        lemma_reads_joined(ui::ui_basics(), ui::ui_space(), m);
    }
    if reads(a, m) || reads(ui::ui_scrolling(), m) {
        lemma_reads_joined(a, ui::ui_scrolling(), m);
    }
    if reads(b, m) || reads(ui::ui_actions(), m) {
        lemma_reads_joined(b, ui::ui_actions(), m);
    }
    if reads(c, m) || reads(ui::ui_input(), m) {
        lemma_reads_joined(c, ui::ui_input(), m);
    }
    if reads(d, m) || reads(ui::ui_layout(), m) {
        lemma_reads_joined(d, ui::ui_layout(), m);
    }
    if reads(e, m) || reads(ui::ui_children(), m) {
        lemma_reads_joined(e, ui::ui_children(), m);
    }
    lemma_reads_joined(ui::ui_fields(), ui::ui_lists(), m);
}

// ── Elements of the user interface ───────────────────────────────────────────

/// Whether the tables of an element read every one of the fields, except the states.
spec fn all_read(v: Seq<MemberView>) -> bool {
    forall|i: int| 0 <= i < v.len() ==> (#[trigger] v[i]).name == "States"@ || read_somewhere(v[i])
}

proof fn lemma_all_read_joined(a: Seq<MemberView>, b: Seq<MemberView>)
    requires
        all_read(a),
        all_read(b),
    ensures
        all_read(a + b),
{
    assert forall|i: int| 0 <= i < (a + b).len() implies (#[trigger] (a + b)[i]).name == "States"@
        || read_somewhere((a + b)[i]) by {
        if i < a.len() {
            assert((a + b)[i] == a[i]);
        } else {
            assert((a + b)[i] == b[i - a.len()]);
        }
    }
}

proof fn lemma_ui_shape(p: UiPartsView)
    ensures
        all_read(screens::ui_shape(p)),
{
    let v = screens::ui_shape(p);
    assert(members::step_name(ui::ui_basics()[0]) == "Type"@ && reads(ui::ui_basics(), v[0]));
    assert(members::step_name(ui::ui_children()[0]) == "Children"@ && reads(ui::ui_children(), v[1]));
    assert(members::step_name(ui::ui_basics()[1]) == "MeshIndex"@ && reads(ui::ui_basics(), v[2]));
    assert(members::step_name(ui::ui_basics()[2]) == "TextValue"@ && reads(ui::ui_basics(), v[3]));
    assert(members::step_name(ui::ui_children()[1]) == "Font"@ && reads(ui::ui_children(), v[4]));
    assert(members::step_name(ui::ui_basics()[3]) == "Height"@ && reads(ui::ui_basics(), v[5]));
    assert(members::step_name(ui::ui_basics()[4]) == "Width"@ && reads(ui::ui_basics(), v[6]));
    assert(members::step_name(ui::ui_basics()[5]) == "ExpansionType"@ && reads(ui::ui_basics(), v[7]));
    assert(members::step_name(ui::ui_children()[2]) == "Sprites"@ && reads(ui::ui_children(), v[8]));
    assert(members::step_name(ui::ui_children()[3]) == "HorizontalSeparations"@ && reads(ui::ui_children(), v[9]));
    assert(members::step_name(ui::ui_children()[4]) == "VerticalSeparations"@ && reads(ui::ui_children(), v[10]));
    assert(members::step_name(ui::ui_basics()[6]) == "TextLineBreak"@ && reads(ui::ui_basics(), v[12]));
}

proof fn lemma_ui_parts(p: UiPartsView)
    ensures
        all_read(screens::ui_parts(p)),
{
    let v = screens::ui_parts(p);
    assert(members::step_name(ui::ui_basics()[7]) == "ScaleText"@ && reads(ui::ui_basics(), v[0]));
    assert(members::step_name(ui::ui_basics()[8]) == "Independant"@ && reads(ui::ui_basics(), v[1]));
    assert(members::step_name(ui::ui_basics()[9]) == "MeshType"@ && reads(ui::ui_basics(), v[2]));
    assert(members::step_name(ui::ui_lists()[0]) == "NonScrollingChildren"@ && reads(ui::ui_lists(), v[3]));
    assert(members::step_name(ui::ui_basics()[10]) == "TextWindowTLX"@ && reads(ui::ui_basics(), v[4]));
    assert(members::step_name(ui::ui_basics()[11]) == "TextWindowTLY"@ && reads(ui::ui_basics(), v[5]));
    assert(members::step_name(ui::ui_basics()[12]) == "TextWindowBRX"@ && reads(ui::ui_basics(), v[6]));
    assert(members::step_name(ui::ui_basics()[13]) == "TextWindowBRY"@ && reads(ui::ui_basics(), v[7]));
    assert(members::step_name(ui::ui_basics()[14]) == "Layer"@ && reads(ui::ui_basics(), v[8]));
    assert(members::step_name(ui::ui_basics()[15]) == "Angle"@ && reads(ui::ui_basics(), v[9]));
    assert(members::step_name(ui::ui_basics()[16]) == "PositionIsCenter"@ && reads(ui::ui_basics(), v[10]));
    assert(members::step_name(ui::ui_basics()[17]) == "ScrollingSpeed"@ && reads(ui::ui_basics(), v[11]));
    assert(members::step_name(ui::ui_basics()[18]) == "Wrapping"@ && reads(ui::ui_basics(), v[12]));
}

proof fn lemma_ui_text()
    ensures
        all_read(screens::ui_text()),
{
    let v = screens::ui_text();
    assert(members::step_name(ui::ui_basics()[19]) == "Inverted"@ && reads(ui::ui_basics(), v[0]));
    assert(members::step_name(ui::ui_space()[0]) == "PositionOffsetX"@ && reads(ui::ui_space(), v[1]));
    assert(members::step_name(ui::ui_space()[1]) == "PositionOffsetY"@ && reads(ui::ui_space(), v[2]));
    assert(members::step_name(ui::ui_space()[2]) == "AlphaOffset"@ && reads(ui::ui_space(), v[3]));
    assert(members::step_name(ui::ui_space()[3]) == "UpX"@ && reads(ui::ui_space(), v[4]));
    assert(members::step_name(ui::ui_space()[4]) == "UpY"@ && reads(ui::ui_space(), v[5]));
    assert(members::step_name(ui::ui_space()[5]) == "UpZ"@ && reads(ui::ui_space(), v[6]));
    assert(members::step_name(ui::ui_space()[6]) == "ForwardX"@ && reads(ui::ui_space(), v[7]));
    assert(members::step_name(ui::ui_space()[7]) == "ForwardY"@ && reads(ui::ui_space(), v[8]));
    assert(members::step_name(ui::ui_space()[8]) == "ForwardZ"@ && reads(ui::ui_space(), v[9]));
    assert(members::step_name(ui::ui_space()[9]) == "RotationAxisX"@ && reads(ui::ui_space(), v[10]));
    assert(members::step_name(ui::ui_space()[10]) == "RotationAxisY"@ && reads(ui::ui_space(), v[11]));
    assert(members::step_name(ui::ui_space()[11]) == "RotationAxisZ"@ && reads(ui::ui_space(), v[12]));
}

proof fn lemma_ui_window()
    ensures
        all_read(screens::ui_window()),
{
    let v = screens::ui_window();
    assert(members::step_name(ui::ui_space()[12]) == "RotationSpeed"@ && reads(ui::ui_space(), v[0]));
    assert(members::step_name(ui::ui_space()[13]) == "AnimationIndex"@ && reads(ui::ui_space(), v[1]));
    assert(members::step_name(ui::ui_space()[14]) == "DownArrow"@ && reads(ui::ui_space(), v[2]));
    assert(members::step_name(ui::ui_scrolling()[0]) == "UpArrow"@ && reads(ui::ui_scrolling(), v[3]));
    assert(members::step_name(ui::ui_scrolling()[1]) == "UpLimit"@ && reads(ui::ui_scrolling(), v[4]));
    assert(members::step_name(ui::ui_scrolling()[2]) == "DownLimit"@ && reads(ui::ui_scrolling(), v[5]));
    assert(members::step_name(ui::ui_scrolling()[3]) == "Scrolling"@ && reads(ui::ui_scrolling(), v[6]));
    assert(members::step_name(ui::ui_scrolling()[4]) == "ComputeOffsetsOnActivate"@ && reads(ui::ui_scrolling(), v[7]));
    assert(members::step_name(ui::ui_scrolling()[5]) == "MinX"@ && reads(ui::ui_scrolling(), v[8]));
    assert(members::step_name(ui::ui_scrolling()[6]) == "MinY"@ && reads(ui::ui_scrolling(), v[9]));
    assert(members::step_name(ui::ui_scrolling()[7]) == "MaxX"@ && reads(ui::ui_scrolling(), v[10]));
    assert(members::step_name(ui::ui_scrolling()[8]) == "MaxY"@ && reads(ui::ui_scrolling(), v[11]));
    assert(members::step_name(ui::ui_scrolling()[9]) == "StepX"@ && reads(ui::ui_scrolling(), v[12]));
}

proof fn lemma_ui_space(p: UiPartsView)
    ensures
        all_read(screens::ui_space(p)),
{
    let v = screens::ui_space(p);
    assert(members::step_name(ui::ui_scrolling()[10]) == "StepY"@ && reads(ui::ui_scrolling(), v[0]));
    assert(members::step_name(ui::ui_scrolling()[11]) == "DimensionsX"@ && reads(ui::ui_scrolling(), v[1]));
    assert(members::step_name(ui::ui_scrolling()[12]) == "DimensionsY"@ && reads(ui::ui_scrolling(), v[2]));
    assert(members::step_name(ui::ui_scrolling()[13]) == "SliderLeft"@ && reads(ui::ui_scrolling(), v[3]));
    assert(members::step_name(ui::ui_scrolling()[14]) == "SliderRight"@ && reads(ui::ui_scrolling(), v[4]));
    assert(members::step_name(ui::ui_actions()[0]) == "Action"@ && reads(ui::ui_actions(), v[5]));
    assert(members::step_name(ui::ui_actions()[1]) == "ActionOnBack"@ && reads(ui::ui_actions(), v[6]));
    assert(members::step_name(ui::ui_actions()[2]) == "ActionOnSelected"@ && reads(ui::ui_actions(), v[7]));
    assert(members::step_name(ui::ui_actions()[3]) == "ActionOnUnselected"@ && reads(ui::ui_actions(), v[8]));
    assert(members::step_name(ui::ui_actions()[4]) == "ActionOnDestruction"@ && reads(ui::ui_actions(), v[9]));
    assert(members::step_name(ui::ui_actions()[5]) == "ActionOnLeftClicked"@ && reads(ui::ui_actions(), v[10]));
    assert(members::step_name(ui::ui_actions()[6]) == "ActionOnLeftUnclicked"@ && reads(ui::ui_actions(), v[11]));
    assert(members::step_name(ui::ui_actions()[7]) == "ActionOnLeftHeld"@ && reads(ui::ui_actions(), v[12]));
}

proof fn lemma_ui_axes(p: UiPartsView)
    ensures
        all_read(screens::ui_axes(p)),
{
    let v = screens::ui_axes(p);
    assert(members::step_name(ui::ui_actions()[8]) == "ActionOnRightClicked"@ && reads(ui::ui_actions(), v[0]));
    assert(members::step_name(ui::ui_actions()[9]) == "ActionOnDropped"@ && reads(ui::ui_actions(), v[1]));
    assert(members::step_name(ui::ui_actions()[10]) == "ActionOnDroppedNowhere"@ && reads(ui::ui_actions(), v[2]));
    assert(members::step_name(ui::ui_actions()[11]) == "PreAction"@ && reads(ui::ui_actions(), v[3]));
    assert(members::step_name(ui::ui_actions()[12]) == "ActionOnDraggedUp"@ && reads(ui::ui_actions(), v[4]));
    assert(members::step_name(ui::ui_actions()[13]) == "ActionOnDraggedDown"@ && reads(ui::ui_actions(), v[5]));
    assert(members::step_name(ui::ui_actions()[14]) == "ActionOnLeftClickedAbove"@ && reads(ui::ui_actions(), v[6]));
    assert(members::step_name(ui::ui_actions()[15]) == "ActionOnLeftClickedUnder"@ && reads(ui::ui_actions(), v[7]));
    assert(members::step_name(ui::ui_input()[0]) == "InputDelay"@ && reads(ui::ui_input(), v[8]));
    assert(members::step_name(ui::ui_input()[1]) == "DrawFromViewport"@ && reads(ui::ui_input(), v[9]));
    assert(members::step_name(ui::ui_input()[2]) == "TextBankIndex"@ && reads(ui::ui_input(), v[10]));
    assert(members::step_name(ui::ui_input()[3]) == "ActionText"@ && reads(ui::ui_input(), v[11]));
    assert(members::step_name(ui::ui_input()[4]) == "KeyText"@ && reads(ui::ui_input(), v[12]));
}

proof fn lemma_ui_arrows()
    ensures
        all_read(screens::ui_arrows()),
{
    let v = screens::ui_arrows();
    assert(members::step_name(ui::ui_input()[5]) == "Redefiner"@ && reads(ui::ui_input(), v[0]));
    assert(members::step_name(ui::ui_input()[6]) == "UndefinedWarning"@ && reads(ui::ui_input(), v[1]));
    assert(members::step_name(ui::ui_lists()[1]) == "ActionMap"@ && reads(ui::ui_lists(), v[2]));
    assert(members::step_name(ui::ui_lists()[2]) == "ActionMapAliases"@ && reads(ui::ui_lists(), v[3]));
    assert(members::step_name(ui::ui_lists()[3]) == "ActionOrder"@ && reads(ui::ui_lists(), v[4]));
    assert(members::step_name(ui::ui_input()[7]) == "EditBoxParentIsButton"@ && reads(ui::ui_input(), v[5]));
    assert(members::step_name(ui::ui_input()[8]) == "PasswordBox"@ && reads(ui::ui_input(), v[6]));
    assert(members::step_name(ui::ui_input()[9]) == "EditBoxCharLimit"@ && reads(ui::ui_input(), v[7]));
    assert(members::step_name(ui::ui_input()[10]) == "EditBoxUsesIME"@ && reads(ui::ui_input(), v[8]));
    assert(members::step_name(ui::ui_input()[11]) == "MovieFilename"@ && reads(ui::ui_input(), v[9]));
    assert(members::step_name(ui::ui_input()[12]) == "DisallowSpaceAsFirstChar"@ && reads(ui::ui_input(), v[10]));
    assert(members::step_name(ui::ui_input()[13]) == "LayerIndependant"@ && reads(ui::ui_input(), v[11]));
    assert(members::step_name(ui::ui_lists()[4]) == "SwappingStates"@ && reads(ui::ui_lists(), v[12]));
}

proof fn lemma_ui_steps(p: UiPartsView)
    ensures
        all_read(screens::ui_steps(p)),
{
    let v = screens::ui_steps(p);
    assert(members::step_name(ui::ui_lists()[5]) == "SwappingTimes"@ && reads(ui::ui_lists(), v[0]));
    assert(members::step_name(ui::ui_input()[14]) == "BastardChild"@ && reads(ui::ui_input(), v[1]));
    assert(members::step_name(ui::ui_layout()[0]) == "Alignement"@ && reads(ui::ui_layout(), v[2]));
    assert(members::step_name(ui::ui_layout()[1]) == "RandomSwap"@ && reads(ui::ui_layout(), v[3]));
    assert(members::step_name(ui::ui_layout()[2]) == "UseRelativeZoom"@ && reads(ui::ui_layout(), v[4]));
    assert(members::step_name(ui::ui_layout()[3]) == "UseRelativePosition"@ && reads(ui::ui_layout(), v[5]));
    assert(members::step_name(ui::ui_layout()[4]) == "HoveredState"@ && reads(ui::ui_layout(), v[6]));
    assert(members::step_name(ui::ui_layout()[5]) == "LeftClickedState"@ && reads(ui::ui_layout(), v[7]));
    assert(members::step_name(ui::ui_layout()[6]) == "RightClickedState"@ && reads(ui::ui_layout(), v[8]));
    assert(members::step_name(ui::ui_lists()[6]) == "ShapeChildren"@ && reads(ui::ui_lists(), v[9]));
    assert(members::step_name(ui::ui_layout()[7]) == "ViewAreaTLX"@ && reads(ui::ui_layout(), v[10]));
    assert(members::step_name(ui::ui_layout()[8]) == "ViewAreaTLY"@ && reads(ui::ui_layout(), v[11]));
    assert(members::step_name(ui::ui_layout()[9]) == "ViewAreaBRX"@ && reads(ui::ui_layout(), v[12]));
}

proof fn lemma_ui_actions()
    ensures
        all_read(screens::ui_actions()),
{
    let v = screens::ui_actions();
    assert(members::step_name(ui::ui_layout()[10]) == "ViewAreaBRY"@ && reads(ui::ui_layout(), v[0]));
    assert(members::step_name(ui::ui_layout()[11]) == "UseViewArea"@ && reads(ui::ui_layout(), v[1]));
    assert(members::step_name(ui::ui_layout()[12]) == "PartOfListTree"@ && reads(ui::ui_layout(), v[2]));
    assert(members::step_name(ui::ui_layout()[13]) == "PCStyle"@ && reads(ui::ui_layout(), v[3]));
    assert(members::step_name(ui::ui_layout()[14]) == "Sprite2DFlag"@ && reads(ui::ui_layout(), v[4]));
}

/// Every field of an element of the user interface but its states is read, and read as what
/// it is: a real as a real, a truth value as a truth value, a list by its elements.
pub proof fn every_field_of_an_element_is_read(p: UiPartsView, i: int)
    requires
        0 <= i < screens::ui_defaults(p).len(),
        screens::ui_defaults(p)[i].name != "States"@,
    ensures
        reads(ui::ui_fields() + ui::ui_lists(), screens::ui_defaults(p)[i]),
{
    lemma_ui_shape(p);
    lemma_ui_parts(p);
    lemma_ui_text();
    lemma_ui_window();
    lemma_ui_space(p);
    lemma_ui_axes(p);
    lemma_ui_arrows();
    lemma_ui_steps(p);
    lemma_ui_actions();
    lemma_all_read_joined(screens::ui_shape(p), screens::ui_parts(p));
    let a = screens::ui_shape(p) + screens::ui_parts(p);
    lemma_all_read_joined(a, screens::ui_text());
    let b = a + screens::ui_text();
    lemma_all_read_joined(b, screens::ui_window());
    let c = b + screens::ui_window();
    lemma_all_read_joined(c, screens::ui_space(p));
    let d = c + screens::ui_space(p);
    lemma_all_read_joined(d, screens::ui_axes(p));
    let e = d + screens::ui_axes(p);
    lemma_all_read_joined(e, screens::ui_arrows());
    let f = e + screens::ui_arrows();
    lemma_all_read_joined(f, screens::ui_steps(p));
    let g = f + screens::ui_steps(p);
    lemma_all_read_joined(g, screens::ui_actions());
    let h = g + screens::ui_actions();
    assert(screens::ui_defaults(p) == h);
    lemma_read_somewhere(screens::ui_defaults(p)[i]);
}

// ── Steps ────────────────────────────────────────────────────────────────────

/// A table reads a scalar as a statement of any other definition does: a real as a real, a
/// number as a number, and so on.
pub proof fn tables_read_scalars_like_statements(
    cx: Context,
    v: Seq<MemberView>,
    e: Spanned<ExprView>,
)
    ensures
        steps::scalar_as(cx, How::Single, v, e) == construct::scalar_from(
            cx,
            ScalarView::Single(Single { bits: 0 }),
            e,
        ),
        steps::scalar_as(cx, How::I32, v, e) == construct::scalar_from(cx, ScalarView::I32(0), e),
        steps::scalar_as(cx, How::U32, v, e) == construct::scalar_from(cx, ScalarView::U32(0), e),
        steps::scalar_as(cx, How::Bool, v, e) == construct::scalar_from(
            cx,
            ScalarView::Bool(false),
            e,
        ),
        steps::scalar_as(cx, How::Str, v, e) == construct::scalar_from(
            cx,
            ScalarView::Str(Seq::empty()),
            e,
        ),
        steps::scalar_as(cx, How::WStr, v, e) == construct::scalar_from(
            cx,
            ScalarView::WStr(Seq::empty()),
            e,
        ),
        steps::scalar_as(cx, How::Flags, v, e) == fields::scalar_named(
            cx,
            ScalarView::Flags(0),
            e,
        ),
        steps::scalar_as(cx, How::Ref, v, e) == construct::scalar_from(
            cx,
            ScalarView::DefIndex(0),
            e,
        ),
{
}

/// The graphic of a state is a definition before it is a number; a font is the offset of its
/// name, or a number; the mesh of a list and of a viewport is another element, and that of
/// anything else a mesh of the bank.
pub proof fn graphics_fonts_and_meshes_are_references(
    cx: Context,
    v: Seq<MemberView>,
    e: Spanned<ExprView>,
    name: Seq<char>,
    o: u32,
    kind: i32,
    allowed: Seq<i32>,
)
    ensures
        (e.value == ExprView::Symbol(name) && (cx.defs)(name) == Some(o)) ==> steps::scalar_as(
            cx,
            How::Graphic,
            v,
            e,
        ) == Ok::<ScalarView, LowerErrorView>(ScalarView::U32(o)),
        (e.value == ExprView::Symbol(name) && (cx.defs)(name) is None && eval::as_u32(
            cx.symbols,
            e.value,
        ) == Ok::<u32, EvalErrorView>(o)) ==> steps::scalar_as(cx, How::Graphic, v, e) == Ok::<
            ScalarView,
            LowerErrorView,
        >(ScalarView::U32(o)),
        (e.value == ExprView::String(name) && (cx.strings)(name) == Some(o)) ==> steps::scalar_as(
            cx,
            How::Font,
            v,
            e,
        ) == Ok::<ScalarView, LowerErrorView>(ScalarView::DefString(o as i32)),
        (eval::as_u32(cx.symbols, e.value) == Ok::<u32, EvalErrorView>(o) && !(
        e.value is String) && value::member(v, "Type"@) == Some(
            ValueView::Scalar(ScalarView::Enum { allowed, value: kind }),
        )) ==> steps::scalar_as(cx, How::Mesh, v, e) == Ok::<ScalarView, LowerErrorView>(
            if kind == 8 || kind == 13 {
                ScalarView::DefIndex(o as i32)
            } else {
                ScalarView::U32((o as i32) as u32)
            },
        ),
{
}

/// A step sets its field to what the last statement says, and sets no other; where no
/// statement is about the field it stays.
pub proof fn a_step_sets_its_field(
    cx: Context,
    name: &'static str,
    how: How,
    v: Seq<MemberView>,
    r: ReaderView,
    other: Seq<char>,
)
    requires
        value::member(v, name@) is Some,
        other != name@,
    ensures
        r.value(PickView::Leaf(name@)) is None ==> steps::step(cx, Step::Field(name, how), v, r)
            == Ok::<Seq<MemberView>, LowerErrorView>(v),
        r.value(PickView::Leaf(name@)) matches Some(e) ==> (match steps::scalar_as(cx, how, v, e) {
            Ok(x) => steps::step(cx, Step::Field(name, how), v, r) matches Ok(w) && value::member(
                w,
                name@,
            ) == Some(ValueView::Scalar(x)) && value::member(w, other) == value::member(v, other),
            Err(x) => steps::step(cx, Step::Field(name, how), v, r) == Err::<
                Seq<MemberView>,
                LowerErrorView,
            >(x),
        }),
{
    if let Some(e) = r.value(PickView::Leaf(name@)) {
        if let Ok(x) = steps::scalar_as(cx, how, v, e) {
            members::setting_a_member_sets_that_one(v, name@, ValueView::Scalar(x), other);
        }
    }
}

/// A field of an enumeration takes the values of the enumeration that it has, and no other.
pub proof fn an_enumeration_takes_its_values(
    cx: Context,
    name: &'static str,
    kind: &'static str,
    v: Seq<MemberView>,
    r: ReaderView,
    allowed: Seq<i32>,
    old_value: i32,
    e: Spanned<ExprView>,
    n: i32,
)
    requires
        value::member(v, name@) == Some(
            ValueView::Scalar(ScalarView::Enum { allowed, value: old_value }),
        ),
        r.value(PickView::Leaf(name@)) == Some(e),
        eval::as_i32(cx.symbols, e.value) == Ok::<i32, EvalErrorView>(n),
    ensures
        allowed.contains(n) ==> (steps::step(cx, Step::Strict(name, kind), v, r) matches Ok(w)
            && value::member(w, name@) == Some(
            ValueView::Scalar(ScalarView::Enum { allowed, value: n }),
        )),
        !allowed.contains(n) ==> steps::step(cx, Step::Strict(name, kind), v, r) is Err,
{
    members::setting_a_member_sets_that_one(
        v,
        name@,
        ValueView::Scalar(ScalarView::Enum { allowed, value: n }),
        name@,
    );
}

} // verus!
