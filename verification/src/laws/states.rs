//! The states of the elements of the user interface.

use vstd::prelude::*;

use super::members;
use crate::eval;
use crate::eval::{EvalErrorView, Symbols};
use crate::lower::env::{Context, LowerErrorView};
use crate::lower::fields;
use crate::lower::steps;
use crate::lower::steps::Step;
use crate::lower::ui;
use crate::reader::{PickView, ReaderView};
use crate::single::Single;
use crate::text::ast::{SegmentView, StatementView};
use crate::text::base::Spanned;
use crate::value;
use crate::value::{ListView, MemberView, ScalarView, ValueView};

verus! {

// ── Tables that are not about the states ─────────────────────────────────────

/// Whether no step of a table is about the field `name`.
pub open spec fn leaves(table: Seq<Step>, name: Seq<char>) -> bool {
    forall|j: int| 0 <= j < table.len() ==> members::step_name(#[trigger] table[j]) != name
}

proof fn lemma_leaves_joined(a: Seq<Step>, b: Seq<Step>, name: Seq<char>)
    requires
        leaves(a, name),
        leaves(b, name),
    ensures
        leaves(a + b, name),
{
    assert forall|j: int| 0 <= j < (a + b).len() implies members::step_name(#[trigger] (a + b)[j])
        != name by {
        if j < a.len() {
            assert((a + b)[j] == a[j]);
        } else {
            assert((a + b)[j] == b[j - a.len()]);
        }
    }
}

proof fn lemma_ui_basics()
    ensures
        leaves(ui::ui_basics(), "States"@),
{
    reveal_strlit("States");
    assert("States"@.len() == 6 && "States"@[0] == 'S');
    reveal_strlit("Type");
    assert("Type"@.len() == 4);
    reveal_strlit("MeshIndex");
    assert("MeshIndex"@.len() == 9);
    reveal_strlit("TextValue");
    assert("TextValue"@.len() == 9);
    reveal_strlit("Height");
    assert("Height"@[0] != 'S');
    reveal_strlit("Width");
    assert("Width"@.len() == 5);
    reveal_strlit("ExpansionType");
    assert("ExpansionType"@.len() == 13);
    reveal_strlit("TextLineBreak");
    assert("TextLineBreak"@.len() == 13);
    reveal_strlit("ScaleText");
    assert("ScaleText"@.len() == 9);
    reveal_strlit("Independant");
    assert("Independant"@.len() == 11);
    reveal_strlit("MeshType");
    assert("MeshType"@.len() == 8);
    reveal_strlit("TextWindowTLX");
    assert("TextWindowTLX"@.len() == 13);
    reveal_strlit("TextWindowTLY");
    assert("TextWindowTLY"@.len() == 13);
    reveal_strlit("TextWindowBRX");
    assert("TextWindowBRX"@.len() == 13);
    reveal_strlit("TextWindowBRY");
    assert("TextWindowBRY"@.len() == 13);
    reveal_strlit("Layer");
    assert("Layer"@.len() == 5);
    reveal_strlit("Angle");
    assert("Angle"@.len() == 5);
    reveal_strlit("PositionIsCenter");
    assert("PositionIsCenter"@.len() == 16);
    reveal_strlit("ScrollingSpeed");
    assert("ScrollingSpeed"@.len() == 14);
    reveal_strlit("Wrapping");
    assert("Wrapping"@.len() == 8);
    reveal_strlit("Inverted");
    assert("Inverted"@.len() == 8);
}

proof fn lemma_ui_space()
    ensures
        leaves(ui::ui_space(), "States"@),
{
    reveal_strlit("States");
    assert("States"@.len() == 6 && "States"@[0] == 'S');
    reveal_strlit("PositionOffsetX");
    assert("PositionOffsetX"@.len() == 15);
    reveal_strlit("PositionOffsetY");
    assert("PositionOffsetY"@.len() == 15);
    reveal_strlit("AlphaOffset");
    assert("AlphaOffset"@.len() == 11);
    reveal_strlit("UpX");
    assert("UpX"@.len() == 3);
    reveal_strlit("UpY");
    assert("UpY"@.len() == 3);
    reveal_strlit("UpZ");
    assert("UpZ"@.len() == 3);
    reveal_strlit("ForwardX");
    assert("ForwardX"@.len() == 8);
    reveal_strlit("ForwardY");
    assert("ForwardY"@.len() == 8);
    reveal_strlit("ForwardZ");
    assert("ForwardZ"@.len() == 8);
    reveal_strlit("RotationAxisX");
    assert("RotationAxisX"@.len() == 13);
    reveal_strlit("RotationAxisY");
    assert("RotationAxisY"@.len() == 13);
    reveal_strlit("RotationAxisZ");
    assert("RotationAxisZ"@.len() == 13);
    reveal_strlit("RotationSpeed");
    assert("RotationSpeed"@.len() == 13);
    reveal_strlit("AnimationIndex");
    assert("AnimationIndex"@.len() == 14);
    reveal_strlit("DownArrow");
    assert("DownArrow"@.len() == 9);
}

proof fn lemma_ui_scrolling()
    ensures
        leaves(ui::ui_scrolling(), "States"@),
{
    reveal_strlit("States");
    assert("States"@.len() == 6 && "States"@[0] == 'S');
    reveal_strlit("UpArrow");
    assert("UpArrow"@.len() == 7);
    reveal_strlit("UpLimit");
    assert("UpLimit"@.len() == 7);
    reveal_strlit("DownLimit");
    assert("DownLimit"@.len() == 9);
    reveal_strlit("Scrolling");
    assert("Scrolling"@.len() == 9);
    reveal_strlit("ComputeOffsetsOnActivate");
    assert("ComputeOffsetsOnActivate"@.len() == 24);
    reveal_strlit("MinX");
    assert("MinX"@.len() == 4);
    reveal_strlit("MinY");
    assert("MinY"@.len() == 4);
    reveal_strlit("MaxX");
    assert("MaxX"@.len() == 4);
    reveal_strlit("MaxY");
    assert("MaxY"@.len() == 4);
    reveal_strlit("StepX");
    assert("StepX"@.len() == 5);
    reveal_strlit("StepY");
    assert("StepY"@.len() == 5);
    reveal_strlit("DimensionsX");
    assert("DimensionsX"@.len() == 11);
    reveal_strlit("DimensionsY");
    assert("DimensionsY"@.len() == 11);
    reveal_strlit("SliderLeft");
    assert("SliderLeft"@.len() == 10);
    reveal_strlit("SliderRight");
    assert("SliderRight"@.len() == 11);
}

proof fn lemma_ui_actions()
    ensures
        leaves(ui::ui_actions(), "States"@),
{
    reveal_strlit("States");
    assert("States"@.len() == 6 && "States"@[0] == 'S');
    reveal_strlit("Action");
    assert("Action"@[0] != 'S');
    reveal_strlit("ActionOnBack");
    assert("ActionOnBack"@.len() == 12);
    reveal_strlit("ActionOnSelected");
    assert("ActionOnSelected"@.len() == 16);
    reveal_strlit("ActionOnUnselected");
    assert("ActionOnUnselected"@.len() == 18);
    reveal_strlit("ActionOnDestruction");
    assert("ActionOnDestruction"@.len() == 19);
    reveal_strlit("ActionOnLeftClicked");
    assert("ActionOnLeftClicked"@.len() == 19);
    reveal_strlit("ActionOnLeftUnclicked");
    assert("ActionOnLeftUnclicked"@.len() == 21);
    reveal_strlit("ActionOnLeftHeld");
    assert("ActionOnLeftHeld"@.len() == 16);
    reveal_strlit("ActionOnRightClicked");
    assert("ActionOnRightClicked"@.len() == 20);
    reveal_strlit("ActionOnDropped");
    assert("ActionOnDropped"@.len() == 15);
    reveal_strlit("ActionOnDroppedNowhere");
    assert("ActionOnDroppedNowhere"@.len() == 22);
    reveal_strlit("PreAction");
    assert("PreAction"@.len() == 9);
    reveal_strlit("ActionOnDraggedUp");
    assert("ActionOnDraggedUp"@.len() == 17);
    reveal_strlit("ActionOnDraggedDown");
    assert("ActionOnDraggedDown"@.len() == 19);
    reveal_strlit("ActionOnLeftClickedAbove");
    assert("ActionOnLeftClickedAbove"@.len() == 24);
    reveal_strlit("ActionOnLeftClickedUnder");
    assert("ActionOnLeftClickedUnder"@.len() == 24);
}

proof fn lemma_ui_input()
    ensures
        leaves(ui::ui_input(), "States"@),
{
    reveal_strlit("States");
    assert("States"@.len() == 6 && "States"@[0] == 'S');
    reveal_strlit("InputDelay");
    assert("InputDelay"@.len() == 10);
    reveal_strlit("DrawFromViewport");
    assert("DrawFromViewport"@.len() == 16);
    reveal_strlit("TextBankIndex");
    assert("TextBankIndex"@.len() == 13);
    reveal_strlit("ActionText");
    assert("ActionText"@.len() == 10);
    reveal_strlit("KeyText");
    assert("KeyText"@.len() == 7);
    reveal_strlit("Redefiner");
    assert("Redefiner"@.len() == 9);
    reveal_strlit("UndefinedWarning");
    assert("UndefinedWarning"@.len() == 16);
    reveal_strlit("EditBoxParentIsButton");
    assert("EditBoxParentIsButton"@.len() == 21);
    reveal_strlit("PasswordBox");
    assert("PasswordBox"@.len() == 11);
    reveal_strlit("EditBoxCharLimit");
    assert("EditBoxCharLimit"@.len() == 16);
    reveal_strlit("EditBoxUsesIME");
    assert("EditBoxUsesIME"@.len() == 14);
    reveal_strlit("MovieFilename");
    assert("MovieFilename"@.len() == 13);
    reveal_strlit("DisallowSpaceAsFirstChar");
    assert("DisallowSpaceAsFirstChar"@.len() == 24);
    reveal_strlit("LayerIndependant");
    assert("LayerIndependant"@.len() == 16);
    reveal_strlit("BastardChild");
    assert("BastardChild"@.len() == 12);
}

proof fn lemma_ui_layout()
    ensures
        leaves(ui::ui_layout(), "States"@),
{
    reveal_strlit("States");
    assert("States"@.len() == 6 && "States"@[0] == 'S');
    reveal_strlit("Alignement");
    assert("Alignement"@.len() == 10);
    reveal_strlit("RandomSwap");
    assert("RandomSwap"@.len() == 10);
    reveal_strlit("UseRelativeZoom");
    assert("UseRelativeZoom"@.len() == 15);
    reveal_strlit("UseRelativePosition");
    assert("UseRelativePosition"@.len() == 19);
    reveal_strlit("HoveredState");
    assert("HoveredState"@.len() == 12);
    reveal_strlit("LeftClickedState");
    assert("LeftClickedState"@.len() == 16);
    reveal_strlit("RightClickedState");
    assert("RightClickedState"@.len() == 17);
    reveal_strlit("ViewAreaTLX");
    assert("ViewAreaTLX"@.len() == 11);
    reveal_strlit("ViewAreaTLY");
    assert("ViewAreaTLY"@.len() == 11);
    reveal_strlit("ViewAreaBRX");
    assert("ViewAreaBRX"@.len() == 11);
    reveal_strlit("ViewAreaBRY");
    assert("ViewAreaBRY"@.len() == 11);
    reveal_strlit("UseViewArea");
    assert("UseViewArea"@.len() == 11);
    reveal_strlit("PartOfListTree");
    assert("PartOfListTree"@.len() == 14);
    reveal_strlit("PCStyle");
    assert("PCStyle"@.len() == 7);
    reveal_strlit("Sprite2DFlag");
    assert("Sprite2DFlag"@.len() == 12);
}

proof fn lemma_ui_children()
    ensures
        leaves(ui::ui_children(), "States"@),
{
    reveal_strlit("States");
    assert("States"@.len() == 6 && "States"@[0] == 'S');
    reveal_strlit("Children");
    assert("Children"@.len() == 8);
    reveal_strlit("Font");
    assert("Font"@.len() == 4);
    reveal_strlit("Sprites");
    assert("Sprites"@.len() == 7);
    reveal_strlit("HorizontalSeparations");
    assert("HorizontalSeparations"@.len() == 21);
    reveal_strlit("VerticalSeparations");
    assert("VerticalSeparations"@.len() == 19);
}

proof fn lemma_ui_lists()
    ensures
        leaves(ui::ui_lists(), "States"@),
{
    reveal_strlit("States");
    assert("States"@.len() == 6 && "States"@[0] == 'S');
    reveal_strlit("NonScrollingChildren");
    assert("NonScrollingChildren"@.len() == 20);
    reveal_strlit("ActionMap");
    assert("ActionMap"@.len() == 9);
    reveal_strlit("ActionMapAliases");
    assert("ActionMapAliases"@.len() == 16);
    reveal_strlit("ActionOrder");
    assert("ActionOrder"@.len() == 11);
    reveal_strlit("SwappingStates");
    assert("SwappingStates"@.len() == 14);
    reveal_strlit("SwappingTimes");
    assert("SwappingTimes"@.len() == 13);
    reveal_strlit("ShapeChildren");
    assert("ShapeChildren"@.len() == 13);
}

pub(crate) proof fn lemma_ui_tables()
    ensures
        leaves(ui::ui_fields(), "States"@),
        leaves(ui::ui_lists(), "States"@),
{
    lemma_ui_basics();
    lemma_ui_space();
    lemma_ui_scrolling();
    lemma_ui_actions();
    lemma_ui_input();
    lemma_ui_layout();
    lemma_ui_children();
    lemma_ui_lists();
    let a = ui::ui_basics() + ui::ui_space();
    let b = a + ui::ui_scrolling();
    let c = b + ui::ui_actions();
    let d = c + ui::ui_input();
    let e = d + ui::ui_layout();
    lemma_leaves_joined(ui::ui_basics(), ui::ui_space(), "States"@);
    lemma_leaves_joined(a, ui::ui_scrolling(), "States"@);
    lemma_leaves_joined(b, ui::ui_actions(), "States"@);
    lemma_leaves_joined(c, ui::ui_input(), "States"@);
    lemma_leaves_joined(d, ui::ui_layout(), "States"@);
    lemma_leaves_joined(e, ui::ui_children(), "States"@);
}

// ── A new state ──────────────────────────────────────────────────────────────

/// A number of a state, by its bits.
pub open spec fn number(bits: u32) -> ValueView {
    ValueView::Scalar(ScalarView::Single(Single { bits }))
}

/// What a state holds that nothing has been said of: it is white, at its own size, without a
/// time, and everything of it is to be updated.
pub open spec fn untold(name: Seq<char>) -> Option<ValueView> {
    if name == "ZoomX"@ || name == "ZoomY"@ || name == "ColourR"@ || name == "ColourG"@ || name
        == "ColourB"@ || name == "ColourA"@ {
        Some(number(0x3F80_0000))
    } else if name == "UpdateTime"@ {
        Some(number(0xBF80_0000))
    } else if name == "StateChangeFlag"@ {
        Some(ValueView::Scalar(ScalarView::U32(7)))
    } else {
        None
    }
}

proof fn lemma_names_differ()
    ensures
        "ZoomX"@ != "ZoomY"@,
        "ColourR"@ != "ColourG"@,
        "ColourR"@ != "ColourB"@,
        "ColourR"@ != "ColourA"@,
        "ColourG"@ != "ColourB"@,
        "ColourG"@ != "ColourA"@,
        "ColourB"@ != "ColourA"@,
        "ZoomX"@.len() == 5,
        "ZoomY"@.len() == 5,
        "ColourR"@.len() == 7,
        "ColourG"@.len() == 7,
        "ColourB"@.len() == 7,
        "ColourA"@.len() == 7,
        "UpdateTime"@.len() == 10,
        "StateChangeFlag"@.len() == 15,
        "ChildrenNotAffected"@.len() == 19,
        "States"@ != "Font"@,
{
    reveal_strlit("ZoomX");
    reveal_strlit("ZoomY");
    reveal_strlit("ColourR");
    reveal_strlit("ColourG");
    reveal_strlit("ColourB");
    reveal_strlit("ColourA");
    reveal_strlit("UpdateTime");
    reveal_strlit("StateChangeFlag");
    reveal_strlit("ChildrenNotAffected");
    reveal_strlit("States");
    reveal_strlit("Font");
    assert("ZoomX"@[4] == 'X' && "ZoomY"@[4] == 'Y');
    assert("ColourR"@[6] == 'R' && "ColourG"@[6] == 'G' && "ColourB"@[6] == 'B' && "ColourA"@[6]
        == 'A');
    assert("States"@.len() == 6 && "Font"@.len() == 4);
}

proof fn lemma_new_state(v: Seq<MemberView>, name: Seq<char>)
    requires
        untold(name) is Some,
        value::member(v, name) is Some,
    ensures
        value::member(ui::new_state(v), name) == untold(name),
{
    lemma_names_differ();
    let one = number(0x3F80_0000);
    assert(crate::lower::construct::MINUS_ONE == 0xBF80_0000u32);
    let a = value::with_member(v, "ColourR"@, one);
    let b = value::with_member(a, "ColourG"@, one);
    let c = value::with_member(b, "ColourB"@, one);
    let d = value::with_member(c, "ColourA"@, one);
    let e = value::with_member(d, "ZoomX"@, one);
    let f = value::with_member(e, "ZoomY"@, one);
    let g = value::with_member(f, "UpdateTime"@, number(0xBF80_0000));
    let seven = ValueView::Scalar(ScalarView::U32(7));
    members::setting_a_member_sets_that_one(v, "ColourR"@, one, name);
    members::setting_a_member_sets_that_one(a, "ColourG"@, one, name);
    members::setting_a_member_sets_that_one(b, "ColourB"@, one, name);
    members::setting_a_member_sets_that_one(c, "ColourA"@, one, name);
    members::setting_a_member_sets_that_one(d, "ZoomX"@, one, name);
    members::setting_a_member_sets_that_one(e, "ZoomY"@, one, name);
    members::setting_a_member_sets_that_one(f, "UpdateTime"@, number(0xBF80_0000), name);
    members::setting_a_member_sets_that_one(g, "StateChangeFlag"@, seven, name);
}

// ── States of a definition ───────────────────────────────────────────────────

/// Whether a statement sets the member `name` of state `i`.
pub open spec fn tells(syms: Symbols, s: StatementView, i: int, name: Seq<char>) -> bool {
    s matches StatementView::Field { path, .. } && path.len() == 3 && path[0] == SegmentView::Field(
        "States"@,
    ) && path[2] == SegmentView::Field(name) && (path[1] matches SegmentView::Index(e)
        && eval::as_usize(syms, e.value) == Ok::<usize, EvalErrorView>(i as usize))
}

/// The states of an element.
pub open spec fn states_of(v: Seq<MemberView>) -> Option<ListView> {
    match value::member(v, "States"@) {
        Some(ValueView::List(l)) => Some(l),
        _ => None,
    }
}

/// The member `name` of a state.
pub open spec fn state_member(l: ListView, i: int, name: Seq<char>) -> Option<ValueView> {
    match l.items[i] {
        ValueView::Struct(s) => value::member(s.members, name),
        _ => None,
    }
}

proof fn lemma_state_kept(cx: Context, v: ValueView, g: ReaderView, name: Seq<char>)
    requires
        name != "ChildrenNotAffected"@,
        members::silent(g, PickView::Leaf(name)),
    ensures
        ui::state_from(cx, v, g) matches Ok(w) ==> (v matches ValueView::Struct(s) && w
            matches ValueView::Struct(t) && value::member(t.members, name) == value::member(
            s.members,
            name,
        )),
{
    if let ValueView::Struct(s) = v {
        members::a_table_keeps_other_fields(cx, ui::state_fields(), 0, s.members, g, name);
    }
}

/// What member `name` of place `i` has to be, in a list that started from `start`.
spec fn as_due(start: ListView, l: ListView, i: int, name: Seq<char>) -> bool {
    &&& l.element == start.element
    &&& l.items.len() >= start.items.len()
    &&& i < l.items.len() ==> state_member(l, i, name) == (if i < start.items.len() {
        state_member(start, i, name)
    } else {
        match *start.element {
            ValueView::Struct(s) => value::member(ui::new_state(s.members), name),
            _ => None,
        }
    })
}

proof fn lemma_states(
    cx: Context,
    start: ListView,
    l: ListView,
    groups: Seq<(usize, ReaderView)>,
    k: int,
    i: int,
    name: Seq<char>,
)
    requires
        0 <= k <= groups.len(),
        0 <= i,
        name != "ChildrenNotAffected"@,
        as_due(start, l, i, name),
        forall|g: int|
            0 <= g < groups.len() && (#[trigger] groups[g]).0 == i ==> members::silent(
                groups[g].1,
                PickView::Leaf(name),
            ),
    ensures
        ui::states_from(cx, l, groups, k) matches Ok(end) ==> as_due(start, end, i, name),
    decreases groups.len() - k,
{
    if k < groups.len() {
        let p = groups[k].0 as int;
        let items = ui::states_upto(l, p);
        if let Ok(x) = ui::state_from(cx, items[p], groups[k].1) {
            let next = ListView { items: items.update(p, x), ..l };
            if p == i {
                assert(members::silent(groups[k].1, PickView::Leaf(name)));
                lemma_state_kept(cx, items[p], groups[k].1, name);
            }
            assert(as_due(start, next, i, name)) by {
                if i < items.len() {
                    if i >= l.items.len() {
                        assert(items[i] == ui::new_element(*l.element));
                    } else {
                        assert(items[i] == l.items[i]);
                    }
                }
            }
            lemma_states(cx, start, next, groups, k + 1, i, name);
        }
    }
}

/// The states that an element has after its statements, from those it had: whatever no
/// statement tells of a state that was there stays as it was, and whatever none tells of one
/// that is new is that of a new state. The zoom, the colours, the time and the flag of a new
/// state are 1, 1, -1 and 7. A state that was there with the flag 0 has the flag 7.
pub proof fn states_hold_what_no_statement_tells(
    cx: Context,
    base: Seq<MemberView>,
    body: Seq<Spanned<StatementView>>,
    v: Seq<MemberView>,
    i: int,
    name: Seq<char>,
) -> (l: ListView)
    requires
        ui::ui_lowered(cx, base, body) == Ok::<Seq<MemberView>, LowerErrorView>(v),
        states_of(base) is Some,
        0 <= i <= i32::MAX,
        untold(name) is Some,
        forall|k: int|
            0 <= k < body.len() ==> !tells(cx.symbols, (#[trigger] body[k]).value, i, name),
    ensures
        states_of(v) == Some(l),
        l.items.len() >= states_of(base)->0.items.len(),
        ({
            let start = states_of(base)->0;
            let gained = start.items.len() <= i < l.items.len();
            let listed = match *start.element {
                ValueView::Struct(s) => value::member(s.members, name) is Some,
                _ => false,
            };
            &&& gained && listed && (name == "ZoomX"@ || name == "ZoomY"@) ==> state_member(l, i, name)
                == Some(ValueView::Scalar(ScalarView::Single(Single { bits: 0x3F80_0000 })))
            &&& gained && listed && (name == "ColourR"@ || name == "ColourG"@ || name == "ColourB"@
                || name == "ColourA"@) ==> state_member(l, i, name) == Some(
                ValueView::Scalar(ScalarView::Single(Single { bits: 0x3F80_0000 })),
            )
            &&& gained && listed && name == "UpdateTime"@ ==> state_member(l, i, name) == Some(
                ValueView::Scalar(ScalarView::Single(Single { bits: 0xBF80_0000 })),
            )
            &&& gained && listed && name == "StateChangeFlag"@ ==> state_member(l, i, name) == Some(
                ValueView::Scalar(ScalarView::U32(7)),
            )
            &&& i < start.items.len() ==> state_member(l, i, name) == (if name
                == "StateChangeFlag"@ && state_member(start, i, name) == Some(
                ValueView::Scalar(ScalarView::U32(0)),
            ) {
                Some(ValueView::Scalar(ScalarView::U32(7)))
            } else {
                state_member(start, i, name)
            })
        }),
{
    lemma_names_differ();
    lemma_ui_tables();
    let r = fields::over(cx, body);
    let behind = steps::run_after(ui::ui_fields(), 0, r);
    members::lemma_run_after_statements(ui::ui_fields(), 0, r);
    let start = states_of(base)->0;
    let flagged = ui::with_flags(base);
    let marked = ListView {
        items: Seq::new(start.items.len(), |j: int| ui::flagged(start.items[j])),
        ..start
    };
    members::setting_a_member_sets_that_one(
        base,
        "States"@,
        ValueView::List(marked),
        "States"@,
    );
    let begun = ui::ui_start(cx, base);
    let font = ValueView::Scalar(ScalarView::DefString((cx.strings)("ENG_ARIAL_16"@)->0 as i32));
    members::setting_a_member_sets_that_one(flagged, "Font"@, font, "States"@);
    assert(value::member(begun, "States"@) == Some(ValueView::List(marked)));
    members::a_table_keeps_other_fields(cx, ui::ui_fields(), 0, begun, r, "States"@);
    let first = steps::run(cx, ui::ui_fields(), 0, begun, r)->Ok_0;
    assert(value::member(first, "States"@) == Some(ValueView::List(marked)));
    let groups = behind.by_index("States"@)->Ok_0;
    let readers = behind.indexed_readers(groups);
    assert forall|g: int| 0 <= g < readers.len() && (#[trigger] readers[g]).0
        == i implies members::silent(readers[g].1, PickView::Leaf(name)) by {
        let sub = readers[g].1;
        assert(groups[g].index == i);
        assert forall|j: int| 0 <= j < sub.entries.len() implies !PickView::Leaf(name).picks(
            (#[trigger] sub.entries[j]).stmt.value,
            sub.depth,
        ) by {
            let p = members::groups_hold_the_statements_of_their_index(
                behind,
                "States"@,
                groups,
                g,
                j,
            );
            let s = groups[g].stmts[j];
            assert(sub.entries[j].stmt == s);
            assert(r.entries[p].stmt == behind.entries[p].stmt);
            assert(body[p] == s);
            assert(!tells(cx.symbols, body[p].value, i, name));
        }
    }
    lemma_states(cx, marked, marked, readers, 0, i, name);
    let l = ui::states_from(cx, marked, readers, 0)->Ok_0;
    let second = value::with_member(first, "States"@, ValueView::List(l));
    members::setting_a_member_sets_that_one(first, "States"@, ValueView::List(l), "States"@);
    let behind_states = behind.without(PickView::Indexed("States"@));
    members::a_table_keeps_other_fields(
        cx,
        ui::ui_lists(),
        0,
        second,
        behind_states,
        "States"@,
    );
    assert(as_due(marked, l, i, name));
    if i < l.items.len() && i >= start.items.len() {
        if let ValueView::Struct(s) = *start.element {
            if value::member(s.members, name) is Some {
                lemma_new_state(s.members, name);
            }
        }
    }
    if i < start.items.len() {
        assert(marked.items[i] == ui::flagged(start.items[i]));
        if let ValueView::Struct(s) = start.items[i] {
            members::setting_a_member_sets_that_one(
                s.members,
                "StateChangeFlag"@,
                ValueView::Scalar(ScalarView::U32(7)),
                name,
            );
        }
    }
    l
}

} // verus!
