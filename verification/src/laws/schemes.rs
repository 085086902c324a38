//! Control schemes.

use vstd::prelude::*;

use crate::eval;
use crate::eval::{EvalErrorView, Symbols};
use crate::lower::controls;
use crate::lower::controls::{ActionInputControl, ControlEnums, ControlsView};
use crate::lower::env::LowerErrorView;
use crate::reader;
use crate::reader::{ArgsView, PickView, ReaderView};
use crate::text::ast::StatementView;
use crate::text::base::Spanned;

verus! {

/// The reader of the statements of a control scheme.
pub open spec fn over(symbols: Symbols, body: Seq<Spanned<StatementView>>) -> ReaderView {
    ReaderView { entries: reader::fresh(body), depth: 0, symbols }
}

/// Whether a toggle is what the last statement about it says, or what it was.
pub open spec fn is_set(r: ReaderView, name: Seq<char>, before: bool, after: bool) -> bool {
    match r.value(PickView::Leaf(name)) {
        Some(e) => eval::as_bool(e.value) == Ok::<bool, EvalErrorView>(after),
        None => after == before,
    }
}

proof fn lemma_controls(
    enums: ControlEnums,
    v: Seq<ActionInputControl>,
    calls: Seq<ArgsView>,
    k: int,
)
    requires
        0 <= k <= calls.len(),
    ensures
        controls::controls_from(enums, v, calls, k) matches Ok(w) ==> {
            &&& w.len() == v.len() + calls.len() - k
            &&& forall|i: int| 0 <= i < v.len() ==> #[trigger] w[i] == v[i]
            &&& forall|j: int|
                k <= j < calls.len() ==> ((#[trigger] calls[j]).ctor(0, "CActionInputControl"@)
                    matches Ok(a) && controls::control_from(enums, a) == Ok::<
                    ActionInputControl,
                    LowerErrorView,
                >(w[v.len() + j - k]))
        },
    decreases calls.len() - k,
{
    if k < calls.len() {
        if let Ok(a) = calls[k].ctor(0, "CActionInputControl"@) {
            if let Ok(c) = controls::control_from(enums, a) {
                let next = v.push(c);
                lemma_controls(enums, next, calls, k + 1);
                if let Ok(w) = controls::controls_from(enums, next, calls, k + 1) {
                    assert(w[v.len() as int] == next[v.len() as int]);
                    assert forall|i: int| 0 <= i < v.len() implies #[trigger] w[i] == v[i] by {
                        assert(w[i] == next[i]);
                    }
                }
            }
        }
    }
}

proof fn lemma_picked_same(r: ReaderView, pick: PickView, other: PickView, k: int)
    requires
        forall|s: StatementView| !(#[trigger] pick.picks(s, r.depth) && other.picks(s, r.depth)),
    ensures
        reader::picked(r.without(pick).entries, other, r.depth, k) == reader::picked(
            r.entries,
            other,
            r.depth,
            k,
        ),
    decreases k,
{
    if 0 < k <= r.entries.len() {
        lemma_picked_same(r, pick, other, k - 1);
        assert(!(pick.picks(r.entries[k - 1].stmt.value, r.depth) && other.picks(
            r.entries[k - 1].stmt.value,
            r.depth,
        )));
    }
}

proof fn lemma_names()
    ensures
        "ToggleZTarget"@.len() == 13,
        "ToggleSpells"@.len() == 12,
        "ToggleSneak"@.len() == 11,
        "ToggleExpressionMenu"@.len() == 20,
        "ToggleExpressionShift"@.len() == 21,
        "FlourishNeedsAttackButtonHeld"@.len() == 29,
{
    reveal_strlit("ToggleZTarget");
    reveal_strlit("ToggleSpells");
    reveal_strlit("ToggleSneak");
    reveal_strlit("ToggleExpressionMenu");
    reveal_strlit("ToggleExpressionShift");
    reveal_strlit("FlourishNeedsAttackButtonHeld");
}

/// A control scheme has the controls of its base, and behind them one for each
/// `Controls.Add(CActionInputControl(…));` in their order. Each toggle is what the last
/// statement about it says, or what it was.
pub proof fn a_scheme_has_its_controls_and_toggles(
    enums: ControlEnums,
    symbols: Symbols,
    base: ControlsView,
    body: Seq<Spanned<StatementView>>,
    c: ControlsView,
)
    requires
        controls::controls_lowered(enums, symbols, base, body) == Ok::<
            ControlsView,
            LowerErrorView,
        >(c),
    ensures
        ({
            let r = over(symbols, body);
            let calls = r.call_args("Controls"@, "Add"@);
            &&& c.controls.len() == base.controls.len() + calls.len()
            &&& forall|i: int|
                0 <= i < base.controls.len() ==> #[trigger] c.controls[i] == base.controls[i]
            &&& forall|j: int|
                0 <= j < calls.len() ==> ((#[trigger] calls[j]).ctor(0, "CActionInputControl"@)
                    matches Ok(a) && controls::control_from(enums, a) == Ok::<
                    ActionInputControl,
                    LowerErrorView,
                >(c.controls[base.controls.len() + j]))
            &&& is_set(r, "ToggleZTarget"@, base.toggle_z_target, c.toggle_z_target)
            &&& is_set(r, "ToggleSpells"@, base.toggle_spells, c.toggle_spells)
            &&& is_set(r, "ToggleSneak"@, base.toggle_sneak, c.toggle_sneak)
            &&& is_set(
                r,
                "ToggleExpressionMenu"@,
                base.toggle_expression_menu,
                c.toggle_expression_menu,
            )
            &&& is_set(
                r,
                "ToggleExpressionShift"@,
                base.toggle_expression_shift,
                c.toggle_expression_shift,
            )
            &&& is_set(
                r,
                "FlourishNeedsAttackButtonHeld"@,
                base.flourish_needs_attack_button_held,
                c.flourish_needs_attack_button_held,
            )
        }),
{
    lemma_names();
    let r = over(symbols, body);
    let calls = r.call_args("Controls"@, "Add"@);
    lemma_controls(enums, base.controls, calls, 0);
    let r0 = r.without(PickView::Calls("Controls"@, "Add"@));
    let (a, b, d, e, f, g) = (
        "ToggleZTarget"@,
        "ToggleSpells"@,
        "ToggleSneak"@,
        "ToggleExpressionMenu"@,
        "ToggleExpressionShift"@,
        "FlourishNeedsAttackButtonHeld"@,
    );
    let r1 = r0.without(PickView::Leaf(a));
    let r2 = r1.without(PickView::Leaf(b));
    let r3 = r2.without(PickView::Leaf(d));
    let r4 = r3.without(PickView::Leaf(e));
    let adds = PickView::Calls("Controls"@, "Add"@);
    let n = r.entries.len() as int;
    lemma_picked_same(r, adds, PickView::Leaf(a), n);
    lemma_picked_same(r, adds, PickView::Leaf(b), n);
    lemma_picked_same(r, adds, PickView::Leaf(d), n);
    lemma_picked_same(r, adds, PickView::Leaf(e), n);
    lemma_picked_same(r, adds, PickView::Leaf(f), n);
    lemma_picked_same(r, adds, PickView::Leaf(g), n);
    reader::reading_a_field_leaves_the_others(r0, a, b);
    reader::reading_a_field_leaves_the_others(r0, a, d);
    reader::reading_a_field_leaves_the_others(r1, b, d);
    reader::reading_a_field_leaves_the_others(r0, a, e);
    reader::reading_a_field_leaves_the_others(r1, b, e);
    reader::reading_a_field_leaves_the_others(r2, d, e);
    reader::reading_a_field_leaves_the_others(r0, a, f);
    reader::reading_a_field_leaves_the_others(r1, b, f);
    reader::reading_a_field_leaves_the_others(r2, d, f);
    reader::reading_a_field_leaves_the_others(r3, e, f);
    reader::reading_a_field_leaves_the_others(r0, a, g);
    reader::reading_a_field_leaves_the_others(r1, b, g);
    reader::reading_a_field_leaves_the_others(r2, d, g);
    reader::reading_a_field_leaves_the_others(r3, e, g);
    reader::reading_a_field_leaves_the_others(r4, f, g);
}

} // verus!
