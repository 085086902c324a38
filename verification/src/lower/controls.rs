//! Lowering of control schemes.

use vstd::prelude::*;

use crate::lower::construct::in_table;
use crate::lower::env;
use crate::lower::env::{semantic_error, LowerError, LowerErrorView};
use crate::lower::steps;
use crate::lower::steps::invalid_value;
use crate::eval::Symbols;
use crate::reader;
use crate::reader::{Args, ArgsView, DefReader, DefReaderError, PickView, ReaderErrorView, ReaderView};
use crate::single::Single;
use crate::text::ast::{Statement, StatementView};
use crate::text::base;
use crate::text::base::Spanned;
use crate::text::symbols::SymbolTable;

verus! {

broadcast use base::group_views;

/// What triggers an action of the game.
#[derive(Debug, Clone, Copy, PartialEq, Eq, Structural)]
pub struct ActionInputControl {
    pub game_action: i32,
    pub controller_type: i32,
    pub keyboard_key: i32,
    pub xbox_button: i32,
    pub mouse_button: i32,
    pub direction_x: Single,
    pub direction_y: Single,
}

/// A control scheme.
#[derive(Debug)]
pub struct ControlsDef {
    pub controls: Vec<ActionInputControl>,
    pub toggle_z_target: bool,
    pub toggle_spells: bool,
    pub toggle_sneak: bool,
    pub toggle_expression_menu: bool,
    pub toggle_expression_shift: bool,
    pub flourish_needs_attack_button_held: bool,
}

/// What a [`ControlsDef`] holds.
pub struct ControlsView {
    pub controls: Seq<ActionInputControl>,
    pub toggle_z_target: bool,
    pub toggle_spells: bool,
    pub toggle_sneak: bool,
    pub toggle_expression_menu: bool,
    pub toggle_expression_shift: bool,
    pub flourish_needs_attack_button_held: bool,
}

impl View for ControlsDef {
    type V = ControlsView;

    open spec fn view(&self) -> ControlsView {
        ControlsView {
            controls: self.controls@,
            toggle_z_target: self.toggle_z_target,
            toggle_spells: self.toggle_spells,
            toggle_sneak: self.toggle_sneak,
            toggle_expression_menu: self.toggle_expression_menu,
            toggle_expression_shift: self.toggle_expression_shift,
            flourish_needs_attack_button_held: self.flourish_needs_attack_button_held,
        }
    }
}

fn copy_controls(v: &Vec<ActionInputControl>) -> (r: Vec<ActionInputControl>)
    ensures
        r@ == v@,
{
    let mut out: Vec<ActionInputControl> = Vec::new();
    let mut i: usize = 0;
    while i < v.len()
        invariant
            i <= v@.len(),
            out@ == v@.take(i as int),
        decreases v@.len() - i,
    {
        out.push(v[i]);
        assert(v@.take(i as int + 1) =~= v@.take(i as int).push(v@[i as int]));
        i = i + 1;
    }
    assert(v@.take(v@.len() as int) =~= v@);
    out
}

impl Clone for ControlsDef {
    fn clone(&self) -> (r: Self)
        ensures
            r@ == self@,
    {
        ControlsDef {
            controls: copy_controls(&self.controls),
            toggle_z_target: self.toggle_z_target,
            toggle_spells: self.toggle_spells,
            toggle_sneak: self.toggle_sneak,
            toggle_expression_menu: self.toggle_expression_menu,
            toggle_expression_shift: self.toggle_expression_shift,
            flourish_needs_attack_button_held: self.flourish_needs_attack_button_held,
        }
    }
}

/// The values of the enumerations of a control.
#[derive(Debug)]
pub struct ControlEnums {
    pub game_action: Vec<i32>,
    pub controller_type: Vec<i32>,
    pub input_key: Vec<i32>,
    pub xbox_button: Vec<i32>,
    pub mouse_button: Vec<i32>,
}

/// The value itself, where the enumeration has it.
pub open spec fn checked(allowed: Seq<i32>, kind: Seq<char>, n: i32) -> Result<
    i32,
    LowerErrorView,
> {
    if allowed.contains(n) {
        Ok(n)
    } else {
        Err(LowerErrorView::Unsupported(steps::invalid_text(kind, n)))
    }
}

/// The slots that a key fills: the keyboard's, the pad's and the mouse's.
pub open spec fn slots(controller: i32, key: i32) -> Option<(i32, i32, i32)> {
    if controller == 1 {
        Some((0i32, key, 0i32))
    } else if controller == 2 {
        Some((key, 0i32, 0i32))
    } else if controller == 3 {
        Some((0i32, 0i32, key))
    } else {
        None
    }
}

/// The direction of a control, by its fourth argument.
pub open spec fn direction(a: ArgsView) -> Result<(Single, Single), ReaderErrorView> {
    if a.args.len() <= 3 {
        Ok((Single { bits: 0 }, Single { bits: 0 }))
    } else {
        match a.ctor(3, "C2DCoordF"@) {
            Err(e) => Err(e),
            Ok(c) => match c.single(0) {
                Err(e) => Err(e),
                Ok(x) => match c.single(1) {
                    Err(e) => Err(e),
                    Ok(y) => Ok((x, y)),
                },
            },
        }
    }
}

/// The control with its values checked.
pub open spec fn checked_control(enums: ControlEnums, c: ActionInputControl) -> Result<
    ActionInputControl,
    LowerErrorView,
> {
    match checked(enums.game_action@, "GameAction"@, c.game_action) {
        Err(x) => Err(x),
        Ok(_) => match checked(enums.controller_type@, "ControllerType"@, c.controller_type) {
            Err(x) => Err(x),
            Ok(_) => match checked(enums.input_key@, "InputKey"@, c.keyboard_key) {
                Err(x) => Err(x),
                Ok(_) => match checked(
                    enums.xbox_button@,
                    "XboxControllerButton"@,
                    c.xbox_button,
                ) {
                    Err(x) => Err(x),
                    Ok(_) => match checked(
                        enums.mouse_button@,
                        "MouseButtonControl"@,
                        c.mouse_button,
                    ) {
                        Err(x) => Err(x),
                        Ok(_) => Ok(c),
                    },
                },
            },
        },
    }
}

/// The control that the arguments of a constructor give.
pub open spec fn control_from(enums: ControlEnums, a: ArgsView) -> Result<
    ActionInputControl,
    LowerErrorView,
> {
    match a.i32(0) {
        Err(e) => Err(LowerErrorView::Reader(e)),
        Ok(game_action) => match a.i32(1) {
            Err(e) => Err(LowerErrorView::Reader(e)),
            Ok(controller_type) => match a.i32(2) {
                Err(e) => Err(LowerErrorView::Reader(e)),
                Ok(key) => match slots(controller_type, key) {
                    None => env::semantic("CActionInputControl: unknown controller type"@),
                    Some((keyboard_key, xbox_button, mouse_button)) => match direction(a) {
                        Err(e) => Err(LowerErrorView::Reader(e)),
                        Ok((direction_x, direction_y)) => checked_control(
                            enums,
                            ActionInputControl {
                                game_action,
                                controller_type,
                                keyboard_key,
                                xbox_button,
                                mouse_button,
                                direction_x,
                                direction_y,
                            },
                        ),
                    },
                },
            },
        },
    }
}

/// The controls with that of each call from `k` on.
pub open spec fn controls_from(
    enums: ControlEnums,
    v: Seq<ActionInputControl>,
    calls: Seq<ArgsView>,
    k: int,
) -> Result<Seq<ActionInputControl>, LowerErrorView>
    decreases calls.len() - k,
{
    if k < 0 || k >= calls.len() {
        Ok(v)
    } else {
        match calls[k].ctor(0, "CActionInputControl"@) {
            Err(e) => Err(LowerErrorView::Reader(e)),
            Ok(a) => match control_from(enums, a) {
                Err(x) => Err(x),
                Ok(c) => controls_from(enums, v.push(c), calls, k + 1),
            },
        }
    }
}

/// A toggle, which keeps its value where no statement sets it.
pub open spec fn toggled(r: ReaderView, name: Seq<char>, b: bool) -> Result<bool, ReaderErrorView> {
    match r.opt_bool(name) {
        Ok(Some(b)) => Ok(b),
        Ok(None) => Ok(b),
        Err(e) => Err(e),
    }
}

/// A control scheme with its toggles set, and nothing else left to read.
pub open spec fn toggles(c: ControlsView, r: ReaderView) -> Result<ControlsView, ReaderErrorView> {
    let r1 = r.without(PickView::Leaf("ToggleZTarget"@));
    let r2 = r1.without(PickView::Leaf("ToggleSpells"@));
    let r3 = r2.without(PickView::Leaf("ToggleSneak"@));
    let r4 = r3.without(PickView::Leaf("ToggleExpressionMenu"@));
    let r5 = r4.without(PickView::Leaf("ToggleExpressionShift"@));
    let r6 = r5.without(PickView::Leaf("FlourishNeedsAttackButtonHeld"@));
    match toggled(r, "ToggleZTarget"@, c.toggle_z_target) {
        Err(e) => Err(e),
        Ok(toggle_z_target) => match toggled(r1, "ToggleSpells"@, c.toggle_spells) {
            Err(e) => Err(e),
            Ok(toggle_spells) => match toggled(r2, "ToggleSneak"@, c.toggle_sneak) {
                Err(e) => Err(e),
                Ok(toggle_sneak) => match toggled(
                    r3,
                    "ToggleExpressionMenu"@,
                    c.toggle_expression_menu,
                ) {
                    Err(e) => Err(e),
                    Ok(toggle_expression_menu) => match toggled(
                        r4,
                        "ToggleExpressionShift"@,
                        c.toggle_expression_shift,
                    ) {
                        Err(e) => Err(e),
                        Ok(toggle_expression_shift) => match toggled(
                            r5,
                            "FlourishNeedsAttackButtonHeld"@,
                            c.flourish_needs_attack_button_held,
                        ) {
                            Err(e) => Err(e),
                            Ok(held) => match r6.finished() {
                                Err(e) => Err(e),
                                Ok(_) => Ok(
                                    ControlsView {
                                        controls: c.controls,
                                        toggle_z_target,
                                        toggle_spells,
                                        toggle_sneak,
                                        toggle_expression_menu,
                                        toggle_expression_shift,
                                        flourish_needs_attack_button_held: held,
                                    },
                                ),
                            },
                        },
                    },
                },
            },
        },
    }
}

/// The control scheme that statements give.
pub open spec fn controls_lowered(
    enums: ControlEnums,
    symbols: Symbols,
    base: ControlsView,
    body: Seq<Spanned<StatementView>>,
) -> Result<ControlsView, LowerErrorView> {
    let r = ReaderView { entries: reader::fresh(body), depth: 0, symbols };
    match controls_from(enums, base.controls, r.call_args("Controls"@, "Add"@), 0) {
        Err(x) => Err(x),
        Ok(controls) => match toggles(
            ControlsView { controls, ..base },
            r.without(PickView::Calls("Controls"@, "Add"@)),
        ) {
            Err(e) => Err(LowerErrorView::Reader(e)),
            Ok(c) => Ok(c),
        },
    }
}

fn check(allowed: &Vec<i32>, kind: &str, n: i32) -> (r: Result<i32, LowerError>)
    ensures
        env::lowered(r) == checked(allowed@, kind@, n),
{
    if in_table(allowed, n) {
        Ok(n)
    } else {
        Err(invalid_value(kind, n))
    }
}

fn check_control(enums: &ControlEnums, c: ActionInputControl) -> (r: Result<
    ActionInputControl,
    LowerError,
>)
    ensures
        env::lowered(r) == checked_control(*enums, c),
{
    match check(&enums.game_action, "GameAction", c.game_action) {
        Ok(_) => {},
        Err(e) => return Err(e),
    }
    match check(&enums.controller_type, "ControllerType", c.controller_type) {
        Ok(_) => {},
        Err(e) => return Err(e),
    }
    match check(&enums.input_key, "InputKey", c.keyboard_key) {
        Ok(_) => {},
        Err(e) => return Err(e),
    }
    match check(&enums.xbox_button, "XboxControllerButton", c.xbox_button) {
        Ok(_) => {},
        Err(e) => return Err(e),
    }
    match check(&enums.mouse_button, "MouseButtonControl", c.mouse_button) {
        Ok(_) => Ok(c),
        Err(e) => Err(e),
    }
}

fn read_direction<'e, 's>(a: &Args<'e, 's>) -> (r: Result<(Single, Single), DefReaderError>)
    ensures
        reader::read(r) == direction(a@),
{
    if a.len() <= 3 {
        return Ok((Single { bits: 0 }, Single { bits: 0 }));
    }
    match a.ctor(3, "C2DCoordF") {
        Err(e) => Err(e),
        Ok(c) => match c.single(0) {
            Err(e) => Err(e),
            Ok(x) => match c.single(1) {
                Err(e) => Err(e),
                Ok(y) => Ok((x, y)),
            },
        },
    }
}

/// The control that the arguments of a constructor give. Which slot the key fills
/// depends on the controller; the others stay 0.
fn lower_action_input_control<'e, 's>(enums: &ControlEnums, a: &Args<'e, 's>) -> (r: Result<
    ActionInputControl,
    LowerError,
>)
    ensures
        env::lowered(r) == control_from(*enums, a@),
{
    let game_action = match a.i32(0) {
        Ok(n) => n,
        Err(e) => return Err(LowerError::Reader(e)),
    };
    let controller_type = match a.i32(1) {
        Ok(n) => n,
        Err(e) => return Err(LowerError::Reader(e)),
    };
    let key = match a.i32(2) {
        Ok(n) => n,
        Err(e) => return Err(LowerError::Reader(e)),
    };
    let (keyboard_key, xbox_button, mouse_button): (i32, i32, i32) = if controller_type == 1 {
        (0, key, 0)
    } else if controller_type == 2 {
        (key, 0, 0)
    } else if controller_type == 3 {
        (0, 0, key)
    } else {
        return Err(semantic_error("CActionInputControl: unknown controller type"));
    };
    match read_direction(a) {
        Err(e) => Err(LowerError::Reader(e)),
        Ok((direction_x, direction_y)) => check_control(
            enums,
            ActionInputControl {
                game_action,
                controller_type,
                keyboard_key,
                xbox_button,
                mouse_button,
                direction_x,
                direction_y,
            },
        ),
    }
}

fn add_controls<'a, 's>(
    enums: &ControlEnums,
    v: &mut Vec<ActionInputControl>,
    calls: &Vec<Args<'a, 's>>,
) -> (r: Result<(), LowerError>)
    ensures
        (match r {
            Ok(_) => Ok(final(v)@),
            Err(e) => Err(e@),
        }) == controls_from(*enums, old(v)@, base::views(calls@), 0),
{
    let ghost all = base::views(calls@);
    let ghost whole = controls_from(*enums, v@, all, 0);
    let mut k: usize = 0;
    while k < calls.len()
        invariant
            k <= calls@.len(),
            all == base::views(calls@),
            whole == controls_from(*enums, old(v)@, all, 0),
            whole == controls_from(*enums, v@, all, k as int),
        decreases calls@.len() - k,
    {
        assert(all[k as int] == calls@[k as int]@);
        match calls[k].ctor(0, "CActionInputControl") {
            Err(e) => return Err(LowerError::Reader(e)),
            Ok(a) => match lower_action_input_control(enums, &a) {
                Err(e) => return Err(e),
                Ok(c) => v.push(c),
            },
        }
        k = k + 1;
    }
    Ok(())
}

fn set_toggle<'a, 's>(r: &mut DefReader<'a, 's>, name: &str, b: bool) -> (res: Result<
    bool,
    DefReaderError,
>)
    ensures
        reader::read(res) == toggled(old(r)@, name@, b),
        final(r)@ == old(r)@.without(PickView::Leaf(name@)),
{
    match r.opt_bool(name) {
        Ok(Some(b)) => Ok(b),
        Ok(None) => Ok(b),
        Err(e) => Err(e),
    }
}

fn set_toggles<'a, 's>(c: ControlsDef, mut r: DefReader<'a, 's>) -> (res: Result<
    ControlsDef,
    DefReaderError,
>)
    ensures
        (match res {
            Ok(c) => Ok(c@),
            Err(e) => Err(e@),
        }) == toggles(c@, r@),
{
    let mut c = c;
    match set_toggle(&mut r, "ToggleZTarget", c.toggle_z_target) {
        Ok(b) => c.toggle_z_target = b,
        Err(e) => return Err(e),
    }
    match set_toggle(&mut r, "ToggleSpells", c.toggle_spells) {
        Ok(b) => c.toggle_spells = b,
        Err(e) => return Err(e),
    }
    match set_toggle(&mut r, "ToggleSneak", c.toggle_sneak) {
        Ok(b) => c.toggle_sneak = b,
        Err(e) => return Err(e),
    }
    match set_toggle(&mut r, "ToggleExpressionMenu", c.toggle_expression_menu) {
        Ok(b) => c.toggle_expression_menu = b,
        Err(e) => return Err(e),
    }
    match set_toggle(&mut r, "ToggleExpressionShift", c.toggle_expression_shift) {
        Ok(b) => c.toggle_expression_shift = b,
        Err(e) => return Err(e),
    }
    match set_toggle(
        &mut r,
        "FlourishNeedsAttackButtonHeld",
        c.flourish_needs_attack_button_held,
    ) {
        Ok(b) => c.flourish_needs_attack_button_held = b,
        Err(e) => return Err(e),
    }
    match r.finish() {
        Ok(_) => Ok(c),
        Err(e) => Err(e),
    }
}

/// The view of a lowered control scheme.
pub open spec fn controls_view(r: Result<ControlsDef, LowerError>) -> Result<
    ControlsView,
    LowerErrorView,
> {
    match r {
        Ok(c) => Ok(c@),
        Err(e) => Err(e@),
    }
}

/// Lowers a control scheme onto `base`: controls are added, toggles are set.
pub fn lower_controls(
    base: &ControlsDef,
    body: &Vec<Spanned<Statement>>,
    symbols: &SymbolTable,
    enums: &ControlEnums,
) -> (r: Result<ControlsDef, LowerError>)
    ensures
        controls_view(r) == controls_lowered(*enums, symbols@, base@, base::views(body@)),
{
    let mut out = base.clone();
    let mut reader = DefReader::new(body, symbols);
    let calls = reader.calls("Controls", "Add");
    match add_controls(enums, &mut out.controls, &calls) {
        Ok(_) => {},
        Err(e) => return Err(e),
    }
    match set_toggles(out, reader) {
        Ok(c) => Ok(c),
        Err(e) => Err(LowerError::Reader(e)),
    }
}

} // verus!
