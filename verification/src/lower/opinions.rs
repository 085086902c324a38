//! Opinions, from the calls that build them.

use vstd::prelude::*;

use crate::eval;
use crate::eval::Evaluator;
use crate::lower::anim;
use crate::lower::body;
use crate::lower::body::is_method_call;
use crate::lower::calls;
use crate::lower::calls::read_number;
use crate::lower::env::{Context, LowerError, LowerErrorView};
use crate::lower::things;
use crate::lower::things::test_yes;
use crate::reader::{DefReaderError, ReaderErrorView};
use crate::single::Single;
use crate::strings::same;
use crate::text::ast;
use crate::text::ast::{
    clone_statement, Call, CallView, Expr, ExprView, Statement, StatementView,
};
use crate::text::base;
use crate::text::base::{Span, Spanned};

verus! {

broadcast use base::group_views;

// ── Effects of deeds ─────────────────────────────────────────────────────────

/// How a deed changes an opinion: how far at its peak, how many seconds until the
/// peak and from there on, and how far in the end.
#[derive(Debug, Clone, Copy, PartialEq, Eq, Structural)]
pub struct DeedEffect {
    pub opinion: i32,
    pub peak: Single,
    pub run_in_secs: Single,
    pub run_out_secs: Single,
    pub persist: Single,
}

/// The effect that a call adds: with five arguments all of it, with fewer only the
/// opinion and how far it changes in the end.
pub open spec fn deed_effect(cx: Context, a: Seq<Spanned<ExprView>>) -> DeedEffect {
    let opinion = anim::number_arg(cx, a, 0);
    if a.len() >= 5 {
        DeedEffect {
            opinion,
            peak: anim::single_arg(cx, a, 1),
            run_in_secs: anim::single_arg(cx, a, 2),
            run_out_secs: anim::single_arg(cx, a, 3),
            persist: anim::single_arg(cx, a, 4),
        }
    } else {
        let zero = Single { bits: 0 };
        DeedEffect {
            opinion,
            peak: zero,
            run_in_secs: zero,
            run_out_secs: zero,
            persist: anim::single_arg(cx, a, 1),
        }
    }
}

/// The effects of the first `k` statements, and the statements that give none. A
/// call needs two arguments.
pub open spec fn deed_effects(
    cx: Context,
    v: Seq<DeedEffect>,
    body: Seq<Spanned<StatementView>>,
    k: int,
) -> Result<(Seq<DeedEffect>, Seq<Spanned<StatementView>>), LowerErrorView>
    decreases k,
{
    if k <= 0 || k > body.len() {
        Ok((v, Seq::empty()))
    } else {
        match deed_effects(cx, v, body, k - 1) {
            Err(x) => Err(x),
            Ok((before, rest)) => if body::calls_method(body[k - 1].value, "Effects"@, "Add"@) {
                let a = calls::call_arguments(body[k - 1].value)->0;
                if a.len() < 2 {
                    Err(
                        LowerErrorView::Reader(
                            ReaderErrorView::MissingArg(1, Span::nowhere()),
                        ),
                    )
                } else {
                    Ok((before.push(deed_effect(cx, a)), rest))
                }
            } else {
                Ok((before, rest.push(body[k - 1])))
            },
        }
    }
}

proof fn lemma_deed_error(
    cx: Context,
    v: Seq<DeedEffect>,
    body: Seq<Spanned<StatementView>>,
    i: int,
    j: int,
)
    requires
        0 <= i <= j <= body.len(),
        deed_effects(cx, v, body, i) is Err,
    ensures
        deed_effects(cx, v, body, j) == deed_effects(cx, v, body, i),
    decreases j - i,
{
    if i < j {
        lemma_deed_error(cx, v, body, i, j - 1);
    }
}

fn read_deed_effect(a: &Vec<Spanned<Expr>>, eval: &Evaluator, cx: Ghost<Context>) -> (r: DeedEffect)
    requires
        cx@.symbols == eval@,
    ensures
        r == deed_effect(cx@, base::views(a@)),
{
    let zero = Single { bits: 0 };
    let opinion = eval.arg_i32_or(a, 0, 0);
    if a.len() >= 5 {
        DeedEffect {
            opinion,
            peak: eval.arg_single_or(a, 1, zero),
            run_in_secs: eval.arg_single_or(a, 2, zero),
            run_out_secs: eval.arg_single_or(a, 3, zero),
            persist: eval.arg_single_or(a, 4, zero),
        }
    } else {
        DeedEffect {
            opinion,
            peak: zero,
            run_in_secs: zero,
            run_out_secs: zero,
            persist: eval.arg_single_or(a, 1, zero),
        }
    }
}

/// The view of gathered effects.
pub open spec fn deeds_view(
    r: Result<(Vec<DeedEffect>, Vec<Spanned<Statement>>), LowerError>,
) -> Result<(Seq<DeedEffect>, Seq<Spanned<StatementView>>), LowerErrorView> {
    match r {
        Ok((v, rest)) => Ok((v@, base::views(rest@))),
        Err(e) => Err(e@),
    }
}

/// Gathers the effects of a deed. Gives back the effects and the statements that
/// give none.
pub(crate) fn build_deed_effects(
    base: Vec<DeedEffect>,
    body: &Vec<Spanned<Statement>>,
    eval: &Evaluator,
    cx: Ghost<Context>,
) -> (r: Result<(Vec<DeedEffect>, Vec<Spanned<Statement>>), LowerError>)
    requires
        cx@.symbols == eval@,
    ensures
        deeds_view(r) == deed_effects(cx@, base@, base::views(body@), body@.len() as int),
{
    let ghost all = base::views(body@);
    let ghost start = base@;
    let mut v = base;
    let mut rest: Vec<Spanned<Statement>> = Vec::new();
    let mut k: usize = 0;
    while k < body.len()
        invariant
            k <= body@.len(),
            cx@.symbols == eval@,
            all == base::views(body@),
            start == base@,
            deed_effects(cx@, start, all, k as int) == Ok::<
                (Seq<DeedEffect>, Seq<Spanned<StatementView>>),
                LowerErrorView,
            >((v@, base::views(rest@))),
        decreases body@.len() - k,
    {
        proof {
            assert(all[k as int] == body@[k as int]@);
            ast::lemma_statement_view(body@[k as int].value);
        }
        let mut used = false;
        if is_method_call(&body[k].value, "Effects", "Add") {
            match &body[k].value {
                Statement::MethodCall(m) => {
                    if m.call.arguments.len() < 2 {
                        proof {
                            lemma_deed_error(cx@, start, all, k as int + 1, all.len() as int);
                        }
                        return Err(
                            LowerError::Reader(DefReaderError::MissingArg(1, Span::synthetic())),
                        );
                    }
                    v.push(read_deed_effect(&m.call.arguments, eval, cx));
                    used = true;
                },
                _ => {},
            }
        }
        if !used {
            rest.push(clone_statement(&body[k]));
        }
        k = k + 1;
    }
    Ok((v, rest))
}

// ── Personalities ────────────────────────────────────────────────────────────

/// The place that argument `i` of a personality trait is stored at: two of them
/// change places.
pub open spec fn trait_slot(i: int) -> int {
    if i == 6 {
        7
    } else if i == 7 {
        6
    } else {
        i
    }
}

/// The traits of one opinion set from the arguments from `i` on, up to the first
/// that is no number.
pub open spec fn traits_from(
    cx: Context,
    v: Seq<Single>,
    index: int,
    a: Seq<Spanned<ExprView>>,
    i: int,
) -> Seq<Single>
    decreases 9 - i,
{
    if i < 0 || i >= 9 || i + 1 >= a.len() {
        v
    } else {
        match eval::as_single(cx.symbols, a[i + 1].value) {
            Ok(x) => traits_from(cx, v.update(index * 9 + trait_slot(i), x), index, a, i + 1),
            Err(_) => v,
        }
    }
}

/// The traits behind one more statement `PersonalityTraits.Set(index, …)`.
pub open spec fn traits_step(cx: Context, v: Seq<Single>, a: Seq<Spanned<ExprView>>) -> Seq<Single> {
    match calls::number_at(cx, a, 0) {
        Some(index) => if 0 <= index < 5 {
            traits_from(cx, v, index as int, a, 0)
        } else {
            v
        },
        None => v,
    }
}

/// The traits of the first `k` statements, and the statements that give none.
pub open spec fn personality(
    cx: Context,
    v: Seq<Single>,
    body: Seq<Spanned<StatementView>>,
    k: int,
) -> (Seq<Single>, Seq<Spanned<StatementView>>)
    decreases k,
{
    if k <= 0 || k > body.len() {
        (v, Seq::empty())
    } else {
        let (before, rest) = personality(cx, v, body, k - 1);
        if body::calls_method(body[k - 1].value, "PersonalityTraits"@, "Set"@) {
            (traits_step(cx, before, calls::call_arguments(body[k - 1].value)->0), rest)
        } else {
            (before, rest.push(body[k - 1]))
        }
    }
}

fn set_traits(
    v: &mut Vec<Single>,
    index: usize,
    a: &Vec<Spanned<Expr>>,
    eval: &Evaluator,
    cx: Ghost<Context>,
)
    requires
        cx@.symbols == eval@,
        index < 5,
        old(v)@.len() == 45,
    ensures
        final(v)@ == traits_from(cx@, old(v)@, index as int, base::views(a@), 0),
        final(v)@.len() == 45,
{
    let ghost all = base::views(a@);
    let ghost whole = traits_from(cx@, v@, index as int, all, 0);
    let n: usize = a.len();
    let mut i: usize = 0;
    while i < 9 && i + 1 < n
        invariant
            i <= 9,
            index < 5,
            n == a@.len(),
            cx@.symbols == eval@,
            all == base::views(a@),
            v@.len() == 45,
            whole == traits_from(cx@, old(v)@, index as int, all, 0),
            whole == traits_from(cx@, v@, index as int, all, i as int),
        decreases 9 - i,
    {
        assert(all[i + 1] == a@[i + 1]@);
        match eval.single(&a[i + 1]) {
            Ok(x) => {
                let slot: usize = if i == 6 {
                    7
                } else if i == 7 {
                    6
                } else {
                    i
                };
                v.set(index * 9 + slot, x);
            },
            Err(_) => return,
        }
        i = i + 1;
    }
}

/// Gathers the traits of a personality: nine for each of five opinions. Gives back
/// the traits and the statements that give none.
pub(crate) fn build_personality(
    base: Vec<Single>,
    body: &Vec<Spanned<Statement>>,
    eval: &Evaluator,
    cx: Ghost<Context>,
) -> (r: (Vec<Single>, Vec<Spanned<Statement>>))
    requires
        cx@.symbols == eval@,
        base@.len() == 45,
    ensures
        (r.0@, base::views(r.1@)) == personality(
            cx@,
            base@,
            base::views(body@),
            body@.len() as int,
        ),
        r.0@.len() == 45,
{
    let ghost all = base::views(body@);
    let ghost start = base@;
    let mut v = base;
    let mut rest: Vec<Spanned<Statement>> = Vec::new();
    let mut k: usize = 0;
    while k < body.len()
        invariant
            k <= body@.len(),
            cx@.symbols == eval@,
            all == base::views(body@),
            v@.len() == 45,
            (v@, base::views(rest@)) == personality(cx@, start, all, k as int),
        decreases body@.len() - k,
    {
        proof {
            assert(all[k as int] == body@[k as int]@);
            ast::lemma_statement_view(body@[k as int].value);
        }
        let mut used = false;
        if is_method_call(&body[k].value, "PersonalityTraits", "Set") {
            match &body[k].value {
                Statement::MethodCall(m) => {
                    match read_number(&m.call.arguments, 0, eval, cx) {
                        Some(index) => {
                            if 0 <= index && index < 5 {
                                set_traits(&mut v, index as usize, &m.call.arguments, eval, cx);
                            }
                        },
                        None => {},
                    }
                    used = true;
                },
                _ => {},
            }
        }
        if !used {
            rest.push(clone_statement(&body[k]));
        }
        k = k + 1;
    }
    (v, rest)
}

// ── Reactions ────────────────────────────────────────────────────────────────

/// What a reaction is matched against.
#[derive(Debug, Clone, Copy, PartialEq, Eq, Structural)]
pub enum MatchKind {
    Secondary,
    SecondaryCentred,
    Pyramid,
    Blob,
}

/// A match of a reaction: its axes and its numbers, in the order of the arguments.
#[derive(Debug)]
pub struct ReactionMatch {
    pub reaction_type: i32,
    pub kind: MatchKind,
    pub x_axis: i32,
    pub y_axis: i32,
    pub numbers: Vec<Single>,
}

/// What a [`ReactionMatch`] holds.
pub struct MatchView {
    pub reaction_type: i32,
    pub kind: MatchKind,
    pub x_axis: i32,
    pub y_axis: i32,
    pub numbers: Seq<Single>,
}

impl View for ReactionMatch {
    type V = MatchView;

    open spec fn view(&self) -> MatchView {
        MatchView {
            reaction_type: self.reaction_type,
            kind: self.kind,
            x_axis: self.x_axis,
            y_axis: self.y_axis,
            numbers: self.numbers@,
        }
    }
}

/// How often a reaction comes.
#[derive(Debug, Clone, Copy, PartialEq, Eq, Structural)]
pub enum Frequency {
    Linear { min_wait: Single, max_wait: Single },
    ControlledCount {
        max_count: Single,
        min_gap: Single,
        recharge_time: Single,
        allow_repeats: bool,
    },
}

/// How often one of the reactions comes.
#[derive(Debug, Clone, Copy, PartialEq, Eq, Structural)]
pub struct ReactionFrequency {
    pub reaction: usize,
    pub frequency: Frequency,
}

/// The floating-point numbers that the arguments from `i` up to `j` are.
pub open spec fn singles(cx: Context, a: Seq<Spanned<ExprView>>, i: int, j: int) -> Seq<Single> {
    Seq::new((j - i) as nat, |k: int| anim::single_arg(cx, a, i + k))
}

/// The match that a constructor gives.
pub open spec fn reaction_match(cx: Context, reaction_type: i32, c: CallView) -> Option<MatchView> {
    let a = c.arguments;
    if c.name == "Secondary"@ || c.name == "SecondaryCentred"@ {
        Some(
            MatchView {
                reaction_type,
                kind: if c.name == "Secondary"@ {
                    MatchKind::Secondary
                } else {
                    MatchKind::SecondaryCentred
                },
                x_axis: anim::number_arg(cx, a, 0),
                y_axis: 0,
                numbers: singles(cx, a, 1, 7),
            },
        )
    } else if c.name == "Pyramid"@ {
        Some(
            MatchView {
                reaction_type,
                kind: MatchKind::Pyramid,
                x_axis: anim::number_arg(cx, a, 0),
                y_axis: anim::number_arg(cx, a, 4),
                numbers: singles(cx, a, 1, 4) + singles(cx, a, 5, 8),
            },
        )
    } else if c.name == "MRBlob"@ {
        Some(
            MatchView {
                reaction_type,
                kind: MatchKind::Blob,
                x_axis: 0,
                y_axis: 1,
                numbers: singles(cx, a, 0, 7),
            },
        )
    } else {
        None
    }
}

/// The frequency that a constructor gives.
pub open spec fn reaction_frequency(cx: Context, c: CallView) -> Option<Frequency> {
    let a = c.arguments;
    if c.name == "Linear"@ {
        Some(
            Frequency::Linear {
                min_wait: anim::single_arg(cx, a, 0),
                max_wait: anim::single_arg(cx, a, 1),
            },
        )
    } else if c.name == "ControlledCount"@ {
        Some(
            Frequency::ControlledCount {
                max_count: anim::single_arg(cx, a, 0),
                min_gap: anim::single_arg(cx, a, 1),
                recharge_time: anim::single_arg(cx, a, 2),
                allow_repeats: a.len() > 3 && things::says_yes(a[3].value),
            },
        )
    } else {
        None
    }
}

/// The constructor that is the second argument of a call.
pub open spec fn second_constructor(a: Seq<Spanned<ExprView>>) -> Option<CallView> {
    if a.len() > 1 {
        match a[1].value {
            ExprView::Constructor(c) => Some(c),
            _ => None,
        }
    } else {
        None
    }
}

/// What the statements built so far.
pub struct ReactionBuilding {
    pub matches: Seq<MatchView>,
    pub frequencies: Seq<ReactionFrequency>,
    pub rest: Seq<Spanned<StatementView>>,
}

/// What one more statement builds: of the reactions, the first 79 have a frequency.
pub open spec fn reaction_built(
    cx: Context,
    b: ReactionBuilding,
    s: Spanned<StatementView>,
) -> ReactionBuilding {
    let other = ReactionBuilding { rest: b.rest.push(s), ..b };
    match s.value {
        StatementView::MethodCall { call, .. } => {
            let a = call.arguments;
            let reaction_type = anim::number_arg(cx, a, 0);
            if body::calls_method(s.value, "Matches"@, "Add"@) {
                match second_constructor(a) {
                    None => other,
                    Some(c) => match reaction_match(cx, reaction_type, c) {
                        Some(m) => ReactionBuilding { matches: b.matches.push(m), ..b },
                        None => b,
                    },
                }
            } else if body::calls_method(s.value, "Frequency"@, "Set"@) {
                match second_constructor(a) {
                    None => other,
                    Some(c) => match reaction_frequency(cx, c) {
                        Some(frequency) => if 0 <= reaction_type < 79 {
                            ReactionBuilding {
                                frequencies: b.frequencies.push(
                                    ReactionFrequency {
                                        reaction: reaction_type as usize,
                                        frequency,
                                    },
                                ),
                                ..b
                            }
                        } else {
                            b
                        },
                        None => b,
                    },
                }
            } else {
                other
            }
        },
        _ => other,
    }
}

/// What the first `k` statements build.
pub open spec fn reaction_building(
    cx: Context,
    body: Seq<Spanned<StatementView>>,
    k: int,
) -> ReactionBuilding
    decreases k,
{
    if k <= 0 || k > body.len() {
        ReactionBuilding { matches: Seq::empty(), frequencies: Seq::empty(), rest: Seq::empty() }
    } else {
        reaction_built(cx, reaction_building(cx, body, k - 1), body[k - 1])
    }
}

fn read_singles(
    a: &Vec<Spanned<Expr>>,
    i: usize,
    j: usize,
    eval: &Evaluator,
    cx: Ghost<Context>,
) -> (r: Vec<Single>)
    requires
        cx@.symbols == eval@,
        i <= j,
    ensures
        r@ == singles(cx@, base::views(a@), i as int, j as int),
{
    let ghost whole = singles(cx@, base::views(a@), i as int, j as int);
    let mut out: Vec<Single> = Vec::new();
    let mut k: usize = i;
    while k < j
        invariant
            i <= k <= j,
            cx@.symbols == eval@,
            whole == singles(cx@, base::views(a@), i as int, j as int),
            out@ == whole.take(k - i),
        decreases j - k,
    {
        out.push(eval.arg_single_or(a, k, Single { bits: 0 }));
        assert(whole.take(k + 1 - i) =~= whole.take(k - i).push(whole[k - i]));
        k = k + 1;
    }
    assert(whole.take(j - i) =~= whole);
    out
}

fn append_singles(v: &mut Vec<Single>, more: &Vec<Single>)
    ensures
        final(v)@ == old(v)@ + more@,
{
    let ghost before = v@;
    assert(before + more@.take(0) =~= before);
    let mut i: usize = 0;
    while i < more.len()
        invariant
            i <= more@.len(),
            before == old(v)@,
            v@ == before + more@.take(i as int),
        decreases more@.len() - i,
    {
        v.push(more[i]);
        assert(before + more@.take(i as int + 1) =~= (before + more@.take(i as int)).push(
            more@[i as int],
        ));
        i = i + 1;
    }
    assert(more@.take(more@.len() as int) =~= more@);
}

fn read_match(reaction_type: i32, c: &Call, eval: &Evaluator, cx: Ghost<Context>) -> (r: Option<
    ReactionMatch,
>)
    requires
        cx@.symbols == eval@,
    ensures
        (match r {
            Some(m) => Some(m@),
            None => None,
        }) == reaction_match(cx@, reaction_type, c@),
{
    let a = &c.arguments;
    let name = c.name.as_str();
    if same(name, "Secondary") || same(name, "SecondaryCentred") {
        let kind = if same(name, "Secondary") {
            MatchKind::Secondary
        } else {
            MatchKind::SecondaryCentred
        };
        Some(
            ReactionMatch {
                reaction_type,
                kind,
                x_axis: eval.arg_i32_or(a, 0, 0),
                y_axis: 0,
                numbers: read_singles(a, 1, 7, eval, cx),
            },
        )
    } else if same(name, "Pyramid") {
        let mut numbers = read_singles(a, 1, 4, eval, cx);
        let more = read_singles(a, 5, 8, eval, cx);
        append_singles(&mut numbers, &more);
        Some(
            ReactionMatch {
                reaction_type,
                kind: MatchKind::Pyramid,
                x_axis: eval.arg_i32_or(a, 0, 0),
                y_axis: eval.arg_i32_or(a, 4, 0),
                numbers,
            },
        )
    } else if same(name, "MRBlob") {
        Some(
            ReactionMatch {
                reaction_type,
                kind: MatchKind::Blob,
                x_axis: 0,
                y_axis: 1,
                numbers: read_singles(a, 0, 7, eval, cx),
            },
        )
    } else {
        None
    }
}

fn read_frequency(c: &Call, eval: &Evaluator, cx: Ghost<Context>) -> (r: Option<Frequency>)
    requires
        cx@.symbols == eval@,
    ensures
        r == reaction_frequency(cx@, c@),
{
    let a = &c.arguments;
    let zero = Single { bits: 0 };
    if same(c.name.as_str(), "Linear") {
        Some(
            Frequency::Linear {
                min_wait: eval.arg_single_or(a, 0, zero),
                max_wait: eval.arg_single_or(a, 1, zero),
            },
        )
    } else if same(c.name.as_str(), "ControlledCount") {
        proof {
            if a@.len() > 3 {
                assert(base::views(a@)[3] == a@[3]@);
            }
        }
        Some(
            Frequency::ControlledCount {
                max_count: eval.arg_single_or(a, 0, zero),
                min_gap: eval.arg_single_or(a, 1, zero),
                recharge_time: eval.arg_single_or(a, 2, zero),
                allow_repeats: a.len() > 3 && test_yes(&a[3].value),
            },
        )
    } else {
        None
    }
}

fn read_second(a: &Vec<Spanned<Expr>>) -> (r: Option<&Call>)
    ensures
        (match r {
            Some(c) => Some(c@),
            None => None,
        }) == second_constructor(base::views(a@)),
{
    if a.len() > 1 {
        proof {
            assert(base::views(a@)[1] == a@[1]@);
            ast::lemma_expr_view(a@[1].value);
        }
        match &a[1].value {
            Expr::Constructor(c) => Some(c),
            _ => None,
        }
    } else {
        None
    }
}

/// The matches and frequencies of reactions.
pub struct ReactionBuilder {
    pub matches: Vec<ReactionMatch>,
    pub frequencies: Vec<ReactionFrequency>,
    pub rest: Vec<Spanned<Statement>>,
}

impl View for ReactionBuilder {
    type V = ReactionBuilding;

    open spec fn view(&self) -> ReactionBuilding {
        ReactionBuilding {
            matches: base::views(self.matches@),
            frequencies: self.frequencies@,
            rest: base::views(self.rest@),
        }
    }
}

impl ReactionBuilder {
    fn step(&mut self, s: &Spanned<Statement>, eval: &Evaluator, cx: Ghost<Context>)
        requires
            cx@.symbols == eval@,
        ensures
            final(self)@ == reaction_built(cx@, old(self)@, s@),
    {
        proof {
            ast::lemma_statement_view(s.value);
        }
        let mut used = false;
        match &s.value {
            Statement::MethodCall(m) => {
                let a = &m.call.arguments;
                let reaction_type = eval.arg_i32_or(a, 0, 0);
                if is_method_call(&s.value, "Matches", "Add") {
                    match read_second(a) {
                        None => {},
                        Some(c) => {
                            match read_match(reaction_type, c, eval, cx) {
                                Some(x) => self.matches.push(x),
                                None => {},
                            }
                            used = true;
                        },
                    }
                } else if is_method_call(&s.value, "Frequency", "Set") {
                    match read_second(a) {
                        None => {},
                        Some(c) => {
                            match read_frequency(c, eval, cx) {
                                Some(frequency) => {
                                    if 0 <= reaction_type && reaction_type < 79 {
                                        self.frequencies.push(
                                            ReactionFrequency {
                                                reaction: reaction_type as usize,
                                                frequency,
                                            },
                                        );
                                    }
                                },
                                None => {},
                            }
                            used = true;
                        },
                    }
                }
            },
            _ => {},
        }
        if !used {
            self.rest.push(clone_statement(s));
        }
    }
}

/// Gathers the matches and frequencies of reactions, statement by statement.
pub(crate) fn build_reactions(body: &Vec<Spanned<Statement>>, eval: &Evaluator, cx: Ghost<Context>) -> (r:
    ReactionBuilder)
    requires
        cx@.symbols == eval@,
    ensures
        r@ == reaction_building(cx@, base::views(body@), body@.len() as int),
{
    let ghost all = base::views(body@);
    let mut b = ReactionBuilder {
        matches: Vec::new(),
        frequencies: Vec::new(),
        rest: Vec::new(),
    };
    assert(b@.frequencies =~= Seq::<ReactionFrequency>::empty());
    let mut k: usize = 0;
    while k < body.len()
        invariant
            k <= body@.len(),
            cx@.symbols == eval@,
            all == base::views(body@),
            b@ == reaction_building(cx@, all, k as int),
        decreases body@.len() - k,
    {
        assert(all[k as int] == body@[k as int]@);
        b.step(&body[k], eval, cx);
        k = k + 1;
    }
    b
}

} // verus!
