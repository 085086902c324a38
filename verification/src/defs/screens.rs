//! The elements of the user interface and the games of the tavern: too many fields to
//! name each, so they are held as a record.

use vstd::prelude::*;

use crate::defs::arena::{PrizeScoreDef, PrizeScoreView};
use crate::defs::field::{DefField, EnumField, EnumFieldView};
use crate::defs::record::DefStruct;
use crate::lower::mesh::DefIndex;
use crate::single::Single;
use crate::text::base;
use crate::value;
use crate::value::{
    List, ListView, MapView, Mapping, Member, MemberView, Record, Scalar, ScalarView, Value,
    ValueView,
};

verus! {

broadcast use base::group_views;

/// A list of nothing; a new element starts as `element`.
pub open spec fn no_items(element: ValueView) -> ValueView {
    ValueView::List(ListView { element: Box::new(element), items: Seq::empty() })
}

/// A map of nothing, in ascending order of key.
pub open spec fn no_entries(key: ValueView, value: ValueView) -> ValueView {
    ValueView::Mapping(
        MapView {
            ordered: true,
            key: Box::new(key),
            value: Box::new(value),
            entries: Seq::empty(),
        },
    )
}

/// No score.
pub open spec fn no_prize() -> PrizeScoreView {
    PrizeScoreView { score: Single { bits: 0 }, mult: DefIndex(0) }
}

fn scalar(s: Scalar) -> (r: Value)
    ensures
        r@ == ValueView::Scalar(s@),
{
    let r = Value::Scalar(s);
    proof {
        value::lemma_value_view(r);
    }
    r
}

fn empty_list(element: Value) -> (r: Value)
    ensures
        r@ == no_items(element@),
{
    let r = Value::List(List { element: Box::new(element), items: Vec::new() });
    proof {
        value::lemma_value_view(r);
    }
    r
}

fn empty_map(key: Value, value: Value) -> (r: Value)
    ensures
        r@ == no_entries(key@, value@),
{
    let r = Value::Mapping(
        Mapping { ordered: true, key: Box::new(key), value: Box::new(value), entries: Vec::new() },
    );
    proof {
        value::lemma_value_view(r);
    }
    r
}

// ── Games of the tavern ──────────────────────────────────────────────────────

/// A game of the tavern.
#[derive(Debug)]
pub struct TavernGameDef {
    pub fields: Record,
}

impl View for TavernGameDef {
    type V = Seq<MemberView>;

    open spec fn view(&self) -> Seq<MemberView> {
        self.fields@
    }
}

/// Fields of a game of the tavern.
pub open spec fn tavern_phrases() -> Seq<MemberView> {
    seq![
        MemberView { name: "Banter"@, value: ValueView::Scalar(ScalarView::U32(0)) },
        MemberView { name: "Greeting"@, value: ValueView::Scalar(ScalarView::U32(0)) },
        MemberView { name: "OptionsInitial"@, value: ValueView::Scalar(ScalarView::U32(0)) },
        MemberView { name: "OptionsSubsequent"@, value: ValueView::Scalar(ScalarView::U32(0)) },
        MemberView { name: "Instructions"@, value: ValueView::Scalar(ScalarView::U32(0)) },
        MemberView { name: "InstructionsPC"@, value: ValueView::Scalar(ScalarView::U32(0)) },
        MemberView { name: "Betting"@, value: ValueView::Scalar(ScalarView::U32(0)) },
        MemberView { name: "Play"@, value: ValueView::Scalar(ScalarView::U32(0)) },
        MemberView { name: "ReactionWin"@, value: ValueView::Scalar(ScalarView::U32(0)) },
        MemberView { name: "ReactionLose"@, value: ValueView::Scalar(ScalarView::U32(0)) },
        MemberView { name: "ReactionDraw"@, value: ValueView::Scalar(ScalarView::U32(0)) },
        MemberView { name: "ReactionWinNewBestScore"@, value: ValueView::Scalar(ScalarView::U32(0)) },
        MemberView { name: "FarewellInitial"@, value: ValueView::Scalar(ScalarView::U32(0)) },
    ]
}

fn add_tavern_phrases(v: &mut Vec<Member>)
    ensures
        base::views(final(v)@) == base::views(old(v)@) + tavern_phrases(),
{
    let ghost before = base::views(v@);
    let x0 = Member { name: "Banter".to_owned(), value: scalar(Scalar::U32(0)) };
    let x1 = Member { name: "Greeting".to_owned(), value: scalar(Scalar::U32(0)) };
    let x2 = Member { name: "OptionsInitial".to_owned(), value: scalar(Scalar::U32(0)) };
    let x3 = Member { name: "OptionsSubsequent".to_owned(), value: scalar(Scalar::U32(0)) };
    let x4 = Member { name: "Instructions".to_owned(), value: scalar(Scalar::U32(0)) };
    let x5 = Member { name: "InstructionsPC".to_owned(), value: scalar(Scalar::U32(0)) };
    let x6 = Member { name: "Betting".to_owned(), value: scalar(Scalar::U32(0)) };
    let x7 = Member { name: "Play".to_owned(), value: scalar(Scalar::U32(0)) };
    let x8 = Member { name: "ReactionWin".to_owned(), value: scalar(Scalar::U32(0)) };
    let x9 = Member { name: "ReactionLose".to_owned(), value: scalar(Scalar::U32(0)) };
    let x10 = Member { name: "ReactionDraw".to_owned(), value: scalar(Scalar::U32(0)) };
    let x11 = Member { name: "ReactionWinNewBestScore".to_owned(), value: scalar(Scalar::U32(0)) };
    let x12 = Member { name: "FarewellInitial".to_owned(), value: scalar(Scalar::U32(0)) };
    v.push(x0);
    v.push(x1);
    v.push(x2);
    v.push(x3);
    v.push(x4);
    v.push(x5);
    v.push(x6);
    v.push(x7);
    v.push(x8);
    v.push(x9);
    v.push(x10);
    v.push(x11);
    v.push(x12);
    assert(base::views(v@) =~= before + tavern_phrases());
}

/// Fields of a game of the tavern.
pub open spec fn tavern_reactions() -> Seq<MemberView> {
    seq![
        MemberView { name: "FarewellSubsequent"@, value: ValueView::Scalar(ScalarView::U32(0)) },
        MemberView { name: "WinRoundPhrase"@, value: ValueView::Scalar(ScalarView::U32(0)) },
        MemberView { name: "OutOfTimePhrase"@, value: ValueView::Scalar(ScalarView::U32(0)) },
        MemberView { name: "NoMoney"@, value: ValueView::Scalar(ScalarView::U32(0)) },
        MemberView { name: "GreetingForward"@, value: ValueView::Scalar(ScalarView::U32(0)) },
        MemberView { name: "OptionsForward"@, value: ValueView::Scalar(ScalarView::U32(0)) },
        MemberView { name: "OptionsBack"@, value: ValueView::Scalar(ScalarView::U32(0)) },
        MemberView { name: "OptionsAlternative"@, value: ValueView::Scalar(ScalarView::U32(0)) },
        MemberView { name: "InstructionsBack"@, value: ValueView::Scalar(ScalarView::U32(0)) },
        MemberView { name: "BettingForward"@, value: ValueView::Scalar(ScalarView::U32(0)) },
        MemberView { name: "BettingBack"@, value: ValueView::Scalar(ScalarView::U32(0)) },
        MemberView { name: "ReactionForward"@, value: ValueView::Scalar(ScalarView::U32(0)) },
        MemberView { name: "FarewellForward"@, value: ValueView::Scalar(ScalarView::U32(0)) },
    ]
}

fn add_tavern_reactions(v: &mut Vec<Member>)
    ensures
        base::views(final(v)@) == base::views(old(v)@) + tavern_reactions(),
{
    let ghost before = base::views(v@);
    let x0 = Member { name: "FarewellSubsequent".to_owned(), value: scalar(Scalar::U32(0)) };
    let x1 = Member { name: "WinRoundPhrase".to_owned(), value: scalar(Scalar::U32(0)) };
    let x2 = Member { name: "OutOfTimePhrase".to_owned(), value: scalar(Scalar::U32(0)) };
    let x3 = Member { name: "NoMoney".to_owned(), value: scalar(Scalar::U32(0)) };
    let x4 = Member { name: "GreetingForward".to_owned(), value: scalar(Scalar::U32(0)) };
    let x5 = Member { name: "OptionsForward".to_owned(), value: scalar(Scalar::U32(0)) };
    let x6 = Member { name: "OptionsBack".to_owned(), value: scalar(Scalar::U32(0)) };
    let x7 = Member { name: "OptionsAlternative".to_owned(), value: scalar(Scalar::U32(0)) };
    let x8 = Member { name: "InstructionsBack".to_owned(), value: scalar(Scalar::U32(0)) };
    let x9 = Member { name: "BettingForward".to_owned(), value: scalar(Scalar::U32(0)) };
    let x10 = Member { name: "BettingBack".to_owned(), value: scalar(Scalar::U32(0)) };
    let x11 = Member { name: "ReactionForward".to_owned(), value: scalar(Scalar::U32(0)) };
    let x12 = Member { name: "FarewellForward".to_owned(), value: scalar(Scalar::U32(0)) };
    v.push(x0);
    v.push(x1);
    v.push(x2);
    v.push(x3);
    v.push(x4);
    v.push(x5);
    v.push(x6);
    v.push(x7);
    v.push(x8);
    v.push(x9);
    v.push(x10);
    v.push(x11);
    v.push(x12);
    assert(base::views(v@) =~= before + tavern_reactions());
}

/// Fields of a game of the tavern.
pub open spec fn tavern_turns() -> Seq<MemberView> {
    seq![
        MemberView { name: "CameraName"@, value: ValueView::Scalar(ScalarView::DefString(-1i32)) },
        MemberView { name: "BoxGraphicL"@, value: ValueView::Scalar(ScalarView::U32(0)) },
        MemberView { name: "BoxGraphicC"@, value: ValueView::Scalar(ScalarView::U32(0)) },
        MemberView { name: "BoxGraphicR"@, value: ValueView::Scalar(ScalarView::U32(0)) },
        MemberView { name: "ClickToContinue"@, value: ValueView::Scalar(ScalarView::U32(0)) },
        MemberView { name: "WinPhrase"@, value: ValueView::Scalar(ScalarView::U32(0)) },
        MemberView { name: "LosePhrase"@, value: ValueView::Scalar(ScalarView::U32(0)) },
        MemberView { name: "DrawPhrase"@, value: ValueView::Scalar(ScalarView::U32(0)) },
        MemberView { name: "NewGame"@, value: ValueView::Scalar(ScalarView::U32(0)) },
        MemberView { name: "BestScore"@, value: ValueView::Scalar(ScalarView::U32(0)) },
        MemberView { name: "CurrentScore"@, value: ValueView::Scalar(ScalarView::U32(0)) },
        MemberView { name: "RequiredScore"@, value: ValueView::Scalar(ScalarView::U32(0)) },
        MemberView { name: "AdditionalInfo"@, value: ValueView::Scalar(ScalarView::U32(0)) },
    ]
}

fn add_tavern_turns(v: &mut Vec<Member>)
    ensures
        base::views(final(v)@) == base::views(old(v)@) + tavern_turns(),
{
    let ghost before = base::views(v@);
    let x0 = Member { name: "CameraName".to_owned(), value: scalar(Scalar::DefString(-1)) };
    let x1 = Member { name: "BoxGraphicL".to_owned(), value: scalar(Scalar::U32(0)) };
    let x2 = Member { name: "BoxGraphicC".to_owned(), value: scalar(Scalar::U32(0)) };
    let x3 = Member { name: "BoxGraphicR".to_owned(), value: scalar(Scalar::U32(0)) };
    let x4 = Member { name: "ClickToContinue".to_owned(), value: scalar(Scalar::U32(0)) };
    let x5 = Member { name: "WinPhrase".to_owned(), value: scalar(Scalar::U32(0)) };
    let x6 = Member { name: "LosePhrase".to_owned(), value: scalar(Scalar::U32(0)) };
    let x7 = Member { name: "DrawPhrase".to_owned(), value: scalar(Scalar::U32(0)) };
    let x8 = Member { name: "NewGame".to_owned(), value: scalar(Scalar::U32(0)) };
    let x9 = Member { name: "BestScore".to_owned(), value: scalar(Scalar::U32(0)) };
    let x10 = Member { name: "CurrentScore".to_owned(), value: scalar(Scalar::U32(0)) };
    let x11 = Member { name: "RequiredScore".to_owned(), value: scalar(Scalar::U32(0)) };
    let x12 = Member { name: "AdditionalInfo".to_owned(), value: scalar(Scalar::U32(0)) };
    v.push(x0);
    v.push(x1);
    v.push(x2);
    v.push(x3);
    v.push(x4);
    v.push(x5);
    v.push(x6);
    v.push(x7);
    v.push(x8);
    v.push(x9);
    v.push(x10);
    v.push(x11);
    v.push(x12);
    assert(base::views(v@) =~= before + tavern_turns());
}

/// Fields of a game of the tavern.
pub open spec fn tavern_rounds() -> Seq<MemberView> {
    seq![
        MemberView { name: "BlackjackBusted"@, value: ValueView::Scalar(ScalarView::U32(0)) },
        MemberView { name: "BlackjackSplit"@, value: ValueView::Scalar(ScalarView::U32(0)) },
        MemberView { name: "BlackjackDouble"@, value: ValueView::Scalar(ScalarView::U32(0)) },
        MemberView { name: "BlackjackHit"@, value: ValueView::Scalar(ScalarView::U32(0)) },
        MemberView { name: "BlackjackStand"@, value: ValueView::Scalar(ScalarView::U32(0)) },
        MemberView { name: "BlackjackDealerTakesCard"@, value: ValueView::Scalar(ScalarView::U32(0)) },
        MemberView { name: "BlackjackSplitGUI"@, value: ValueView::Scalar(ScalarView::U32(0)) },
        MemberView { name: "BlackjackDoubleGUI"@, value: ValueView::Scalar(ScalarView::U32(0)) },
        MemberView { name: "BlackjackHitGUI"@, value: ValueView::Scalar(ScalarView::U32(0)) },
        MemberView { name: "BlackjackStandGUI"@, value: ValueView::Scalar(ScalarView::U32(0)) },
        MemberView { name: "Bet"@, value: ValueView::Scalar(ScalarView::U32(0)) },
        MemberView { name: "PlayersMoney"@, value: ValueView::Scalar(ScalarView::U32(0)) },
        MemberView { name: "TotalWinnings"@, value: ValueView::Scalar(ScalarView::U32(0)) },
    ]
}

fn add_tavern_rounds(v: &mut Vec<Member>)
    ensures
        base::views(final(v)@) == base::views(old(v)@) + tavern_rounds(),
{
    let ghost before = base::views(v@);
    let x0 = Member { name: "BlackjackBusted".to_owned(), value: scalar(Scalar::U32(0)) };
    let x1 = Member { name: "BlackjackSplit".to_owned(), value: scalar(Scalar::U32(0)) };
    let x2 = Member { name: "BlackjackDouble".to_owned(), value: scalar(Scalar::U32(0)) };
    let x3 = Member { name: "BlackjackHit".to_owned(), value: scalar(Scalar::U32(0)) };
    let x4 = Member { name: "BlackjackStand".to_owned(), value: scalar(Scalar::U32(0)) };
    let x5 = Member { name: "BlackjackDealerTakesCard".to_owned(), value: scalar(Scalar::U32(0)) };
    let x6 = Member { name: "BlackjackSplitGUI".to_owned(), value: scalar(Scalar::U32(0)) };
    let x7 = Member { name: "BlackjackDoubleGUI".to_owned(), value: scalar(Scalar::U32(0)) };
    let x8 = Member { name: "BlackjackHitGUI".to_owned(), value: scalar(Scalar::U32(0)) };
    let x9 = Member { name: "BlackjackStandGUI".to_owned(), value: scalar(Scalar::U32(0)) };
    let x10 = Member { name: "Bet".to_owned(), value: scalar(Scalar::U32(0)) };
    let x11 = Member { name: "PlayersMoney".to_owned(), value: scalar(Scalar::U32(0)) };
    let x12 = Member { name: "TotalWinnings".to_owned(), value: scalar(Scalar::U32(0)) };
    v.push(x0);
    v.push(x1);
    v.push(x2);
    v.push(x3);
    v.push(x4);
    v.push(x5);
    v.push(x6);
    v.push(x7);
    v.push(x8);
    v.push(x9);
    v.push(x10);
    v.push(x11);
    v.push(x12);
    assert(base::views(v@) =~= before + tavern_rounds());
}

/// Fields of a game of the tavern.
pub open spec fn tavern_cards() -> Seq<MemberView> {
    seq![
        MemberView { name: "Continue"@, value: ValueView::Scalar(ScalarView::U32(0)) },
        MemberView { name: "Quit"@, value: ValueView::Scalar(ScalarView::U32(0)) },
        MemberView { name: "Yes"@, value: ValueView::Scalar(ScalarView::U32(0)) },
        MemberView { name: "No"@, value: ValueView::Scalar(ScalarView::U32(0)) },
        MemberView { name: "PrizeGiven"@, value: ValueView::Scalar(ScalarView::U32(0)) },
        MemberView { name: "MoneyBagGraphic"@, value: ValueView::Scalar(ScalarView::U32(0)) },
        MemberView { name: "MinBet"@, value: ValueView::Scalar(ScalarView::I32(0)) },
        MemberView { name: "MaxBet"@, value: ValueView::Scalar(ScalarView::I32(0)) },
        MemberView { name: "BetIncrement"@, value: ValueView::Scalar(ScalarView::I32(0)) },
        MemberView { name: "ScoreFont"@, value: ValueView::Scalar(ScalarView::DefString(-1i32)) },
        MemberView { name: "TargetFont"@, value: ValueView::Scalar(ScalarView::DefString(-1i32)) },
        MemberView { name: "StatsFont"@, value: ValueView::Scalar(ScalarView::DefString(-1i32)) },
        MemberView { name: "ScoreX"@, value: ValueView::Scalar(ScalarView::Single(Single { bits: 0 })) },
    ]
}

fn add_tavern_cards(v: &mut Vec<Member>)
    ensures
        base::views(final(v)@) == base::views(old(v)@) + tavern_cards(),
{
    let ghost before = base::views(v@);
    let x0 = Member { name: "Continue".to_owned(), value: scalar(Scalar::U32(0)) };
    let x1 = Member { name: "Quit".to_owned(), value: scalar(Scalar::U32(0)) };
    let x2 = Member { name: "Yes".to_owned(), value: scalar(Scalar::U32(0)) };
    let x3 = Member { name: "No".to_owned(), value: scalar(Scalar::U32(0)) };
    let x4 = Member { name: "PrizeGiven".to_owned(), value: scalar(Scalar::U32(0)) };
    let x5 = Member { name: "MoneyBagGraphic".to_owned(), value: scalar(Scalar::U32(0)) };
    let x6 = Member { name: "MinBet".to_owned(), value: scalar(Scalar::I32(0)) };
    let x7 = Member { name: "MaxBet".to_owned(), value: scalar(Scalar::I32(0)) };
    let x8 = Member { name: "BetIncrement".to_owned(), value: scalar(Scalar::I32(0)) };
    let x9 = Member { name: "ScoreFont".to_owned(), value: scalar(Scalar::DefString(-1)) };
    let x10 = Member { name: "TargetFont".to_owned(), value: scalar(Scalar::DefString(-1)) };
    let x11 = Member { name: "StatsFont".to_owned(), value: scalar(Scalar::DefString(-1)) };
    let x12 = Member { name: "ScoreX".to_owned(), value: scalar(Scalar::Single(Single { bits: 0 })) };
    v.push(x0);
    v.push(x1);
    v.push(x2);
    v.push(x3);
    v.push(x4);
    v.push(x5);
    v.push(x6);
    v.push(x7);
    v.push(x8);
    v.push(x9);
    v.push(x10);
    v.push(x11);
    v.push(x12);
    assert(base::views(v@) =~= before + tavern_cards());
}

/// Fields of a game of the tavern.
pub open spec fn tavern_stakes() -> Seq<MemberView> {
    seq![
        MemberView { name: "ScoreY"@, value: ValueView::Scalar(ScalarView::Single(Single { bits: 0 })) },
        MemberView { name: "TargetX"@, value: ValueView::Scalar(ScalarView::Single(Single { bits: 0 })) },
        MemberView { name: "TargetY"@, value: ValueView::Scalar(ScalarView::Single(Single { bits: 0 })) },
        MemberView { name: "BestX"@, value: ValueView::Scalar(ScalarView::Single(Single { bits: 0 })) },
        MemberView { name: "BestY"@, value: ValueView::Scalar(ScalarView::Single(Single { bits: 0 })) },
        MemberView { name: "AdditionalX"@, value: ValueView::Scalar(ScalarView::Single(Single { bits: 0 })) },
        MemberView { name: "AdditionalY"@, value: ValueView::Scalar(ScalarView::Single(Single { bits: 0 })) },
        MemberView { name: "BetX"@, value: ValueView::Scalar(ScalarView::Single(Single { bits: 0 })) },
        MemberView { name: "BetY"@, value: ValueView::Scalar(ScalarView::Single(Single { bits: 0 })) },
        MemberView { name: "MoneyX"@, value: ValueView::Scalar(ScalarView::Single(Single { bits: 0 })) },
        MemberView { name: "MoneyY"@, value: ValueView::Scalar(ScalarView::Single(Single { bits: 0 })) },
        MemberView { name: "WinningsX"@, value: ValueView::Scalar(ScalarView::Single(Single { bits: 0 })) },
        MemberView { name: "WinningsY"@, value: ValueView::Scalar(ScalarView::Single(Single { bits: 0 })) },
    ]
}

fn add_tavern_stakes(v: &mut Vec<Member>)
    ensures
        base::views(final(v)@) == base::views(old(v)@) + tavern_stakes(),
{
    let ghost before = base::views(v@);
    let x0 = Member { name: "ScoreY".to_owned(), value: scalar(Scalar::Single(Single { bits: 0 })) };
    let x1 = Member { name: "TargetX".to_owned(), value: scalar(Scalar::Single(Single { bits: 0 })) };
    let x2 = Member { name: "TargetY".to_owned(), value: scalar(Scalar::Single(Single { bits: 0 })) };
    let x3 = Member { name: "BestX".to_owned(), value: scalar(Scalar::Single(Single { bits: 0 })) };
    let x4 = Member { name: "BestY".to_owned(), value: scalar(Scalar::Single(Single { bits: 0 })) };
    let x5 = Member { name: "AdditionalX".to_owned(), value: scalar(Scalar::Single(Single { bits: 0 })) };
    let x6 = Member { name: "AdditionalY".to_owned(), value: scalar(Scalar::Single(Single { bits: 0 })) };
    let x7 = Member { name: "BetX".to_owned(), value: scalar(Scalar::Single(Single { bits: 0 })) };
    let x8 = Member { name: "BetY".to_owned(), value: scalar(Scalar::Single(Single { bits: 0 })) };
    let x9 = Member { name: "MoneyX".to_owned(), value: scalar(Scalar::Single(Single { bits: 0 })) };
    let x10 = Member { name: "MoneyY".to_owned(), value: scalar(Scalar::Single(Single { bits: 0 })) };
    let x11 = Member { name: "WinningsX".to_owned(), value: scalar(Scalar::Single(Single { bits: 0 })) };
    let x12 = Member { name: "WinningsY".to_owned(), value: scalar(Scalar::Single(Single { bits: 0 })) };
    v.push(x0);
    v.push(x1);
    v.push(x2);
    v.push(x3);
    v.push(x4);
    v.push(x5);
    v.push(x6);
    v.push(x7);
    v.push(x8);
    v.push(x9);
    v.push(x10);
    v.push(x11);
    v.push(x12);
    assert(base::views(v@) =~= before + tavern_stakes());
}

/// Fields of a game of the tavern.
pub open spec fn tavern_fonts() -> Seq<MemberView> {
    seq![
        MemberView { name: "MainBetX"@, value: ValueView::Scalar(ScalarView::Single(Single { bits: 0 })) },
        MemberView { name: "MainBetY"@, value: ValueView::Scalar(ScalarView::Single(Single { bits: 0 })) },
        MemberView { name: "MainMoneyX"@, value: ValueView::Scalar(ScalarView::Single(Single { bits: 0 })) },
        MemberView { name: "MainMoneyY"@, value: ValueView::Scalar(ScalarView::Single(Single { bits: 0 })) },
        MemberView { name: "BestScoreHigh"@, value: ValueView::Scalar(ScalarView::Bool(false)) },
        MemberView { name: "PrizeScores"@, value: no_items(<PrizeScoreDef as DefField>::field(no_prize())) },
        MemberView { name: "Prize"@, value: ValueView::Scalar(ScalarView::DefIndex(0)) },
        MemberView { name: "PrizeRenown"@, value: ValueView::Scalar(ScalarView::I32(0)) },
        MemberView { name: "MainGameScoreBoxX"@, value: ValueView::Scalar(ScalarView::Single(Single { bits: 0 })) },
        MemberView { name: "MainGameScoreBoxY"@, value: ValueView::Scalar(ScalarView::Single(Single { bits: 0 })) },
        MemberView { name: "MainGameScoreBoxWidthXbox"@, value: ValueView::Scalar(ScalarView::Single(Single { bits: 0 })) },
        MemberView { name: "MainGameScoreBoxWidthPC"@, value: ValueView::Scalar(ScalarView::Single(Single { bits: 0 })) },
        MemberView { name: "MainGameScoreBoxHeight"@, value: ValueView::Scalar(ScalarView::Single(Single { bits: 0 })) },
    ]
}

fn add_tavern_fonts(v: &mut Vec<Member>)
    ensures
        base::views(final(v)@) == base::views(old(v)@) + tavern_fonts(),
{
    let ghost before = base::views(v@);
    let x0 = Member { name: "MainBetX".to_owned(), value: scalar(Scalar::Single(Single { bits: 0 })) };
    let x1 = Member { name: "MainBetY".to_owned(), value: scalar(Scalar::Single(Single { bits: 0 })) };
    let x2 = Member { name: "MainMoneyX".to_owned(), value: scalar(Scalar::Single(Single { bits: 0 })) };
    let x3 = Member { name: "MainMoneyY".to_owned(), value: scalar(Scalar::Single(Single { bits: 0 })) };
    let x4 = Member { name: "BestScoreHigh".to_owned(), value: scalar(Scalar::Bool(false)) };
    let x5 = Member { name: "PrizeScores".to_owned(), value: empty_list(PrizeScoreDef::def_default().to_value()) };
    let x6 = Member { name: "Prize".to_owned(), value: scalar(Scalar::DefIndex(0)) };
    let x7 = Member { name: "PrizeRenown".to_owned(), value: scalar(Scalar::I32(0)) };
    let x8 = Member { name: "MainGameScoreBoxX".to_owned(), value: scalar(Scalar::Single(Single { bits: 0 })) };
    let x9 = Member { name: "MainGameScoreBoxY".to_owned(), value: scalar(Scalar::Single(Single { bits: 0 })) };
    let x10 = Member { name: "MainGameScoreBoxWidthXbox".to_owned(), value: scalar(Scalar::Single(Single { bits: 0 })) };
    let x11 = Member { name: "MainGameScoreBoxWidthPC".to_owned(), value: scalar(Scalar::Single(Single { bits: 0 })) };
    let x12 = Member { name: "MainGameScoreBoxHeight".to_owned(), value: scalar(Scalar::Single(Single { bits: 0 })) };
    v.push(x0);
    v.push(x1);
    v.push(x2);
    v.push(x3);
    v.push(x4);
    v.push(x5);
    v.push(x6);
    v.push(x7);
    v.push(x8);
    v.push(x9);
    v.push(x10);
    v.push(x11);
    v.push(x12);
    assert(base::views(v@) =~= before + tavern_fonts());
}

/// Fields of a game of the tavern.
pub open spec fn tavern_places() -> Seq<MemberView> {
    seq![
        MemberView { name: "DisplayErrata"@, value: ValueView::Scalar(ScalarView::Bool(false)) },
        MemberView { name: "PointerPhaseSpeed"@, value: ValueView::Scalar(ScalarView::Single(Single { bits: 0 })) },
    ]
}

fn add_tavern_places(v: &mut Vec<Member>)
    ensures
        base::views(final(v)@) == base::views(old(v)@) + tavern_places(),
{
    let ghost before = base::views(v@);
    let x0 = Member { name: "DisplayErrata".to_owned(), value: scalar(Scalar::Bool(false)) };
    let x1 = Member { name: "PointerPhaseSpeed".to_owned(), value: scalar(Scalar::Single(Single { bits: 0 })) };
    v.push(x0);
    v.push(x1);
    assert(base::views(v@) =~= before + tavern_places());
}

/// All of the fields where nothing is set.
pub open spec fn tavern_defaults() -> Seq<MemberView> {
    tavern_phrases()
        + tavern_reactions()
        + tavern_turns()
        + tavern_rounds()
        + tavern_cards()
        + tavern_stakes()
        + tavern_fonts()
        + tavern_places()
}

impl TavernGameDef {
    /// The fields where nothing is set.
    pub fn def_default() -> (r: TavernGameDef)
        ensures
            r@ == tavern_defaults(),
    {
        let mut v: Vec<Member> = Vec::new();
        add_tavern_phrases(&mut v);
        add_tavern_reactions(&mut v);
        add_tavern_turns(&mut v);
        add_tavern_rounds(&mut v);
        add_tavern_cards(&mut v);
        add_tavern_stakes(&mut v);
        add_tavern_fonts(&mut v);
        add_tavern_places(&mut v);
        let r = TavernGameDef { fields: Record { fields: v } };
        assert(r@ =~= tavern_defaults());
        r
    }
}

impl DefStruct for TavernGameDef {
    open spec fn members(v: Seq<MemberView>) -> Seq<MemberView> {
        v
    }

    open spec fn read_members(m: Seq<MemberView>) -> Option<Seq<MemberView>> {
        Some(m)
    }

    proof fn record_reads_back(v: Seq<MemberView>) {
    }

    fn record(&self) -> (r: Record) {
        self.fields.clone()
    }

    fn from_record(r: &Record) -> (o: Option<Self>) {
        Some(TavernGameDef { fields: r.clone() })
    }
}

// ── Elements of the user interface ───────────────────────────────────────────

/// An element of the user interface.
#[derive(Debug)]
pub struct UiDef {
    pub fields: Record,
}

impl View for UiDef {
    type V = Seq<MemberView>;

    open spec fn view(&self) -> Seq<MemberView> {
        self.fields@
    }
}

/// The enumerations of an element, each at its value where nothing is set, and a
/// state.
#[derive(Debug)]
pub struct UiParts {
    pub type_: EnumField,
    pub mesh_type: EnumField,
    pub action: EnumField,
    pub alignement: EnumField,
    pub state: Value,
}

/// What an [`UiParts`] holds.
pub struct UiPartsView {
    pub type_: EnumFieldView,
    pub mesh_type: EnumFieldView,
    pub action: EnumFieldView,
    pub alignement: EnumFieldView,
    pub state: ValueView,
}

impl View for UiParts {
    type V = UiPartsView;

    open spec fn view(&self) -> UiPartsView {
        UiPartsView {
            type_: self.type_@,
            mesh_type: self.mesh_type@,
            action: self.action@,
            alignement: self.alignement@,
            state: self.state@,
        }
    }
}

/// Fields of an element of the user interface.
pub open spec fn ui_shape(p: UiPartsView) -> Seq<MemberView> {
    seq![
        MemberView { name: "Type"@, value: <EnumField as DefField>::field(p.type_) },
        MemberView { name: "Children"@, value: no_items(ValueView::Scalar(ScalarView::DefIndex(0))) },
        MemberView { name: "MeshIndex"@, value: ValueView::Scalar(ScalarView::U32(0)) },
        MemberView { name: "TextValue"@, value: ValueView::Scalar(ScalarView::WStr(Seq::empty())) },
        MemberView { name: "Font"@, value: ValueView::Scalar(ScalarView::DefString(-1i32)) },
        MemberView { name: "Height"@, value: ValueView::Scalar(ScalarView::Single(Single { bits: 0 })) },
        MemberView { name: "Width"@, value: ValueView::Scalar(ScalarView::Single(Single { bits: 0 })) },
        MemberView { name: "ExpansionType"@, value: ValueView::Scalar(ScalarView::Flags(1)) },
        MemberView { name: "Sprites"@, value: no_entries(ValueView::Scalar(ScalarView::I32(0)), ValueView::Scalar(ScalarView::DefIndex(0))) },
        MemberView { name: "HorizontalSeparations"@, value: no_items(ValueView::Scalar(ScalarView::U32(0))) },
        MemberView { name: "VerticalSeparations"@, value: no_items(ValueView::Scalar(ScalarView::U32(0))) },
        MemberView { name: "States"@, value: no_items(p.state) },
        MemberView { name: "TextLineBreak"@, value: ValueView::Scalar(ScalarView::Bool(true)) },
    ]
}

fn add_ui_shape(v: &mut Vec<Member>, p: &UiParts)
    ensures
        base::views(final(v)@) == base::views(old(v)@) + ui_shape(p@),
{
    let ghost before = base::views(v@);
    let x0 = Member { name: "Type".to_owned(), value: p.type_.to_value() };
    let x1 = Member { name: "Children".to_owned(), value: empty_list(scalar(Scalar::DefIndex(0))) };
    let x2 = Member { name: "MeshIndex".to_owned(), value: scalar(Scalar::U32(0)) };
    let x3 = Member { name: "TextValue".to_owned(), value: scalar(Scalar::WStr(String::new())) };
    let x4 = Member { name: "Font".to_owned(), value: scalar(Scalar::DefString(-1)) };
    let x5 = Member { name: "Height".to_owned(), value: scalar(Scalar::Single(Single { bits: 0 })) };
    let x6 = Member { name: "Width".to_owned(), value: scalar(Scalar::Single(Single { bits: 0 })) };
    let x7 = Member { name: "ExpansionType".to_owned(), value: scalar(Scalar::Flags(1)) };
    let x8 = Member { name: "Sprites".to_owned(), value: empty_map(scalar(Scalar::I32(0)), scalar(Scalar::DefIndex(0))) };
    let x9 = Member { name: "HorizontalSeparations".to_owned(), value: empty_list(scalar(Scalar::U32(0))) };
    let x10 = Member { name: "VerticalSeparations".to_owned(), value: empty_list(scalar(Scalar::U32(0))) };
    let x11 = Member { name: "States".to_owned(), value: empty_list(p.state.clone()) };
    let x12 = Member { name: "TextLineBreak".to_owned(), value: scalar(Scalar::Bool(true)) };
    v.push(x0);
    v.push(x1);
    v.push(x2);
    v.push(x3);
    v.push(x4);
    v.push(x5);
    v.push(x6);
    v.push(x7);
    v.push(x8);
    v.push(x9);
    v.push(x10);
    v.push(x11);
    v.push(x12);
    assert(base::views(v@) =~= before + ui_shape(p@));
}

/// Fields of an element of the user interface.
pub open spec fn ui_parts(p: UiPartsView) -> Seq<MemberView> {
    seq![
        MemberView { name: "ScaleText"@, value: ValueView::Scalar(ScalarView::Bool(true)) },
        MemberView { name: "Independant"@, value: ValueView::Scalar(ScalarView::Bool(false)) },
        MemberView { name: "MeshType"@, value: <EnumField as DefField>::field(p.mesh_type) },
        MemberView { name: "NonScrollingChildren"@, value: no_items(ValueView::Scalar(ScalarView::DefIndex(0))) },
        MemberView { name: "TextWindowTLX"@, value: ValueView::Scalar(ScalarView::Single(Single { bits: 0 })) },
        MemberView { name: "TextWindowTLY"@, value: ValueView::Scalar(ScalarView::Single(Single { bits: 0 })) },
        MemberView { name: "TextWindowBRX"@, value: ValueView::Scalar(ScalarView::Single(Single { bits: 0 })) },
        MemberView { name: "TextWindowBRY"@, value: ValueView::Scalar(ScalarView::Single(Single { bits: 0 })) },
        MemberView { name: "Layer"@, value: ValueView::Scalar(ScalarView::I32(0)) },
        MemberView { name: "Angle"@, value: ValueView::Scalar(ScalarView::Single(Single { bits: 0 })) },
        MemberView { name: "PositionIsCenter"@, value: ValueView::Scalar(ScalarView::Bool(false)) },
        MemberView { name: "ScrollingSpeed"@, value: ValueView::Scalar(ScalarView::Single(Single { bits: 0x3F80_0000 })) },
        MemberView { name: "Wrapping"@, value: ValueView::Scalar(ScalarView::Bool(true)) },
    ]
}

fn add_ui_parts(v: &mut Vec<Member>, p: &UiParts)
    ensures
        base::views(final(v)@) == base::views(old(v)@) + ui_parts(p@),
{
    let ghost before = base::views(v@);
    let x0 = Member { name: "ScaleText".to_owned(), value: scalar(Scalar::Bool(true)) };
    let x1 = Member { name: "Independant".to_owned(), value: scalar(Scalar::Bool(false)) };
    let x2 = Member { name: "MeshType".to_owned(), value: p.mesh_type.to_value() };
    let x3 = Member { name: "NonScrollingChildren".to_owned(), value: empty_list(scalar(Scalar::DefIndex(0))) };
    let x4 = Member { name: "TextWindowTLX".to_owned(), value: scalar(Scalar::Single(Single { bits: 0 })) };
    let x5 = Member { name: "TextWindowTLY".to_owned(), value: scalar(Scalar::Single(Single { bits: 0 })) };
    let x6 = Member { name: "TextWindowBRX".to_owned(), value: scalar(Scalar::Single(Single { bits: 0 })) };
    let x7 = Member { name: "TextWindowBRY".to_owned(), value: scalar(Scalar::Single(Single { bits: 0 })) };
    let x8 = Member { name: "Layer".to_owned(), value: scalar(Scalar::I32(0)) };
    let x9 = Member { name: "Angle".to_owned(), value: scalar(Scalar::Single(Single { bits: 0 })) };
    let x10 = Member { name: "PositionIsCenter".to_owned(), value: scalar(Scalar::Bool(false)) };
    let x11 = Member { name: "ScrollingSpeed".to_owned(), value: scalar(Scalar::Single(Single { bits: 0x3F80_0000 })) };
    let x12 = Member { name: "Wrapping".to_owned(), value: scalar(Scalar::Bool(true)) };
    v.push(x0);
    v.push(x1);
    v.push(x2);
    v.push(x3);
    v.push(x4);
    v.push(x5);
    v.push(x6);
    v.push(x7);
    v.push(x8);
    v.push(x9);
    v.push(x10);
    v.push(x11);
    v.push(x12);
    assert(base::views(v@) =~= before + ui_parts(p@));
}

/// Fields of an element of the user interface.
pub open spec fn ui_text() -> Seq<MemberView> {
    seq![
        MemberView { name: "Inverted"@, value: ValueView::Scalar(ScalarView::Bool(false)) },
        MemberView { name: "PositionOffsetX"@, value: ValueView::Scalar(ScalarView::Single(Single { bits: 0 })) },
        MemberView { name: "PositionOffsetY"@, value: ValueView::Scalar(ScalarView::Single(Single { bits: 0 })) },
        MemberView { name: "AlphaOffset"@, value: ValueView::Scalar(ScalarView::U32(0)) },
        MemberView { name: "UpX"@, value: ValueView::Scalar(ScalarView::Single(Single { bits: 0 })) },
        MemberView { name: "UpY"@, value: ValueView::Scalar(ScalarView::Single(Single { bits: 0 })) },
        MemberView { name: "UpZ"@, value: ValueView::Scalar(ScalarView::Single(Single { bits: 0x3F80_0000 })) },
        MemberView { name: "ForwardX"@, value: ValueView::Scalar(ScalarView::Single(Single { bits: 0 })) },
        MemberView { name: "ForwardY"@, value: ValueView::Scalar(ScalarView::Single(Single { bits: 0x3F80_0000 })) },
        MemberView { name: "ForwardZ"@, value: ValueView::Scalar(ScalarView::Single(Single { bits: 0 })) },
        MemberView { name: "RotationAxisX"@, value: ValueView::Scalar(ScalarView::Single(Single { bits: 0 })) },
        MemberView { name: "RotationAxisY"@, value: ValueView::Scalar(ScalarView::Single(Single { bits: 0x3F80_0000 })) },
        MemberView { name: "RotationAxisZ"@, value: ValueView::Scalar(ScalarView::Single(Single { bits: 0 })) },
    ]
}

fn add_ui_text(v: &mut Vec<Member>)
    ensures
        base::views(final(v)@) == base::views(old(v)@) + ui_text(),
{
    let ghost before = base::views(v@);
    let x0 = Member { name: "Inverted".to_owned(), value: scalar(Scalar::Bool(false)) };
    let x1 = Member { name: "PositionOffsetX".to_owned(), value: scalar(Scalar::Single(Single { bits: 0 })) };
    let x2 = Member { name: "PositionOffsetY".to_owned(), value: scalar(Scalar::Single(Single { bits: 0 })) };
    let x3 = Member { name: "AlphaOffset".to_owned(), value: scalar(Scalar::U32(0)) };
    let x4 = Member { name: "UpX".to_owned(), value: scalar(Scalar::Single(Single { bits: 0 })) };
    let x5 = Member { name: "UpY".to_owned(), value: scalar(Scalar::Single(Single { bits: 0 })) };
    let x6 = Member { name: "UpZ".to_owned(), value: scalar(Scalar::Single(Single { bits: 0x3F80_0000 })) };
    let x7 = Member { name: "ForwardX".to_owned(), value: scalar(Scalar::Single(Single { bits: 0 })) };
    let x8 = Member { name: "ForwardY".to_owned(), value: scalar(Scalar::Single(Single { bits: 0x3F80_0000 })) };
    let x9 = Member { name: "ForwardZ".to_owned(), value: scalar(Scalar::Single(Single { bits: 0 })) };
    let x10 = Member { name: "RotationAxisX".to_owned(), value: scalar(Scalar::Single(Single { bits: 0 })) };
    let x11 = Member { name: "RotationAxisY".to_owned(), value: scalar(Scalar::Single(Single { bits: 0x3F80_0000 })) };
    let x12 = Member { name: "RotationAxisZ".to_owned(), value: scalar(Scalar::Single(Single { bits: 0 })) };
    v.push(x0);
    v.push(x1);
    v.push(x2);
    v.push(x3);
    v.push(x4);
    v.push(x5);
    v.push(x6);
    v.push(x7);
    v.push(x8);
    v.push(x9);
    v.push(x10);
    v.push(x11);
    v.push(x12);
    assert(base::views(v@) =~= before + ui_text());
}

/// Fields of an element of the user interface.
pub open spec fn ui_window() -> Seq<MemberView> {
    seq![
        MemberView { name: "RotationSpeed"@, value: ValueView::Scalar(ScalarView::Single(Single { bits: 0 })) },
        MemberView { name: "AnimationIndex"@, value: ValueView::Scalar(ScalarView::U32(0)) },
        MemberView { name: "DownArrow"@, value: ValueView::Scalar(ScalarView::DefIndex(0)) },
        MemberView { name: "UpArrow"@, value: ValueView::Scalar(ScalarView::DefIndex(0)) },
        MemberView { name: "UpLimit"@, value: ValueView::Scalar(ScalarView::I32(0)) },
        MemberView { name: "DownLimit"@, value: ValueView::Scalar(ScalarView::I32(0)) },
        MemberView { name: "Scrolling"@, value: ValueView::Scalar(ScalarView::Bool(true)) },
        MemberView { name: "ComputeOffsetsOnActivate"@, value: ValueView::Scalar(ScalarView::Bool(false)) },
        MemberView { name: "MinX"@, value: ValueView::Scalar(ScalarView::Single(Single { bits: 0 })) },
        MemberView { name: "MinY"@, value: ValueView::Scalar(ScalarView::Single(Single { bits: 0 })) },
        MemberView { name: "MaxX"@, value: ValueView::Scalar(ScalarView::Single(Single { bits: 0 })) },
        MemberView { name: "MaxY"@, value: ValueView::Scalar(ScalarView::Single(Single { bits: 0 })) },
        MemberView { name: "StepX"@, value: ValueView::Scalar(ScalarView::Single(Single { bits: 0 })) },
    ]
}

fn add_ui_window(v: &mut Vec<Member>)
    ensures
        base::views(final(v)@) == base::views(old(v)@) + ui_window(),
{
    let ghost before = base::views(v@);
    let x0 = Member { name: "RotationSpeed".to_owned(), value: scalar(Scalar::Single(Single { bits: 0 })) };
    let x1 = Member { name: "AnimationIndex".to_owned(), value: scalar(Scalar::U32(0)) };
    let x2 = Member { name: "DownArrow".to_owned(), value: scalar(Scalar::DefIndex(0)) };
    let x3 = Member { name: "UpArrow".to_owned(), value: scalar(Scalar::DefIndex(0)) };
    let x4 = Member { name: "UpLimit".to_owned(), value: scalar(Scalar::I32(0)) };
    let x5 = Member { name: "DownLimit".to_owned(), value: scalar(Scalar::I32(0)) };
    let x6 = Member { name: "Scrolling".to_owned(), value: scalar(Scalar::Bool(true)) };
    let x7 = Member { name: "ComputeOffsetsOnActivate".to_owned(), value: scalar(Scalar::Bool(false)) };
    let x8 = Member { name: "MinX".to_owned(), value: scalar(Scalar::Single(Single { bits: 0 })) };
    let x9 = Member { name: "MinY".to_owned(), value: scalar(Scalar::Single(Single { bits: 0 })) };
    let x10 = Member { name: "MaxX".to_owned(), value: scalar(Scalar::Single(Single { bits: 0 })) };
    let x11 = Member { name: "MaxY".to_owned(), value: scalar(Scalar::Single(Single { bits: 0 })) };
    let x12 = Member { name: "StepX".to_owned(), value: scalar(Scalar::Single(Single { bits: 0 })) };
    v.push(x0);
    v.push(x1);
    v.push(x2);
    v.push(x3);
    v.push(x4);
    v.push(x5);
    v.push(x6);
    v.push(x7);
    v.push(x8);
    v.push(x9);
    v.push(x10);
    v.push(x11);
    v.push(x12);
    assert(base::views(v@) =~= before + ui_window());
}

/// Fields of an element of the user interface.
pub open spec fn ui_space(p: UiPartsView) -> Seq<MemberView> {
    seq![
        MemberView { name: "StepY"@, value: ValueView::Scalar(ScalarView::Single(Single { bits: 0 })) },
        MemberView { name: "DimensionsX"@, value: ValueView::Scalar(ScalarView::Single(Single { bits: 0 })) },
        MemberView { name: "DimensionsY"@, value: ValueView::Scalar(ScalarView::Single(Single { bits: 0 })) },
        MemberView { name: "SliderLeft"@, value: ValueView::Scalar(ScalarView::DefIndex(0)) },
        MemberView { name: "SliderRight"@, value: ValueView::Scalar(ScalarView::DefIndex(0)) },
        MemberView { name: "Action"@, value: <EnumField as DefField>::field(p.action) },
        MemberView { name: "ActionOnBack"@, value: <EnumField as DefField>::field(p.action) },
        MemberView { name: "ActionOnSelected"@, value: <EnumField as DefField>::field(p.action) },
        MemberView { name: "ActionOnUnselected"@, value: <EnumField as DefField>::field(p.action) },
        MemberView { name: "ActionOnDestruction"@, value: <EnumField as DefField>::field(p.action) },
        MemberView { name: "ActionOnLeftClicked"@, value: <EnumField as DefField>::field(p.action) },
        MemberView { name: "ActionOnLeftUnclicked"@, value: <EnumField as DefField>::field(p.action) },
        MemberView { name: "ActionOnLeftHeld"@, value: <EnumField as DefField>::field(p.action) },
    ]
}

fn add_ui_space(v: &mut Vec<Member>, p: &UiParts)
    ensures
        base::views(final(v)@) == base::views(old(v)@) + ui_space(p@),
{
    let ghost before = base::views(v@);
    let x0 = Member { name: "StepY".to_owned(), value: scalar(Scalar::Single(Single { bits: 0 })) };
    let x1 = Member { name: "DimensionsX".to_owned(), value: scalar(Scalar::Single(Single { bits: 0 })) };
    let x2 = Member { name: "DimensionsY".to_owned(), value: scalar(Scalar::Single(Single { bits: 0 })) };
    let x3 = Member { name: "SliderLeft".to_owned(), value: scalar(Scalar::DefIndex(0)) };
    let x4 = Member { name: "SliderRight".to_owned(), value: scalar(Scalar::DefIndex(0)) };
    let x5 = Member { name: "Action".to_owned(), value: p.action.to_value() };
    let x6 = Member { name: "ActionOnBack".to_owned(), value: p.action.to_value() };
    let x7 = Member { name: "ActionOnSelected".to_owned(), value: p.action.to_value() };
    let x8 = Member { name: "ActionOnUnselected".to_owned(), value: p.action.to_value() };
    let x9 = Member { name: "ActionOnDestruction".to_owned(), value: p.action.to_value() };
    let x10 = Member { name: "ActionOnLeftClicked".to_owned(), value: p.action.to_value() };
    let x11 = Member { name: "ActionOnLeftUnclicked".to_owned(), value: p.action.to_value() };
    let x12 = Member { name: "ActionOnLeftHeld".to_owned(), value: p.action.to_value() };
    v.push(x0);
    v.push(x1);
    v.push(x2);
    v.push(x3);
    v.push(x4);
    v.push(x5);
    v.push(x6);
    v.push(x7);
    v.push(x8);
    v.push(x9);
    v.push(x10);
    v.push(x11);
    v.push(x12);
    assert(base::views(v@) =~= before + ui_space(p@));
}

/// Fields of an element of the user interface.
pub open spec fn ui_axes(p: UiPartsView) -> Seq<MemberView> {
    seq![
        MemberView { name: "ActionOnRightClicked"@, value: <EnumField as DefField>::field(p.action) },
        MemberView { name: "ActionOnDropped"@, value: <EnumField as DefField>::field(p.action) },
        MemberView { name: "ActionOnDroppedNowhere"@, value: <EnumField as DefField>::field(p.action) },
        MemberView { name: "PreAction"@, value: <EnumField as DefField>::field(p.action) },
        MemberView { name: "ActionOnDraggedUp"@, value: <EnumField as DefField>::field(p.action) },
        MemberView { name: "ActionOnDraggedDown"@, value: <EnumField as DefField>::field(p.action) },
        MemberView { name: "ActionOnLeftClickedAbove"@, value: <EnumField as DefField>::field(p.action) },
        MemberView { name: "ActionOnLeftClickedUnder"@, value: <EnumField as DefField>::field(p.action) },
        MemberView { name: "InputDelay"@, value: ValueView::Scalar(ScalarView::Single(Single { bits: 0x3E4C_CCCD })) },
        MemberView { name: "DrawFromViewport"@, value: ValueView::Scalar(ScalarView::Bool(false)) },
        MemberView { name: "TextBankIndex"@, value: ValueView::Scalar(ScalarView::U32(0)) },
        MemberView { name: "ActionText"@, value: ValueView::Scalar(ScalarView::DefIndex(0)) },
        MemberView { name: "KeyText"@, value: ValueView::Scalar(ScalarView::DefIndex(0)) },
    ]
}

fn add_ui_axes(v: &mut Vec<Member>, p: &UiParts)
    ensures
        base::views(final(v)@) == base::views(old(v)@) + ui_axes(p@),
{
    let ghost before = base::views(v@);
    let x0 = Member { name: "ActionOnRightClicked".to_owned(), value: p.action.to_value() };
    let x1 = Member { name: "ActionOnDropped".to_owned(), value: p.action.to_value() };
    let x2 = Member { name: "ActionOnDroppedNowhere".to_owned(), value: p.action.to_value() };
    let x3 = Member { name: "PreAction".to_owned(), value: p.action.to_value() };
    let x4 = Member { name: "ActionOnDraggedUp".to_owned(), value: p.action.to_value() };
    let x5 = Member { name: "ActionOnDraggedDown".to_owned(), value: p.action.to_value() };
    let x6 = Member { name: "ActionOnLeftClickedAbove".to_owned(), value: p.action.to_value() };
    let x7 = Member { name: "ActionOnLeftClickedUnder".to_owned(), value: p.action.to_value() };
    let x8 = Member { name: "InputDelay".to_owned(), value: scalar(Scalar::Single(Single { bits: 0x3E4C_CCCD })) };
    let x9 = Member { name: "DrawFromViewport".to_owned(), value: scalar(Scalar::Bool(false)) };
    let x10 = Member { name: "TextBankIndex".to_owned(), value: scalar(Scalar::U32(0)) };
    let x11 = Member { name: "ActionText".to_owned(), value: scalar(Scalar::DefIndex(0)) };
    let x12 = Member { name: "KeyText".to_owned(), value: scalar(Scalar::DefIndex(0)) };
    v.push(x0);
    v.push(x1);
    v.push(x2);
    v.push(x3);
    v.push(x4);
    v.push(x5);
    v.push(x6);
    v.push(x7);
    v.push(x8);
    v.push(x9);
    v.push(x10);
    v.push(x11);
    v.push(x12);
    assert(base::views(v@) =~= before + ui_axes(p@));
}

/// Fields of an element of the user interface.
pub open spec fn ui_arrows() -> Seq<MemberView> {
    seq![
        MemberView { name: "Redefiner"@, value: ValueView::Scalar(ScalarView::DefIndex(0)) },
        MemberView { name: "UndefinedWarning"@, value: ValueView::Scalar(ScalarView::DefIndex(0)) },
        MemberView { name: "ActionMap"@, value: no_entries(ValueView::Scalar(ScalarView::U32(0)), ValueView::Scalar(ScalarView::Str(Seq::empty()))) },
        MemberView { name: "ActionMapAliases"@, value: no_entries(ValueView::Scalar(ScalarView::U32(0)), ValueView::Scalar(ScalarView::U32(0))) },
        MemberView { name: "ActionOrder"@, value: no_items(ValueView::Scalar(ScalarView::U32(0))) },
        MemberView { name: "EditBoxParentIsButton"@, value: ValueView::Scalar(ScalarView::Bool(false)) },
        MemberView { name: "PasswordBox"@, value: ValueView::Scalar(ScalarView::Bool(false)) },
        MemberView { name: "EditBoxCharLimit"@, value: ValueView::Scalar(ScalarView::I32(0)) },
        MemberView { name: "EditBoxUsesIME"@, value: ValueView::Scalar(ScalarView::Bool(false)) },
        MemberView { name: "MovieFilename"@, value: ValueView::Scalar(ScalarView::WStr(Seq::empty())) },
        MemberView { name: "DisallowSpaceAsFirstChar"@, value: ValueView::Scalar(ScalarView::Bool(false)) },
        MemberView { name: "LayerIndependant"@, value: ValueView::Scalar(ScalarView::Bool(false)) },
        MemberView { name: "SwappingStates"@, value: no_items(ValueView::Scalar(ScalarView::U32(0))) },
    ]
}

fn add_ui_arrows(v: &mut Vec<Member>)
    ensures
        base::views(final(v)@) == base::views(old(v)@) + ui_arrows(),
{
    let ghost before = base::views(v@);
    let x0 = Member { name: "Redefiner".to_owned(), value: scalar(Scalar::DefIndex(0)) };
    let x1 = Member { name: "UndefinedWarning".to_owned(), value: scalar(Scalar::DefIndex(0)) };
    let x2 = Member { name: "ActionMap".to_owned(), value: empty_map(scalar(Scalar::U32(0)), scalar(Scalar::Str(String::new()))) };
    let x3 = Member { name: "ActionMapAliases".to_owned(), value: empty_map(scalar(Scalar::U32(0)), scalar(Scalar::U32(0))) };
    let x4 = Member { name: "ActionOrder".to_owned(), value: empty_list(scalar(Scalar::U32(0))) };
    let x5 = Member { name: "EditBoxParentIsButton".to_owned(), value: scalar(Scalar::Bool(false)) };
    let x6 = Member { name: "PasswordBox".to_owned(), value: scalar(Scalar::Bool(false)) };
    let x7 = Member { name: "EditBoxCharLimit".to_owned(), value: scalar(Scalar::I32(0)) };
    let x8 = Member { name: "EditBoxUsesIME".to_owned(), value: scalar(Scalar::Bool(false)) };
    let x9 = Member { name: "MovieFilename".to_owned(), value: scalar(Scalar::WStr(String::new())) };
    let x10 = Member { name: "DisallowSpaceAsFirstChar".to_owned(), value: scalar(Scalar::Bool(false)) };
    let x11 = Member { name: "LayerIndependant".to_owned(), value: scalar(Scalar::Bool(false)) };
    let x12 = Member { name: "SwappingStates".to_owned(), value: empty_list(scalar(Scalar::U32(0))) };
    v.push(x0);
    v.push(x1);
    v.push(x2);
    v.push(x3);
    v.push(x4);
    v.push(x5);
    v.push(x6);
    v.push(x7);
    v.push(x8);
    v.push(x9);
    v.push(x10);
    v.push(x11);
    v.push(x12);
    assert(base::views(v@) =~= before + ui_arrows());
}

/// Fields of an element of the user interface.
pub open spec fn ui_steps(p: UiPartsView) -> Seq<MemberView> {
    seq![
        MemberView { name: "SwappingTimes"@, value: no_items(ValueView::Scalar(ScalarView::Single(Single { bits: 0 }))) },
        MemberView { name: "BastardChild"@, value: ValueView::Scalar(ScalarView::Bool(false)) },
        MemberView { name: "Alignement"@, value: <EnumField as DefField>::field(p.alignement) },
        MemberView { name: "RandomSwap"@, value: ValueView::Scalar(ScalarView::Bool(false)) },
        MemberView { name: "UseRelativeZoom"@, value: ValueView::Scalar(ScalarView::Bool(false)) },
        MemberView { name: "UseRelativePosition"@, value: ValueView::Scalar(ScalarView::Bool(false)) },
        MemberView { name: "HoveredState"@, value: ValueView::Scalar(ScalarView::I32(3)) },
        MemberView { name: "LeftClickedState"@, value: ValueView::Scalar(ScalarView::I32(3)) },
        MemberView { name: "RightClickedState"@, value: ValueView::Scalar(ScalarView::I32(3)) },
        MemberView { name: "ShapeChildren"@, value: no_items(ValueView::Scalar(ScalarView::DefIndex(0))) },
        MemberView { name: "ViewAreaTLX"@, value: ValueView::Scalar(ScalarView::I32(0)) },
        MemberView { name: "ViewAreaTLY"@, value: ValueView::Scalar(ScalarView::I32(0)) },
        MemberView { name: "ViewAreaBRX"@, value: ValueView::Scalar(ScalarView::I32(640)) },
    ]
}

fn add_ui_steps(v: &mut Vec<Member>, p: &UiParts)
    ensures
        base::views(final(v)@) == base::views(old(v)@) + ui_steps(p@),
{
    let ghost before = base::views(v@);
    let x0 = Member { name: "SwappingTimes".to_owned(), value: empty_list(scalar(Scalar::Single(Single { bits: 0 }))) };
    let x1 = Member { name: "BastardChild".to_owned(), value: scalar(Scalar::Bool(false)) };
    let x2 = Member { name: "Alignement".to_owned(), value: p.alignement.to_value() };
    let x3 = Member { name: "RandomSwap".to_owned(), value: scalar(Scalar::Bool(false)) };
    let x4 = Member { name: "UseRelativeZoom".to_owned(), value: scalar(Scalar::Bool(false)) };
    let x5 = Member { name: "UseRelativePosition".to_owned(), value: scalar(Scalar::Bool(false)) };
    let x6 = Member { name: "HoveredState".to_owned(), value: scalar(Scalar::I32(3)) };
    let x7 = Member { name: "LeftClickedState".to_owned(), value: scalar(Scalar::I32(3)) };
    let x8 = Member { name: "RightClickedState".to_owned(), value: scalar(Scalar::I32(3)) };
    let x9 = Member { name: "ShapeChildren".to_owned(), value: empty_list(scalar(Scalar::DefIndex(0))) };
    let x10 = Member { name: "ViewAreaTLX".to_owned(), value: scalar(Scalar::I32(0)) };
    let x11 = Member { name: "ViewAreaTLY".to_owned(), value: scalar(Scalar::I32(0)) };
    let x12 = Member { name: "ViewAreaBRX".to_owned(), value: scalar(Scalar::I32(640)) };
    v.push(x0);
    v.push(x1);
    v.push(x2);
    v.push(x3);
    v.push(x4);
    v.push(x5);
    v.push(x6);
    v.push(x7);
    v.push(x8);
    v.push(x9);
    v.push(x10);
    v.push(x11);
    v.push(x12);
    assert(base::views(v@) =~= before + ui_steps(p@));
}

/// Fields of an element of the user interface.
pub open spec fn ui_actions() -> Seq<MemberView> {
    seq![
        MemberView { name: "ViewAreaBRY"@, value: ValueView::Scalar(ScalarView::I32(480)) },
        MemberView { name: "UseViewArea"@, value: ValueView::Scalar(ScalarView::Bool(false)) },
        MemberView { name: "PartOfListTree"@, value: ValueView::Scalar(ScalarView::Bool(true)) },
        MemberView { name: "PCStyle"@, value: ValueView::Scalar(ScalarView::Bool(false)) },
        MemberView { name: "Sprite2DFlag"@, value: ValueView::Scalar(ScalarView::Flags(2)) },
    ]
}

fn add_ui_actions(v: &mut Vec<Member>)
    ensures
        base::views(final(v)@) == base::views(old(v)@) + ui_actions(),
{
    let ghost before = base::views(v@);
    let x0 = Member { name: "ViewAreaBRY".to_owned(), value: scalar(Scalar::I32(480)) };
    let x1 = Member { name: "UseViewArea".to_owned(), value: scalar(Scalar::Bool(false)) };
    let x2 = Member { name: "PartOfListTree".to_owned(), value: scalar(Scalar::Bool(true)) };
    let x3 = Member { name: "PCStyle".to_owned(), value: scalar(Scalar::Bool(false)) };
    let x4 = Member { name: "Sprite2DFlag".to_owned(), value: scalar(Scalar::Flags(2)) };
    v.push(x0);
    v.push(x1);
    v.push(x2);
    v.push(x3);
    v.push(x4);
    assert(base::views(v@) =~= before + ui_actions());
}

/// All of the fields where nothing is set.
pub open spec fn ui_defaults(p: UiPartsView) -> Seq<MemberView> {
    ui_shape(p)
        + ui_parts(p)
        + ui_text()
        + ui_window()
        + ui_space(p)
        + ui_axes(p)
        + ui_arrows()
        + ui_steps(p)
        + ui_actions()
}

impl UiDef {
    /// The fields where nothing is set.
    pub fn def_default(p: &UiParts) -> (r: UiDef)
        ensures
            r@ == ui_defaults(p@),
    {
        let mut v: Vec<Member> = Vec::new();
        add_ui_shape(&mut v, p);
        add_ui_parts(&mut v, p);
        add_ui_text(&mut v);
        add_ui_window(&mut v);
        add_ui_space(&mut v, p);
        add_ui_axes(&mut v, p);
        add_ui_arrows(&mut v);
        add_ui_steps(&mut v, p);
        add_ui_actions(&mut v);
        let r = UiDef { fields: Record { fields: v } };
        assert(r@ =~= ui_defaults(p@));
        r
    }
}

impl DefStruct for UiDef {
    open spec fn members(v: Seq<MemberView>) -> Seq<MemberView> {
        v
    }

    open spec fn read_members(m: Seq<MemberView>) -> Option<Seq<MemberView>> {
        Some(m)
    }

    proof fn record_reads_back(v: Seq<MemberView>) {
    }

    fn record(&self) -> (r: Record) {
        self.fields.clone()
    }

    fn from_record(r: &Record) -> (o: Option<Self>) {
        Some(UiDef { fields: r.clone() })
    }
}

} // verus!
