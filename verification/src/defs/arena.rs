//! The arena and its prizes.

use vstd::prelude::*;

use crate::defs::field::{DefField, DefString, EnumField, EnumFieldView, Listed, ListedView};
use crate::defs::record;
use crate::defs::record::{new_member, DefStruct};
use crate::lower::mesh::DefIndex;
use crate::single::Single;
use crate::text::base;
use crate::value;
use crate::value::{copy_members, Compound, Member, MemberView, Record, StructView, Value, ValueView};

verus! {

broadcast use base::group_views;

/// A kind of creature in a wave of the arena.
#[derive(Debug)]
pub struct ArenaCreatureDef {
    pub creature_type: String,
    pub num_creatures: i32,
    pub hud_type: String,
    pub death_score: i32,
}

/// What an [`ArenaCreatureDef`] holds.
pub struct ArenaCreatureView {
    pub creature_type: Seq<char>,
    pub num_creatures: i32,
    pub hud_type: Seq<char>,
    pub death_score: i32,
}

impl View for ArenaCreatureDef {
    type V = ArenaCreatureView;

    open spec fn view(&self) -> ArenaCreatureView {
        ArenaCreatureView {
            creature_type: self.creature_type@,
            num_creatures: self.num_creatures@,
            hud_type: self.hud_type@,
            death_score: self.death_score@,
        }
    }
}

impl ArenaCreatureView {
    /// The fields where nothing is set.
    pub open spec fn unset() -> ArenaCreatureView {
        ArenaCreatureView {
            creature_type: Seq::empty(),
            num_creatures: 0,
            hud_type: Seq::empty(),
            death_score: 0,
        }
    }
}

impl ArenaCreatureDef {
    /// The fields where nothing is set.
    pub fn def_default() -> (r: ArenaCreatureDef)
        ensures
            r@ == (ArenaCreatureView {
                creature_type: Seq::empty(),
                num_creatures: 0,
                hud_type: Seq::empty(),
                death_score: 0,
            }),
    {
        ArenaCreatureDef {
            creature_type: String::new(),
            num_creatures: 0,
            hud_type: String::new(),
            death_score: 0,
        }
    }
}

impl DefStruct for ArenaCreatureDef {
    open spec fn members(v: ArenaCreatureView) -> Seq<MemberView> {
        seq![
            record::member_view::<String>("CreatureType"@, v.creature_type),
            record::member_view::<i32>("NumCreatures"@, v.num_creatures),
            record::member_view::<String>("HUDType"@, v.hud_type),
            record::member_view::<i32>("DeathScore"@, v.death_score),
        ]
    }

    open spec fn read_members(m: Seq<MemberView>) -> Option<ArenaCreatureView> {
        if m.len() != 4 {
            None
        } else {
            match (
                <String as DefField>::read(m[0].value),
                <i32 as DefField>::read(m[1].value),
                <String as DefField>::read(m[2].value),
                <i32 as DefField>::read(m[3].value),
            ) {
                (
                    Some(creature_type),
                    Some(num_creatures),
                    Some(hud_type),
                    Some(death_score),
                ) => Some(
                    ArenaCreatureView {
                        creature_type,
                        num_creatures,
                        hud_type,
                        death_score,
                    },
                ),
                _ => None,
            }
        }
    }

    proof fn record_reads_back(v: ArenaCreatureView) {
        <String as DefField>::reads_back(v.creature_type);
        <i32 as DefField>::reads_back(v.num_creatures);
        <String as DefField>::reads_back(v.hud_type);
        <i32 as DefField>::reads_back(v.death_score);
    }

    fn record(&self) -> (r: Record) {
        let mut fields: Vec<Member> = Vec::new();
        let x0 = new_member("CreatureType", &self.creature_type);
        let x1 = new_member("NumCreatures", &self.num_creatures);
        let x2 = new_member("HUDType", &self.hud_type);
        let x3 = new_member("DeathScore", &self.death_score);
        fields.push(x0);
        fields.push(x1);
        fields.push(x2);
        fields.push(x3);
        let r = Record { fields };
        assert(r@ =~= ArenaCreatureDef::members(self@));
        r
    }

    fn from_record(r: &Record) -> (o: Option<Self>) {
        let m = &r.fields;
        if m.len() != 4 {
            return None;
        }
        proof {
            assert(r@[0] == m@[0]@);
            assert(r@[1] == m@[1]@);
            assert(r@[2] == m@[2]@);
            assert(r@[3] == m@[3]@);
        }
        match (
            <String as DefField>::from_value(&m[0].value),
            <i32 as DefField>::from_value(&m[1].value),
            <String as DefField>::from_value(&m[2].value),
            <i32 as DefField>::from_value(&m[3].value),
        ) {
            (
                Some(creature_type),
                Some(num_creatures),
                Some(hud_type),
                Some(death_score),
            ) => Some(
                ArenaCreatureDef {
                    creature_type,
                    num_creatures,
                    hud_type,
                    death_score,
                },
            ),
            _ => None,
        }
    }
}

impl DefField for ArenaCreatureDef {
    open spec fn field(v: ArenaCreatureView) -> ValueView {
        ValueView::Struct(
            StructView { class: "ArenaCreatureDef"@, named: true, members: ArenaCreatureDef::members(v) },
        )
    }

    open spec fn read(x: ValueView) -> Option<ArenaCreatureView> {
        match x {
            ValueView::Struct(s) => ArenaCreatureDef::read_members(s.members),
            _ => None,
        }
    }

    proof fn reads_back(v: ArenaCreatureView) {
        ArenaCreatureDef::record_reads_back(v);
    }

    fn to_value(&self) -> (r: Value) {
        let r = Value::Struct(
            Compound { class: "ArenaCreatureDef".to_owned(), named: true, members: self.record().fields },
        );
        proof {
            value::lemma_value_view(r);
        }
        r
    }

    fn from_value(x: &Value) -> (r: Option<Self>) {
        proof {
            value::lemma_value_view(*x);
        }
        match x {
            Value::Struct(s) => {
                let record = Record { fields: copy_members(&s.members) };
                ArenaCreatureDef::from_record(&record)
            },
            _ => None,
        }
    }
}

/// A wave of the arena.
#[derive(Debug)]
pub struct ArenaWaveDef {
    pub num_wave_creatures: i32,
    pub creatures: Listed<ArenaCreatureDef>,
    pub short_wave: bool,
}

/// What an [`ArenaWaveDef`] holds.
pub struct ArenaWaveView {
    pub num_wave_creatures: i32,
    pub creatures: ListedView<ArenaCreatureView>,
    pub short_wave: bool,
}

impl View for ArenaWaveDef {
    type V = ArenaWaveView;

    open spec fn view(&self) -> ArenaWaveView {
        ArenaWaveView {
            num_wave_creatures: self.num_wave_creatures@,
            creatures: self.creatures@,
            short_wave: self.short_wave@,
        }
    }
}

impl ArenaWaveDef {
    /// The fields where nothing is set.
    pub fn def_default() -> (r: ArenaWaveDef)
        ensures
            r@ == (ArenaWaveView {
                num_wave_creatures: 0,
                creatures: ListedView { element: ArenaCreatureView::unset(), items: Seq::empty() },
                short_wave: false,
            }),
    {
        ArenaWaveDef {
            num_wave_creatures: 0,
            creatures: Listed { element: ArenaCreatureDef::def_default(), items: Vec::new() },
            short_wave: false,
        }
    }
}

impl DefStruct for ArenaWaveDef {
    open spec fn members(v: ArenaWaveView) -> Seq<MemberView> {
        seq![
            record::member_view::<i32>("NumWaveCreatures"@, v.num_wave_creatures),
            record::member_view::<Listed<ArenaCreatureDef>>("Creatures"@, v.creatures),
            record::member_view::<bool>("ShortWave"@, v.short_wave),
        ]
    }

    open spec fn read_members(m: Seq<MemberView>) -> Option<ArenaWaveView> {
        if m.len() != 3 {
            None
        } else {
            match (
                <i32 as DefField>::read(m[0].value),
                <Listed<ArenaCreatureDef> as DefField>::read(m[1].value),
                <bool as DefField>::read(m[2].value),
            ) {
                (
                    Some(num_wave_creatures),
                    Some(creatures),
                    Some(short_wave),
                ) => Some(
                    ArenaWaveView {
                        num_wave_creatures,
                        creatures,
                        short_wave,
                    },
                ),
                _ => None,
            }
        }
    }

    proof fn record_reads_back(v: ArenaWaveView) {
        <i32 as DefField>::reads_back(v.num_wave_creatures);
        <Listed<ArenaCreatureDef> as DefField>::reads_back(v.creatures);
        <bool as DefField>::reads_back(v.short_wave);
    }

    fn record(&self) -> (r: Record) {
        let mut fields: Vec<Member> = Vec::new();
        let x0 = new_member("NumWaveCreatures", &self.num_wave_creatures);
        let x1 = new_member("Creatures", &self.creatures);
        let x2 = new_member("ShortWave", &self.short_wave);
        fields.push(x0);
        fields.push(x1);
        fields.push(x2);
        let r = Record { fields };
        assert(r@ =~= ArenaWaveDef::members(self@));
        r
    }

    fn from_record(r: &Record) -> (o: Option<Self>) {
        let m = &r.fields;
        if m.len() != 3 {
            return None;
        }
        proof {
            assert(r@[0] == m@[0]@);
            assert(r@[1] == m@[1]@);
            assert(r@[2] == m@[2]@);
        }
        match (
            <i32 as DefField>::from_value(&m[0].value),
            <Listed<ArenaCreatureDef> as DefField>::from_value(&m[1].value),
            <bool as DefField>::from_value(&m[2].value),
        ) {
            (
                Some(num_wave_creatures),
                Some(creatures),
                Some(short_wave),
            ) => Some(
                ArenaWaveDef {
                    num_wave_creatures,
                    creatures,
                    short_wave,
                },
            ),
            _ => None,
        }
    }
}

/// A score that wins a prize.
#[derive(Debug)]
pub struct PrizeScoreDef {
    pub score: Single,
    pub mult: DefIndex,
}

/// What a [`PrizeScoreDef`] holds.
pub struct PrizeScoreView {
    pub score: Single,
    pub mult: DefIndex,
}

impl View for PrizeScoreDef {
    type V = PrizeScoreView;

    open spec fn view(&self) -> PrizeScoreView {
        PrizeScoreView {
            score: self.score@,
            mult: self.mult@,
        }
    }
}

impl PrizeScoreDef {
    /// The fields where nothing is set.
    pub fn def_default() -> (r: PrizeScoreDef)
        ensures
            r@ == (PrizeScoreView {
                score: Single { bits: 0 },
                mult: DefIndex(0),
            }),
    {
        PrizeScoreDef {
            score: Single { bits: 0 },
            mult: DefIndex(0),
        }
    }
}

impl DefStruct for PrizeScoreDef {
    open spec fn members(v: PrizeScoreView) -> Seq<MemberView> {
        seq![
            record::member_view::<Single>("Score"@, v.score),
            record::member_view::<DefIndex>("Mult"@, v.mult),
        ]
    }

    open spec fn read_members(m: Seq<MemberView>) -> Option<PrizeScoreView> {
        if m.len() != 2 {
            None
        } else {
            match (
                <Single as DefField>::read(m[0].value),
                <DefIndex as DefField>::read(m[1].value),
            ) {
                (
                    Some(score),
                    Some(mult),
                ) => Some(
                    PrizeScoreView {
                        score,
                        mult,
                    },
                ),
                _ => None,
            }
        }
    }

    proof fn record_reads_back(v: PrizeScoreView) {
        <Single as DefField>::reads_back(v.score);
        <DefIndex as DefField>::reads_back(v.mult);
    }

    fn record(&self) -> (r: Record) {
        let mut fields: Vec<Member> = Vec::new();
        let x0 = new_member("Score", &self.score);
        let x1 = new_member("Mult", &self.mult);
        fields.push(x0);
        fields.push(x1);
        let r = Record { fields };
        assert(r@ =~= PrizeScoreDef::members(self@));
        r
    }

    fn from_record(r: &Record) -> (o: Option<Self>) {
        let m = &r.fields;
        if m.len() != 2 {
            return None;
        }
        proof {
            assert(r@[0] == m@[0]@);
            assert(r@[1] == m@[1]@);
        }
        match (
            <Single as DefField>::from_value(&m[0].value),
            <DefIndex as DefField>::from_value(&m[1].value),
        ) {
            (
                Some(score),
                Some(mult),
            ) => Some(
                PrizeScoreDef {
                    score,
                    mult,
                },
            ),
            _ => None,
        }
    }
}

impl DefField for PrizeScoreDef {
    open spec fn field(v: PrizeScoreView) -> ValueView {
        ValueView::Struct(
            StructView { class: "PrizeScoreDef"@, named: true, members: PrizeScoreDef::members(v) },
        )
    }

    open spec fn read(x: ValueView) -> Option<PrizeScoreView> {
        match x {
            ValueView::Struct(s) => PrizeScoreDef::read_members(s.members),
            _ => None,
        }
    }

    proof fn reads_back(v: PrizeScoreView) {
        PrizeScoreDef::record_reads_back(v);
    }

    fn to_value(&self) -> (r: Value) {
        let r = Value::Struct(
            Compound { class: "PrizeScoreDef".to_owned(), named: true, members: self.record().fields },
        );
        proof {
            value::lemma_value_view(r);
        }
        r
    }

    fn from_value(x: &Value) -> (r: Option<Self>) {
        proof {
            value::lemma_value_view(*x);
        }
        match x {
            Value::Struct(s) => {
                let record = Record { fields: copy_members(&s.members) };
                PrizeScoreDef::from_record(&record)
            },
            _ => None,
        }
    }
}

/// A card of a game.
#[derive(Debug)]
pub struct CardDef {
    pub card_name: DefIndex,
    pub card_val: DefIndex,
}

/// What a [`CardDef`] holds.
pub struct CardView {
    pub card_name: DefIndex,
    pub card_val: DefIndex,
}

impl View for CardDef {
    type V = CardView;

    open spec fn view(&self) -> CardView {
        CardView {
            card_name: self.card_name@,
            card_val: self.card_val@,
        }
    }
}

impl CardDef {
    /// The fields where nothing is set.
    pub fn def_default() -> (r: CardDef)
        ensures
            r@ == (CardView {
                card_name: DefIndex(0),
                card_val: DefIndex(0),
            }),
    {
        CardDef {
            card_name: DefIndex(0),
            card_val: DefIndex(0),
        }
    }
}

impl DefStruct for CardDef {
    open spec fn members(v: CardView) -> Seq<MemberView> {
        seq![
            record::member_view::<DefIndex>("CardName"@, v.card_name),
            record::member_view::<DefIndex>("CardVal"@, v.card_val),
        ]
    }

    open spec fn read_members(m: Seq<MemberView>) -> Option<CardView> {
        if m.len() != 2 {
            None
        } else {
            match (
                <DefIndex as DefField>::read(m[0].value),
                <DefIndex as DefField>::read(m[1].value),
            ) {
                (
                    Some(card_name),
                    Some(card_val),
                ) => Some(
                    CardView {
                        card_name,
                        card_val,
                    },
                ),
                _ => None,
            }
        }
    }

    proof fn record_reads_back(v: CardView) {
        <DefIndex as DefField>::reads_back(v.card_name);
        <DefIndex as DefField>::reads_back(v.card_val);
    }

    fn record(&self) -> (r: Record) {
        let mut fields: Vec<Member> = Vec::new();
        let x0 = new_member("CardName", &self.card_name);
        let x1 = new_member("CardVal", &self.card_val);
        fields.push(x0);
        fields.push(x1);
        let r = Record { fields };
        assert(r@ =~= CardDef::members(self@));
        r
    }

    fn from_record(r: &Record) -> (o: Option<Self>) {
        let m = &r.fields;
        if m.len() != 2 {
            return None;
        }
        proof {
            assert(r@[0] == m@[0]@);
            assert(r@[1] == m@[1]@);
        }
        match (
            <DefIndex as DefField>::from_value(&m[0].value),
            <DefIndex as DefField>::from_value(&m[1].value),
        ) {
            (
                Some(card_name),
                Some(card_val),
            ) => Some(
                CardDef {
                    card_name,
                    card_val,
                },
            ),
            _ => None,
        }
    }
}

/// A feat to boast of.
#[derive(Debug)]
pub struct FeatDef {
    pub feat_name: DefString,
    pub verb: DefString,
    pub time_limit: Single,
    pub target_number: i32,
    pub gold_reward: i32,
    pub xp_reward: i32,
    pub item_reward: DefString,
    pub no_blocking: bool,
    pub kn_attack_type: EnumField,
    pub kn_perfect: bool,
    pub kn_creature_type: i32,
    pub gf_from_region: DefString,
    pub gf_to_region: DefString,
    pub gf_no_teleporting: bool,
    pub co_item_name: DefString,
}

/// What a [`FeatDef`] holds.
pub struct FeatView {
    pub feat_name: DefString,
    pub verb: DefString,
    pub time_limit: Single,
    pub target_number: i32,
    pub gold_reward: i32,
    pub xp_reward: i32,
    pub item_reward: DefString,
    pub no_blocking: bool,
    pub kn_attack_type: EnumFieldView,
    pub kn_perfect: bool,
    pub kn_creature_type: i32,
    pub gf_from_region: DefString,
    pub gf_to_region: DefString,
    pub gf_no_teleporting: bool,
    pub co_item_name: DefString,
}

impl View for FeatDef {
    type V = FeatView;

    open spec fn view(&self) -> FeatView {
        FeatView {
            feat_name: self.feat_name@,
            verb: self.verb@,
            time_limit: self.time_limit@,
            target_number: self.target_number@,
            gold_reward: self.gold_reward@,
            xp_reward: self.xp_reward@,
            item_reward: self.item_reward@,
            no_blocking: self.no_blocking@,
            kn_attack_type: self.kn_attack_type@,
            kn_perfect: self.kn_perfect@,
            kn_creature_type: self.kn_creature_type@,
            gf_from_region: self.gf_from_region@,
            gf_to_region: self.gf_to_region@,
            gf_no_teleporting: self.gf_no_teleporting@,
            co_item_name: self.co_item_name@,
        }
    }
}

impl FeatDef {
    /// The fields where nothing is set.
    pub fn def_default(kn_attack_type: EnumField) -> (r: FeatDef)
        ensures
            r@ == (FeatView {
                feat_name: DefString(-1i32),
                verb: DefString(-1i32),
                time_limit: Single { bits: 0 },
                target_number: 0,
                gold_reward: 0,
                xp_reward: 0,
                item_reward: DefString(-1i32),
                no_blocking: false,
                kn_attack_type: kn_attack_type@,
                kn_perfect: false,
                kn_creature_type: 0,
                gf_from_region: DefString(-1i32),
                gf_to_region: DefString(-1i32),
                gf_no_teleporting: false,
                co_item_name: DefString(-1i32),
            }),
    {
        FeatDef {
            feat_name: DefString(-1),
            verb: DefString(-1),
            time_limit: Single { bits: 0 },
            target_number: 0,
            gold_reward: 0,
            xp_reward: 0,
            item_reward: DefString(-1),
            no_blocking: false,
            kn_attack_type: kn_attack_type,
            kn_perfect: false,
            kn_creature_type: 0,
            gf_from_region: DefString(-1),
            gf_to_region: DefString(-1),
            gf_no_teleporting: false,
            co_item_name: DefString(-1),
        }
    }
}

impl DefStruct for FeatDef {
    open spec fn members(v: FeatView) -> Seq<MemberView> {
        seq![
            record::member_view::<DefString>("FeatName"@, v.feat_name),
            record::member_view::<DefString>("Verb"@, v.verb),
            record::member_view::<Single>("TimeLimit"@, v.time_limit),
            record::member_view::<i32>("TargetNumber"@, v.target_number),
            record::member_view::<i32>("GoldReward"@, v.gold_reward),
            record::member_view::<i32>("XPReward"@, v.xp_reward),
            record::member_view::<DefString>("ItemReward"@, v.item_reward),
            record::member_view::<bool>("NoBlocking"@, v.no_blocking),
            record::member_view::<EnumField>("KN_AttackType"@, v.kn_attack_type),
            record::member_view::<bool>("KN_Perfect"@, v.kn_perfect),
            record::member_view::<i32>("KN_CreatureType"@, v.kn_creature_type),
            record::member_view::<DefString>("GF_FromRegion"@, v.gf_from_region),
            record::member_view::<DefString>("GF_ToRegion"@, v.gf_to_region),
            record::member_view::<bool>("GF_NoTeleporting"@, v.gf_no_teleporting),
            record::member_view::<DefString>("CO_ItemName"@, v.co_item_name),
        ]
    }

    open spec fn read_members(m: Seq<MemberView>) -> Option<FeatView> {
        if m.len() != 15 {
            None
        } else {
            match (
                <DefString as DefField>::read(m[0].value),
                <DefString as DefField>::read(m[1].value),
                <Single as DefField>::read(m[2].value),
                <i32 as DefField>::read(m[3].value),
                <i32 as DefField>::read(m[4].value),
                <i32 as DefField>::read(m[5].value),
                <DefString as DefField>::read(m[6].value),
                <bool as DefField>::read(m[7].value),
                <EnumField as DefField>::read(m[8].value),
                <bool as DefField>::read(m[9].value),
                <i32 as DefField>::read(m[10].value),
                <DefString as DefField>::read(m[11].value),
                <DefString as DefField>::read(m[12].value),
                <bool as DefField>::read(m[13].value),
                <DefString as DefField>::read(m[14].value),
            ) {
                (
                    Some(feat_name),
                    Some(verb),
                    Some(time_limit),
                    Some(target_number),
                    Some(gold_reward),
                    Some(xp_reward),
                    Some(item_reward),
                    Some(no_blocking),
                    Some(kn_attack_type),
                    Some(kn_perfect),
                    Some(kn_creature_type),
                    Some(gf_from_region),
                    Some(gf_to_region),
                    Some(gf_no_teleporting),
                    Some(co_item_name),
                ) => Some(
                    FeatView {
                        feat_name,
                        verb,
                        time_limit,
                        target_number,
                        gold_reward,
                        xp_reward,
                        item_reward,
                        no_blocking,
                        kn_attack_type,
                        kn_perfect,
                        kn_creature_type,
                        gf_from_region,
                        gf_to_region,
                        gf_no_teleporting,
                        co_item_name,
                    },
                ),
                _ => None,
            }
        }
    }

    proof fn record_reads_back(v: FeatView) {
        <DefString as DefField>::reads_back(v.feat_name);
        <DefString as DefField>::reads_back(v.verb);
        <Single as DefField>::reads_back(v.time_limit);
        <i32 as DefField>::reads_back(v.target_number);
        <i32 as DefField>::reads_back(v.gold_reward);
        <i32 as DefField>::reads_back(v.xp_reward);
        <DefString as DefField>::reads_back(v.item_reward);
        <bool as DefField>::reads_back(v.no_blocking);
        <EnumField as DefField>::reads_back(v.kn_attack_type);
        <bool as DefField>::reads_back(v.kn_perfect);
        <i32 as DefField>::reads_back(v.kn_creature_type);
        <DefString as DefField>::reads_back(v.gf_from_region);
        <DefString as DefField>::reads_back(v.gf_to_region);
        <bool as DefField>::reads_back(v.gf_no_teleporting);
        <DefString as DefField>::reads_back(v.co_item_name);
    }

    fn record(&self) -> (r: Record) {
        let mut fields: Vec<Member> = Vec::new();
        let x0 = new_member("FeatName", &self.feat_name);
        let x1 = new_member("Verb", &self.verb);
        let x2 = new_member("TimeLimit", &self.time_limit);
        let x3 = new_member("TargetNumber", &self.target_number);
        let x4 = new_member("GoldReward", &self.gold_reward);
        let x5 = new_member("XPReward", &self.xp_reward);
        let x6 = new_member("ItemReward", &self.item_reward);
        let x7 = new_member("NoBlocking", &self.no_blocking);
        let x8 = new_member("KN_AttackType", &self.kn_attack_type);
        let x9 = new_member("KN_Perfect", &self.kn_perfect);
        let x10 = new_member("KN_CreatureType", &self.kn_creature_type);
        let x11 = new_member("GF_FromRegion", &self.gf_from_region);
        let x12 = new_member("GF_ToRegion", &self.gf_to_region);
        let x13 = new_member("GF_NoTeleporting", &self.gf_no_teleporting);
        let x14 = new_member("CO_ItemName", &self.co_item_name);
        fields.push(x0);
        fields.push(x1);
        fields.push(x2);
        fields.push(x3);
        fields.push(x4);
        fields.push(x5);
        fields.push(x6);
        fields.push(x7);
        fields.push(x8);
        fields.push(x9);
        fields.push(x10);
        fields.push(x11);
        fields.push(x12);
        fields.push(x13);
        fields.push(x14);
        let r = Record { fields };
        assert(r@ =~= FeatDef::members(self@));
        r
    }

    fn from_record(r: &Record) -> (o: Option<Self>) {
        let m = &r.fields;
        if m.len() != 15 {
            return None;
        }
        proof {
            assert(r@[0] == m@[0]@);
            assert(r@[1] == m@[1]@);
            assert(r@[2] == m@[2]@);
            assert(r@[3] == m@[3]@);
            assert(r@[4] == m@[4]@);
            assert(r@[5] == m@[5]@);
            assert(r@[6] == m@[6]@);
            assert(r@[7] == m@[7]@);
            assert(r@[8] == m@[8]@);
            assert(r@[9] == m@[9]@);
            assert(r@[10] == m@[10]@);
            assert(r@[11] == m@[11]@);
            assert(r@[12] == m@[12]@);
            assert(r@[13] == m@[13]@);
            assert(r@[14] == m@[14]@);
        }
        match (
            <DefString as DefField>::from_value(&m[0].value),
            <DefString as DefField>::from_value(&m[1].value),
            <Single as DefField>::from_value(&m[2].value),
            <i32 as DefField>::from_value(&m[3].value),
            <i32 as DefField>::from_value(&m[4].value),
            <i32 as DefField>::from_value(&m[5].value),
            <DefString as DefField>::from_value(&m[6].value),
            <bool as DefField>::from_value(&m[7].value),
            <EnumField as DefField>::from_value(&m[8].value),
            <bool as DefField>::from_value(&m[9].value),
            <i32 as DefField>::from_value(&m[10].value),
            <DefString as DefField>::from_value(&m[11].value),
            <DefString as DefField>::from_value(&m[12].value),
            <bool as DefField>::from_value(&m[13].value),
            <DefString as DefField>::from_value(&m[14].value),
        ) {
            (
                Some(feat_name),
                Some(verb),
                Some(time_limit),
                Some(target_number),
                Some(gold_reward),
                Some(xp_reward),
                Some(item_reward),
                Some(no_blocking),
                Some(kn_attack_type),
                Some(kn_perfect),
                Some(kn_creature_type),
                Some(gf_from_region),
                Some(gf_to_region),
                Some(gf_no_teleporting),
                Some(co_item_name),
            ) => Some(
                FeatDef {
                    feat_name,
                    verb,
                    time_limit,
                    target_number,
                    gold_reward,
                    xp_reward,
                    item_reward,
                    no_blocking,
                    kn_attack_type,
                    kn_perfect,
                    kn_creature_type,
                    gf_from_region,
                    gf_to_region,
                    gf_no_teleporting,
                    co_item_name,
                },
            ),
            _ => None,
        }
    }
}

} // verus!
