//! The hero, the people and the creatures.

use vstd::prelude::*;

use crate::defs::field::{DefField, EnumField, EnumFieldView, Listed, ListedView, Mapped, MappedView};
use crate::defs::record;
use crate::defs::record::{new_member, DefStruct};
use crate::lower::mesh::DefIndex;
use crate::text::base;
use crate::value::{Member, MemberView, Record};

verus! {

broadcast use base::group_views;

/// An ability of the hero.
#[derive(Debug)]
pub struct AbilityDef {
    pub ability: EnumField,
}

/// What an [`AbilityDef`] holds.
pub struct AbilityView {
    pub ability: EnumFieldView,
}

impl View for AbilityDef {
    type V = AbilityView;

    open spec fn view(&self) -> AbilityView {
        AbilityView {
            ability: self.ability@,
        }
    }
}

impl AbilityDef {
    /// The fields where nothing is set.
    pub fn def_default(ability: EnumField) -> (r: AbilityDef)
        ensures
            r@ == (AbilityView {
                ability: ability@,
            }),
    {
        AbilityDef {
            ability: ability,
        }
    }
}

impl DefStruct for AbilityDef {
    open spec fn members(v: AbilityView) -> Seq<MemberView> {
        seq![
            record::member_view::<EnumField>("Ability"@, v.ability),
        ]
    }

    open spec fn read_members(m: Seq<MemberView>) -> Option<AbilityView> {
        if m.len() != 1 {
            None
        } else {
            match <EnumField as DefField>::read(m[0].value) {
                Some(ability) => Some(AbilityView { ability }),
                None => None,
            }
        }
    }

    proof fn record_reads_back(v: AbilityView) {
        <EnumField as DefField>::reads_back(v.ability);
    }

    fn record(&self) -> (r: Record) {
        let mut fields: Vec<Member> = Vec::new();
        let x0 = new_member("Ability", &self.ability);
        fields.push(x0);
        let r = Record { fields };
        assert(r@ =~= AbilityDef::members(self@));
        r
    }

    fn from_record(r: &Record) -> (o: Option<Self>) {
        let m = &r.fields;
        if m.len() != 1 {
            return None;
        }
        proof {
            assert(r@[0] == m@[0]@);
        }
        match <EnumField as DefField>::from_value(&m[0].value) {
            Some(ability) => Some(AbilityDef { ability }),
            None => None,
        }
    }
}

/// Attitudes that count as one.
#[derive(Debug)]
pub struct BlurredAttitudesDef {
    pub attitudes: Listed<EnumField>,
}

/// What a [`BlurredAttitudesDef`] holds.
pub struct BlurredAttitudesView {
    pub attitudes: ListedView<EnumFieldView>,
}

impl View for BlurredAttitudesDef {
    type V = BlurredAttitudesView;

    open spec fn view(&self) -> BlurredAttitudesView {
        BlurredAttitudesView {
            attitudes: self.attitudes@,
        }
    }
}

impl BlurredAttitudesDef {
    /// The fields where nothing is set.
    pub fn def_default(attitudes_element: EnumField) -> (r: BlurredAttitudesDef)
        ensures
            r@ == (BlurredAttitudesView {
                attitudes: ListedView { element: attitudes_element@, items: Seq::empty() },
            }),
    {
        BlurredAttitudesDef {
            attitudes: Listed { element: attitudes_element, items: Vec::new() },
        }
    }
}

impl DefStruct for BlurredAttitudesDef {
    open spec fn members(v: BlurredAttitudesView) -> Seq<MemberView> {
        seq![
            record::member_view::<Listed<EnumField>>("Attitudes"@, v.attitudes),
        ]
    }

    open spec fn read_members(m: Seq<MemberView>) -> Option<BlurredAttitudesView> {
        if m.len() != 1 {
            None
        } else {
            match <Listed<EnumField> as DefField>::read(m[0].value) {
                Some(attitudes) => Some(BlurredAttitudesView { attitudes }),
                None => None,
            }
        }
    }

    proof fn record_reads_back(v: BlurredAttitudesView) {
        <Listed<EnumField> as DefField>::reads_back(v.attitudes);
    }

    fn record(&self) -> (r: Record) {
        let mut fields: Vec<Member> = Vec::new();
        let x0 = new_member("Attitudes", &self.attitudes);
        fields.push(x0);
        let r = Record { fields };
        assert(r@ =~= BlurredAttitudesDef::members(self@));
        r
    }

    fn from_record(r: &Record) -> (o: Option<Self>) {
        let m = &r.fields;
        if m.len() != 1 {
            return None;
        }
        proof {
            assert(r@[0] == m@[0]@);
        }
        match <Listed<EnumField> as DefField>::from_value(&m[0].value) {
            Some(attitudes) => Some(BlurredAttitudesDef { attitudes }),
            None => None,
        }
    }
}

/// An ability of a creature.
#[derive(Debug)]
pub struct CreatureAbilityDef {
    pub type_: EnumField,
}

/// What a [`CreatureAbilityDef`] holds.
pub struct CreatureAbilityView {
    pub type_: EnumFieldView,
}

impl View for CreatureAbilityDef {
    type V = CreatureAbilityView;

    open spec fn view(&self) -> CreatureAbilityView {
        CreatureAbilityView {
            type_: self.type_@,
        }
    }
}

impl CreatureAbilityDef {
    /// The fields where nothing is set.
    pub fn def_default(type_: EnumField) -> (r: CreatureAbilityDef)
        ensures
            r@ == (CreatureAbilityView {
                type_: type_@,
            }),
    {
        CreatureAbilityDef {
            type_: type_,
        }
    }
}

impl DefStruct for CreatureAbilityDef {
    open spec fn members(v: CreatureAbilityView) -> Seq<MemberView> {
        seq![
            record::member_view::<EnumField>("Type"@, v.type_),
        ]
    }

    open spec fn read_members(m: Seq<MemberView>) -> Option<CreatureAbilityView> {
        if m.len() != 1 {
            None
        } else {
            match <EnumField as DefField>::read(m[0].value) {
                Some(type_) => Some(CreatureAbilityView { type_ }),
                None => None,
            }
        }
    }

    proof fn record_reads_back(v: CreatureAbilityView) {
        <EnumField as DefField>::reads_back(v.type_);
    }

    fn record(&self) -> (r: Record) {
        let mut fields: Vec<Member> = Vec::new();
        let x0 = new_member("Type", &self.type_);
        fields.push(x0);
        let r = Record { fields };
        assert(r@ =~= CreatureAbilityDef::members(self@));
        r
    }

    fn from_record(r: &Record) -> (o: Option<Self>) {
        let m = &r.fields;
        if m.len() != 1 {
            return None;
        }
        proof {
            assert(r@[0] == m@[0]@);
        }
        match <EnumField as DefField>::from_value(&m[0].value) {
            Some(type_) => Some(CreatureAbilityDef { type_ }),
            None => None,
        }
    }
}

/// An enemy, by its faction.
#[derive(Debug)]
pub struct EnemyDef {
    pub faction: DefIndex,
}

/// What an [`EnemyDef`] holds.
pub struct EnemyView {
    pub faction: DefIndex,
}

impl View for EnemyDef {
    type V = EnemyView;

    open spec fn view(&self) -> EnemyView {
        EnemyView {
            faction: self.faction@,
        }
    }
}

impl EnemyDef {
    /// The fields where nothing is set.
    pub fn def_default() -> (r: EnemyDef)
        ensures
            r@ == (EnemyView {
                faction: DefIndex(0),
            }),
    {
        EnemyDef {
            faction: DefIndex(0),
        }
    }
}

impl DefStruct for EnemyDef {
    open spec fn members(v: EnemyView) -> Seq<MemberView> {
        seq![
            record::member_view::<DefIndex>("Faction"@, v.faction),
        ]
    }

    open spec fn read_members(m: Seq<MemberView>) -> Option<EnemyView> {
        if m.len() != 1 {
            None
        } else {
            match <DefIndex as DefField>::read(m[0].value) {
                Some(faction) => Some(EnemyView { faction }),
                None => None,
            }
        }
    }

    proof fn record_reads_back(v: EnemyView) {
        <DefIndex as DefField>::reads_back(v.faction);
    }

    fn record(&self) -> (r: Record) {
        let mut fields: Vec<Member> = Vec::new();
        let x0 = new_member("Faction", &self.faction);
        fields.push(x0);
        let r = Record { fields };
        assert(r@ =~= EnemyDef::members(self@));
        r
    }

    fn from_record(r: &Record) -> (o: Option<Self>) {
        let m = &r.fields;
        if m.len() != 1 {
            return None;
        }
        proof {
            assert(r@[0] == m@[0]@);
        }
        match <DefIndex as DefField>::from_value(&m[0].value) {
            Some(faction) => Some(EnemyDef { faction }),
            None => None,
        }
    }
}

/// The hero.
#[derive(Debug)]
pub struct HeroDef {
    pub default_title: DefIndex,
    pub default_hero_training_status: EnumField,
}

/// What a [`HeroDef`] holds.
pub struct HeroView {
    pub default_title: DefIndex,
    pub default_hero_training_status: EnumFieldView,
}

impl View for HeroDef {
    type V = HeroView;

    open spec fn view(&self) -> HeroView {
        HeroView {
            default_title: self.default_title@,
            default_hero_training_status: self.default_hero_training_status@,
        }
    }
}

impl HeroDef {
    /// The fields where nothing is set.
    pub fn def_default(default_hero_training_status: EnumField) -> (r: HeroDef)
        ensures
            r@ == (HeroView {
                default_title: DefIndex(0),
                default_hero_training_status: default_hero_training_status@,
            }),
    {
        HeroDef {
            default_title: DefIndex(0),
            default_hero_training_status: default_hero_training_status,
        }
    }
}

impl DefStruct for HeroDef {
    open spec fn members(v: HeroView) -> Seq<MemberView> {
        seq![
            record::member_view::<DefIndex>("DefaultTitle"@, v.default_title),
            record::member_view::<EnumField>("DefaultHeroTrainingStatus"@, v.default_hero_training_status),
        ]
    }

    open spec fn read_members(m: Seq<MemberView>) -> Option<HeroView> {
        if m.len() != 2 {
            None
        } else {
            match (
                <DefIndex as DefField>::read(m[0].value),
                <EnumField as DefField>::read(m[1].value),
            ) {
                (
                    Some(default_title),
                    Some(default_hero_training_status),
                ) => Some(
                    HeroView {
                        default_title,
                        default_hero_training_status,
                    },
                ),
                _ => None,
            }
        }
    }

    proof fn record_reads_back(v: HeroView) {
        <DefIndex as DefField>::reads_back(v.default_title);
        <EnumField as DefField>::reads_back(v.default_hero_training_status);
    }

    fn record(&self) -> (r: Record) {
        let mut fields: Vec<Member> = Vec::new();
        let x0 = new_member("DefaultTitle", &self.default_title);
        let x1 = new_member("DefaultHeroTrainingStatus", &self.default_hero_training_status);
        fields.push(x0);
        fields.push(x1);
        let r = Record { fields };
        assert(r@ =~= HeroDef::members(self@));
        r
    }

    fn from_record(r: &Record) -> (o: Option<Self>) {
        let m = &r.fields;
        if m.len() != 2 {
            return None;
        }
        proof {
            assert(r@[0] == m@[0]@);
            assert(r@[1] == m@[1]@);
        }
        match (
            <DefIndex as DefField>::from_value(&m[0].value),
            <EnumField as DefField>::from_value(&m[1].value),
        ) {
            (
                Some(default_title),
                Some(default_hero_training_status),
            ) => Some(
                HeroDef {
                    default_title,
                    default_hero_training_status,
                },
            ),
            _ => None,
        }
    }
}

/// A suit of the hero, part by part.
#[derive(Debug)]
pub struct HeroSuitDef {
    pub suit_parts: Mapped<i32, DefIndex>,
}

/// What a [`HeroSuitDef`] holds.
pub struct HeroSuitView {
    pub suit_parts: MappedView<i32, DefIndex>,
}

impl View for HeroSuitDef {
    type V = HeroSuitView;

    open spec fn view(&self) -> HeroSuitView {
        HeroSuitView {
            suit_parts: self.suit_parts@,
        }
    }
}

impl HeroSuitDef {
    /// The fields where nothing is set.
    pub fn def_default() -> (r: HeroSuitDef)
        ensures
            r@ == (HeroSuitView {
                suit_parts: MappedView { ordered: false, key: 0, value: DefIndex(0), entries: Seq::empty() },
            }),
    {
        HeroSuitDef {
            suit_parts: Mapped { ordered: false, key: 0, value: DefIndex(0), entries: Vec::new() },
        }
    }
}

impl DefStruct for HeroSuitDef {
    open spec fn members(v: HeroSuitView) -> Seq<MemberView> {
        seq![
            record::member_view::<Mapped<i32, DefIndex>>("SuitParts"@, v.suit_parts),
        ]
    }

    open spec fn read_members(m: Seq<MemberView>) -> Option<HeroSuitView> {
        if m.len() != 1 {
            None
        } else {
            match <Mapped<i32, DefIndex> as DefField>::read(m[0].value) {
                Some(suit_parts) => Some(HeroSuitView { suit_parts }),
                None => None,
            }
        }
    }

    proof fn record_reads_back(v: HeroSuitView) {
        <Mapped<i32, DefIndex> as DefField>::reads_back(v.suit_parts);
    }

    fn record(&self) -> (r: Record) {
        let mut fields: Vec<Member> = Vec::new();
        let x0 = new_member("SuitParts", &self.suit_parts);
        fields.push(x0);
        let r = Record { fields };
        assert(r@ =~= HeroSuitDef::members(self@));
        r
    }

    fn from_record(r: &Record) -> (o: Option<Self>) {
        let m = &r.fields;
        if m.len() != 1 {
            return None;
        }
        proof {
            assert(r@[0] == m@[0]@);
        }
        match <Mapped<i32, DefIndex> as DefField>::from_value(&m[0].value) {
            Some(suit_parts) => Some(HeroSuitDef { suit_parts }),
            None => None,
        }
    }
}

/// Where something can be hit.
#[derive(Debug)]
pub struct HitLocationsDef {
    pub hit_locations: Listed<DefIndex>,
}

/// What a [`HitLocationsDef`] holds.
pub struct HitLocationsView {
    pub hit_locations: ListedView<DefIndex>,
}

impl View for HitLocationsDef {
    type V = HitLocationsView;

    open spec fn view(&self) -> HitLocationsView {
        HitLocationsView {
            hit_locations: self.hit_locations@,
        }
    }
}

impl HitLocationsDef {
    /// The fields where nothing is set.
    pub fn def_default() -> (r: HitLocationsDef)
        ensures
            r@ == (HitLocationsView {
                hit_locations: ListedView { element: DefIndex(0), items: Seq::empty() },
            }),
    {
        HitLocationsDef {
            hit_locations: Listed { element: DefIndex(0), items: Vec::new() },
        }
    }
}

impl DefStruct for HitLocationsDef {
    open spec fn members(v: HitLocationsView) -> Seq<MemberView> {
        seq![
            record::member_view::<Listed<DefIndex>>("HitLocations"@, v.hit_locations),
        ]
    }

    open spec fn read_members(m: Seq<MemberView>) -> Option<HitLocationsView> {
        if m.len() != 1 {
            None
        } else {
            match <Listed<DefIndex> as DefField>::read(m[0].value) {
                Some(hit_locations) => Some(HitLocationsView { hit_locations }),
                None => None,
            }
        }
    }

    proof fn record_reads_back(v: HitLocationsView) {
        <Listed<DefIndex> as DefField>::reads_back(v.hit_locations);
    }

    fn record(&self) -> (r: Record) {
        let mut fields: Vec<Member> = Vec::new();
        let x0 = new_member("HitLocations", &self.hit_locations);
        fields.push(x0);
        let r = Record { fields };
        assert(r@ =~= HitLocationsDef::members(self@));
        r
    }

    fn from_record(r: &Record) -> (o: Option<Self>) {
        let m = &r.fields;
        if m.len() != 1 {
            return None;
        }
        proof {
            assert(r@[0] == m@[0]@);
        }
        match <Listed<DefIndex> as DefField>::from_value(&m[0].value) {
            Some(hit_locations) => Some(HitLocationsDef { hit_locations }),
            None => None,
        }
    }
}

/// Who lives in a region.
#[derive(Debug)]
pub struct RegionScriptDef {
    pub random_villager_max: i32,
    pub random_guard_max: i32,
    pub random_bandit_max: i32,
    pub region_danger_level: i32,
}

/// What a [`RegionScriptDef`] holds.
pub struct RegionScriptView {
    pub random_villager_max: i32,
    pub random_guard_max: i32,
    pub random_bandit_max: i32,
    pub region_danger_level: i32,
}

impl View for RegionScriptDef {
    type V = RegionScriptView;

    open spec fn view(&self) -> RegionScriptView {
        RegionScriptView {
            random_villager_max: self.random_villager_max@,
            random_guard_max: self.random_guard_max@,
            random_bandit_max: self.random_bandit_max@,
            region_danger_level: self.region_danger_level@,
        }
    }
}

impl RegionScriptDef {
    /// The fields where nothing is set.
    pub fn def_default() -> (r: RegionScriptDef)
        ensures
            r@ == (RegionScriptView {
                random_villager_max: 0,
                random_guard_max: 0,
                random_bandit_max: 0,
                region_danger_level: 0,
            }),
    {
        RegionScriptDef {
            random_villager_max: 0,
            random_guard_max: 0,
            random_bandit_max: 0,
            region_danger_level: 0,
        }
    }
}

impl DefStruct for RegionScriptDef {
    open spec fn members(v: RegionScriptView) -> Seq<MemberView> {
        seq![
            record::member_view::<i32>("RandomVillagerMax"@, v.random_villager_max),
            record::member_view::<i32>("RandomGuardMax"@, v.random_guard_max),
            record::member_view::<i32>("RandomBanditMax"@, v.random_bandit_max),
            record::member_view::<i32>("RegionDangerLevel"@, v.region_danger_level),
        ]
    }

    open spec fn read_members(m: Seq<MemberView>) -> Option<RegionScriptView> {
        if m.len() != 4 {
            None
        } else {
            match (
                <i32 as DefField>::read(m[0].value),
                <i32 as DefField>::read(m[1].value),
                <i32 as DefField>::read(m[2].value),
                <i32 as DefField>::read(m[3].value),
            ) {
                (
                    Some(random_villager_max),
                    Some(random_guard_max),
                    Some(random_bandit_max),
                    Some(region_danger_level),
                ) => Some(
                    RegionScriptView {
                        random_villager_max,
                        random_guard_max,
                        random_bandit_max,
                        region_danger_level,
                    },
                ),
                _ => None,
            }
        }
    }

    proof fn record_reads_back(v: RegionScriptView) {
        <i32 as DefField>::reads_back(v.random_villager_max);
        <i32 as DefField>::reads_back(v.random_guard_max);
        <i32 as DefField>::reads_back(v.random_bandit_max);
        <i32 as DefField>::reads_back(v.region_danger_level);
    }

    fn record(&self) -> (r: Record) {
        let mut fields: Vec<Member> = Vec::new();
        let x0 = new_member("RandomVillagerMax", &self.random_villager_max);
        let x1 = new_member("RandomGuardMax", &self.random_guard_max);
        let x2 = new_member("RandomBanditMax", &self.random_bandit_max);
        let x3 = new_member("RegionDangerLevel", &self.region_danger_level);
        fields.push(x0);
        fields.push(x1);
        fields.push(x2);
        fields.push(x3);
        let r = Record { fields };
        assert(r@ =~= RegionScriptDef::members(self@));
        r
    }

    fn from_record(r: &Record) -> (o: Option<Self>) {
        let m = &r.fields;
        if m.len() != 4 {
            return None;
        }
        proof {
            assert(r@[0] == m@[0]@);
            assert(r@[1] == m@[1]@);
            assert(r@[2] == m@[2]@);
            assert(r@[3] == m@[3]@);
        }
        match (
            <i32 as DefField>::from_value(&m[0].value),
            <i32 as DefField>::from_value(&m[1].value),
            <i32 as DefField>::from_value(&m[2].value),
            <i32 as DefField>::from_value(&m[3].value),
        ) {
            (
                Some(random_villager_max),
                Some(random_guard_max),
                Some(random_bandit_max),
                Some(region_danger_level),
            ) => Some(
                RegionScriptDef {
                    random_villager_max,
                    random_guard_max,
                    random_bandit_max,
                    region_danger_level,
                },
            ),
            _ => None,
        }
    }
}

/// A spouse.
#[derive(Debug)]
pub struct WifeDef {
    pub dowry: i32,
}

/// What a [`WifeDef`] holds.
pub struct WifeView {
    pub dowry: i32,
}

impl View for WifeDef {
    type V = WifeView;

    open spec fn view(&self) -> WifeView {
        WifeView {
            dowry: self.dowry@,
        }
    }
}

impl WifeDef {
    /// The fields where nothing is set.
    pub fn def_default() -> (r: WifeDef)
        ensures
            r@ == (WifeView {
                dowry: 0,
            }),
    {
        WifeDef {
            dowry: 0,
        }
    }
}

impl DefStruct for WifeDef {
    open spec fn members(v: WifeView) -> Seq<MemberView> {
        seq![
            record::member_view::<i32>("Dowry"@, v.dowry),
        ]
    }

    open spec fn read_members(m: Seq<MemberView>) -> Option<WifeView> {
        if m.len() != 1 {
            None
        } else {
            match <i32 as DefField>::read(m[0].value) {
                Some(dowry) => Some(WifeView { dowry }),
                None => None,
            }
        }
    }

    proof fn record_reads_back(v: WifeView) {
        <i32 as DefField>::reads_back(v.dowry);
    }

    fn record(&self) -> (r: Record) {
        let mut fields: Vec<Member> = Vec::new();
        let x0 = new_member("Dowry", &self.dowry);
        fields.push(x0);
        let r = Record { fields };
        assert(r@ =~= WifeDef::members(self@));
        r
    }

    fn from_record(r: &Record) -> (o: Option<Self>) {
        let m = &r.fields;
        if m.len() != 1 {
            return None;
        }
        proof {
            assert(r@[0] == m@[0]@);
        }
        match <i32 as DefField>::from_value(&m[0].value) {
            Some(dowry) => Some(WifeDef { dowry }),
            None => None,
        }
    }
}

} // verus!
