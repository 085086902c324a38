//! Objects and what can be done with them.

use vstd::prelude::*;

use crate::defs::field::{DefField, DefString, EnumField, EnumFieldView, Listed, ListedView, Mapped, MappedView};
use crate::defs::record;
use crate::defs::record::{new_member, DefStruct};
use crate::lower::mesh::DefIndex;
use crate::text::base;
use crate::value::{Member, MemberView, Record, Value, ValueView};

verus! {

broadcast use base::group_views;

/// A script to start.
#[derive(Debug)]
pub struct ActivateQuestDef {
    pub script_name: DefString,
    pub load_resources: bool,
}

/// What an [`ActivateQuestDef`] holds.
pub struct ActivateQuestView {
    pub script_name: DefString,
    pub load_resources: bool,
}

impl View for ActivateQuestDef {
    type V = ActivateQuestView;

    open spec fn view(&self) -> ActivateQuestView {
        ActivateQuestView {
            script_name: self.script_name@,
            load_resources: self.load_resources@,
        }
    }
}

impl ActivateQuestDef {
    /// The fields where nothing is set.
    pub fn def_default() -> (r: ActivateQuestDef)
        ensures
            r@ == (ActivateQuestView {
                script_name: DefString(-1i32),
                load_resources: true,
            }),
    {
        ActivateQuestDef {
            script_name: DefString(-1),
            load_resources: true,
        }
    }
}

impl DefStruct for ActivateQuestDef {
    open spec fn members(v: ActivateQuestView) -> Seq<MemberView> {
        seq![
            record::member_view::<DefString>("ScriptName"@, v.script_name),
            record::member_view::<bool>("LoadResources"@, v.load_resources),
        ]
    }

    open spec fn read_members(m: Seq<MemberView>) -> Option<ActivateQuestView> {
        if m.len() != 2 {
            None
        } else {
            match (
                <DefString as DefField>::read(m[0].value),
                <bool as DefField>::read(m[1].value),
            ) {
                (
                    Some(script_name),
                    Some(load_resources),
                ) => Some(
                    ActivateQuestView {
                        script_name,
                        load_resources,
                    },
                ),
                _ => None,
            }
        }
    }

    proof fn record_reads_back(v: ActivateQuestView) {
        <DefString as DefField>::reads_back(v.script_name);
        <bool as DefField>::reads_back(v.load_resources);
    }

    fn record(&self) -> (r: Record) {
        let mut fields: Vec<Member> = Vec::new();
        let x0 = new_member("ScriptName", &self.script_name);
        let x1 = new_member("LoadResources", &self.load_resources);
        fields.push(x0);
        fields.push(x1);
        let r = Record { fields };
        assert(r@ =~= ActivateQuestDef::members(self@));
        r
    }

    fn from_record(r: &Record) -> (o: Option<Self>) {
        let m = &r.fields;
        if m.len() != 2 {
            return None;
        }
        proof {
            assert(r@[0] == m@[0]@);
            assert(r@[1] == m@[1]@);
        }
        match (
            <DefString as DefField>::from_value(&m[0].value),
            <bool as DefField>::from_value(&m[1].value),
        ) {
            (
                Some(script_name),
                Some(load_resources),
            ) => Some(
                ActivateQuestDef {
                    script_name,
                    load_resources,
                },
            ),
            _ => None,
        }
    }
}

/// An object that is animated.
#[derive(Debug)]
pub struct AnimatingObjectDef {
    pub animation: Value,
}

/// What an [`AnimatingObjectDef`] holds.
pub struct AnimatingObjectView {
    pub animation: ValueView,
}

impl View for AnimatingObjectDef {
    type V = AnimatingObjectView;

    open spec fn view(&self) -> AnimatingObjectView {
        AnimatingObjectView {
            animation: self.animation@,
        }
    }
}

impl AnimatingObjectDef {
    /// The fields where nothing is set.
    pub fn def_default(animation: Value) -> (r: AnimatingObjectDef)
        ensures
            r@ == (AnimatingObjectView {
                animation: animation@,
            }),
    {
        AnimatingObjectDef {
            animation: animation,
        }
    }
}

impl DefStruct for AnimatingObjectDef {
    open spec fn members(v: AnimatingObjectView) -> Seq<MemberView> {
        seq![
            record::member_view::<Value>("Animation"@, v.animation),
        ]
    }

    open spec fn read_members(m: Seq<MemberView>) -> Option<AnimatingObjectView> {
        if m.len() != 1 {
            None
        } else {
            match <Value as DefField>::read(m[0].value) {
                Some(animation) => Some(AnimatingObjectView { animation }),
                None => None,
            }
        }
    }

    proof fn record_reads_back(v: AnimatingObjectView) {
        <Value as DefField>::reads_back(v.animation);
    }

    fn record(&self) -> (r: Record) {
        let mut fields: Vec<Member> = Vec::new();
        let x0 = new_member("Animation", &self.animation);
        fields.push(x0);
        let r = Record { fields };
        assert(r@ =~= AnimatingObjectDef::members(self@));
        r
    }

    fn from_record(r: &Record) -> (o: Option<Self>) {
        let m = &r.fields;
        if m.len() != 1 {
            return None;
        }
        proof {
            assert(r@[0] == m@[0]@);
        }
        match <Value as DefField>::from_value(&m[0].value) {
            Some(animation) => Some(AnimatingObjectDef { animation }),
            None => None,
        }
    }
}

/// What can be carried, and where.
#[derive(Debug)]
pub struct CarryingDef {
    pub available_carry_slots: Listed<DefIndex>,
    pub overridden_dummy_object: DefString,
}

/// What a [`CarryingDef`] holds.
pub struct CarryingView {
    pub available_carry_slots: ListedView<DefIndex>,
    pub overridden_dummy_object: DefString,
}

impl View for CarryingDef {
    type V = CarryingView;

    open spec fn view(&self) -> CarryingView {
        CarryingView {
            available_carry_slots: self.available_carry_slots@,
            overridden_dummy_object: self.overridden_dummy_object@,
        }
    }
}

impl CarryingDef {
    /// The fields where nothing is set.
    pub fn def_default() -> (r: CarryingDef)
        ensures
            r@ == (CarryingView {
                available_carry_slots: ListedView { element: DefIndex(0), items: Seq::empty() },
                overridden_dummy_object: DefString(-1i32),
            }),
    {
        CarryingDef {
            available_carry_slots: Listed { element: DefIndex(0), items: Vec::new() },
            overridden_dummy_object: DefString(-1),
        }
    }
}

impl DefStruct for CarryingDef {
    open spec fn members(v: CarryingView) -> Seq<MemberView> {
        seq![
            record::member_view::<Listed<DefIndex>>("AvailableCarrySlots"@, v.available_carry_slots),
            record::member_view::<DefString>("OverriddenDummyObject"@, v.overridden_dummy_object),
        ]
    }

    open spec fn read_members(m: Seq<MemberView>) -> Option<CarryingView> {
        if m.len() != 2 {
            None
        } else {
            match (
                <Listed<DefIndex> as DefField>::read(m[0].value),
                <DefString as DefField>::read(m[1].value),
            ) {
                (
                    Some(available_carry_slots),
                    Some(overridden_dummy_object),
                ) => Some(
                    CarryingView {
                        available_carry_slots,
                        overridden_dummy_object,
                    },
                ),
                _ => None,
            }
        }
    }

    proof fn record_reads_back(v: CarryingView) {
        <Listed<DefIndex> as DefField>::reads_back(v.available_carry_slots);
        <DefString as DefField>::reads_back(v.overridden_dummy_object);
    }

    fn record(&self) -> (r: Record) {
        let mut fields: Vec<Member> = Vec::new();
        let x0 = new_member("AvailableCarrySlots", &self.available_carry_slots);
        let x1 = new_member("OverriddenDummyObject", &self.overridden_dummy_object);
        fields.push(x0);
        fields.push(x1);
        let r = Record { fields };
        assert(r@ =~= CarryingDef::members(self@));
        r
    }

    fn from_record(r: &Record) -> (o: Option<Self>) {
        let m = &r.fields;
        if m.len() != 2 {
            return None;
        }
        proof {
            assert(r@[0] == m@[0]@);
            assert(r@[1] == m@[1]@);
        }
        match (
            <Listed<DefIndex> as DefField>::from_value(&m[0].value),
            <DefString as DefField>::from_value(&m[1].value),
        ) {
            (
                Some(available_carry_slots),
                Some(overridden_dummy_object),
            ) => Some(
                CarryingDef {
                    available_carry_slots,
                    overridden_dummy_object,
                },
            ),
            _ => None,
        }
    }
}

/// A clock.
#[derive(Debug)]
pub struct ClockDef {
    pub sound: Mapped<String, i32>,
    pub hand_type: EnumField,
}

/// What a [`ClockDef`] holds.
pub struct ClockView {
    pub sound: MappedView<Seq<char>, i32>,
    pub hand_type: EnumFieldView,
}

impl View for ClockDef {
    type V = ClockView;

    open spec fn view(&self) -> ClockView {
        ClockView {
            sound: self.sound@,
            hand_type: self.hand_type@,
        }
    }
}

impl ClockDef {
    /// The fields where nothing is set.
    pub fn def_default(hand_type: EnumField) -> (r: ClockDef)
        ensures
            r@ == (ClockView {
                sound: MappedView { ordered: false, key: Seq::empty(), value: 0, entries: Seq::empty() },
                hand_type: hand_type@,
            }),
    {
        ClockDef {
            sound: Mapped { ordered: false, key: String::new(), value: 0, entries: Vec::new() },
            hand_type: hand_type,
        }
    }
}

impl DefStruct for ClockDef {
    open spec fn members(v: ClockView) -> Seq<MemberView> {
        seq![
            record::member_view::<Mapped<String, i32>>("Sound"@, v.sound),
            record::member_view::<EnumField>("HandType"@, v.hand_type),
        ]
    }

    open spec fn read_members(m: Seq<MemberView>) -> Option<ClockView> {
        if m.len() != 2 {
            None
        } else {
            match (
                <Mapped<String, i32> as DefField>::read(m[0].value),
                <EnumField as DefField>::read(m[1].value),
            ) {
                (
                    Some(sound),
                    Some(hand_type),
                ) => Some(
                    ClockView {
                        sound,
                        hand_type,
                    },
                ),
                _ => None,
            }
        }
    }

    proof fn record_reads_back(v: ClockView) {
        <Mapped<String, i32> as DefField>::reads_back(v.sound);
        <EnumField as DefField>::reads_back(v.hand_type);
    }

    fn record(&self) -> (r: Record) {
        let mut fields: Vec<Member> = Vec::new();
        let x0 = new_member("Sound", &self.sound);
        let x1 = new_member("HandType", &self.hand_type);
        fields.push(x0);
        fields.push(x1);
        let r = Record { fields };
        assert(r@ =~= ClockDef::members(self@));
        r
    }

    fn from_record(r: &Record) -> (o: Option<Self>) {
        let m = &r.fields;
        if m.len() != 2 {
            return None;
        }
        proof {
            assert(r@[0] == m@[0]@);
            assert(r@[1] == m@[1]@);
        }
        match (
            <Mapped<String, i32> as DefField>::from_value(&m[0].value),
            <EnumField as DefField>::from_value(&m[1].value),
        ) {
            (
                Some(sound),
                Some(hand_type),
            ) => Some(
                ClockDef {
                    sound,
                    hand_type,
                },
            ),
            _ => None,
        }
    }
}

/// Something that degrades.
#[derive(Debug)]
pub struct DegradableDef {
    pub degradable: bool,
    pub graphic_type: EnumField,
    pub initially_blocks_navigation: bool,
    pub degradations: Listed<Value>,
}

/// What a [`DegradableDef`] holds.
pub struct DegradableView {
    pub degradable: bool,
    pub graphic_type: EnumFieldView,
    pub initially_blocks_navigation: bool,
    pub degradations: ListedView<ValueView>,
}

impl View for DegradableDef {
    type V = DegradableView;

    open spec fn view(&self) -> DegradableView {
        DegradableView {
            degradable: self.degradable@,
            graphic_type: self.graphic_type@,
            initially_blocks_navigation: self.initially_blocks_navigation@,
            degradations: self.degradations@,
        }
    }
}

impl DegradableDef {
    /// The fields where nothing is set.
    pub fn def_default(graphic_type: EnumField, degradations_element: Value) -> (r: DegradableDef)
        ensures
            r@ == (DegradableView {
                degradable: false,
                graphic_type: graphic_type@,
                initially_blocks_navigation: true,
                degradations: ListedView { element: degradations_element@, items: Seq::empty() },
            }),
    {
        DegradableDef {
            degradable: false,
            graphic_type: graphic_type,
            initially_blocks_navigation: true,
            degradations: Listed { element: degradations_element, items: Vec::new() },
        }
    }
}

impl DefStruct for DegradableDef {
    open spec fn members(v: DegradableView) -> Seq<MemberView> {
        seq![
            record::member_view::<bool>("Degradable"@, v.degradable),
            record::member_view::<EnumField>("GraphicType"@, v.graphic_type),
            record::member_view::<bool>("InitiallyBlocksNavigation"@, v.initially_blocks_navigation),
            record::member_view::<Listed<Value>>("Degradations"@, v.degradations),
        ]
    }

    open spec fn read_members(m: Seq<MemberView>) -> Option<DegradableView> {
        if m.len() != 4 {
            None
        } else {
            match (
                <bool as DefField>::read(m[0].value),
                <EnumField as DefField>::read(m[1].value),
                <bool as DefField>::read(m[2].value),
                <Listed<Value> as DefField>::read(m[3].value),
            ) {
                (
                    Some(degradable),
                    Some(graphic_type),
                    Some(initially_blocks_navigation),
                    Some(degradations),
                ) => Some(
                    DegradableView {
                        degradable,
                        graphic_type,
                        initially_blocks_navigation,
                        degradations,
                    },
                ),
                _ => None,
            }
        }
    }

    proof fn record_reads_back(v: DegradableView) {
        <bool as DefField>::reads_back(v.degradable);
        <EnumField as DefField>::reads_back(v.graphic_type);
        <bool as DefField>::reads_back(v.initially_blocks_navigation);
        <Listed<Value> as DefField>::reads_back(v.degradations);
    }

    fn record(&self) -> (r: Record) {
        let mut fields: Vec<Member> = Vec::new();
        let x0 = new_member("Degradable", &self.degradable);
        let x1 = new_member("GraphicType", &self.graphic_type);
        let x2 = new_member("InitiallyBlocksNavigation", &self.initially_blocks_navigation);
        let x3 = new_member("Degradations", &self.degradations);
        fields.push(x0);
        fields.push(x1);
        fields.push(x2);
        fields.push(x3);
        let r = Record { fields };
        assert(r@ =~= DegradableDef::members(self@));
        r
    }

    fn from_record(r: &Record) -> (o: Option<Self>) {
        let m = &r.fields;
        if m.len() != 4 {
            return None;
        }
        proof {
            assert(r@[0] == m@[0]@);
            assert(r@[1] == m@[1]@);
            assert(r@[2] == m@[2]@);
            assert(r@[3] == m@[3]@);
        }
        match (
            <bool as DefField>::from_value(&m[0].value),
            <EnumField as DefField>::from_value(&m[1].value),
            <bool as DefField>::from_value(&m[2].value),
            <Listed<Value> as DefField>::from_value(&m[3].value),
        ) {
            (
                Some(degradable),
                Some(graphic_type),
                Some(initially_blocks_navigation),
                Some(degradations),
            ) => Some(
                DegradableDef {
                    degradable,
                    graphic_type,
                    initially_blocks_navigation,
                    degradations,
                },
            ),
            _ => None,
        }
    }
}

/// An expression that an object gives.
#[derive(Debug)]
pub struct ExpressionSubDef {
    pub expression_def: DefIndex,
}

/// What an [`ExpressionSubDef`] holds.
pub struct ExpressionSubView {
    pub expression_def: DefIndex,
}

impl View for ExpressionSubDef {
    type V = ExpressionSubView;

    open spec fn view(&self) -> ExpressionSubView {
        ExpressionSubView {
            expression_def: self.expression_def@,
        }
    }
}

impl ExpressionSubDef {
    /// The fields where nothing is set.
    pub fn def_default() -> (r: ExpressionSubDef)
        ensures
            r@ == (ExpressionSubView {
                expression_def: DefIndex(0),
            }),
    {
        ExpressionSubDef {
            expression_def: DefIndex(0),
        }
    }
}

impl DefStruct for ExpressionSubDef {
    open spec fn members(v: ExpressionSubView) -> Seq<MemberView> {
        seq![
            record::member_view::<DefIndex>("ExpressionDef"@, v.expression_def),
        ]
    }

    open spec fn read_members(m: Seq<MemberView>) -> Option<ExpressionSubView> {
        if m.len() != 1 {
            None
        } else {
            match <DefIndex as DefField>::read(m[0].value) {
                Some(expression_def) => Some(ExpressionSubView { expression_def }),
                None => None,
            }
        }
    }

    proof fn record_reads_back(v: ExpressionSubView) {
        <DefIndex as DefField>::reads_back(v.expression_def);
    }

    fn record(&self) -> (r: Record) {
        let mut fields: Vec<Member> = Vec::new();
        let x0 = new_member("ExpressionDef", &self.expression_def);
        fields.push(x0);
        let r = Record { fields };
        assert(r@ =~= ExpressionSubDef::members(self@));
        r
    }

    fn from_record(r: &Record) -> (o: Option<Self>) {
        let m = &r.fields;
        if m.len() != 1 {
            return None;
        }
        proof {
            assert(r@[0] == m@[0]@);
        }
        match <DefIndex as DefField>::from_value(&m[0].value) {
            Some(expression_def) => Some(ExpressionSubDef { expression_def }),
            None => None,
        }
    }
}

/// Something that can be given.
#[derive(Debug)]
pub struct GiftDef {
    pub gift_type: EnumField,
    pub is_wedding_ring: bool,
}

/// What a [`GiftDef`] holds.
pub struct GiftView {
    pub gift_type: EnumFieldView,
    pub is_wedding_ring: bool,
}

impl View for GiftDef {
    type V = GiftView;

    open spec fn view(&self) -> GiftView {
        GiftView {
            gift_type: self.gift_type@,
            is_wedding_ring: self.is_wedding_ring@,
        }
    }
}

impl GiftDef {
    /// The fields where nothing is set.
    pub fn def_default(gift_type: EnumField) -> (r: GiftDef)
        ensures
            r@ == (GiftView {
                gift_type: gift_type@,
                is_wedding_ring: false,
            }),
    {
        GiftDef {
            gift_type: gift_type,
            is_wedding_ring: false,
        }
    }
}

impl DefStruct for GiftDef {
    open spec fn members(v: GiftView) -> Seq<MemberView> {
        seq![
            record::member_view::<EnumField>("GiftType"@, v.gift_type),
            record::member_view::<bool>("IsWeddingRing"@, v.is_wedding_ring),
        ]
    }

    open spec fn read_members(m: Seq<MemberView>) -> Option<GiftView> {
        if m.len() != 2 {
            None
        } else {
            match (
                <EnumField as DefField>::read(m[0].value),
                <bool as DefField>::read(m[1].value),
            ) {
                (
                    Some(gift_type),
                    Some(is_wedding_ring),
                ) => Some(
                    GiftView {
                        gift_type,
                        is_wedding_ring,
                    },
                ),
                _ => None,
            }
        }
    }

    proof fn record_reads_back(v: GiftView) {
        <EnumField as DefField>::reads_back(v.gift_type);
        <bool as DefField>::reads_back(v.is_wedding_ring);
    }

    fn record(&self) -> (r: Record) {
        let mut fields: Vec<Member> = Vec::new();
        let x0 = new_member("GiftType", &self.gift_type);
        let x1 = new_member("IsWeddingRing", &self.is_wedding_ring);
        fields.push(x0);
        fields.push(x1);
        let r = Record { fields };
        assert(r@ =~= GiftDef::members(self@));
        r
    }

    fn from_record(r: &Record) -> (o: Option<Self>) {
        let m = &r.fields;
        if m.len() != 2 {
            return None;
        }
        proof {
            assert(r@[0] == m@[0]@);
            assert(r@[1] == m@[1]@);
        }
        match (
            <EnumField as DefField>::from_value(&m[0].value),
            <bool as DefField>::from_value(&m[1].value),
        ) {
            (
                Some(gift_type),
                Some(is_wedding_ring),
            ) => Some(
                GiftDef {
                    gift_type,
                    is_wedding_ring,
                },
            ),
            _ => None,
        }
    }
}

/// A family of objects.
#[derive(Debug)]
pub struct ObjectFamilyDef {
    pub objects: Listed<Value>,
}

/// What an [`ObjectFamilyDef`] holds.
pub struct ObjectFamilyView {
    pub objects: ListedView<ValueView>,
}

impl View for ObjectFamilyDef {
    type V = ObjectFamilyView;

    open spec fn view(&self) -> ObjectFamilyView {
        ObjectFamilyView {
            objects: self.objects@,
        }
    }
}

impl ObjectFamilyDef {
    /// The fields where nothing is set.
    pub fn def_default(objects_element: Value) -> (r: ObjectFamilyDef)
        ensures
            r@ == (ObjectFamilyView {
                objects: ListedView { element: objects_element@, items: Seq::empty() },
            }),
    {
        ObjectFamilyDef {
            objects: Listed { element: objects_element, items: Vec::new() },
        }
    }
}

impl DefStruct for ObjectFamilyDef {
    open spec fn members(v: ObjectFamilyView) -> Seq<MemberView> {
        seq![
            record::member_view::<Listed<Value>>("Objects"@, v.objects),
        ]
    }

    open spec fn read_members(m: Seq<MemberView>) -> Option<ObjectFamilyView> {
        if m.len() != 1 {
            None
        } else {
            match <Listed<Value> as DefField>::read(m[0].value) {
                Some(objects) => Some(ObjectFamilyView { objects }),
                None => None,
            }
        }
    }

    proof fn record_reads_back(v: ObjectFamilyView) {
        <Listed<Value> as DefField>::reads_back(v.objects);
    }

    fn record(&self) -> (r: Record) {
        let mut fields: Vec<Member> = Vec::new();
        let x0 = new_member("Objects", &self.objects);
        fields.push(x0);
        let r = Record { fields };
        assert(r@ =~= ObjectFamilyDef::members(self@));
        r
    }

    fn from_record(r: &Record) -> (o: Option<Self>) {
        let m = &r.fields;
        if m.len() != 1 {
            return None;
        }
        proof {
            assert(r@[0] == m@[0]@);
        }
        match <Listed<Value> as DefField>::from_value(&m[0].value) {
            Some(objects) => Some(ObjectFamilyDef { objects }),
            None => None,
        }
    }
}

/// An item that brings back to life.
#[derive(Debug)]
pub struct ResurrectionItemDef {
    pub on_use_particle_effect: i32,
}

/// What a [`ResurrectionItemDef`] holds.
pub struct ResurrectionItemView {
    pub on_use_particle_effect: i32,
}

impl View for ResurrectionItemDef {
    type V = ResurrectionItemView;

    open spec fn view(&self) -> ResurrectionItemView {
        ResurrectionItemView {
            on_use_particle_effect: self.on_use_particle_effect@,
        }
    }
}

impl ResurrectionItemDef {
    /// The fields where nothing is set.
    pub fn def_default() -> (r: ResurrectionItemDef)
        ensures
            r@ == (ResurrectionItemView {
                on_use_particle_effect: 0,
            }),
    {
        ResurrectionItemDef {
            on_use_particle_effect: 0,
        }
    }
}

impl DefStruct for ResurrectionItemDef {
    open spec fn members(v: ResurrectionItemView) -> Seq<MemberView> {
        seq![
            record::member_view::<i32>("OnUseParticleEffect"@, v.on_use_particle_effect),
        ]
    }

    open spec fn read_members(m: Seq<MemberView>) -> Option<ResurrectionItemView> {
        if m.len() != 1 {
            None
        } else {
            match <i32 as DefField>::read(m[0].value) {
                Some(on_use_particle_effect) => Some(ResurrectionItemView { on_use_particle_effect }),
                None => None,
            }
        }
    }

    proof fn record_reads_back(v: ResurrectionItemView) {
        <i32 as DefField>::reads_back(v.on_use_particle_effect);
    }

    fn record(&self) -> (r: Record) {
        let mut fields: Vec<Member> = Vec::new();
        let x0 = new_member("OnUseParticleEffect", &self.on_use_particle_effect);
        fields.push(x0);
        let r = Record { fields };
        assert(r@ =~= ResurrectionItemDef::members(self@));
        r
    }

    fn from_record(r: &Record) -> (o: Option<Self>) {
        let m = &r.fields;
        if m.len() != 1 {
            return None;
        }
        proof {
            assert(r@[0] == m@[0]@);
        }
        match <i32 as DefField>::from_value(&m[0].value) {
            Some(on_use_particle_effect) => Some(ResurrectionItemDef { on_use_particle_effect }),
            None => None,
        }
    }
}

/// Something that can be smashed.
#[derive(Debug)]
pub struct SmashableDef {
    pub smashable: bool,
    pub replacement_object: DefIndex,
    pub smash_particle_emitter: i32,
}

/// What a [`SmashableDef`] holds.
pub struct SmashableView {
    pub smashable: bool,
    pub replacement_object: DefIndex,
    pub smash_particle_emitter: i32,
}

impl View for SmashableDef {
    type V = SmashableView;

    open spec fn view(&self) -> SmashableView {
        SmashableView {
            smashable: self.smashable@,
            replacement_object: self.replacement_object@,
            smash_particle_emitter: self.smash_particle_emitter@,
        }
    }
}

impl SmashableDef {
    /// The fields where nothing is set.
    pub fn def_default() -> (r: SmashableDef)
        ensures
            r@ == (SmashableView {
                smashable: false,
                replacement_object: DefIndex(0),
                smash_particle_emitter: 0,
            }),
    {
        SmashableDef {
            smashable: false,
            replacement_object: DefIndex(0),
            smash_particle_emitter: 0,
        }
    }
}

impl DefStruct for SmashableDef {
    open spec fn members(v: SmashableView) -> Seq<MemberView> {
        seq![
            record::member_view::<bool>("Smashable"@, v.smashable),
            record::member_view::<DefIndex>("ReplacementObject"@, v.replacement_object),
            record::member_view::<i32>("SmashParticleEmitter"@, v.smash_particle_emitter),
        ]
    }

    open spec fn read_members(m: Seq<MemberView>) -> Option<SmashableView> {
        if m.len() != 3 {
            None
        } else {
            match (
                <bool as DefField>::read(m[0].value),
                <DefIndex as DefField>::read(m[1].value),
                <i32 as DefField>::read(m[2].value),
            ) {
                (
                    Some(smashable),
                    Some(replacement_object),
                    Some(smash_particle_emitter),
                ) => Some(
                    SmashableView {
                        smashable,
                        replacement_object,
                        smash_particle_emitter,
                    },
                ),
                _ => None,
            }
        }
    }

    proof fn record_reads_back(v: SmashableView) {
        <bool as DefField>::reads_back(v.smashable);
        <DefIndex as DefField>::reads_back(v.replacement_object);
        <i32 as DefField>::reads_back(v.smash_particle_emitter);
    }

    fn record(&self) -> (r: Record) {
        let mut fields: Vec<Member> = Vec::new();
        let x0 = new_member("Smashable", &self.smashable);
        let x1 = new_member("ReplacementObject", &self.replacement_object);
        let x2 = new_member("SmashParticleEmitter", &self.smash_particle_emitter);
        fields.push(x0);
        fields.push(x1);
        fields.push(x2);
        let r = Record { fields };
        assert(r@ =~= SmashableDef::members(self@));
        r
    }

    fn from_record(r: &Record) -> (o: Option<Self>) {
        let m = &r.fields;
        if m.len() != 3 {
            return None;
        }
        proof {
            assert(r@[0] == m@[0]@);
            assert(r@[1] == m@[1]@);
            assert(r@[2] == m@[2]@);
        }
        match (
            <bool as DefField>::from_value(&m[0].value),
            <DefIndex as DefField>::from_value(&m[1].value),
            <i32 as DefField>::from_value(&m[2].value),
        ) {
            (
                Some(smashable),
                Some(replacement_object),
                Some(smash_particle_emitter),
            ) => Some(
                SmashableDef {
                    smashable,
                    replacement_object,
                    smash_particle_emitter,
                },
            ),
            _ => None,
        }
    }
}

} // verus!
