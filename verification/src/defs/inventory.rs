//! The inventory and its graphics.

use vstd::prelude::*;

use crate::defs::field::{DefField, EnumField, EnumFieldView, Listed, ListedView, Mapped, MappedView};
use crate::defs::record;
use crate::defs::record::{new_member, DefStruct};
use crate::lower::mesh::DefIndex;
use crate::single::Single;
use crate::text::base;
use crate::value::{Member, MemberView, Record, Value, ValueView};

verus! {

broadcast use base::group_views;

/// A category of the inventory.
#[derive(Debug)]
pub struct InventoryCategoryDef {
    pub inventory: DefIndex,
    pub number_of_slots: i32,
    pub draw_item_slots: bool,
    pub select_empty_slots: bool,
    pub wrap_highlight_cursor: bool,
    pub category_name: u32,
    pub allow_items_to_fill_more_than_one_slot: bool,
    pub category_identifier: i32,
    pub add_category_on_create: bool,
}

/// What an [`InventoryCategoryDef`] holds.
pub struct InventoryCategoryView {
    pub inventory: DefIndex,
    pub number_of_slots: i32,
    pub draw_item_slots: bool,
    pub select_empty_slots: bool,
    pub wrap_highlight_cursor: bool,
    pub category_name: u32,
    pub allow_items_to_fill_more_than_one_slot: bool,
    pub category_identifier: i32,
    pub add_category_on_create: bool,
}

impl View for InventoryCategoryDef {
    type V = InventoryCategoryView;

    open spec fn view(&self) -> InventoryCategoryView {
        InventoryCategoryView {
            inventory: self.inventory@,
            number_of_slots: self.number_of_slots@,
            draw_item_slots: self.draw_item_slots@,
            select_empty_slots: self.select_empty_slots@,
            wrap_highlight_cursor: self.wrap_highlight_cursor@,
            category_name: self.category_name@,
            allow_items_to_fill_more_than_one_slot: self.allow_items_to_fill_more_than_one_slot@,
            category_identifier: self.category_identifier@,
            add_category_on_create: self.add_category_on_create@,
        }
    }
}

impl InventoryCategoryDef {
    /// The fields where nothing is set.
    pub fn def_default() -> (r: InventoryCategoryDef)
        ensures
            r@ == (InventoryCategoryView {
                inventory: DefIndex(0),
                number_of_slots: 0,
                draw_item_slots: false,
                select_empty_slots: false,
                wrap_highlight_cursor: false,
                category_name: 0,
                allow_items_to_fill_more_than_one_slot: false,
                category_identifier: 0,
                add_category_on_create: true,
            }),
    {
        InventoryCategoryDef {
            inventory: DefIndex(0),
            number_of_slots: 0,
            draw_item_slots: false,
            select_empty_slots: false,
            wrap_highlight_cursor: false,
            category_name: 0,
            allow_items_to_fill_more_than_one_slot: false,
            category_identifier: 0,
            add_category_on_create: true,
        }
    }
}

impl DefStruct for InventoryCategoryDef {
    open spec fn members(v: InventoryCategoryView) -> Seq<MemberView> {
        seq![
            record::member_view::<DefIndex>("Inventory"@, v.inventory),
            record::member_view::<i32>("NumberOfSlots"@, v.number_of_slots),
            record::member_view::<bool>("DrawItemSlots"@, v.draw_item_slots),
            record::member_view::<bool>("SelectEmptySlots"@, v.select_empty_slots),
            record::member_view::<bool>("WrapHighlightCursor"@, v.wrap_highlight_cursor),
            record::member_view::<u32>("CategoryName"@, v.category_name),
            record::member_view::<bool>("AllowItemsToFillMoreThanOneSlot"@, v.allow_items_to_fill_more_than_one_slot),
            record::member_view::<i32>("CategoryIdentifier"@, v.category_identifier),
            record::member_view::<bool>("AddCategoryOnCreate"@, v.add_category_on_create),
        ]
    }

    open spec fn read_members(m: Seq<MemberView>) -> Option<InventoryCategoryView> {
        if m.len() != 9 {
            None
        } else {
            match (
                <DefIndex as DefField>::read(m[0].value),
                <i32 as DefField>::read(m[1].value),
                <bool as DefField>::read(m[2].value),
                <bool as DefField>::read(m[3].value),
                <bool as DefField>::read(m[4].value),
                <u32 as DefField>::read(m[5].value),
                <bool as DefField>::read(m[6].value),
                <i32 as DefField>::read(m[7].value),
                <bool as DefField>::read(m[8].value),
            ) {
                (
                    Some(inventory),
                    Some(number_of_slots),
                    Some(draw_item_slots),
                    Some(select_empty_slots),
                    Some(wrap_highlight_cursor),
                    Some(category_name),
                    Some(allow_items_to_fill_more_than_one_slot),
                    Some(category_identifier),
                    Some(add_category_on_create),
                ) => Some(
                    InventoryCategoryView {
                        inventory,
                        number_of_slots,
                        draw_item_slots,
                        select_empty_slots,
                        wrap_highlight_cursor,
                        category_name,
                        allow_items_to_fill_more_than_one_slot,
                        category_identifier,
                        add_category_on_create,
                    },
                ),
                _ => None,
            }
        }
    }

    proof fn record_reads_back(v: InventoryCategoryView) {
        <DefIndex as DefField>::reads_back(v.inventory);
        <i32 as DefField>::reads_back(v.number_of_slots);
        <bool as DefField>::reads_back(v.draw_item_slots);
        <bool as DefField>::reads_back(v.select_empty_slots);
        <bool as DefField>::reads_back(v.wrap_highlight_cursor);
        <u32 as DefField>::reads_back(v.category_name);
        <bool as DefField>::reads_back(v.allow_items_to_fill_more_than_one_slot);
        <i32 as DefField>::reads_back(v.category_identifier);
        <bool as DefField>::reads_back(v.add_category_on_create);
    }

    fn record(&self) -> (r: Record) {
        let mut fields: Vec<Member> = Vec::new();
        let x0 = new_member("Inventory", &self.inventory);
        let x1 = new_member("NumberOfSlots", &self.number_of_slots);
        let x2 = new_member("DrawItemSlots", &self.draw_item_slots);
        let x3 = new_member("SelectEmptySlots", &self.select_empty_slots);
        let x4 = new_member("WrapHighlightCursor", &self.wrap_highlight_cursor);
        let x5 = new_member("CategoryName", &self.category_name);
        let x6 = new_member("AllowItemsToFillMoreThanOneSlot", &self.allow_items_to_fill_more_than_one_slot);
        let x7 = new_member("CategoryIdentifier", &self.category_identifier);
        let x8 = new_member("AddCategoryOnCreate", &self.add_category_on_create);
        fields.push(x0);
        fields.push(x1);
        fields.push(x2);
        fields.push(x3);
        fields.push(x4);
        fields.push(x5);
        fields.push(x6);
        fields.push(x7);
        fields.push(x8);
        let r = Record { fields };
        assert(r@ =~= InventoryCategoryDef::members(self@));
        r
    }

    fn from_record(r: &Record) -> (o: Option<Self>) {
        let m = &r.fields;
        if m.len() != 9 {
            return None;
        }
        proof {
            assert(r@[0] == m@[0]@);
            assert(r@[1] == m@[1]@);
            assert(r@[2] == m@[2]@);
            assert(r@[3] == m@[3]@);
            assert(r@[4] == m@[4]@);
            assert(r@[5] == m@[5]@);
            assert(r@[6] == m@[6]@);
            assert(r@[7] == m@[7]@);
            assert(r@[8] == m@[8]@);
        }
        match (
            <DefIndex as DefField>::from_value(&m[0].value),
            <i32 as DefField>::from_value(&m[1].value),
            <bool as DefField>::from_value(&m[2].value),
            <bool as DefField>::from_value(&m[3].value),
            <bool as DefField>::from_value(&m[4].value),
            <u32 as DefField>::from_value(&m[5].value),
            <bool as DefField>::from_value(&m[6].value),
            <i32 as DefField>::from_value(&m[7].value),
            <bool as DefField>::from_value(&m[8].value),
        ) {
            (
                Some(inventory),
                Some(number_of_slots),
                Some(draw_item_slots),
                Some(select_empty_slots),
                Some(wrap_highlight_cursor),
                Some(category_name),
                Some(allow_items_to_fill_more_than_one_slot),
                Some(category_identifier),
                Some(add_category_on_create),
            ) => Some(
                InventoryCategoryDef {
                    inventory,
                    number_of_slots,
                    draw_item_slots,
                    select_empty_slots,
                    wrap_highlight_cursor,
                    category_name,
                    allow_items_to_fill_more_than_one_slot,
                    category_identifier,
                    add_category_on_create,
                },
            ),
            _ => None,
        }
    }
}

/// An item of the inventory.
#[derive(Debug)]
pub struct InventoryItemDef {
    pub graphic: Value,
    pub item_description: u32,
    pub item_details: u32,
    pub inventory_category: DefIndex,
    pub max_number_items: i32,
    pub slot_index: i32,
    pub activation_time: Single,
    pub use_button_action: EnumField,
    pub inventory_type: i32,
    pub orientation: i32,
    pub hero_ability_def: DefIndex,
    pub is_sellable: bool,
    pub is_buyable: bool,
    pub is_confiscatable: bool,
    pub do_not_persist_until_quest_completed: bool,
    pub do_not_auto_pick_up: bool,
    pub auto_pick_up_after_first_pick_up: bool,
    pub item_to_select_upon_removal: DefIndex,
    pub tutorial_category: EnumField,
    pub ui_inventory_category: i32,
}

/// What an [`InventoryItemDef`] holds.
pub struct InventoryItemView {
    pub graphic: ValueView,
    pub item_description: u32,
    pub item_details: u32,
    pub inventory_category: DefIndex,
    pub max_number_items: i32,
    pub slot_index: i32,
    pub activation_time: Single,
    pub use_button_action: EnumFieldView,
    pub inventory_type: i32,
    pub orientation: i32,
    pub hero_ability_def: DefIndex,
    pub is_sellable: bool,
    pub is_buyable: bool,
    pub is_confiscatable: bool,
    pub do_not_persist_until_quest_completed: bool,
    pub do_not_auto_pick_up: bool,
    pub auto_pick_up_after_first_pick_up: bool,
    pub item_to_select_upon_removal: DefIndex,
    pub tutorial_category: EnumFieldView,
    pub ui_inventory_category: i32,
}

impl View for InventoryItemDef {
    type V = InventoryItemView;

    open spec fn view(&self) -> InventoryItemView {
        InventoryItemView {
            graphic: self.graphic@,
            item_description: self.item_description@,
            item_details: self.item_details@,
            inventory_category: self.inventory_category@,
            max_number_items: self.max_number_items@,
            slot_index: self.slot_index@,
            activation_time: self.activation_time@,
            use_button_action: self.use_button_action@,
            inventory_type: self.inventory_type@,
            orientation: self.orientation@,
            hero_ability_def: self.hero_ability_def@,
            is_sellable: self.is_sellable@,
            is_buyable: self.is_buyable@,
            is_confiscatable: self.is_confiscatable@,
            do_not_persist_until_quest_completed: self.do_not_persist_until_quest_completed@,
            do_not_auto_pick_up: self.do_not_auto_pick_up@,
            auto_pick_up_after_first_pick_up: self.auto_pick_up_after_first_pick_up@,
            item_to_select_upon_removal: self.item_to_select_upon_removal@,
            tutorial_category: self.tutorial_category@,
            ui_inventory_category: self.ui_inventory_category@,
        }
    }
}

impl InventoryItemDef {
    /// The fields where nothing is set.
    pub fn def_default(graphic: Value, use_button_action: EnumField, tutorial_category: EnumField) -> (r: InventoryItemDef)
        ensures
            r@ == (InventoryItemView {
                graphic: graphic@,
                item_description: 0,
                item_details: 0,
                inventory_category: DefIndex(0),
                max_number_items: 1,
                slot_index: -1i32,
                activation_time: Single { bits: 0 },
                use_button_action: use_button_action@,
                inventory_type: 17,
                orientation: 0,
                hero_ability_def: DefIndex(0),
                is_sellable: true,
                is_buyable: true,
                is_confiscatable: true,
                do_not_persist_until_quest_completed: false,
                do_not_auto_pick_up: false,
                auto_pick_up_after_first_pick_up: false,
                item_to_select_upon_removal: DefIndex(0),
                tutorial_category: tutorial_category@,
                ui_inventory_category: 4,
            }),
    {
        InventoryItemDef {
            graphic: graphic,
            item_description: 0,
            item_details: 0,
            inventory_category: DefIndex(0),
            max_number_items: 1,
            slot_index: -1,
            activation_time: Single { bits: 0 },
            use_button_action: use_button_action,
            inventory_type: 17,
            orientation: 0,
            hero_ability_def: DefIndex(0),
            is_sellable: true,
            is_buyable: true,
            is_confiscatable: true,
            do_not_persist_until_quest_completed: false,
            do_not_auto_pick_up: false,
            auto_pick_up_after_first_pick_up: false,
            item_to_select_upon_removal: DefIndex(0),
            tutorial_category: tutorial_category,
            ui_inventory_category: 4,
        }
    }
}

impl DefStruct for InventoryItemDef {
    open spec fn members(v: InventoryItemView) -> Seq<MemberView> {
        seq![
            record::member_view::<Value>("Graphic"@, v.graphic),
            record::member_view::<u32>("ItemDescription"@, v.item_description),
            record::member_view::<u32>("ItemDetails"@, v.item_details),
            record::member_view::<DefIndex>("InventoryCategory"@, v.inventory_category),
            record::member_view::<i32>("MaxNumberItems"@, v.max_number_items),
            record::member_view::<i32>("SlotIndex"@, v.slot_index),
            record::member_view::<Single>("ActivationTime"@, v.activation_time),
            record::member_view::<EnumField>("UseButtonAction"@, v.use_button_action),
            record::member_view::<i32>("InventoryType"@, v.inventory_type),
            record::member_view::<i32>("Orientation"@, v.orientation),
            record::member_view::<DefIndex>("HeroAbilityDef"@, v.hero_ability_def),
            record::member_view::<bool>("IsSellable"@, v.is_sellable),
            record::member_view::<bool>("IsBuyable"@, v.is_buyable),
            record::member_view::<bool>("IsConfiscatable"@, v.is_confiscatable),
            record::member_view::<bool>("DoNotPersistUntilQuestCompleted"@, v.do_not_persist_until_quest_completed),
            record::member_view::<bool>("DoNotAutoPickUp"@, v.do_not_auto_pick_up),
            record::member_view::<bool>("AutoPickUpAfterFirstPickUp"@, v.auto_pick_up_after_first_pick_up),
            record::member_view::<DefIndex>("ItemToSelectUponRemoval"@, v.item_to_select_upon_removal),
            record::member_view::<EnumField>("TutorialCategory"@, v.tutorial_category),
            record::member_view::<i32>("UIInventoryCategory"@, v.ui_inventory_category),
        ]
    }

    open spec fn read_members(m: Seq<MemberView>) -> Option<InventoryItemView> {
        if m.len() != 20 {
            None
        } else {
            match (
                <Value as DefField>::read(m[0].value),
                <u32 as DefField>::read(m[1].value),
                <u32 as DefField>::read(m[2].value),
                <DefIndex as DefField>::read(m[3].value),
                <i32 as DefField>::read(m[4].value),
                <i32 as DefField>::read(m[5].value),
                <Single as DefField>::read(m[6].value),
                <EnumField as DefField>::read(m[7].value),
                <i32 as DefField>::read(m[8].value),
                <i32 as DefField>::read(m[9].value),
                <DefIndex as DefField>::read(m[10].value),
                <bool as DefField>::read(m[11].value),
                <bool as DefField>::read(m[12].value),
                <bool as DefField>::read(m[13].value),
                <bool as DefField>::read(m[14].value),
                <bool as DefField>::read(m[15].value),
                <bool as DefField>::read(m[16].value),
                <DefIndex as DefField>::read(m[17].value),
                <EnumField as DefField>::read(m[18].value),
                <i32 as DefField>::read(m[19].value),
            ) {
                (
                    Some(graphic),
                    Some(item_description),
                    Some(item_details),
                    Some(inventory_category),
                    Some(max_number_items),
                    Some(slot_index),
                    Some(activation_time),
                    Some(use_button_action),
                    Some(inventory_type),
                    Some(orientation),
                    Some(hero_ability_def),
                    Some(is_sellable),
                    Some(is_buyable),
                    Some(is_confiscatable),
                    Some(do_not_persist_until_quest_completed),
                    Some(do_not_auto_pick_up),
                    Some(auto_pick_up_after_first_pick_up),
                    Some(item_to_select_upon_removal),
                    Some(tutorial_category),
                    Some(ui_inventory_category),
                ) => Some(
                    InventoryItemView {
                        graphic,
                        item_description,
                        item_details,
                        inventory_category,
                        max_number_items,
                        slot_index,
                        activation_time,
                        use_button_action,
                        inventory_type,
                        orientation,
                        hero_ability_def,
                        is_sellable,
                        is_buyable,
                        is_confiscatable,
                        do_not_persist_until_quest_completed,
                        do_not_auto_pick_up,
                        auto_pick_up_after_first_pick_up,
                        item_to_select_upon_removal,
                        tutorial_category,
                        ui_inventory_category,
                    },
                ),
                _ => None,
            }
        }
    }

    proof fn record_reads_back(v: InventoryItemView) {
        <Value as DefField>::reads_back(v.graphic);
        <u32 as DefField>::reads_back(v.item_description);
        <u32 as DefField>::reads_back(v.item_details);
        <DefIndex as DefField>::reads_back(v.inventory_category);
        <i32 as DefField>::reads_back(v.max_number_items);
        <i32 as DefField>::reads_back(v.slot_index);
        <Single as DefField>::reads_back(v.activation_time);
        <EnumField as DefField>::reads_back(v.use_button_action);
        <i32 as DefField>::reads_back(v.inventory_type);
        <i32 as DefField>::reads_back(v.orientation);
        <DefIndex as DefField>::reads_back(v.hero_ability_def);
        <bool as DefField>::reads_back(v.is_sellable);
        <bool as DefField>::reads_back(v.is_buyable);
        <bool as DefField>::reads_back(v.is_confiscatable);
        <bool as DefField>::reads_back(v.do_not_persist_until_quest_completed);
        <bool as DefField>::reads_back(v.do_not_auto_pick_up);
        <bool as DefField>::reads_back(v.auto_pick_up_after_first_pick_up);
        <DefIndex as DefField>::reads_back(v.item_to_select_upon_removal);
        <EnumField as DefField>::reads_back(v.tutorial_category);
        <i32 as DefField>::reads_back(v.ui_inventory_category);
    }

    fn record(&self) -> (r: Record) {
        let mut fields: Vec<Member> = Vec::new();
        let x0 = new_member("Graphic", &self.graphic);
        let x1 = new_member("ItemDescription", &self.item_description);
        let x2 = new_member("ItemDetails", &self.item_details);
        let x3 = new_member("InventoryCategory", &self.inventory_category);
        let x4 = new_member("MaxNumberItems", &self.max_number_items);
        let x5 = new_member("SlotIndex", &self.slot_index);
        let x6 = new_member("ActivationTime", &self.activation_time);
        let x7 = new_member("UseButtonAction", &self.use_button_action);
        let x8 = new_member("InventoryType", &self.inventory_type);
        let x9 = new_member("Orientation", &self.orientation);
        let x10 = new_member("HeroAbilityDef", &self.hero_ability_def);
        let x11 = new_member("IsSellable", &self.is_sellable);
        let x12 = new_member("IsBuyable", &self.is_buyable);
        let x13 = new_member("IsConfiscatable", &self.is_confiscatable);
        let x14 = new_member("DoNotPersistUntilQuestCompleted", &self.do_not_persist_until_quest_completed);
        let x15 = new_member("DoNotAutoPickUp", &self.do_not_auto_pick_up);
        let x16 = new_member("AutoPickUpAfterFirstPickUp", &self.auto_pick_up_after_first_pick_up);
        let x17 = new_member("ItemToSelectUponRemoval", &self.item_to_select_upon_removal);
        let x18 = new_member("TutorialCategory", &self.tutorial_category);
        let x19 = new_member("UIInventoryCategory", &self.ui_inventory_category);
        fields.push(x0);
        fields.push(x1);
        fields.push(x2);
        fields.push(x3);
        fields.push(x4);
        fields.push(x5);
        fields.push(x6);
        fields.push(x7);
        fields.push(x8);
        fields.push(x9);
        fields.push(x10);
        fields.push(x11);
        fields.push(x12);
        fields.push(x13);
        fields.push(x14);
        fields.push(x15);
        fields.push(x16);
        fields.push(x17);
        fields.push(x18);
        fields.push(x19);
        let r = Record { fields };
        assert(r@ =~= InventoryItemDef::members(self@));
        r
    }

    fn from_record(r: &Record) -> (o: Option<Self>) {
        let m = &r.fields;
        if m.len() != 20 {
            return None;
        }
        proof {
            assert(r@[0] == m@[0]@);
            assert(r@[1] == m@[1]@);
            assert(r@[2] == m@[2]@);
            assert(r@[3] == m@[3]@);
            assert(r@[4] == m@[4]@);
            assert(r@[5] == m@[5]@);
            assert(r@[6] == m@[6]@);
            assert(r@[7] == m@[7]@);
            assert(r@[8] == m@[8]@);
            assert(r@[9] == m@[9]@);
            assert(r@[10] == m@[10]@);
            assert(r@[11] == m@[11]@);
            assert(r@[12] == m@[12]@);
            assert(r@[13] == m@[13]@);
            assert(r@[14] == m@[14]@);
            assert(r@[15] == m@[15]@);
            assert(r@[16] == m@[16]@);
            assert(r@[17] == m@[17]@);
            assert(r@[18] == m@[18]@);
            assert(r@[19] == m@[19]@);
        }
        match (
            <Value as DefField>::from_value(&m[0].value),
            <u32 as DefField>::from_value(&m[1].value),
            <u32 as DefField>::from_value(&m[2].value),
            <DefIndex as DefField>::from_value(&m[3].value),
            <i32 as DefField>::from_value(&m[4].value),
            <i32 as DefField>::from_value(&m[5].value),
            <Single as DefField>::from_value(&m[6].value),
            <EnumField as DefField>::from_value(&m[7].value),
            <i32 as DefField>::from_value(&m[8].value),
            <i32 as DefField>::from_value(&m[9].value),
            <DefIndex as DefField>::from_value(&m[10].value),
            <bool as DefField>::from_value(&m[11].value),
            <bool as DefField>::from_value(&m[12].value),
            <bool as DefField>::from_value(&m[13].value),
            <bool as DefField>::from_value(&m[14].value),
            <bool as DefField>::from_value(&m[15].value),
            <bool as DefField>::from_value(&m[16].value),
            <DefIndex as DefField>::from_value(&m[17].value),
            <EnumField as DefField>::from_value(&m[18].value),
            <i32 as DefField>::from_value(&m[19].value),
        ) {
            (
                Some(graphic),
                Some(item_description),
                Some(item_details),
                Some(inventory_category),
                Some(max_number_items),
                Some(slot_index),
                Some(activation_time),
                Some(use_button_action),
                Some(inventory_type),
                Some(orientation),
                Some(hero_ability_def),
                Some(is_sellable),
                Some(is_buyable),
                Some(is_confiscatable),
                Some(do_not_persist_until_quest_completed),
                Some(do_not_auto_pick_up),
                Some(auto_pick_up_after_first_pick_up),
                Some(item_to_select_upon_removal),
                Some(tutorial_category),
                Some(ui_inventory_category),
            ) => Some(
                InventoryItemDef {
                    graphic,
                    item_description,
                    item_details,
                    inventory_category,
                    max_number_items,
                    slot_index,
                    activation_time,
                    use_button_action,
                    inventory_type,
                    orientation,
                    hero_ability_def,
                    is_sellable,
                    is_buyable,
                    is_confiscatable,
                    do_not_persist_until_quest_completed,
                    do_not_auto_pick_up,
                    auto_pick_up_after_first_pick_up,
                    item_to_select_upon_removal,
                    tutorial_category,
                    ui_inventory_category,
                },
            ),
            _ => None,
        }
    }
}

/// The graphics of a language.
#[derive(Debug)]
pub struct UILocaleGraphicsDef {
    pub world_map_region_name: Mapped<u32, u32>,
    pub help_screen_graphics: Listed<u32>,
    pub help_ring_pic: u32,
}

/// What an [`UILocaleGraphicsDef`] holds.
pub struct UILocaleGraphicsView {
    pub world_map_region_name: MappedView<u32, u32>,
    pub help_screen_graphics: ListedView<u32>,
    pub help_ring_pic: u32,
}

impl View for UILocaleGraphicsDef {
    type V = UILocaleGraphicsView;

    open spec fn view(&self) -> UILocaleGraphicsView {
        UILocaleGraphicsView {
            world_map_region_name: self.world_map_region_name@,
            help_screen_graphics: self.help_screen_graphics@,
            help_ring_pic: self.help_ring_pic@,
        }
    }
}

impl UILocaleGraphicsDef {
    /// The fields where nothing is set.
    pub fn def_default() -> (r: UILocaleGraphicsDef)
        ensures
            r@ == (UILocaleGraphicsView {
                world_map_region_name: MappedView { ordered: true, key: 0, value: 0, entries: Seq::empty() },
                help_screen_graphics: ListedView { element: 0, items: Seq::empty() },
                help_ring_pic: 0,
            }),
    {
        UILocaleGraphicsDef {
            world_map_region_name: Mapped { ordered: true, key: 0, value: 0, entries: Vec::new() },
            help_screen_graphics: Listed { element: 0, items: Vec::new() },
            help_ring_pic: 0,
        }
    }
}

impl DefStruct for UILocaleGraphicsDef {
    open spec fn members(v: UILocaleGraphicsView) -> Seq<MemberView> {
        seq![
            record::member_view::<Mapped<u32, u32>>("WorldMapRegionName"@, v.world_map_region_name),
            record::member_view::<Listed<u32>>("HelpScreenGraphics"@, v.help_screen_graphics),
            record::member_view::<u32>("HelpRingPic"@, v.help_ring_pic),
        ]
    }

    open spec fn read_members(m: Seq<MemberView>) -> Option<UILocaleGraphicsView> {
        if m.len() != 3 {
            None
        } else {
            match (
                <Mapped<u32, u32> as DefField>::read(m[0].value),
                <Listed<u32> as DefField>::read(m[1].value),
                <u32 as DefField>::read(m[2].value),
            ) {
                (
                    Some(world_map_region_name),
                    Some(help_screen_graphics),
                    Some(help_ring_pic),
                ) => Some(
                    UILocaleGraphicsView {
                        world_map_region_name,
                        help_screen_graphics,
                        help_ring_pic,
                    },
                ),
                _ => None,
            }
        }
    }

    proof fn record_reads_back(v: UILocaleGraphicsView) {
        <Mapped<u32, u32> as DefField>::reads_back(v.world_map_region_name);
        <Listed<u32> as DefField>::reads_back(v.help_screen_graphics);
        <u32 as DefField>::reads_back(v.help_ring_pic);
    }

    fn record(&self) -> (r: Record) {
        let mut fields: Vec<Member> = Vec::new();
        let x0 = new_member("WorldMapRegionName", &self.world_map_region_name);
        let x1 = new_member("HelpScreenGraphics", &self.help_screen_graphics);
        let x2 = new_member("HelpRingPic", &self.help_ring_pic);
        fields.push(x0);
        fields.push(x1);
        fields.push(x2);
        let r = Record { fields };
        assert(r@ =~= UILocaleGraphicsDef::members(self@));
        r
    }

    fn from_record(r: &Record) -> (o: Option<Self>) {
        let m = &r.fields;
        if m.len() != 3 {
            return None;
        }
        proof {
            assert(r@[0] == m@[0]@);
            assert(r@[1] == m@[1]@);
            assert(r@[2] == m@[2]@);
        }
        match (
            <Mapped<u32, u32> as DefField>::from_value(&m[0].value),
            <Listed<u32> as DefField>::from_value(&m[1].value),
            <u32 as DefField>::from_value(&m[2].value),
        ) {
            (
                Some(world_map_region_name),
                Some(help_screen_graphics),
                Some(help_ring_pic),
            ) => Some(
                UILocaleGraphicsDef {
                    world_map_region_name,
                    help_screen_graphics,
                    help_ring_pic,
                },
            ),
            _ => None,
        }
    }
}

} // verus!
