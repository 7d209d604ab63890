//! Giving an item: what is written into the tables before the item is awarded.
use vstd::prelude::*;

use crate::items::equip::EquipHandler;
use crate::items::item_id::{ItemCategory, ItemId};

verus! {

/// The row of the item lot that is rewritten and awarded.
pub const LOT_ID: u32 = 998990;

/// The row of the custom weapon that is rewritten for weapons with ashes of war.
pub const CUSTOM_WEAPON_ID: u32 = 333;

/// What is written into the custom weapon's row.
#[derive(PartialEq, Eq, Structural, Clone, Copy, Debug)]
pub struct CustomWeapon {
    pub base_wep_id: i32,
    pub reinforce_lv: u8,
    pub gem_id: i32,
}

/// What is written into the lot's row.
#[derive(PartialEq, Eq, Structural, Clone, Copy, Debug)]
pub struct ItemLot {
    pub can_exec_by_friendly_ghost: u8,
    pub can_exec_by_hostile_ghost: u8,
    pub lot_item_base_point01: u16,
    pub lot_item_rarity: i8,
    pub game_clear_offset: i8,
    pub lot_item_id01: i32,
    pub lot_item_category01: i32,
    pub lot_item_num01: u8,
}

/// What is written before an item is awarded.
#[derive(PartialEq, Eq, Structural, Clone, Copy, Debug)]
pub struct LotPlan {
    pub custom: Option<CustomWeapon>,
    pub lot: ItemLot,
}

/// The number of a category in item lots.
pub open spec fn lot_category(category: ItemCategory) -> i32 {
    match category {
        ItemCategory::Weapon => 2,
        ItemCategory::Protector => 3,
        ItemCategory::Accessory => 4,
        ItemCategory::Goods => 1,
        ItemCategory::Gem => 5,
    }
}

/// The custom weapon for a weapon with an ash of war; none for other items, without an ash of
/// war, and where there is no row for it.
pub open spec fn custom_weapon(item: ItemId, gem: Option<ItemId>, has_custom_row: bool) -> Option<
    CustomWeapon,
> {
    match gem {
        Some(g) if g.category == ItemCategory::Gem && item.category == ItemCategory::Weapon
            && has_custom_row => Some(
            CustomWeapon {
                base_wep_id: (item.param_id - item.param_id % 100) as i32,
                reinforce_lv: (item.param_id % 100) as u8,
                gem_id: g.param_id as i32,
            },
        ),
        _ => None,
    }
}

/// The lot for an item: a custom weapon is given once, anything else as often as asked.
pub open spec fn lot_of(item: ItemId, quantity: u8, custom: bool) -> ItemLot {
    ItemLot {
        can_exec_by_friendly_ghost: 1,
        can_exec_by_hostile_ghost: 1,
        lot_item_base_point01: 1000,
        lot_item_rarity: -1i8,
        game_clear_offset: -1i8,
        lot_item_id01: if custom {
            CUSTOM_WEAPON_ID as i32
        } else {
            item.param_id as i32
        },
        lot_item_category01: if custom {
            6
        } else {
            lot_category(item.category)
        },
        lot_item_num01: if custom {
            1
        } else {
            quantity
        },
    }
}

impl EquipHandler {
    /// What is written before an item is awarded.
    pub fn give_item_as_lot(
        &self,
        item_id: ItemId,
        quantity: u8,
        gem: Option<ItemId>,
        has_custom_row: bool,
    ) -> (r: LotPlan)
        requires
            item_id.valid(),
            gem matches Some(g) ==> g.valid(),
        ensures
            r.custom == custom_weapon(item_id, gem, has_custom_row),
            r.lot == lot_of(item_id, quantity, r.custom is Some),
    {
        let mut custom: Option<CustomWeapon> = None;
        if let Some(g) = gem {
            if g.category == ItemCategory::Gem && item_id.category == ItemCategory::Weapon
                && has_custom_row {
                let level = item_id.param_id % 100;
                custom = Some(
                    CustomWeapon {
                        base_wep_id: (item_id.param_id - level) as i32,
                        reinforce_lv: level as u8,
                        gem_id: g.param_id as i32,
                    },
                );
            }
        }
        let using_gem = custom.is_some();
        let category: i32 = match item_id.category {
            ItemCategory::Weapon => 2,
            ItemCategory::Protector => 3,
            ItemCategory::Accessory => 4,
            ItemCategory::Goods => 1,
            ItemCategory::Gem => 5,
        };
        let lot = ItemLot {
            can_exec_by_friendly_ghost: 1,
            can_exec_by_hostile_ghost: 1,
            lot_item_base_point01: 1000,
            lot_item_rarity: -1,
            game_clear_offset: -1,
            lot_item_id01: if using_gem {
                CUSTOM_WEAPON_ID as i32
            } else {
                item_id.param_id as i32
            },
            lot_item_category01: if using_gem {
                6
            } else {
                category
            },
            lot_item_num01: if using_gem {
                1
            } else {
                quantity
            },
        };
        LotPlan { custom, lot }
    }
}

/// A custom weapon's base and level make up the weapon again.
pub proof fn lemma_custom_weapon_is_the_weapon(item: ItemId, gem: Option<ItemId>)
    requires
        item.valid(),
    ensures
        custom_weapon(item, gem, true) matches Some(c) ==> c.base_wep_id + c.reinforce_lv
            == item.param_id,
{
}

} // verus!
