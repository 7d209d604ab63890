//! Laws of items: what is given, and where it is equipped.
use vstd::prelude::*;

use crate::items::data;
use crate::items::data::{ItemModel, UpgradeType};
use crate::items::equip;
use crate::items::equip::{EquipRows, EquipStart, EquipStatus, EquipStep, PlanModel};
use crate::items::inventory;
use crate::items::inventory::{ChrAsmSlot, Inventory, PlayerEquipment};
use crate::items::item_id::{ItemCategory, ItemId};
use crate::items::updater;
use crate::items::updater::{DescModel, PendingModel, PendingStep, UpdaterModel};

verus! {

// --- Weapons

/// Whether a place is one of the left hand's.
pub open spec fn is_left_place(slot: ChrAsmSlot) -> bool {
    slot == ChrAsmSlot::WeaponLeft1 || slot == ChrAsmSlot::WeaponLeft2 || slot
        == ChrAsmSlot::WeaponLeft3
}

/// Whether a place is one of the right hand's.
pub open spec fn is_right_place(slot: ChrAsmSlot) -> bool {
    slot == ChrAsmSlot::WeaponRight1 || slot == ChrAsmSlot::WeaponRight2 || slot
        == ChrAsmSlot::WeaponRight3
}

/// Whether all the places of a plan, the target and those that are cleared, are of a kind.
pub open spec fn all_places(plan: PlanModel, kind: spec_fn(ChrAsmSlot) -> bool) -> bool {
    match plan {
        PlanModel::Slot { clear, target } => kind(target) && forall|i: int|
            0 <= i < clear.len() ==> kind(#[trigger] clear[i]),
        PlanModel::ClearOnly { clear } => forall|i: int|
            0 <= i < clear.len() ==> kind(#[trigger] clear[i]),
        _ => false,
    }
}

/// The places that a plan clears.
pub open spec fn clears(plan: PlanModel, slot: ChrAsmSlot) -> bool {
    match plan {
        PlanModel::Slot { clear, .. } => clear.contains(slot),
        PlanModel::ClearOnly { clear } => clear.contains(slot),
        _ => false,
    }
}

/// What is worn at the place with a number.
pub open spec fn worn_item(equipment: PlayerEquipment, number: int) -> Option<ItemId> {
    match equipment.inventory.entry_at(equipment.equipped_indices@[number] as int) {
        Some(e) => Some(e.item_id),
        None => None,
    }
}

/// Whether the place with a number holds a weapon other than fists.
pub open spec fn holds_weapon(equipment: PlayerEquipment, number: int) -> bool {
    worn_item(equipment, number) matches Some(id) && !(id.category == ItemCategory::Weapon
        && id.param_id == 110000)
}

proof fn lemma_cleared(equipment: PlayerEquipment, left: bool, selected: u32)
    ensures
        ({
            let clear = equip::cleared_slots(equipment, left, selected, 3);
            let places = if left {
                seq![
                    ChrAsmSlot::WeaponLeft1,
                    ChrAsmSlot::WeaponLeft2,
                    ChrAsmSlot::WeaponLeft3,
                ]
            } else {
                seq![
                    ChrAsmSlot::WeaponRight1,
                    ChrAsmSlot::WeaponRight2,
                    ChrAsmSlot::WeaponRight3,
                ]
            };
            let first = if left {
                0int
            } else {
                1int
            };
            &&& clear.no_duplicates()
            &&& forall|i: int| 0 <= i < clear.len() ==> places.contains(#[trigger] clear[i])
            &&& clear.contains(places[0]) <==> selected != 0 && holds_weapon(equipment, first)
            &&& clear.contains(places[1]) <==> selected != 1 && holds_weapon(equipment, first + 2)
            &&& clear.contains(places[2]) <==> selected != 2 && holds_weapon(equipment, first + 4)
        }),
{
    reveal_with_fuel(equip::cleared_slots, 4);
    let clear = equip::cleared_slots(equipment, left, selected, 3);
    let a = equip::hand_slot(0, left);
    let b = equip::hand_slot(1, left);
    let c = equip::hand_slot(2, left);
    let places = seq![a, b, c];
    let first = if left {
        0int
    } else {
        1int
    };
    assert(places[0] == a && places[1] == b && places[2] == c);
    let x = selected != 0 && equip::is_armed(equipment, a);
    let y = selected != 1 && equip::is_armed(equipment, b);
    let z = selected != 2 && equip::is_armed(equipment, c);
    let one: Seq<ChrAsmSlot> = if x {
        seq![].push(a)
    } else {
        seq![]
    };
    let two = if y {
        one.push(b)
    } else {
        one
    };
    let three = if z {
        two.push(c)
    } else {
        two
    };
    assert(clear == three);
    if x {
        assert(clear[0] == a);
    }
    if y {
        assert(clear[one.len() as int] == b);
    }
    if z {
        assert(clear[two.len() as int] == c);
    }
    assert(if left {
        places =~= seq![
            ChrAsmSlot::WeaponLeft1,
            ChrAsmSlot::WeaponLeft2,
            ChrAsmSlot::WeaponLeft3,
        ]
    } else {
        places =~= seq![
            ChrAsmSlot::WeaponRight1,
            ChrAsmSlot::WeaponRight2,
            ChrAsmSlot::WeaponRight3,
        ]
    });
}

/// Which hand a weapon goes to, by its type: shields, torches, and what casts spells to the left,
/// everything else that is not ammunition to the right. Only places of that hand are cleared.
pub proof fn lemma_weapon_hand(
    data: ItemModel,
    equipment: PlayerEquipment,
    order: Seq<ItemId>,
    rows: EquipRows,
    item: ItemId,
)
    requires
        item.category == ItemCategory::Weapon,
    ensures
        ({
            let row = (item.param_id - item.param_id % 100) as u32;
            let plan = equip::plan_of(data, equipment, order, rows, item);
            let kind = rows.weapons@[row];
            if !rows.weapons@.contains_key(row) {
                plan == PlanModel::Stop(EquipStatus::Missing)
            } else if kind == 81 || kind == 82 || kind == 83 || kind == 84 {
                plan == PlanModel::Slot { clear: seq![], target: ChrAsmSlot::Arrow1 }
            } else if kind == 85 || kind == 86 {
                plan == PlanModel::Slot { clear: seq![], target: ChrAsmSlot::Bolt1 }
            } else if kind == 65 || kind == 67 || kind == 69 || kind == 90 || kind == 57 || kind
                == 61 {
                all_places(plan, |slot: ChrAsmSlot| is_left_place(slot))
            } else {
                all_places(plan, |slot: ChrAsmSlot| is_right_place(slot))
            }
        }),
{
    let row = (item.param_id - item.param_id % 100) as u32;
    let plan = equip::plan_of(data, equipment, order, rows, item);
    let kind = rows.weapons@[row];
    lemma_cleared(equipment, true, equipment.left_weapon_slot);
    lemma_cleared(equipment, false, equipment.right_weapon_slot);
    if rows.weapons@.contains_key(row) && !(81 <= kind <= 86) {
        let clear = match plan {
            PlanModel::Slot { clear, .. } => clear,
            PlanModel::ClearOnly { clear } => clear,
            _ => seq![],
        };
        let left = kind == 65 || kind == 67 || kind == 69 || kind == 90 || kind == 57 || kind == 61;
        assert forall|i: int| 0 <= i < clear.len() implies (if left {
            is_left_place(#[trigger] clear[i])
        } else {
            is_right_place(clear[i])
        }) by {
            let places = if left {
                seq![
                    ChrAsmSlot::WeaponLeft1,
                    ChrAsmSlot::WeaponLeft2,
                    ChrAsmSlot::WeaponLeft3,
                ]
            } else {
                seq![
                    ChrAsmSlot::WeaponRight1,
                    ChrAsmSlot::WeaponRight2,
                    ChrAsmSlot::WeaponRight3,
                ]
            };
            assert(places.contains(clear[i]));
            let k = choose|k: int| 0 <= k < places.len() && places[k] == clear[i];
            assert(k == 0 || k == 1 || k == 2);
        }
    }
}

/// A weapon goes to the place of its hand that is selected, and to none where that is not one of
/// the three. The other places of the hand are cleared, each once, where they hold a weapon.
pub proof fn lemma_weapon_place(
    data: ItemModel,
    equipment: PlayerEquipment,
    order: Seq<ItemId>,
    rows: EquipRows,
    item: ItemId,
)
    requires
        item.category == ItemCategory::Weapon,
        rows.weapons@.contains_key((item.param_id - item.param_id % 100) as u32),
    ensures
        ({
            let plan = equip::plan_of(data, equipment, order, rows, item);
            let kind = rows.weapons@[(item.param_id - item.param_id % 100) as u32];
            let left = equipment.left_weapon_slot;
            let right = equipment.right_weapon_slot;
            let hand = if kind == 65 || kind == 67 || kind == 69 || kind == 90 || kind == 57
                || kind == 61 {
                left
            } else {
                right
            };
            if 81 <= kind <= 86 {
                true
            } else {
                &&& hand >= 3 <==> plan is ClearOnly
                &&& hand < 3 ==> plan is Slot && plan->Slot_clear.no_duplicates()
                &&& hand >= 3 ==> plan->ClearOnly_clear.no_duplicates()
                &&& if kind == 65 || kind == 67 || kind == 69 || kind == 90 || kind == 57 || kind
                    == 61 {
                    &&& left == 0 ==> plan->target == ChrAsmSlot::WeaponLeft1
                    &&& left == 1 ==> plan->target == ChrAsmSlot::WeaponLeft2
                    &&& left == 2 ==> plan->target == ChrAsmSlot::WeaponLeft3
                    &&& clears(plan, ChrAsmSlot::WeaponLeft1) <==> left != 0 && holds_weapon(
                        equipment,
                        0,
                    )
                    &&& clears(plan, ChrAsmSlot::WeaponLeft2) <==> left != 1 && holds_weapon(
                        equipment,
                        2,
                    )
                    &&& clears(plan, ChrAsmSlot::WeaponLeft3) <==> left != 2 && holds_weapon(
                        equipment,
                        4,
                    )
                } else {
                    &&& right == 0 ==> plan->target == ChrAsmSlot::WeaponRight1
                    &&& right == 1 ==> plan->target == ChrAsmSlot::WeaponRight2
                    &&& right == 2 ==> plan->target == ChrAsmSlot::WeaponRight3
                    &&& clears(plan, ChrAsmSlot::WeaponRight1) <==> right != 0 && holds_weapon(
                        equipment,
                        1,
                    )
                    &&& clears(plan, ChrAsmSlot::WeaponRight2) <==> right != 1 && holds_weapon(
                        equipment,
                        3,
                    )
                    &&& clears(plan, ChrAsmSlot::WeaponRight3) <==> right != 2 && holds_weapon(
                        equipment,
                        5,
                    )
                }
            }
        }),
{
    lemma_cleared(equipment, true, equipment.left_weapon_slot);
    lemma_cleared(equipment, false, equipment.right_weapon_slot);
    let plan = equip::plan_of(data, equipment, order, rows, item);
    let kind = rows.weapons@[(item.param_id - item.param_id % 100) as u32];
    let l = seq![ChrAsmSlot::WeaponLeft1, ChrAsmSlot::WeaponLeft2, ChrAsmSlot::WeaponLeft3];
    let r = seq![ChrAsmSlot::WeaponRight1, ChrAsmSlot::WeaponRight2, ChrAsmSlot::WeaponRight3];
    assert(l[0] == ChrAsmSlot::WeaponLeft1 && l[1] == ChrAsmSlot::WeaponLeft2 && l[2]
        == ChrAsmSlot::WeaponLeft3);
    assert(r[0] == ChrAsmSlot::WeaponRight1 && r[1] == ChrAsmSlot::WeaponRight2 && r[2]
        == ChrAsmSlot::WeaponRight3);
}

// --- Armour, talismans and other items

/// Where other items go: armour by its kind, spells to be memorised; ashes of war, and goods that
/// are no spells, nowhere.
pub proof fn lemma_other_places(
    data: ItemModel,
    equipment: PlayerEquipment,
    order: Seq<ItemId>,
    rows: EquipRows,
    item: ItemId,
)
    ensures
        ({
            let plan = equip::plan_of(data, equipment, order, rows, item);
            &&& item.category == ItemCategory::Gem ==> plan == PlanModel::Stop(
                EquipStatus::NotNeeded,
            )
            &&& item.category == ItemCategory::Goods ==> plan == if data.spell_slots.contains_key(
                item.raw(),
            ) {
                PlanModel::Spell
            } else {
                PlanModel::Stop(EquipStatus::NotNeeded)
            }
            &&& item.category == ItemCategory::Protector ==> if !rows.protectors@.contains_key(
                item.param_id,
            ) {
                plan == PlanModel::Stop(EquipStatus::Missing)
            } else {
                let kind = rows.protectors@[item.param_id];
                &&& kind == 0 ==> plan == PlanModel::Slot {
                    clear: seq![],
                    target: ChrAsmSlot::ProtectorHead,
                }
                &&& kind == 1 ==> plan == PlanModel::Slot {
                    clear: seq![],
                    target: ChrAsmSlot::ProtectorChest,
                }
                &&& kind == 2 ==> plan == PlanModel::Slot {
                    clear: seq![],
                    target: ChrAsmSlot::ProtectorHands,
                }
                &&& kind == 3 ==> plan == PlanModel::Slot {
                    clear: seq![],
                    target: ChrAsmSlot::ProtectorLegs,
                }
                &&& kind > 3 ==> plan == PlanModel::Stop(EquipStatus::NotNeeded)
            }
        }),
{
}

/// Whether a talisman cannot be worn beside another: the same one, or one of its group.
pub open spec fn in_the_way(data: ItemModel, item: ItemId, worn: Option<ItemId>) -> bool {
    worn matches Some(id) && (id == item || (data.groups.contains_key(item.raw())
        && data.groups.contains_key(id.raw()) && data.groups[item.raw()] == data.groups[id.raw()]))
}

/// The talismans that are worn: one place, and one more for each that was unlocked, four at most.
pub proof fn lemma_accessory_ids(equipment: PlayerEquipment)
    ensures
        ({
            let worn = inventory::accessory_ids(equipment);
            let unlocked = equipment.unlocked_talisman_slots;
            &&& worn.len() == if unlocked >= 3 {
                4int
            } else {
                unlocked + 1
            }
            &&& forall|i: int|
                0 <= i < worn.len() ==> #[trigger] worn[i] == worn_item(equipment, 17 + i)
            &&& forall|i: int|
                0 <= i < worn.len() ==> (#[trigger] worn[i] is Some
                    ==> inventory::accessory_indices(equipment)[i]
                    == equipment.equipped_indices@[17 + i])
        }),
{
    let worn = inventory::accessory_ids(equipment);
    let slots = inventory::accessory_slots();
    assert forall|i: int| 0 <= i < worn.len() implies #[trigger] worn[i] == worn_item(
        equipment,
        17 + i,
    ) by {
        assert(i == 0 || i == 1 || i == 2 || i == 3);
        assert(inventory::slot_number(slots[i]) == 17 + i);
    }
    assert forall|i: int| 0 <= i < worn.len() && (#[trigger] worn[i]) is Some implies
        inventory::accessory_indices(equipment)[i] == equipment.equipped_indices@[17 + i] by {
        assert(i == 0 || i == 1 || i == 2 || i == 3);
        assert(inventory::slot_number(slots[i]) == 17 + i);
    }
}

proof fn lemma_first_collision(data: ItemModel, item: ItemId, worn: Seq<Option<ItemId>>)
    ensures
        ({
            let p = equip::first_collision(data, item, worn);
            &&& 0 <= p <= worn.len()
            &&& p < worn.len() ==> in_the_way(data, item, worn[p])
            &&& forall|j: int| 0 <= j < p ==> !in_the_way(data, item, #[trigger] worn[j])
        }),
    decreases worn.len(),
{
    if worn.len() > 0 {
        let rest = worn.drop_last();
        lemma_first_collision(data, item, rest);
        let p = equip::first_collision(data, item, worn);
        assert forall|j: int| 0 <= j < p implies !in_the_way(data, item, #[trigger] worn[j]) by {
            if j < rest.len() {
                assert(rest[j] == worn[j]);
            }
        }
        if p < rest.len() {
            assert(rest[p] == worn[p]);
        }
    }
}

/// The first empty place is empty, and none before it is.
pub proof fn lemma_first_empty(worn: Seq<Option<ItemId>>)
    ensures
        ({
            let p = equip::first_empty(worn);
            &&& 0 <= p <= worn.len()
            &&& p < worn.len() ==> worn[p] is None
            &&& forall|j: int| 0 <= j < p ==> (#[trigger] worn[j]) is Some
        }),
    decreases worn.len(),
{
    if worn.len() > 0 {
        let rest = worn.drop_last();
        lemma_first_empty(rest);
        let p = equip::first_empty(worn);
        assert forall|j: int| 0 <= j < p implies (#[trigger] worn[j]) is Some by {
            if j < rest.len() {
                assert(rest[j] == worn[j]);
            }
        }
        if p < rest.len() {
            assert(rest[p] == worn[p]);
        }
    }
}

/// The place of an item is the first that holds it, where there is one.
pub proof fn lemma_place_of(worn: Seq<Option<ItemId>>, item: ItemId)
    ensures
        ({
            let p = equip::place_of(worn, item);
            &&& 0 <= p <= worn.len()
            &&& p < worn.len() ==> worn[p] == Some(item)
            &&& forall|j: int| 0 <= j < p ==> #[trigger] worn[j] != Some(item)
        }),
    decreases worn.len(),
{
    if worn.len() > 0 {
        let rest = worn.drop_last();
        lemma_place_of(rest, item);
        let p = equip::place_of(worn, item);
        assert forall|j: int| 0 <= j < p implies #[trigger] worn[j] != Some(item) by {
            if j < rest.len() {
                assert(rest[j] == worn[j]);
            }
        }
        if p < rest.len() {
            assert(rest[p] == worn[p]);
        }
    }
}

/// A talisman takes the first place of one that it cannot be worn beside; otherwise the first empty
/// place; otherwise, where everything that is worn is in the order of equipping, the place of the
/// one that was equipped first; and otherwise the first place.
pub proof fn lemma_talisman_place(
    data: ItemModel,
    equipment: PlayerEquipment,
    order: Seq<ItemId>,
    rows: EquipRows,
    item: ItemId,
)
    requires
        item.category == ItemCategory::Accessory,
    ensures
        exists|p: int|
            {
                let worn = inventory::accessory_ids(equipment);
                &&& 0 <= p < worn.len() && p < 4
                &&& #[trigger] is_talisman_plan(
                    equip::plan_of(data, equipment, order, rows, item),
                    p,
                )
                &&& if exists|k: int|
                    0 <= k < worn.len() && in_the_way(data, item, #[trigger] worn[k]) {
                    in_the_way(data, item, worn[p]) && forall|j: int|
                        0 <= j < p ==> !in_the_way(data, item, #[trigger] worn[j])
                } else if exists|k: int| 0 <= k < worn.len() && (#[trigger] worn[k]) is None {
                    worn[p] is None && forall|j: int| 0 <= j < p ==> (#[trigger] worn[j]) is Some
                } else if worn.len() == order.len() && (forall|k: int|
                    0 <= k < worn.len() ==> order.contains((#[trigger] worn[k]).unwrap()))
                    && worn.contains(Some(order[0])) {
                    worn[p] == Some(order[0]) && forall|j: int|
                        0 <= j < p ==> #[trigger] worn[j] != Some(order[0])
                } else {
                    p == 0
                }
            },
{
    let worn = inventory::accessory_ids(equipment);
    let p = equip::oldest_place(data, item, order, worn);
    lemma_accessory_ids(equipment);
    equip::lemma_oldest_place(data, item, order, worn);
    lemma_first_collision(data, item, worn);
    lemma_first_empty(worn);
    if order.len() > 0 {
        lemma_place_of(worn, order[0]);
    }
    let slots = inventory::accessory_slots();
    assert(slots[0] == ChrAsmSlot::Accessory1 && slots[1] == ChrAsmSlot::Accessory2 && slots[2]
        == ChrAsmSlot::Accessory3 && slots[3] == ChrAsmSlot::Accessory4);
    assert(is_talisman_plan(equip::plan_of(data, equipment, order, rows, item), p));
    if exists|k: int| 0 <= k < worn.len() && in_the_way(data, item, #[trigger] worn[k]) {
        let k = choose|k: int| 0 <= k < worn.len() && in_the_way(data, item, #[trigger] worn[k]);
        assert(equip::first_collision(data, item, worn) <= k);
    } else {
        assert(equip::first_collision(data, item, worn) == worn.len());
        if exists|k: int| 0 <= k < worn.len() && (#[trigger] worn[k]) is None {
            let k = choose|k: int| 0 <= k < worn.len() && (#[trigger] worn[k]) is None;
            assert(equip::first_empty(worn) <= k);
        } else {
            assert(equip::first_empty(worn) == worn.len());
            if worn.contains(Some(order[0])) && order.len() > 0 {
                let k = choose|k: int| 0 <= k < worn.len() && worn[k] == Some(order[0]);
                assert(equip::place_of(worn, order[0]) <= k);
            }
        }
    }
}

/// Whether a plan puts an item, clearing nothing, at the talisman place with a number.
pub open spec fn is_talisman_plan(plan: PlanModel, p: int) -> bool {
    plan matches PlanModel::Slot { clear, target } && clear.len() == 0 && (p == 0 ==> target
        == ChrAsmSlot::Accessory1) && (p == 1 ==> target == ChrAsmSlot::Accessory2) && (p == 2
        ==> target == ChrAsmSlot::Accessory3) && (p == 3 ==> target == ChrAsmSlot::Accessory4)
}

/// The game is asked to equip exactly what is not worn at its place; and what came of it is that it
/// is worn there or that it failed.
pub proof fn lemma_equip_at(equipment: PlayerEquipment, target: ChrAsmSlot, index: i32)
    ensures
        ({
            let step = equip::step_at(equipment, target, index);
            let result = equip::result_at(equipment, target, index);
            let worn = equipment.equipped_indices@[inventory::slot_number(target)] == index
                && equipment.inventory.entry_at(index as int) is Some;
            &&& worn ==> step == EquipStep::Stop(EquipStatus::Done) && result == EquipStatus::Done
            &&& !worn ==> step == (EquipStep::Equip { slot: target, index }) && result
                == EquipStatus::Failed
        }),
{
}

/// Equipping begins with the newest of the item in the inventory, whichever level it has where
/// levels are ignored, and by the rules for that; without a player, tables or such an item it does
/// not begin.
pub proof fn lemma_equip_start(
    r: Option<EquipStart>,
    data: ItemModel,
    order: Seq<ItemId>,
    equipment: Option<&PlayerEquipment>,
    rows: Option<&EquipRows>,
    item: ItemId,
    ignore_level: bool,
)
    requires
        equip::is_equip_start(r, data, order, equipment, rows, item, ignore_level),
    ensures
        r is Some <==> rows is Some && (equipment matches Some(e) && inventory::latest_entry(
            e.inventory,
            item,
            ignore_level,
        ) is Some),
        r matches Some(start) ==> {
            let e = *equipment.unwrap();
            let newest = inventory::latest_entry(e.inventory, item, ignore_level).unwrap();
            &&& start.index == newest.0
            &&& start.item_id == newest.1.item_id
            &&& is_of(start.item_id, item, ignore_level)
            &&& start.plan@ == equip::plan_of(data, e, order, *rows.unwrap(), start.item_id)
        },
{
    if let Some(e) = equipment {
        lemma_latest_entry(e.inventory, item, ignore_level);
    }
}

// --- The inventory

/// The newest of an item is what is taken: it is in the inventory, at its index, and of all of the
/// item none was picked up after it. With levels ignored, a weapon counts whatever its last two
/// digits are.
pub proof fn lemma_latest_entry(inv: Inventory, item: ItemId, ignore_level: bool)
    ensures
        match inventory::latest_entry(inv, item, ignore_level) {
            Some((index, e)) => {
                &&& is_of(e.item_id, item, ignore_level)
                &&& (0 <= index < inv.key@.len() && inv.key@[index] == Some(e)) || (inv.key@.len()
                    <= index < inv.key@.len() + inv.normal@.len() && inv.normal@[index
                    - inv.key@.len()] == Some(e))
                &&& forall|i: int|
                    0 <= i < inv.key@.len() ==> ((#[trigger] inv.key@[i]) matches Some(f)
                        ==> is_of(f.item_id, item, ignore_level) ==> f.sort_id <= e.sort_id)
                &&& forall|i: int|
                    0 <= i < inv.normal@.len() ==> ((#[trigger] inv.normal@[i]) matches Some(f)
                        ==> is_of(f.item_id, item, ignore_level) ==> f.sort_id <= e.sort_id)
            },
            None => {
                &&& forall|i: int|
                    0 <= i < inv.key@.len() ==> ((#[trigger] inv.key@[i]) matches Some(f)
                        ==> !is_of(f.item_id, item, ignore_level))
                &&& forall|i: int|
                    0 <= i < inv.normal@.len() ==> ((#[trigger] inv.normal@[i]) matches Some(f)
                        ==> !is_of(f.item_id, item, ignore_level))
            },
        },
{
    let places = inv.places();
    inventory::lemma_newest_place(places, item, ignore_level);
    assert forall|a: ItemId| is_of(a, item, ignore_level) <==> #[trigger] inventory::matches_item(
        a,
        item,
        ignore_level,
    ) by {
        assert(a.param_id / 100 * 100 + a.param_id % 100 == a.param_id);
        assert(item.param_id / 100 * 100 + item.param_id % 100 == item.param_id);
    }
    assert forall|i: int| 0 <= i < inv.normal@.len() implies #[trigger] inv.normal@[i]
        == places[i] by {}
    assert forall|i: int| 0 <= i < inv.key@.len() implies #[trigger] inv.key@[i]
        == places[inv.normal@.len() + i] by {}
    if let Some(k) = inventory::newest_place(places, item, ignore_level) {
        if k >= inv.normal@.len() {
            assert(inv.key@[k - inv.normal@.len()] == places[k]);
        } else {
            assert(inv.normal@[k] == places[k]);
        }
    }
}

/// Whether an item is another, or with levels ignored the same weapon at any level.
pub open spec fn is_of(a: ItemId, b: ItemId, ignore_level: bool) -> bool {
    a == b || (ignore_level && a.category == ItemCategory::Weapon && b.category
        == ItemCategory::Weapon && a.param_id / 100 == b.param_id / 100)
}

/// Indices count the key items first. A normal item is found below the number of normal places,
/// nothing from there on.
pub proof fn lemma_entry_at(inv: Inventory, i: int)
    ensures
        0 <= i < inv.key@.len() ==> inv.entry_at(i) == inv.key@[i],
        0 <= i < inv.normal@.len() - inv.key@.len() ==> inv.entry_at(inv.key@.len() + i)
            == inv.normal@[i],
        i < 0 ==> inv.entry_at(i) is None,
        i >= inv.key@.len() && i >= inv.normal@.len() ==> inv.entry_at(i) is None,
{
}

/// The places of equipment have the numbers that the game gives them.
pub proof fn lemma_slot_numbers()
    ensures
        forall|a: ChrAsmSlot, b: ChrAsmSlot|
            #[trigger] inventory::slot_number(a) == #[trigger] inventory::slot_number(b)
                ==> a == b,
        forall|a: ChrAsmSlot| 0 <= #[trigger] inventory::slot_number(a) < 22,
        forall|a: ChrAsmSlot|
            is_left_place(a) ==> #[trigger] inventory::slot_number(a) % 2 == 0
                && inventory::slot_number(a) < 6,
        forall|a: ChrAsmSlot|
            is_right_place(a) ==> #[trigger] inventory::slot_number(a) % 2 == 1
                && inventory::slot_number(a) < 6,
        inventory::slot_number(ChrAsmSlot::WeaponLeft1) < inventory::slot_number(
            ChrAsmSlot::WeaponLeft2,
        ) < inventory::slot_number(ChrAsmSlot::WeaponLeft3),
        inventory::slot_number(ChrAsmSlot::WeaponRight1) < inventory::slot_number(
            ChrAsmSlot::WeaponRight2,
        ) < inventory::slot_number(ChrAsmSlot::WeaponRight3),
        inventory::slot_number(ChrAsmSlot::Arrow1) == 6 && inventory::slot_number(
            ChrAsmSlot::Bolt1,
        ) == 7,
        inventory::slot_number(ChrAsmSlot::ProtectorHead) == 12 && inventory::slot_number(
            ChrAsmSlot::ProtectorChest,
        ) == 13 && inventory::slot_number(ChrAsmSlot::ProtectorHands) == 14
            && inventory::slot_number(ChrAsmSlot::ProtectorLegs) == 15,
        inventory::slot_number(ChrAsmSlot::Accessory1) == 17 && inventory::slot_number(
            ChrAsmSlot::Accessory2,
        ) == 18 && inventory::slot_number(ChrAsmSlot::Accessory3) == 19 && inventory::slot_number(
            ChrAsmSlot::Accessory4,
        ) == 20,
{
}

/// The indices of listed items: an index is among them just where the item at that place is listed,
/// and none is there twice.
pub proof fn lemma_item_indices(inv: Inventory, items: Seq<Option<ItemId>>, n: int)
    requires
        0 <= n <= inv.normal@.len() + inv.key@.len(),
    ensures
        ({
            let list = inventory::item_indices(inv, items, n);
            &&& forall|i: int|
                0 <= i < inv.normal@.len() && i < n ==> (list.contains(inv.key@.len() + i) <==> ((
                #[trigger] inv.normal@[i]) matches Some(e) && items.contains(Some(e.item_id))))
            &&& forall|i: int|
                0 <= i < inv.key@.len() && inv.normal@.len() + i < n ==> (list.contains(i) <==> ((
                #[trigger] inv.key@[i]) matches Some(e) && items.contains(Some(e.item_id))))
            &&& forall|k: int|
                0 <= k < list.len() ==> (inv.key@.len() <= #[trigger] list[k] < inv.key@.len()
                    + inv.normal@.len() && list[k] - inv.key@.len() < n) || (0 <= list[k]
                    < inv.key@.len() && inv.normal@.len() + list[k] < n)
            &&& list.no_duplicates()
        }),
    decreases n,
{
    if n > 0 {
        lemma_item_indices(inv, items, n - 1);
        let before = inventory::item_indices(inv, items, n - 1);
        let list = inventory::item_indices(inv, items, n);
        let at = inv.place_index(n - 1);
        let entry = inv.places()[n - 1];
        if n - 1 < inv.normal@.len() {
            assert(entry == inv.normal@[n - 1]);
        } else {
            assert(entry == inv.key@[n - 1 - inv.normal@.len()]);
        }
        let added = entry matches Some(e) && items.contains(Some(e.item_id));
        if before.contains(at) {
            let k = choose|k: int| 0 <= k < before.len() && before[k] == at;
            assert(before[k] == at);
        }
        assert(!before.contains(at));
        if added {
            assert(list == before.push(at));
            assert(list[before.len() as int] == at);
            assert forall|x: int| #[trigger] list.contains(x) <==> before.contains(x) || x
                == at by {
                if before.contains(x) {
                    let k = choose|k: int| 0 <= k < before.len() && before[k] == x;
                    assert(list[k] == x);
                }
                if list.contains(x) && x != at {
                    let k = choose|k: int| 0 <= k < list.len() && list[k] == x;
                    assert(before[k] == x);
                }
            }
        } else {
            assert(list == before);
        }
        assert forall|i: int| 0 <= i < inv.normal@.len() && i < n implies (list.contains(
            inv.key@.len() + i,
        ) <==> ((#[trigger] inv.normal@[i]) matches Some(e) && items.contains(
            Some(e.item_id),
        ))) by {
            assert(inv.key@.len() + i == at <==> i == n - 1 && n - 1 < inv.normal@.len());
        }
        assert forall|i: int| 0 <= i < inv.key@.len() && inv.normal@.len() + i < n implies (
        list.contains(i) <==> ((#[trigger] inv.key@[i]) matches Some(e) && items.contains(
            Some(e.item_id),
        ))) by {
            assert(i == at <==> inv.normal@.len() + i == n - 1);
        }
    }
}

// --- Giving items

/// As many of an item are given as are asked for, from one to a hundred: one where fewer or no
/// number are asked for, a hundred where more are.
pub proof fn lemma_given_quantity(m: UpdaterModel, raw: u32, matching_level: Option<u8>)
    requires
        m.data is Some,
        m.pending.contains_key(raw),
        m.pending[raw].real_id is None,
    ensures
        match updater::planned_step(m, raw, matching_level) {
            Some(PendingStep::Give { quantity, gem_id, .. }) => {
                &&& gem_id == m.pending[raw].gem_id
                &&& match m.pending[raw].desc.quantity {
                    Some(q) => {
                        &&& 1 <= q <= 100 ==> quantity == q
                        &&& q < 1 ==> quantity == 1
                        &&& q > 100 ==> quantity == 100
                    },
                    None => quantity == 1,
                }
            },
            _ => false,
        },
{
}

/// An item that was given is equipped next, as what was given; and it is first tried while there
/// was no attempt.
pub proof fn lemma_given_is_equipped(m: UpdaterModel, raw: u32, matching_level: Option<u8>)
    requires
        m.data is Some,
        m.pending.contains_key(raw),
        m.pending[raw].real_id is Some,
    ensures
        match updater::planned_step(m, raw, matching_level) {
            Some(PendingStep::Equip { item_id, first, ignore_level }) => {
                &&& m.pending[raw].real_id == Some(item_id)
                &&& first <==> m.pending[raw].tries == 0
                &&& ignore_level == m.pending[raw].desc.ignore_level
            },
            _ => false,
        },
{
}

/// Nothing is done for what is not on its way, nor before items are loaded.
pub proof fn lemma_nothing_planned(m: UpdaterModel, raw: u32, matching_level: Option<u8>)
    requires
        m.data is None || !m.pending.contains_key(raw),
    ensures
        updater::planned_step(m, raw, matching_level) is None,
{
}

/// The level an item is given with. A weapon that is upgraded has the level that was asked for, up
/// to 25 or 10; where none was asked for, the level of the player's weapons, up to 25, and for one
/// with ten levels two for every five of those, the second from the third on. Anything else, and
/// anything where the level cannot be had, is given as it is.
pub proof fn lemma_given_level(m: UpdaterModel, raw: u32, item: ItemId, matching_level: Option<u8>)
    requires
        m.data is Some,
        m.pending.contains_key(raw),
        m.pending[raw].real_id is None,
        item.valid(),
        item.raw() == raw,
        item.param_id + 25 <= 0x0FFF_FFFF,
    ensures
        match updater::planned_step(m, raw, matching_level) {
            Some(PendingStep::Give { item_id, .. }) => {
                let upgrades = m.data.unwrap().upgrades;
                let asked = m.pending[raw].desc.level;
                let levels = if item.category != ItemCategory::Weapon || !upgrades.contains_key(
                    raw,
                ) {
                    0int
                } else if upgrades[raw] == UpgradeType::Regular {
                    25int
                } else if upgrades[raw] == UpgradeType::Somber {
                    10int
                } else {
                    0int
                };
                let added = item_id.param_id - item.param_id;
                &&& item_id.category == item.category
                &&& 0 <= added <= levels
                &&& match asked {
                    Some(level) if level >= 0 => {
                        &&& level <= levels ==> added == level
                        &&& level > levels ==> added == levels
                    },
                    _ => match matching_level {
                        Some(level) => {
                            &&& levels == 25 && level <= 25 ==> added == level
                            &&& levels == 25 && level > 25 ==> added == 25
                            &&& levels == 10 && level >= 25 ==> added == 10
                            &&& forall|fives: int|
                                levels == 10 && level < 25 && #[trigger] (fives * 5) <= level
                                    < fives * 5 + 2 ==> added == fives * 2
                            &&& forall|fives: int|
                                levels == 10 && level < 25 && #[trigger] (fives * 5) + 2 <= level
                                    < fives * 5 + 5 ==> added == fives * 2 + 1
                        },
                        None => added == 0,
                    },
                }
            },
            _ => false,
        },
{
    lemma_item_of(item);
    if let Some(level) = matching_level {
        if level < 25 {
            assert forall|fives: int|
                #[trigger] (fives * 5) <= level < fives * 5 + 5 implies data::somber_level(
                level as int,
            ) == fives * 2 + if level >= fives * 5 + 2 {
                1int
            } else {
                0int
            } by {}
        }
    }
}

/// A weapon whose level would be no item is given as it is.
pub proof fn lemma_level_that_is_no_item(
    m: UpdaterModel,
    raw: u32,
    item: ItemId,
    level: i32,
    matching_level: Option<u8>,
)
    requires
        m.data is Some,
        m.pending.contains_key(raw),
        m.pending[raw].real_id is None,
        m.pending[raw].desc.level == Some(level),
        level >= 0,
        item.valid(),
        item.raw() == raw,
    ensures
        updater::planned_step(m, raw, matching_level) matches Some(
            PendingStep::Give { item_id, .. },
        ) && {
            let upgrades = m.data.unwrap().upgrades;
            let levels = if item.category != ItemCategory::Weapon || !upgrades.contains_key(raw) {
                0int
            } else if upgrades[raw] == UpgradeType::Regular {
                25int
            } else if upgrades[raw] == UpgradeType::Somber {
                10int
            } else {
                0int
            };
            let wanted = item.param_id + if level > levels {
                levels
            } else {
                level as int
            };
            item_id == if wanted > 0x0FFF_FFFF {
                item
            } else {
                ItemId { category: item.category, param_id: wanted as u32 }
            }
        },
{
    lemma_item_of(item);
}

/// An item's number is its category's, 0, 1, 2, 4 or 8, in the top four bits, and its row below;
/// and the number gives the item back.
pub proof fn lemma_item_of(item: ItemId)
    requires
        item.valid(),
    ensures
        updater::item_of(item.raw()) == item,
        item.raw() % 0x1000_0000 == item.param_id,
        item.raw() / 0x1000_0000 == match item.category {
            ItemCategory::Weapon => 0u32,
            ItemCategory::Protector => 1u32,
            ItemCategory::Accessory => 2u32,
            ItemCategory::Goods => 4u32,
            ItemCategory::Gem => 8u32,
        },
        item.param_id <= 0x0FFF_FFFF,
{
    assert(item.valid() && item.raw() == item.raw());
    crate::items::item_id::lemma_raw_is_injective(item, updater::item_of(item.raw()));
}

/// What becomes of a request for an item. Without item data, or where no item has its name or its
/// ash of war's, nothing changes and the error says so. Otherwise the item with that name is on its
/// way, as it was asked for, with the ash of war of that name; nothing else changes, and what was
/// on its way already stays as it was.
pub proof fn lemma_give(m: UpdaterModel, item: DescModel, raw: u32, gem: ItemId)
    requires
        updater::well_formed(m),
    ensures
        m.data is None ==> updater::give_error(m, item) == Some("Item data not initialized"@)
            && updater::after_give(m, item) == m,
        m.data matches Some(data) ==> {
            let known = data.names.contains_key(raw) && data.names[raw] == item.name;
            let forged = item.gem matches Some(g) && gem.valid() && data.names.contains_key(
                gem.raw(),
            ) && data.names[gem.raw()] == g;
            let after = updater::after_give(m, item);
            &&& (forall|k: u32| #[trigger] data.names.contains_key(k) ==> data.names[k]
                != item.name) ==> updater::give_error(m, item) == Some(
                "No item found for "@ + item.name,
            ) && after == m
            &&& known && item.gem is Some && (forall|k: u32| #[trigger]
                data.names.contains_key(k) ==> data.names[k] != item.gem.unwrap())
                ==> updater::give_error(m, item) == Some("No gem found for "@ + item.gem.unwrap())
                && after == m
            &&& known && (item.gem is None || forged) ==> {
                &&& updater::give_error(m, item) is None
                &&& after.data == m.data
                &&& m.pending.contains_key(raw) ==> after == m
                &&& !m.pending.contains_key(raw) ==> after.pending == m.pending.insert(
                    raw,
                    PendingModel {
                        desc: item,
                        real_id: None,
                        gem_id: if item.gem is None {
                            None
                        } else {
                            Some(gem)
                        },
                        tries: 0,
                    },
                )
            }
        },
{
    if let Some(data) = m.data {
        if data.names.contains_key(raw) && data.names[raw] == item.name {
            assert(updater::named(data.names, item.name) == raw);
        }
        if item.gem is Some && gem.valid() && data.names.contains_key(gem.raw())
            && data.names[gem.raw()] == item.gem.unwrap() {
            assert(updater::named(data.names, item.gem.unwrap()) == gem.raw());
            lemma_item_of(gem);
        }
    }
}

/// Items that are asked for together are asked for one after another, and their errors are listed
/// in that order.
pub proof fn lemma_gives(m: UpdaterModel, items: Seq<DescModel>, next: DescModel)
    ensures
        updater::after_gives(m, Seq::empty()) == m,
        updater::give_errors(m, Seq::empty()).len() == 0,
        updater::after_gives(m, items.push(next)) == updater::after_give(
            updater::after_gives(m, items),
            next,
        ),
        updater::give_errors(m, items.push(next)) == match updater::give_error(m, next) {
            Some(e) => updater::give_errors(m, items).push(e),
            None => updater::give_errors(m, items),
        },
{
    assert(items.push(next).drop_last() =~= items);
}

/// A request for items fails just where one of them cannot be given; the reasons are joined by
/// semicolons.
pub proof fn lemma_give_text(m: UpdaterModel, items: Seq<DescModel>)
    ensures
        updater::give_text(m, items) is None <==> forall|i: int|
            0 <= i < items.len() ==> updater::give_error(m, #[trigger] items[i]) is None,
        updater::give_text(m, items) is Some ==> updater::give_text(m, items).unwrap()
            == crate::text::joined(updater::give_errors(m, items), "; "@),
    decreases items.len(),
{
    if items.len() > 0 {
        let rest = items.drop_last();
        lemma_give_text(m, rest);
        if forall|i: int|
            0 <= i < items.len() ==> updater::give_error(m, #[trigger] items[i]) is None {
            assert(updater::give_error(m, items[items.len() - 1]) is None);
            assert forall|i: int| 0 <= i < rest.len() implies updater::give_error(
                m,
                #[trigger] rest[i],
            ) is None by {
                assert(rest[i] == items[i]);
            }
        }
        if updater::give_text(m, items) is None {
            assert forall|i: int| 0 <= i < items.len() implies updater::give_error(
                m,
                #[trigger] items[i],
            ) is None by {
                if i < rest.len() {
                    assert(rest[i] == items[i]);
                }
            }
        }
    }
}

/// What becomes of an item that was given: it is done where it is not to be equipped; otherwise it
/// stays on its way, as what was given. Nothing else changes.
pub proof fn lemma_given(m: UpdaterModel, raw: u32, item: ItemId)
    requires
        m.pending.contains_key(raw),
    ensures
        ({
            let p = m.pending[raw];
            let after = updater::with_pending(m, raw, updater::after_given(p, item));
            &&& after.data == m.data
            &&& forall|k: u32|
                k != raw ==> (#[trigger] after.pending.contains_key(k) <==> m.pending.contains_key(
                    k,
                )) && (m.pending.contains_key(k) ==> after.pending[k] == m.pending[k])
            &&& after.pending.contains_key(raw) <==> p.desc.equip
            &&& p.desc.equip ==> after.pending[raw] == (PendingModel {
                desc: p.desc,
                real_id: Some(item),
                gem_id: p.gem_id,
                tries: p.tries,
            })
        }),
{
}

/// What becomes of an item after an attempt to equip it: it stays on its way, with one more attempt
/// counted, only where the attempt failed and there were fewer than 3600 before. Nothing else
/// changes.
pub proof fn lemma_equipped(m: UpdaterModel, raw: u32, status: EquipStatus)
    requires
        m.pending.contains_key(raw),
    ensures
        ({
            let p = m.pending[raw];
            let after = updater::with_pending(m, raw, updater::after_equip(p, status));
            &&& after.data == m.data
            &&& forall|k: u32|
                k != raw ==> (#[trigger] after.pending.contains_key(k) <==> m.pending.contains_key(
                    k,
                )) && (m.pending.contains_key(k) ==> after.pending[k] == m.pending[k])
            &&& after.pending.contains_key(raw) <==> status == EquipStatus::Failed && p.tries
                < 3600
            &&& after.pending.contains_key(raw) ==> after.pending[raw] == (PendingModel {
                desc: p.desc,
                real_id: p.real_id,
                gem_id: p.gem_id,
                tries: (p.tries + 1) as u32,
            })
        }),
{
}

} // verus!
