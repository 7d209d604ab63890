use souls_client::items::data::ItemData;
use souls_client::items::equip::{
    equip_result, equip_step, get_oldest_equip_index, is_equipped, EquipHandler,
    EquipInventoryItem, EquipPlan, EquipRows, EquipStatus, EquipStep,
};
use souls_client::items::inventory::{
    get_equipment_inventory_entry, get_equipped_accessory_ids, get_equipped_accessory_indices,
    get_equipped_spell_ids, get_inventory_entry, get_item_inventory_indices,
    get_latest_inventory_entry, get_regular_inventory_index, get_used_spell_slots, ChrAsmSlot,
    Inventory, InventoryEntry, PlayerEquipment,
};
use souls_client::items::item_id::{ItemCategory, ItemId};
use souls_client::items::order::update_equip_order;
use souls_client::items::spells::{can_equip_spell, check_spells, SpellStep};
use std::collections::HashMap;

fn id(category: ItemCategory, param_id: u32) -> ItemId {
    ItemId::new(category, param_id).unwrap()
}

fn weapon(param_id: u32) -> ItemId {
    id(ItemCategory::Weapon, param_id)
}

fn talisman(param_id: u32) -> ItemId {
    id(ItemCategory::Accessory, param_id)
}

fn spell(param_id: u32) -> ItemId {
    id(ItemCategory::Goods, param_id)
}

fn entry(item_id: ItemId, sort_id: u32) -> Option<InventoryEntry> {
    Some(InventoryEntry { item_id, sort_id })
}

fn inventory(normal: Vec<Option<InventoryEntry>>) -> Inventory {
    let mut normal = normal;
    normal.resize(20, None);
    Inventory { normal, key: vec![None, entry(spell(9000), 1), None] }
}

fn equipment(normal: Vec<Option<InventoryEntry>>) -> PlayerEquipment {
    PlayerEquipment {
        inventory: inventory(normal),
        equipped_indices: vec![-1; 22],
        left_weapon_slot: 0,
        right_weapon_slot: 0,
        unlocked_talisman_slots: 3,
        spells: vec![-1; 4],
        physick_tears: vec![None, None],
        magic_slots: 4,
    }
}

fn wear(e: &mut PlayerEquipment, slot: ChrAsmSlot, index: i32) {
    e.equipped_indices[slot.number()] = index;
}

fn rows() -> EquipRows {
    let weapons = [
        (1000000u32, 1u16),
        (1100000, 65),
        (1200000, 81),
        (1300000, 85),
        (1400000, 50),
        (1500000, 57),
    ];
    EquipRows {
        weapons: weapons.into_iter().collect(),
        protectors: (0..5u8).map(|k| (40000 + k as u32, k)).collect::<HashMap<u32, u8>>(),
    }
}

fn plan(e: &PlayerEquipment, item: ItemId) -> Option<(i32, EquipPlan)> {
    plan_with(&EquipHandler::new(), &ItemData::new(), e, item)
}

fn plan_with(
    handler: &EquipHandler,
    data: &ItemData,
    e: &PlayerEquipment,
    item: ItemId,
) -> Option<(i32, EquipPlan)> {
    let rows = rows();
    handler
        .equip_item(data, Some(e), Some(&rows), item, false)
        .map(|s| (s.index, s.plan))
}

fn slot_of(plan: Option<(i32, EquipPlan)>) -> (Vec<ChrAsmSlot>, ChrAsmSlot) {
    match plan {
        Some((_, EquipPlan::Slot { clear, target })) => (clear, target),
        other => panic!("{:?}", other),
    }
}

#[test]
fn the_newest_entry_is_found() {
    let inv = inventory(vec![
        entry(weapon(1000000), 5),
        None,
        entry(weapon(1000003), 9),
        entry(weapon(1000000), 5),
        entry(weapon(1000000), 2),
    ]);
    let found = |item, ignore| {
        get_latest_inventory_entry(&inv, item, ignore).map(|(i, e)| (i, e.sort_id))
    };
    assert_eq!(found(weapon(1000000), false), Some((6, 5)));
    assert_eq!(found(weapon(1000000), true), Some((5, 9)));
    assert_eq!(found(weapon(1000001), false), None);
    assert_eq!(found(weapon(1000001), true), Some((5, 9)));
    assert_eq!(found(spell(9000), false), Some((1, 1)));
    assert_eq!(found(spell(9001), true), None);
}

#[test]
fn indices_count_key_items_first() {
    let inv = inventory(vec![entry(weapon(1000000), 5), entry(weapon(1100000), 6)]);
    assert_eq!(get_inventory_entry(&inv, 1).unwrap().item_id, spell(9000));
    assert_eq!(get_inventory_entry(&inv, 0), None);
    assert_eq!(get_inventory_entry(&inv, 4).unwrap().item_id, weapon(1100000));
    assert_eq!(get_inventory_entry(&inv, -1), None);
    assert_eq!(get_inventory_entry(&inv, 20), None);
    assert_eq!(get_inventory_entry(&inv, i32::MAX), None);
    assert_eq!(get_regular_inventory_index(&inv, 4), 1);
    assert_eq!(get_regular_inventory_index(&inv, 1), -2);
    assert_eq!(get_regular_inventory_index(&inv, 19), 16);
    assert_eq!(get_regular_inventory_index(&inv, 20), -1);
    assert_eq!(get_regular_inventory_index(&inv, -7), -1);
    let listed = get_item_inventory_indices(
        &inv,
        &vec![Some(spell(9000)), None, Some(weapon(1000000)), Some(weapon(1))],
    );
    assert_eq!(listed, vec![3, 1]);
}

#[test]
fn worn_things_are_read() {
    let mut e = equipment(vec![entry(talisman(1000), 5), entry(talisman(1010), 6)]);
    wear(&mut e, ChrAsmSlot::Accessory1, 3);
    wear(&mut e, ChrAsmSlot::Accessory3, 4);
    assert_eq!(
        get_equipment_inventory_entry(&e, ChrAsmSlot::Accessory3).map(|(i, e)| (i, e.item_id)),
        Some((4, talisman(1010)))
    );
    assert_eq!(get_equipment_inventory_entry(&e, ChrAsmSlot::Accessory2), None);
    assert_eq!(get_equipped_accessory_indices(&e), vec![3, -1, 4, -1]);
    assert_eq!(
        get_equipped_accessory_ids(&e),
        vec![Some(talisman(1000)), None, Some(talisman(1010)), None]
    );
    e.unlocked_talisman_slots = 0;
    assert_eq!(get_equipped_accessory_indices(&e), vec![3]);
    e.unlocked_talisman_slots = 200;
    assert_eq!(get_equipped_accessory_indices(&e).len(), 4);
    e.spells = vec![4000, -1, 0];
    assert_eq!(get_equipped_spell_ids(&e), vec![Some(spell(4000)), None, Some(spell(0))]);
}

#[test]
fn slots_have_numbers() {
    assert_eq!(ChrAsmSlot::WeaponLeft1.number(), 0);
    assert_eq!(ChrAsmSlot::Bolt3.number(), 11);
    assert_eq!(ChrAsmSlot::Accessory1.number(), 17);
    assert_eq!(ChrAsmSlot::AccessoryCovenant.number(), 21);
    let item = EquipInventoryItem::new(ChrAsmSlot::Accessory2, 77);
    assert_eq!((item.equip_slot, item.inventory_index), (ChrAsmSlot::Accessory2, 77));
    assert!(item.unk0.iter().chain(item.unkc.iter()).all(|b| *b == 0));
}

#[test]
fn equipping_needs_player_item_and_tables() {
    let e = equipment(vec![entry(weapon(1000000), 5)]);
    let h = EquipHandler::new();
    let d = ItemData::new();
    let r = rows();
    assert!(h.equip_item(&d, None, Some(&r), weapon(1000000), false).is_none());
    assert!(h.equip_item(&d, Some(&e), None, weapon(1000000), false).is_none());
    assert!(h.equip_item(&d, Some(&e), Some(&r), weapon(1100000), false).is_none());
    let start = h.equip_item(&d, Some(&e), Some(&r), weapon(1000009), true).unwrap();
    assert_eq!((start.index, start.item_id), (3, weapon(1000000)));
}

#[test]
fn weapons_go_to_their_hand() {
    let e = equipment(vec![
        entry(weapon(1000003), 1),
        entry(weapon(1100000), 1),
        entry(weapon(1200000), 1),
        entry(weapon(1300000), 1),
        entry(weapon(1400000), 1),
        entry(weapon(1500000), 1),
        entry(weapon(1600000), 1),
    ]);
    let target = |item| slot_of(plan(&e, item)).1;
    assert_eq!(target(weapon(1000003)), ChrAsmSlot::WeaponRight1);
    assert_eq!(target(weapon(1100000)), ChrAsmSlot::WeaponLeft1);
    assert_eq!(target(weapon(1200000)), ChrAsmSlot::Arrow1);
    assert_eq!(target(weapon(1300000)), ChrAsmSlot::Bolt1);
    assert_eq!(target(weapon(1400000)), ChrAsmSlot::WeaponRight1);
    assert_eq!(target(weapon(1500000)), ChrAsmSlot::WeaponLeft1);
    assert!(matches!(
        plan(&e, weapon(1600000)),
        Some((_, EquipPlan::Stop(EquipStatus::Missing)))
    ));
}

#[test]
fn other_weapons_of_the_hand_are_put_away() {
    let mut e = equipment(vec![
        entry(weapon(1000000), 1),
        entry(weapon(1100000), 1),
        entry(weapon(110000), 1),
        entry(weapon(1400000), 1),
    ]);
    e.right_weapon_slot = 1;
    wear(&mut e, ChrAsmSlot::WeaponRight1, 4);
    wear(&mut e, ChrAsmSlot::WeaponRight2, 6);
    wear(&mut e, ChrAsmSlot::WeaponRight3, 5);
    wear(&mut e, ChrAsmSlot::WeaponLeft2, 6);
    assert_eq!(
        slot_of(plan(&e, weapon(1000000))),
        (vec![ChrAsmSlot::WeaponRight1], ChrAsmSlot::WeaponRight2)
    );
    assert_eq!(
        slot_of(plan(&e, weapon(1100000))),
        (vec![ChrAsmSlot::WeaponLeft2], ChrAsmSlot::WeaponLeft1)
    );
    e.right_weapon_slot = 3;
    match plan(&e, weapon(1000000)) {
        Some((_, EquipPlan::ClearOnly { clear })) => {
            assert_eq!(clear, vec![ChrAsmSlot::WeaponRight1, ChrAsmSlot::WeaponRight2])
        }
        other => panic!("{:?}", other),
    }
}

#[test]
fn armor_goes_to_its_place() {
    let armor = |k: u32| id(ItemCategory::Protector, 40000 + k);
    let e = equipment((0..6).map(|k| entry(armor(k), 1)).collect());
    let places = [
        ChrAsmSlot::ProtectorHead,
        ChrAsmSlot::ProtectorChest,
        ChrAsmSlot::ProtectorHands,
        ChrAsmSlot::ProtectorLegs,
    ];
    for k in 0..4 {
        assert_eq!(slot_of(plan(&e, armor(k))).1, places[k as usize]);
    }
    assert!(matches!(plan(&e, armor(4)), Some((_, EquipPlan::Stop(EquipStatus::NotNeeded)))));
    assert!(matches!(plan(&e, armor(5)), Some((_, EquipPlan::Stop(EquipStatus::Missing)))));
}

#[test]
fn talismans_replace_the_oldest() {
    let mut data = ItemData::new();
    data.accessory_groups.insert(talisman(1).into_inner(), 3);
    data.accessory_groups.insert(talisman(5).into_inner(), 3);
    let worn = |list: &[u32]| -> Vec<Option<ItemId>> {
        list.iter().map(|&p| if p == 0 { None } else { Some(talisman(p)) }).collect()
    };
    let order = |list: &[u32]| -> Vec<ItemId> { list.iter().map(|&p| talisman(p)).collect() };
    let place = |item: u32, o: &[u32], w: &[u32]| {
        get_oldest_equip_index(&data, talisman(item), &order(o), &worn(w))
    };
    assert_eq!(place(2, &[1, 2], &[1, 2, 0]), 1);
    assert_eq!(place(5, &[], &[2, 1, 0]), 1);
    assert_eq!(place(4, &[], &[2, 0, 0]), 1);
    assert_eq!(place(4, &[2, 1, 3], &[1, 2, 3]), 1);
    assert_eq!(place(4, &[2, 1], &[1, 2, 3]), 0);
    assert_eq!(place(4, &[2, 1, 6], &[1, 2, 3]), 0);
    assert_eq!(place(4, &[], &[]), 0);
}

#[test]
fn talismans_are_planned_by_order() {
    let mut e = equipment((1..6).map(|k| entry(talisman(k), k)).collect());
    for (k, slot) in [
        ChrAsmSlot::Accessory1,
        ChrAsmSlot::Accessory2,
        ChrAsmSlot::Accessory3,
        ChrAsmSlot::Accessory4,
    ]
    .into_iter()
    .enumerate()
    {
        wear(&mut e, slot, 3 + k as i32);
    }
    let mut handler = EquipHandler::new();
    handler.update(&e);
    assert_eq!(handler.accessory_order, (1..5).map(talisman).collect::<Vec<ItemId>>());
    let data = ItemData::new();
    assert_eq!(slot_of(plan_with(&handler, &data, &e, talisman(5))).1, ChrAsmSlot::Accessory1);
    wear(&mut e, ChrAsmSlot::Accessory1, 7);
    handler.update(&e);
    assert_eq!(handler.accessory_order[0], talisman(2));
    assert_eq!(slot_of(plan_with(&handler, &data, &e, talisman(1))).1, ChrAsmSlot::Accessory2);
}

#[test]
fn gems_and_plain_goods_need_no_place() {
    let gem = id(ItemCategory::Gem, 7);
    let e = equipment(vec![entry(gem, 1), entry(spell(4000), 1)]);
    assert!(matches!(plan(&e, gem), Some((_, EquipPlan::Stop(EquipStatus::NotNeeded)))));
    assert!(matches!(plan(&e, spell(4000)), Some((_, EquipPlan::Stop(EquipStatus::NotNeeded)))));
    let mut data = ItemData::new();
    data.spell_slots.insert(spell(4000).into_inner(), 1);
    let planned = plan_with(&EquipHandler::new(), &data, &e, spell(4000));
    assert!(matches!(planned, Some((4, EquipPlan::Spell))));
}

#[test]
fn results_go_by_what_is_worn() {
    let mut e = equipment(vec![entry(talisman(1), 1)]);
    assert!(!is_equipped(&e, ChrAsmSlot::Accessory1, 3));
    assert_eq!(equip_result(&e, ChrAsmSlot::Accessory1, 3), EquipStatus::Failed);
    wear(&mut e, ChrAsmSlot::Accessory1, 3);
    assert!(is_equipped(&e, ChrAsmSlot::Accessory1, 3));
    assert_eq!(equip_result(&e, ChrAsmSlot::Accessory1, 3), EquipStatus::Done);
    assert_eq!(equip_result(&e, ChrAsmSlot::Accessory1, 4), EquipStatus::Failed);
}

#[test]
fn a_worn_item_is_not_equipped_again() {
    let mut e = equipment(vec![entry(talisman(1), 1), entry(talisman(2), 2)]);
    let slot = ChrAsmSlot::Accessory1;
    assert_eq!(equip_step(&e, slot, 3), EquipStep::Equip { slot, index: 3 });
    wear(&mut e, slot, 3);
    assert_eq!(equip_step(&e, slot, 3), EquipStep::Stop(EquipStatus::Done));
    assert_eq!(equip_step(&e, slot, 4), EquipStep::Equip { slot, index: 4 });
    let other = ChrAsmSlot::Accessory2;
    assert_eq!(equip_step(&e, other, 3), EquipStep::Equip { slot: other, index: 3 });
}

#[test]
fn the_order_holds_each_worn_item_once() {
    let inv = inventory(vec![
        entry(talisman(1), 9),
        entry(talisman(2), 5),
        entry(talisman(2), 8),
        None,
    ]);
    let mut order = vec![talisman(2), talisman(7)];
    update_equip_order(&inv, &mut order, &vec![3, 4, 5, 6, 3]);
    assert_eq!(order, vec![talisman(2), talisman(1)]);
    update_equip_order(&inv, &mut order, &vec![]);
    assert!(order.is_empty());
}

#[test]
fn the_order_follows_what_is_worn() {
    let inv = inventory(vec![
        entry(talisman(1), 9),
        entry(talisman(2), 5),
        entry(talisman(3), 7),
        entry(talisman(2), 8),
    ]);
    let mut order = vec![talisman(4), talisman(3)];
    update_equip_order(&inv, &mut order, &vec![3, 4, 5, -1]);
    assert_eq!(order, vec![talisman(3), talisman(2), talisman(1)]);
    update_equip_order(&inv, &mut order, &vec![3, 4]);
    assert_eq!(order, vec![talisman(2), talisman(1)]);
    let mut fresh = vec![];
    update_equip_order(&inv, &mut fresh, &vec![4, 5, 6]);
    assert_eq!(fresh, vec![talisman(3), talisman(2)]);
}

fn spell_data() -> ItemData {
    let mut data = ItemData::new();
    for (param, slots) in [(1u32, 1u32), (2, 2), (3, 3), (5, 5)] {
        data.spell_slots.insert(spell(param).into_inner(), slots);
    }
    data
}

#[test]
fn spell_slots_add_up() {
    let data = spell_data();
    let used = get_used_spell_slots(&data, &vec![Some(spell(1)), None, Some(spell(3)), Some(spell(9))]);
    assert_eq!(used, 4);
    let mut e = equipment(vec![]);
    e.spells = vec![1, 3, -1];
    assert!(check_spells(&data, &e, 4));
    assert!(!check_spells(&data, &e, 3));
}

#[test]
fn spells_are_memorised_where_there_is_room() {
    let data = spell_data();
    let handler = EquipHandler::new();
    let mut e = equipment(vec![]);
    e.spells = vec![2, -1, -1, -1];
    let (step, job) = handler.equip_spell(&data, &e, spell(1));
    assert_eq!(step, SpellStep::Equip { slot: 1, param_id: 1 });
    let job = job.unwrap();
    assert_eq!((job.slots, job.max_slots, job.used_slots), (1, 4, 2));
    assert_eq!(handler.equip_spell(&data, &e, spell(2)), (SpellStep::Select { slot: 0 }, None));
    assert_eq!(
        handler.equip_spell(&data, &e, spell(5)),
        (SpellStep::Stop(EquipStatus::NotNeeded), None)
    );
    assert_eq!(
        handler.equip_spell(&data, &e, spell(9)),
        (SpellStep::Stop(EquipStatus::NotNeeded), None)
    );
    e.spells = vec![9, 9];
    assert_eq!(handler.equip_spell(&data, &e, spell(1)).0, SpellStep::Stop(EquipStatus::Failed));
}

#[test]
fn the_oldest_spells_make_room() {
    let data = spell_data();
    let mut e = equipment(vec![
        entry(spell(1), 1),
        entry(spell(2), 2),
        entry(spell(3), 3),
    ]);
    e.spells = vec![2, 1, -1, -1];
    let mut handler = EquipHandler::new();
    assert_eq!(handler.equip_spell(&data, &e, spell(3)).0, SpellStep::Stop(EquipStatus::Failed));
    handler.update(&e);
    assert_eq!(handler.spell_order, vec![spell(1), spell(2)]);
    let (step, job) = handler.equip_spell(&data, &e, spell(3));
    assert_eq!(step, SpellStep::Unequip { slot: 1 });
    let job = job.unwrap();
    let stuck = handler.spell_forgotten(&data, &e, job);
    assert_eq!(stuck.0, SpellStep::Stop(EquipStatus::Failed));
    e.spells = vec![2, -1, -1, -1];
    let (step, job) = handler.spell_forgotten(&data, &e, job);
    assert_eq!(step, SpellStep::Unequip { slot: 0 });
    assert_eq!(job.used_slots, 2);
    assert_eq!(handler.spell_order, vec![spell(2)]);
    e.spells = vec![-1, -1, -1, -1];
    let (step, _) = handler.spell_forgotten(&data, &e, job);
    assert_eq!(step, SpellStep::Equip { slot: 0, param_id: 3 });
}

#[test]
fn tears_are_ordered_too() {
    let mut e = equipment(vec![entry(spell(11000), 4), entry(spell(11001), 2)]);
    e.physick_tears = vec![Some(spell(11000)), Some(spell(11001))];
    let mut handler = EquipHandler::new();
    handler.update(&e);
    assert_eq!(handler.tear_order, vec![spell(11001), spell(11000)]);
}

#[test]
fn spells_that_change_nothing_need_no_room() {
    let data = spell_data();
    let mut e = equipment(vec![]);
    e.spells = vec![3, 2, -1, -1];
    assert!(!can_equip_spell(&data, &e, spell(1)));
    assert!(can_equip_spell(&data, &e, spell(2)));
    assert!(can_equip_spell(&data, &e, spell(5)));
    assert!(can_equip_spell(&data, &e, spell(9)));
    e.magic_slots = 5;
    assert!(can_equip_spell(&data, &e, spell(1)));
}

#[test]
fn equipment_is_sound_with_known_items_and_places() {
    let mut e = equipment(vec![entry(talisman(1), 1)]);
    assert!(e.is_sound());
    e.equipped_indices.pop();
    assert!(!e.is_sound());
    let unknown = ItemId { category: ItemCategory::Goods, param_id: 0x1000_0000 };
    assert!(!equipment(vec![entry(unknown, 1)]).is_sound());
    let mut e = equipment(vec![]);
    e.spells[0] = 0x1000_0000;
    assert!(!e.is_sound());
}
