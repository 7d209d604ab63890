use souls_client::items::data::{
    get_valid_name, items_file, lookup_name, params_loaded, ClientCat, ItemData, ItemRow, MessageText, RowFacts, UpgradeType,
};
use souls_client::items::equip::{EquipHandler, EquipStatus};
use souls_client::items::item_id::{ItemCategory, ItemId};
use souls_client::items::lot::{CustomWeapon, LotPlan};
use souls_client::items::updater::{get_auto_upgraded_weapon, get_upgraded_weapon, PendingStep};
use souls_client::items::{ItemDesc, ItemRequest, ItemUpdater};

fn id(category: ItemCategory, param_id: u32) -> ItemId {
    ItemId::new(category, param_id).unwrap()
}

fn weapon(param_id: u32) -> ItemId {
    id(ItemCategory::Weapon, param_id)
}

fn text(s: &str) -> MessageText {
    MessageText::Text(s.to_string())
}

fn row(row_id: u32, name: &str, facts: RowFacts) -> ItemRow {
    ItemRow { row_id, name: text(name), dlc_name: MessageText::Null, facts }
}

fn wep(wep25: i32, wep10: i32) -> RowFacts {
    RowFacts::Weapon { origin_equip_wep25: wep25, origin_equip_wep10: wep10 }
}

fn goods(buddy: u8, goods_type: u8) -> RowFacts {
    RowFacts::Goods { use_limit_summon_buddy: buddy, goods_type }
}

fn data() -> ItemData {
    let mut data = ItemData::new();
    data.init(
        &vec![
            row(110000, "Unarmed", wep(1, 1)),
            row(1000000, "Dagger", wep(1, 0)),
            row(1000100, "Heavy Dagger", wep(1, 0)),
            row(2000000, "Moonveil", wep(0, 1)),
            row(50000000, "Arrow", wep(0, 0)),
            row(3000000, "Dagger", wep(1, 0)),
            row(0x1000_0000, "Too Far", wep(1, 0)),
        ],
        &vec![row(39999, "Hair", RowFacts::Protector), row(40000, "Iron Helmet", RowFacts::Protector)],
        &vec![
            row(1000, "Crimson Amber", RowFacts::Accessory { accessory_group: 0 }),
            row(1010, "Radagon's Soreseal", RowFacts::Accessory { accessory_group: 3 }),
        ],
        &vec![
            row(200000, "Mimic Tear", goods(1, 0)),
            row(200001, "Mimic Tear +1", goods(1, 0)),
            row(11000, "Opaline Hardtear", goods(0, 10)),
            row(4000, "Glintstone Pebble", goods(0, 0)),
            row(1, "[ERROR]x", goods(0, 0)),
        ],
        &vec![row(10000, "Lion's Claw", RowFacts::Gem)],
        &vec![(4000, 1), (8000, 2), (4001, 0), (4002, 3), (0x1000_0000, 1)],
    );
    data
}

fn updater() -> ItemUpdater {
    let mut u = ItemUpdater::new();
    u.load_data(data());
    u
}

fn give_item_as_lot(item: ItemId, quantity: u8, gem: Option<ItemId>, row: bool) -> LotPlan {
    EquipHandler::new().give_item_as_lot(item, quantity, gem, row)
}

fn desc(name: &str) -> ItemDesc {
    ItemDesc {
        name: name.to_string(),
        level: None,
        quantity: None,
        gem: None,
        equip: false,
        ignore_level: false,
    }
}

#[test]
fn item_numbers_hold_category_and_row() {
    for (category, number) in [
        (ItemCategory::Weapon, 0u32),
        (ItemCategory::Protector, 1),
        (ItemCategory::Accessory, 2),
        (ItemCategory::Goods, 4),
        (ItemCategory::Gem, 8),
    ] {
        let item = id(category, 0x0FFF_FFFF);
        assert_eq!(item.into_inner(), (number << 28) | 0x0FFF_FFFF);
        assert_eq!(ItemId::from_raw(item.into_inner()), Some(item));
    }
    assert_eq!(ItemId::new(ItemCategory::Weapon, 0x1000_0000), None);
    for raw in [0x3000_0000u32, 0x5000_0001, u32::MAX] {
        assert_eq!(ItemId::from_raw(raw), None);
    }
}

#[test]
fn names_are_valid_or_say_why_not() {
    assert_eq!(get_valid_name(&text("Dagger")), Ok("Dagger".to_string()));
    assert_eq!(get_valid_name(&MessageText::Null), Err("Null".to_string()));
    assert_eq!(get_valid_name(&MessageText::Invalid), Err("Invalid encoding".to_string()));
    assert_eq!(get_valid_name(&text("")), Err("Error item".to_string()));
    assert_eq!(get_valid_name(&text("[ERROR]Dagger")), Err("Error item".to_string()));
    assert_eq!(lookup_name(&text("a"), &text("b")), Ok("a".to_string()));
    assert_eq!(lookup_name(&MessageText::Null, &text("b")), Ok("b".to_string()));
    assert_eq!(
        lookup_name(&MessageText::Null, &text("ERROR")),
        Err("Null, Error item".to_string())
    );
}

#[test]
fn rows_become_items() {
    let d = data();
    let find = |name: &str| d.item_names.find(name).and_then(ItemId::from_raw);
    assert_eq!(find("Dagger"), Some(weapon(1000000)));
    assert_eq!(find("Unarmed"), None);
    assert_eq!(find("Too Far"), None);
    assert_eq!(find("Hair"), None);
    assert_eq!(find("Iron Helmet"), Some(id(ItemCategory::Protector, 40000)));
    assert_eq!(find("Mimic Tear"), Some(id(ItemCategory::Goods, 200000)));
    assert_eq!(find("Mimic Tear +1"), None);
    assert_eq!(find("Lion's Claw"), Some(id(ItemCategory::Gem, 10000)));
    assert_eq!(find("[ERROR]x"), None);
    let raw = |item: ItemId| item.into_inner();
    assert_eq!(d.upgrade_types.get(&raw(weapon(1000000))), Some(&UpgradeType::Regular));
    assert_eq!(d.upgrade_types.get(&raw(weapon(2000000))), Some(&UpgradeType::Somber));
    assert_eq!(d.upgrade_types.get(&raw(weapon(50000000))), None);
    assert_eq!(
        d.upgrade_types.get(&raw(id(ItemCategory::Goods, 200000))),
        Some(&UpgradeType::SpiritAsh)
    );
    assert_eq!(d.item_cats.get(&raw(weapon(50000000))), Some(&ClientCat::Weapon));
    assert_eq!(d.item_cats.get(&raw(id(ItemCategory::Protector, 40000))), Some(&ClientCat::Armor));
    assert_eq!(d.item_cats.get(&raw(id(ItemCategory::Goods, 4000))), None);
    assert!(d.crystal_tears.contains(&raw(id(ItemCategory::Goods, 11000))));
    assert_eq!(d.crystal_tears.len(), 1);
    assert_eq!(d.accessory_groups.get(&raw(id(ItemCategory::Accessory, 1010))), Some(&3));
    assert_eq!(d.accessory_groups.len(), 1);
    let mut spells: Vec<(u32, u32)> = d.spell_slots.iter().map(|(k, v)| (*k, *v)).collect();
    spells.sort();
    assert_eq!(
        spells,
        vec![
            (raw(id(ItemCategory::Goods, 4000)), 1),
            (raw(id(ItemCategory::Goods, 4002)), 3)
        ]
    );
}

#[test]
fn a_second_row_of_an_item_adds_nothing() {
    let mut d = ItemData::new();
    d.iterate_items(&vec![row(1000000, "Dagger", wep(1, 0)), row(1000000, "Knife", wep(0, 1))]);
    assert!(d.item_names.find("Knife").is_none());
    assert_eq!(d.upgrade_types.get(&1000000), Some(&UpgradeType::Regular));
    assert!(d.item_names.knows(1000000, "x"));
    assert!(d.item_names.knows(7, "Dagger"));
    assert!(!d.item_names.knows(7, "x"));
}

#[test]
fn the_client_sees_sorted_items_without_infusions() {
    let items = data().for_client();
    let names: Vec<&str> = items.iter().map(|i| i.name.as_str()).collect();
    assert_eq!(
        names,
        vec![
            "Dagger",
            "Moonveil",
            "Arrow",
            "Iron Helmet",
            "Crimson Amber",
            "Radagon's Soreseal",
            "Glintstone Pebble",
            "Opaline Hardtear",
            "Mimic Tear",
            "Lion's Claw",
        ]
    );
    assert_eq!(items[0].item_id, Some(weapon(1000000)));
    assert_eq!(items[0].cat, ClientCat::Weapon);
    assert_eq!(items[4].cat, ClientCat::Talisman);
    assert_eq!(items[6].cat, ClientCat::Uncategorized);
    assert_eq!(ClientCat::default(), ClientCat::Uncategorized);
}

#[test]
fn base_items_have_no_level() {
    assert_eq!(ItemData::get_base_item(weapon(1000025)), weapon(1000000));
    assert_eq!(ItemData::get_base_item(weapon(1000125)), weapon(1000100));
    let armor = id(ItemCategory::Protector, 40025);
    assert_eq!(ItemData::get_base_item(armor), armor);
}

#[test]
fn somber_levels_follow_regular_levels() {
    let expected = [
        0, 0, 1, 1, 1, 2, 2, 3, 3, 3, 4, 4, 5, 5, 5, 6, 6, 7, 7, 7, 8, 8, 9, 9, 9, 10,
    ];
    for level in 0..=25u8 {
        assert_eq!(ItemData::regular_to_somber_level(level), expected[level as usize]);
    }
}

#[test]
fn weapons_are_upgraded_within_their_levels() {
    let d = data();
    assert_eq!(get_upgraded_weapon(&d, weapon(1000000), 7), Some(weapon(1000007)));
    assert_eq!(get_upgraded_weapon(&d, weapon(1000000), 99), Some(weapon(1000025)));
    assert_eq!(get_upgraded_weapon(&d, weapon(1000000), -3), Some(weapon(1000000)));
    assert_eq!(get_upgraded_weapon(&d, weapon(2000000), 99), Some(weapon(2000010)));
    assert_eq!(get_upgraded_weapon(&d, weapon(50000000), 5), None);
    assert_eq!(get_upgraded_weapon(&d, id(ItemCategory::Goods, 200000), 5), None);
    assert_eq!(get_auto_upgraded_weapon(&d, weapon(1000000), Some(12)), Some(weapon(1000012)));
    assert_eq!(get_auto_upgraded_weapon(&d, weapon(1000000), Some(200)), Some(weapon(1000025)));
    assert_eq!(get_auto_upgraded_weapon(&d, weapon(2000000), Some(12)), Some(weapon(2000005)));
    assert_eq!(get_auto_upgraded_weapon(&d, weapon(1000000), None), None);
}

#[test]
fn giving_needs_known_names() {
    let mut unloaded = ItemUpdater::new();
    assert_eq!(
        unloaded.give_item(&desc("Dagger")),
        Err("Item data not initialized".to_string())
    );
    let mut u = updater();
    assert_eq!(u.give_item(&desc("Knife")), Err("No item found for Knife".to_string()));
    let gem = ItemDesc { gem: Some("Wolf's Claw".to_string()), ..desc("Dagger") };
    assert_eq!(u.give_item(&gem), Err("No gem found for Wolf's Claw".to_string()));
    assert!(u.pending_items().is_empty());
    let req = ItemRequest { items: vec![desc("Knife"), desc("Dagger"), desc("Fork")] };
    assert_eq!(
        u.give(&req),
        Err("No item found for Knife; No item found for Fork".to_string())
    );
    assert_eq!(u.pending_items(), vec![1000000]);
    assert_eq!(u.give(&ItemRequest { items: vec![desc("Arrow")] }), Ok(()));
    let mut pending = u.pending_items();
    pending.sort();
    assert_eq!(pending, vec![1000000, 50000000]);
}

#[test]
fn items_on_their_way_are_not_asked_for_twice() {
    let mut u = updater();
    u.give_item(&ItemDesc { level: Some(3), ..desc("Dagger") }).unwrap();
    u.give_item(&ItemDesc { level: Some(9), ..desc("Dagger") }).unwrap();
    assert_eq!(
        u.plan(1000000, None),
        Some(PendingStep::Give { item_id: weapon(1000003), quantity: 1, gem_id: None })
    );
    assert_eq!(u.plan(5, None), None);
}

#[test]
fn given_items_are_done_unless_equipped() {
    let mut u = updater();
    let asked = ItemDesc {
        quantity: Some(500),
        gem: Some("Lion's Claw".to_string()),
        ..desc("Dagger")
    };
    u.give_item(&asked).unwrap();
    assert_eq!(
        u.plan(1000000, Some(25)),
        Some(PendingStep::Give {
            item_id: weapon(1000025),
            quantity: 100,
            gem_id: Some(id(ItemCategory::Gem, 10000)),
        })
    );
    u.given(1000000, weapon(1000025));
    assert!(u.pending_items().is_empty());
    let few = ItemDesc { quantity: Some(-2), level: Some(-1), ..desc("Arrow") };
    u.give_item(&few).unwrap();
    assert_eq!(
        u.plan(50000000, Some(9)),
        Some(PendingStep::Give { item_id: weapon(50000000), quantity: 1, gem_id: None })
    );
}

#[test]
fn equipping_is_tried_again() {
    let mut u = updater();
    u.give_item(&ItemDesc { equip: true, ignore_level: true, ..desc("Dagger") }).unwrap();
    u.given(1000000, weapon(1000004));
    let step = |first| {
        Some(PendingStep::Equip { item_id: weapon(1000004), first, ignore_level: true })
    };
    assert_eq!(u.plan(1000000, None), step(true));
    u.equipped(1000000, EquipStatus::Failed);
    assert_eq!(u.plan(1000000, None), step(false));
    u.pending.get_mut(&1000000).unwrap().tries = 3599;
    u.equipped(1000000, EquipStatus::Failed);
    assert_eq!(u.pending[&1000000].tries, 3600);
    u.equipped(1000000, EquipStatus::Failed);
    assert!(u.pending_items().is_empty());
    for status in [EquipStatus::Done, EquipStatus::NotNeeded, EquipStatus::Missing] {
        u.give_item(&ItemDesc { equip: true, ..desc("Dagger") }).unwrap();
        u.given(1000000, weapon(1000000));
        u.equipped(1000000, status);
        assert!(u.pending_items().is_empty());
    }
}

#[test]
fn lots_hold_the_item() {
    for (category, number) in [
        (ItemCategory::Weapon, 2),
        (ItemCategory::Protector, 3),
        (ItemCategory::Accessory, 4),
        (ItemCategory::Goods, 1),
        (ItemCategory::Gem, 5),
    ] {
        let plan = give_item_as_lot(id(category, 1234), 9, None, true);
        assert_eq!(plan.custom, None);
        assert_eq!(
            (plan.lot.lot_item_id01, plan.lot.lot_item_category01, plan.lot.lot_item_num01),
            (1234, number, 9)
        );
        assert_eq!(
            (plan.lot.lot_item_base_point01, plan.lot.lot_item_rarity, plan.lot.game_clear_offset),
            (1000, -1, -1)
        );
        assert_eq!(
            (plan.lot.can_exec_by_friendly_ghost, plan.lot.can_exec_by_hostile_ghost),
            (1, 1)
        );
    }
}

#[test]
fn ashes_of_war_make_a_custom_weapon() {
    let gem = Some(id(ItemCategory::Gem, 10000));
    let plan = give_item_as_lot(weapon(1000125), 9, gem, true);
    assert_eq!(
        plan.custom,
        Some(CustomWeapon { base_wep_id: 1000100, reinforce_lv: 25, gem_id: 10000 })
    );
    assert_eq!(
        (plan.lot.lot_item_id01, plan.lot.lot_item_category01, plan.lot.lot_item_num01),
        (333, 6, 1)
    );
    assert_eq!(give_item_as_lot(weapon(1000125), 9, gem, false).custom, None);
    assert_eq!(give_item_as_lot(id(ItemCategory::Goods, 1), 9, gem, true).custom, None);
    let not_gem = Some(id(ItemCategory::Goods, 10000));
    assert_eq!(give_item_as_lot(weapon(1000125), 9, not_gem, true).custom, None);
}

#[test]
fn tables_are_loaded_once_the_last_is() {
    let names = |list: &[&str]| list.iter().map(|s| s.to_string()).collect::<Vec<String>>();
    assert!(params_loaded(&names(&["EQUIP_PARAM_GEM_ST", "THROW_PARAM_ST"])));
    assert!(!params_loaded(&names(&["EQUIP_PARAM_GEM_ST"])));
}

#[test]
fn the_items_file_frames_json() {
    assert_eq!(items_file("[]"), "export const ITEMS = (\n[]);\n");
}
