//! Deciding where an item is equipped, and what makes room for it.
use vstd::prelude::*;

use std::collections::HashMap;

use crate::items::data::ItemData;
use crate::items::inventory::{
    accessory_slot, get_equipment_inventory_entry, get_equipped_accessory_ids,
    get_latest_inventory_entry, ChrAsmSlot, Inventory, PlayerEquipment,
};
use crate::items::item_id::{ItemCategory, ItemId};
use crate::items::order::find_in_order;

verus! {

broadcast use vstd::std_specs::hash::group_hash_axioms;

/// What became of an attempt to equip an item.
#[derive(PartialEq, Eq, Structural, Clone, Copy, Debug)]
pub enum EquipStatus {
    Done,
    NotNeeded,
    /// The item is not there, and trying again is no use.
    Missing,
    /// The player could not equip it now, and may later.
    Failed,
}

/// What the game is given to equip an inventory item, as the game lays it out.
#[derive(Debug)]
pub struct EquipInventoryItem {
    pub unk0: [u8; 8],
    pub equip_slot: ChrAsmSlot,
    pub unkc: [u8; 0x4C],
    pub inventory_index: i32,
}

impl EquipInventoryItem {
    pub fn new(equip_slot: ChrAsmSlot, inventory_index: i32) -> (r: Self)
        ensures
            r.equip_slot == equip_slot,
            r.inventory_index == inventory_index,
            forall|i: int| 0 <= i < 8 ==> #[trigger] r.unk0@[i] == 0,
            forall|i: int| 0 <= i < 0x4C ==> #[trigger] r.unkc@[i] == 0,
    {
        EquipInventoryItem { unk0: [0;8], equip_slot, unkc: [0;0x4C], inventory_index }
    }
}

/// Whether a weapon of this type goes to the left hand: shields, torches, and what casts spells.
pub open spec fn is_left_handed(wep_type: u16) -> bool {
    wep_type == 65 || wep_type == 67 || wep_type == 69 || wep_type == 90 || wep_type == 57
        || wep_type == 61
}

/// Whether a weapon of this type is ammunition.
pub open spec fn is_ammunition(wep_type: u16) -> bool {
    81 <= wep_type <= 86
}

/// The place for ammunition of this type.
pub open spec fn ammunition_slot(wep_type: u16) -> ChrAsmSlot {
    if wep_type == 85 || wep_type == 86 {
        ChrAsmSlot::Bolt1
    } else {
        ChrAsmSlot::Arrow1
    }
}

/// The place for a hand's weapon with a number.
pub open spec fn hand_slot(i: int, left: bool) -> ChrAsmSlot {
    if i == 1 {
        if left {
            ChrAsmSlot::WeaponLeft2
        } else {
            ChrAsmSlot::WeaponRight2
        }
    } else if i == 2 {
        if left {
            ChrAsmSlot::WeaponLeft3
        } else {
            ChrAsmSlot::WeaponRight3
        }
    } else {
        if left {
            ChrAsmSlot::WeaponLeft1
        } else {
            ChrAsmSlot::WeaponRight1
        }
    }
}

/// The item that stands for empty hands.
pub open spec fn unarmed() -> ItemId {
    ItemId { category: ItemCategory::Weapon, param_id: 110000 }
}

/// Whether something other than fists is worn at a place.
pub open spec fn is_armed(equipment: PlayerEquipment, slot: ChrAsmSlot) -> bool {
    equipment.worn_at(slot) matches Some((_, entry)) && entry.item_id != unarmed()
}

/// The places of a hand, among the first `n`, that are cleared for a weapon at `selected`.
pub open spec fn cleared_slots(
    equipment: PlayerEquipment,
    left: bool,
    selected: u32,
    n: int,
) -> Seq<ChrAsmSlot>
    decreases n,
{
    if n <= 0 {
        seq![]
    } else {
        let before = cleared_slots(equipment, left, selected, n - 1);
        if n - 1 != selected && is_armed(equipment, hand_slot(n - 1, left)) {
            before.push(hand_slot(n - 1, left))
        } else {
            before
        }
    }
}

/// The place for armour of a kind.
pub open spec fn armor_slot(protector_category: u8) -> Option<ChrAsmSlot> {
    if protector_category == 0 {
        Some(ChrAsmSlot::ProtectorHead)
    } else if protector_category == 1 {
        Some(ChrAsmSlot::ProtectorChest)
    } else if protector_category == 2 {
        Some(ChrAsmSlot::ProtectorHands)
    } else if protector_category == 3 {
        Some(ChrAsmSlot::ProtectorLegs)
    } else {
        None
    }
}

/// What the rows of the item tables say about where items are equipped.
#[derive(Debug)]
pub struct EquipRows {
    /// The type of weapons, by the row of the weapon without upgrades.
    pub weapons: HashMap<u32, u16>,
    /// The kind of armour, by row.
    pub protectors: HashMap<u32, u8>,
}

/// How an item is equipped, as the rules see it.
#[verifier::ext_equal]
pub enum PlanModel {
    /// Nothing is done.
    Stop(EquipStatus),
    /// It is memorised as a spell.
    Spell,
    /// The places are cleared, then the item goes to its place.
    Slot { clear: Seq<ChrAsmSlot>, target: ChrAsmSlot },
    /// The places are cleared, and there is no place for the item.
    ClearOnly { clear: Seq<ChrAsmSlot> },
}

/// How an item is equipped.
#[derive(Debug)]
pub enum EquipPlan {
    Stop(EquipStatus),
    Spell,
    Slot { clear: Vec<ChrAsmSlot>, target: ChrAsmSlot },
    ClearOnly { clear: Vec<ChrAsmSlot> },
}

impl View for EquipPlan {
    type V = PlanModel;

    open spec fn view(&self) -> PlanModel {
        match self {
            EquipPlan::Stop(status) => PlanModel::Stop(*status),
            EquipPlan::Spell => PlanModel::Spell,
            EquipPlan::Slot { clear, target } => PlanModel::Slot {
                clear: clear@,
                target: *target,
            },
            EquipPlan::ClearOnly { clear } => PlanModel::ClearOnly { clear: clear@ },
        }
    }
}

/// The group of a talisman, of which only one can be worn.
pub open spec fn group_of(data: crate::items::data::ItemModel, id: ItemId) -> Option<i32> {
    if data.groups.contains_key(id.raw()) {
        Some(data.groups[id.raw()])
    } else {
        None
    }
}

/// Whether a worn item has to make way for another: the same item, or one of its group.
pub open spec fn collides(
    data: crate::items::data::ItemModel,
    item: ItemId,
    worn: Option<ItemId>,
) -> bool {
    match worn {
        Some(id) => id == item || (group_of(data, item) is Some && group_of(data, item)
            == group_of(data, id)),
        None => false,
    }
}

/// The first place whose item collides, or the number of places.
pub open spec fn first_collision(
    data: crate::items::data::ItemModel,
    item: ItemId,
    worn: Seq<Option<ItemId>>,
) -> int
    decreases worn.len(),
{
    if worn.len() == 0 {
        0
    } else {
        let before = first_collision(data, item, worn.drop_last());
        if before < worn.len() - 1 || collides(data, item, worn.last()) {
            before
        } else {
            worn.len() as int
        }
    }
}

/// The first empty place, or the number of places.
pub open spec fn first_empty(worn: Seq<Option<ItemId>>) -> int
    decreases worn.len(),
{
    if worn.len() == 0 {
        0
    } else {
        let before = first_empty(worn.drop_last());
        if before < worn.len() - 1 || worn.last() is None {
            before
        } else {
            worn.len() as int
        }
    }
}

/// Whether the order in which items were equipped is still that of the worn items.
pub open spec fn order_is_current(order: Seq<ItemId>, worn: Seq<Option<ItemId>>) -> bool {
    &&& worn.len() == order.len()
    &&& forall|i: int|
        0 <= i < worn.len() ==> ((#[trigger] worn[i]) matches Some(id) && order.contains(id))
}

/// The first place of an item, or the number of places.
pub open spec fn place_of(worn: Seq<Option<ItemId>>, item: ItemId) -> int
    decreases worn.len(),
{
    if worn.len() == 0 {
        0
    } else {
        let before = place_of(worn.drop_last(), item);
        if before < worn.len() - 1 || worn.last() == Some(item) {
            before
        } else {
            worn.len() as int
        }
    }
}

/// The place for an item: that of one it collides with, otherwise an empty one, otherwise that of
/// the item worn longest, and the first where that is not known.
pub open spec fn oldest_place(
    data: crate::items::data::ItemModel,
    item: ItemId,
    order: Seq<ItemId>,
    worn: Seq<Option<ItemId>>,
) -> int {
    if first_collision(data, item, worn) < worn.len() {
        first_collision(data, item, worn)
    } else if first_empty(worn) < worn.len() {
        first_empty(worn)
    } else if order_is_current(order, worn) && order.len() > 0 && place_of(worn, order[0])
        < worn.len() {
        place_of(worn, order[0])
    } else {
        0
    }
}

/// How an item from the inventory is equipped.
pub open spec fn plan_of(
    data: crate::items::data::ItemModel,
    equipment: PlayerEquipment,
    accessory_order: Seq<ItemId>,
    rows: EquipRows,
    item: ItemId,
) -> PlanModel {
    match item.category {
        ItemCategory::Weapon => {
            let row = crate::items::data::base_item(item).param_id;
            if !rows.weapons@.contains_key(row) {
                PlanModel::Stop(EquipStatus::Missing)
            } else if is_ammunition(rows.weapons@[row]) {
                PlanModel::Slot { clear: seq![], target: ammunition_slot(rows.weapons@[row]) }
            } else {
                let left = is_left_handed(rows.weapons@[row]);
                let selected = if left {
                    equipment.left_weapon_slot
                } else {
                    equipment.right_weapon_slot
                };
                let clear = cleared_slots(equipment, left, selected, 3);
                if selected < 3 {
                    PlanModel::Slot { clear, target: hand_slot(selected as int, left) }
                } else {
                    PlanModel::ClearOnly { clear }
                }
            }
        },
        ItemCategory::Protector => if !rows.protectors@.contains_key(item.param_id) {
            PlanModel::Stop(EquipStatus::Missing)
        } else {
            match armor_slot(rows.protectors@[item.param_id]) {
                Some(target) => PlanModel::Slot { clear: seq![], target },
                None => PlanModel::Stop(EquipStatus::NotNeeded),
            }
        },
        ItemCategory::Accessory => {
            let place = oldest_place(
                data,
                item,
                accessory_order,
                crate::items::inventory::accessory_ids(equipment),
            );
            PlanModel::Slot {
                clear: seq![],
                target: crate::items::inventory::accessory_slots()[place],
            }
        },
        ItemCategory::Goods => if data.spell_slots.contains_key(item.raw()) {
            PlanModel::Spell
        } else {
            PlanModel::Stop(EquipStatus::NotNeeded)
        },
        ItemCategory::Gem => PlanModel::Stop(EquipStatus::NotNeeded),
    }
}

/// The place of a list's item is within the list.
pub proof fn lemma_oldest_place(
    data: crate::items::data::ItemModel,
    item: ItemId,
    order: Seq<ItemId>,
    worn: Seq<Option<ItemId>>,
)
    ensures
        0 <= oldest_place(data, item, order, worn),
        worn.len() > 0 ==> oldest_place(data, item, order, worn) < worn.len(),
{
    lemma_first_places(data, item, worn);
    if order.len() > 0 {
        lemma_place_of(worn, order[0]);
    }
}

proof fn lemma_first_places(
    data: crate::items::data::ItemModel,
    item: ItemId,
    worn: Seq<Option<ItemId>>,
)
    ensures
        0 <= first_collision(data, item, worn) <= worn.len(),
        0 <= first_empty(worn) <= worn.len(),
        first_empty(worn) == worn.len() ==> forall|i: int|
            0 <= i < worn.len() ==> (#[trigger] worn[i]) is Some,
    decreases worn.len(),
{
    if worn.len() > 0 {
        lemma_first_places(data, item, worn.drop_last());
        if first_empty(worn) == worn.len() {
            assert forall|i: int| 0 <= i < worn.len() implies (#[trigger] worn[i]) is Some by {
                if i < worn.len() - 1 {
                    assert(worn.drop_last()[i] is Some);
                }
            }
        }
    }
}

proof fn lemma_place_of(worn: Seq<Option<ItemId>>, item: ItemId)
    ensures
        0 <= place_of(worn, item) <= worn.len(),
    decreases worn.len(),
{
    if worn.len() > 0 {
        lemma_place_of(worn.drop_last(), item);
    }
}

/// The item at an inventory index, and how it is equipped.
#[derive(Debug)]
pub struct EquipStart {
    pub index: i32,
    pub item_id: ItemId,
    pub plan: EquipPlan,
}

/// Whether `r` is how an item is equipped: not at all where there is no player, where the tables
/// are not loaded, or where the inventory does not hold it.
pub open spec fn is_equip_start(
    r: Option<EquipStart>,
    data: crate::items::data::ItemModel,
    accessory_order: Seq<ItemId>,
    equipment: Option<&PlayerEquipment>,
    rows: Option<&EquipRows>,
    item_id: ItemId,
    ignore_level: bool,
) -> bool {
    match (equipment, rows) {
        (Some(e), Some(rows)) => match crate::items::inventory::latest_entry(
            e.inventory,
            item_id,
            ignore_level,
        ) {
            Some((index, entry)) => r matches Some(start) && start.index == index && start.item_id
                == entry.item_id && start.plan@ == plan_of(
                data,
                *e,
                accessory_order,
                *rows,
                entry.item_id,
            ),
            None => r is None,
        },
        _ => r is None,
    }
}

/// The first place of an item, or the number of places.
pub fn find_place(worn: &Vec<Option<ItemId>>, item: ItemId) -> (r: usize)
    ensures
        r == place_of(worn@, item),
        r <= worn@.len(),
{
    let mut found: Option<usize> = None;
    let mut i: usize = 0;
    while i < worn.len()
        invariant
            i <= worn@.len(),
            match found {
                Some(k) => k < i && place_of(worn@.take(i as int), item) == k,
                None => place_of(worn@.take(i as int), item) == i,
            },
        decreases worn@.len() - i,
    {
        assert(worn@.take(i + 1).drop_last() =~= worn@.take(i as int));
        let here = match worn[i] {
            Some(id) => id == item,
            None => false,
        };
        if found.is_none() && here {
            found = Some(i);
        }
        i = i + 1;
    }
    assert(worn@.take(i as int) =~= worn@);
    match found {
        Some(k) => k,
        None => i,
    }
}

/// The first empty place, or the number of places.
pub fn find_empty(worn: &Vec<Option<ItemId>>) -> (r: usize)
    ensures
        r == first_empty(worn@),
        r <= worn@.len(),
{
    let mut found: Option<usize> = None;
    let mut i: usize = 0;
    while i < worn.len()
        invariant
            i <= worn@.len(),
            match found {
                Some(k) => k < i && first_empty(worn@.take(i as int)) == k,
                None => first_empty(worn@.take(i as int)) == i,
            },
        decreases worn@.len() - i,
    {
        assert(worn@.take(i + 1).drop_last() =~= worn@.take(i as int));
        if found.is_none() && worn[i].is_none() {
            found = Some(i);
        }
        i = i + 1;
    }
    assert(worn@.take(i as int) =~= worn@);
    match found {
        Some(k) => k,
        None => i,
    }
}

fn item_collides(data: &ItemData, item: ItemId, worn: Option<ItemId>) -> (r: bool)
    requires
        item.valid(),
        worn matches Some(id) ==> id.valid(),
    ensures
        r == collides(data@, item, worn),
{
    match worn {
        Some(id) => {
            if id == item {
                return true;
            }
            let own = data.accessory_groups.get(&item.into_inner());
            let other = data.accessory_groups.get(&id.into_inner());
            match (own, other) {
                (Some(a), Some(b)) => *a == *b,
                _ => false,
            }
        },
        None => false,
    }
}

/// The place for an item among those that are worn.
pub fn get_oldest_equip_index(
    data: &ItemData,
    equip_item: ItemId,
    equip_order: &Vec<ItemId>,
    equipped_items: &Vec<Option<ItemId>>,
) -> (r: usize)
    requires
        equip_item.valid(),
        crate::items::inventory::all_valid(equipped_items@),
    ensures
        r == oldest_place(data@, equip_item, equip_order@, equipped_items@),
{
    let ghost worn = equipped_items@;
    let mut found: Option<usize> = None;
    let mut i: usize = 0;
    while i < equipped_items.len()
        invariant
            i <= equipped_items@.len(),
            equip_item.valid(),
            worn == equipped_items@,
            crate::items::inventory::all_valid(worn),
            match found {
                Some(k) => k < i && first_collision(data@, equip_item, worn.take(i as int)) == k,
                None => first_collision(data@, equip_item, worn.take(i as int)) == i,
            },
        decreases equipped_items@.len() - i,
    {
        assert(worn.take(i + 1).drop_last() =~= worn.take(i as int));
        assert(worn[i as int] matches Some(id) ==> id.valid());
        if found.is_none() && item_collides(data, equip_item, equipped_items[i]) {
            found = Some(i);
        }
        i = i + 1;
    }
    assert(worn.take(i as int) =~= worn);
    if let Some(k) = found {
        return k;
    }
    let empty = find_empty(equipped_items);
    if empty < equipped_items.len() {
        return empty;
    }
    proof {
        lemma_first_places(data@, equip_item, worn);
    }
    if equipped_items.len() != equip_order.len() {
        return 0;
    }
    let mut i: usize = 0;
    while i < equipped_items.len()
        invariant
            i <= equipped_items@.len(),
            worn == equipped_items@,
            worn.len() == equip_order@.len(),
            first_collision(data@, equip_item, worn) == worn.len(),
            first_empty(worn) == worn.len(),
            forall|k: int| 0 <= k < worn.len() ==> (#[trigger] worn[k]) is Some,
            forall|k: int|
                0 <= k < i ==> ((#[trigger] worn[k]) matches Some(id) && equip_order@.contains(
                    id,
                )),
        decreases equipped_items@.len() - i,
    {
        assert(worn[i as int] is Some);
        if let Some(id) = equipped_items[i] {
            if !find_in_order(equip_order, id) {
                assert(!order_is_current(equip_order@, worn));
                return 0;
            }
        }
        i = i + 1;
    }
    assert(order_is_current(equip_order@, worn));
    if equip_order.len() > 0 {
        let place = find_place(equipped_items, equip_order[0]);
        if place < equipped_items.len() {
            return place;
        }
    }
    0
}

/// What is remembered of equipment: what was equipped when, from oldest to newest.
#[derive(Debug)]
pub struct EquipHandler {
    pub accessory_order: Vec<ItemId>,
    pub spell_order: Vec<ItemId>,
    pub tear_order: Vec<ItemId>,
}

fn clear_hand(equipment: &PlayerEquipment, left: bool, selected: u32) -> (r: Vec<ChrAsmSlot>)
    requires
        equipment.wf(),
    ensures
        r@ == cleared_slots(*equipment, left, selected, 3),
{
    let mut clear: Vec<ChrAsmSlot> = Vec::new();
    let mut i: u32 = 0;
    while i < 3
        invariant
            equipment.wf(),
            i <= 3,
            clear@ == cleared_slots(*equipment, left, selected, i as int),
        decreases 3 - i,
    {
        let slot = weapon_slot(i, left);
        if i != selected {
            if let Some((_, entry)) = get_equipment_inventory_entry(equipment, slot) {
                let fists = entry.item_id.category == ItemCategory::Weapon
                    && entry.item_id.param_id == 110000;
                if !fists {
                    clear.push(slot);
                }
            }
        }
        i = i + 1;
    }
    clear
}

fn weapon_slot(i: u32, left: bool) -> (r: ChrAsmSlot)
    ensures
        r == hand_slot(i as int, left),
{
    if i == 1 {
        if left {
            ChrAsmSlot::WeaponLeft2
        } else {
            ChrAsmSlot::WeaponRight2
        }
    } else if i == 2 {
        if left {
            ChrAsmSlot::WeaponLeft3
        } else {
            ChrAsmSlot::WeaponRight3
        }
    } else {
        if left {
            ChrAsmSlot::WeaponLeft1
        } else {
            ChrAsmSlot::WeaponRight1
        }
    }
}

impl EquipHandler {
    /// Whether no order holds an item twice.
    pub open spec fn wf(self) -> bool {
        &&& self.accessory_order@.no_duplicates()
        &&& self.spell_order@.no_duplicates()
        &&& self.tear_order@.no_duplicates()
    }

    /// Nothing remembered.
    pub fn new() -> (r: Self)
        ensures
            r.wf(),
            r.accessory_order@ == Seq::<ItemId>::empty(),
            r.spell_order@ == Seq::<ItemId>::empty(),
            r.tear_order@ == Seq::<ItemId>::empty(),
    {
        EquipHandler {
            accessory_order: Vec::new(),
            spell_order: Vec::new(),
            tear_order: Vec::new(),
        }
    }

    fn plan_weapon(&self, equipment: &PlayerEquipment, wep_type: u16) -> (r: EquipPlan)
        requires
            equipment.wf(),
        ensures
            r@ == (if is_ammunition(wep_type) {
                PlanModel::Slot { clear: seq![], target: ammunition_slot(wep_type) }
            } else {
                let left = is_left_handed(wep_type);
                let selected = if left {
                    equipment.left_weapon_slot
                } else {
                    equipment.right_weapon_slot
                };
                let clear = cleared_slots(*equipment, left, selected, 3);
                if selected < 3 {
                    PlanModel::Slot { clear, target: hand_slot(selected as int, left) }
                } else {
                    PlanModel::ClearOnly { clear }
                }
            }),
    {
        let mut left = false;
        let mut arrows = false;
        let bow_left = false;
        let cast_left = true;
        if wep_type == 65 || wep_type == 67 || wep_type == 69 || wep_type == 90 {
            left = true;
        } else if wep_type >= 81 && wep_type <= 86 {
            arrows = true;
        } else if wep_type >= 50 && wep_type <= 56 {
            left = bow_left;
        } else if wep_type == 57 || wep_type == 61 {
            left = cast_left;
        }
        if arrows {
            let target = if wep_type == 85 || wep_type == 86 {
                ChrAsmSlot::Bolt1
            } else {
                ChrAsmSlot::Arrow1
            };
            let clear: Vec<ChrAsmSlot> = Vec::new();
            assert(clear@ =~= seq![]);
            return EquipPlan::Slot { clear, target };
        }
        let selected = if left {
            equipment.left_weapon_slot
        } else {
            equipment.right_weapon_slot
        };
        let clear = clear_hand(equipment, left, selected);
        if selected < 3 {
            EquipPlan::Slot { clear, target: weapon_slot(selected, left) }
        } else {
            EquipPlan::ClearOnly { clear }
        }
    }

    /// How an item is equipped: not where there is no player, no such item in the inventory, or
    /// where the tables are not loaded. The newest of the item is taken.
    pub fn equip_item(
        &self,
        data: &ItemData,
        equipment: Option<&PlayerEquipment>,
        rows: Option<&EquipRows>,
        item_id: ItemId,
        ignore_level: bool,
    ) -> (r: Option<EquipStart>)
        requires
            equipment matches Some(e) ==> e.wf(),
        ensures
            is_equip_start(
                r,
                data@,
                self.accessory_order@,
                equipment,
                rows,
                item_id,
                ignore_level,
            ),
    {
        let equipment = match equipment {
            Some(e) => e,
            None => {
                return None;
            },
        };
        let found = get_latest_inventory_entry(&equipment.inventory, item_id, ignore_level);
        let (index, entry) = match found {
            Some(f) => f,
            None => {
                return None;
            },
        };
        let rows = match rows {
            Some(rows) => rows,
            None => {
                return None;
            },
        };
        let item = entry.item_id;
        proof {
            crate::items::inventory::lemma_newest_place(
                equipment.inventory.places(),
                item_id,
                ignore_level,
            );
            lemma_places_valid(equipment.inventory, item_id, ignore_level);
        }
        let none: Vec<ChrAsmSlot> = Vec::new();
        assert(none@ =~= seq![]);
        let plan = match item.category {
            ItemCategory::Weapon => {
                let base = ItemData::get_base_item(item);
                match rows.weapons.get(&base.param_id) {
                    Some(wep_type) => self.plan_weapon(equipment, *wep_type),
                    None => EquipPlan::Stop(EquipStatus::Missing),
                }
            },
            ItemCategory::Protector => match rows.protectors.get(&item.param_id) {
                Some(kind) => match *kind {
                    0 => EquipPlan::Slot { clear: none, target: ChrAsmSlot::ProtectorHead },
                    1 => EquipPlan::Slot { clear: none, target: ChrAsmSlot::ProtectorChest },
                    2 => EquipPlan::Slot { clear: none, target: ChrAsmSlot::ProtectorHands },
                    3 => EquipPlan::Slot { clear: none, target: ChrAsmSlot::ProtectorLegs },
                    _ => EquipPlan::Stop(EquipStatus::NotNeeded),
                },
                None => EquipPlan::Stop(EquipStatus::Missing),
            },
            ItemCategory::Accessory => {
                let worn = get_equipped_accessory_ids(equipment);
                proof {
                    lemma_accessories_valid(*equipment);
                    lemma_oldest_place(data@, item, self.accessory_order@, worn@);
                }
                let place = get_oldest_equip_index(data, item, &self.accessory_order, &worn);
                match accessory_slot(place) {
                    Some(target) => EquipPlan::Slot { clear: none, target },
                    None => EquipPlan::Stop(EquipStatus::NotNeeded),
                }
            },
            ItemCategory::Goods => {
                if data.spell_slots.contains_key(&item.into_inner()) {
                    EquipPlan::Spell
                } else {
                    EquipPlan::Stop(EquipStatus::NotNeeded)
                }
            },
            ItemCategory::Gem => EquipPlan::Stop(EquipStatus::NotNeeded),
        };
        Some(EquipStart { index, item_id: item, plan })
    }
}

proof fn lemma_places_valid(inventory: Inventory, item: ItemId, ignore_level: bool)
    requires
        inventory.wf(),
    ensures
        crate::items::inventory::latest_entry(inventory, item, ignore_level) matches Some((_, e))
            ==> e.item_id.valid(),
{
    crate::items::inventory::lemma_newest_place(inventory.places(), item, ignore_level);
    if let Some(k) = crate::items::inventory::newest_place(inventory.places(), item, ignore_level) {
        if k < inventory.normal@.len() {
            assert(inventory.places()[k] == inventory.normal@[k]);
        } else {
            assert(inventory.places()[k] == inventory.key@[k - inventory.normal@.len()]);
        }
    }
}

proof fn lemma_accessories_valid(equipment: PlayerEquipment)
    requires
        equipment.wf(),
    ensures
        crate::items::inventory::all_valid(crate::items::inventory::accessory_ids(equipment)),
{
}

/// Whether the item at an inventory index is worn at a place.
pub open spec fn is_worn_at(equipment: PlayerEquipment, slot: ChrAsmSlot, index: i32) -> bool {
    equipment.worn_at(slot) matches Some((i, _)) && i == index
}

/// Whether an item needs no equipping, being worn at its place: equipping it again would take it
/// off.
pub fn is_equipped(equipment: &PlayerEquipment, slot: ChrAsmSlot, index: i32) -> (r: bool)
    requires
        equipment.wf(),
    ensures
        r == is_worn_at(*equipment, slot, index),
{
    match get_equipment_inventory_entry(equipment, slot) {
        Some((i, _)) => i == index,
        None => false,
    }
}

/// What the game is to do about an item that belongs at a place.
#[derive(PartialEq, Eq, Structural, Clone, Copy, Debug)]
pub enum EquipStep {
    /// Nothing: the work ends with this status.
    Stop(EquipStatus),
    /// Equip the item at this inventory index at the place, once.
    Equip { slot: ChrAsmSlot, index: i32 },
}

/// What the game is to do about an item that belongs at a place: nothing where it is worn there.
pub open spec fn step_at(equipment: PlayerEquipment, target: ChrAsmSlot, index: i32) -> EquipStep {
    if is_worn_at(equipment, target, index) {
        EquipStep::Stop(EquipStatus::Done)
    } else {
        EquipStep::Equip { slot: target, index }
    }
}

/// What became of equipping an item, going by what is worn afterwards.
pub open spec fn result_at(equipment: PlayerEquipment, slot: ChrAsmSlot, index: i32) -> EquipStatus {
    if is_worn_at(equipment, slot, index) {
        EquipStatus::Done
    } else {
        EquipStatus::Failed
    }
}

/// Decides whether the game is to equip an item. It is not asked to where the item is worn at its
/// place already.
pub fn equip_step(equipment: &PlayerEquipment, target: ChrAsmSlot, index: i32) -> (r: EquipStep)
    requires
        equipment.wf(),
    ensures
        r == step_at(*equipment, target, index),
{
    if is_equipped(equipment, target, index) {
        EquipStep::Stop(EquipStatus::Done)
    } else {
        EquipStep::Equip { slot: target, index }
    }
}

/// What became of equipping an item, going by what is worn afterwards.
pub fn equip_result(equipment: &PlayerEquipment, slot: ChrAsmSlot, index: i32) -> (r: EquipStatus)
    requires
        equipment.wf(),
    ensures
        r == result_at(*equipment, slot, index),
{
    if is_equipped(equipment, slot, index) {
        EquipStatus::Done
    } else {
        EquipStatus::Failed
    }
}

} // verus!
