//! Reading the player's inventory and equipment.
use vstd::prelude::*;

use crate::items::data::ItemData;
use crate::items::item_id::{ItemCategory, ItemId};

verus! {

broadcast use vstd::std_specs::hash::group_hash_axioms;

/// An item in the inventory.
#[derive(PartialEq, Eq, Structural, Clone, Copy, Debug)]
pub struct InventoryEntry {
    pub item_id: ItemId,
    /// Grows with every item that is picked up.
    pub sort_id: u32,
}

/// The places of the inventory, empty ones too. An index counts the key items first, then the
/// normal ones.
#[derive(Debug)]
pub struct Inventory {
    pub normal: Vec<Option<InventoryEntry>>,
    pub key: Vec<Option<InventoryEntry>>,
}

/// A place where equipment is worn.
#[derive(PartialEq, Eq, Structural, Clone, Copy, Debug)]
pub enum ChrAsmSlot {
    WeaponLeft1,
    WeaponRight1,
    WeaponLeft2,
    WeaponRight2,
    WeaponLeft3,
    WeaponRight3,
    Arrow1,
    Bolt1,
    Arrow2,
    Bolt2,
    Arrow3,
    Bolt3,
    ProtectorHead,
    ProtectorChest,
    ProtectorHands,
    ProtectorLegs,
    Unused16,
    Accessory1,
    Accessory2,
    Accessory3,
    Accessory4,
    AccessoryCovenant,
}

/// How many places there are.
pub const CHR_ASM_SLOTS: usize = 22;

/// A place's number.
pub open spec fn slot_number(slot: ChrAsmSlot) -> int {
    match slot {
        ChrAsmSlot::WeaponLeft1 => 0,
        ChrAsmSlot::WeaponRight1 => 1,
        ChrAsmSlot::WeaponLeft2 => 2,
        ChrAsmSlot::WeaponRight2 => 3,
        ChrAsmSlot::WeaponLeft3 => 4,
        ChrAsmSlot::WeaponRight3 => 5,
        ChrAsmSlot::Arrow1 => 6,
        ChrAsmSlot::Bolt1 => 7,
        ChrAsmSlot::Arrow2 => 8,
        ChrAsmSlot::Bolt2 => 9,
        ChrAsmSlot::Arrow3 => 10,
        ChrAsmSlot::Bolt3 => 11,
        ChrAsmSlot::ProtectorHead => 12,
        ChrAsmSlot::ProtectorChest => 13,
        ChrAsmSlot::ProtectorHands => 14,
        ChrAsmSlot::ProtectorLegs => 15,
        ChrAsmSlot::Unused16 => 16,
        ChrAsmSlot::Accessory1 => 17,
        ChrAsmSlot::Accessory2 => 18,
        ChrAsmSlot::Accessory3 => 19,
        ChrAsmSlot::Accessory4 => 20,
        ChrAsmSlot::AccessoryCovenant => 21,
    }
}

impl ChrAsmSlot {
    /// The place's number.
    pub fn number(&self) -> (r: usize)
        ensures
            r == slot_number(*self),
            r < CHR_ASM_SLOTS,
    {
        match self {
            ChrAsmSlot::WeaponLeft1 => 0,
            ChrAsmSlot::WeaponRight1 => 1,
            ChrAsmSlot::WeaponLeft2 => 2,
            ChrAsmSlot::WeaponRight2 => 3,
            ChrAsmSlot::WeaponLeft3 => 4,
            ChrAsmSlot::WeaponRight3 => 5,
            ChrAsmSlot::Arrow1 => 6,
            ChrAsmSlot::Bolt1 => 7,
            ChrAsmSlot::Arrow2 => 8,
            ChrAsmSlot::Bolt2 => 9,
            ChrAsmSlot::Arrow3 => 10,
            ChrAsmSlot::Bolt3 => 11,
            ChrAsmSlot::ProtectorHead => 12,
            ChrAsmSlot::ProtectorChest => 13,
            ChrAsmSlot::ProtectorHands => 14,
            ChrAsmSlot::ProtectorLegs => 15,
            ChrAsmSlot::Unused16 => 16,
            ChrAsmSlot::Accessory1 => 17,
            ChrAsmSlot::Accessory2 => 18,
            ChrAsmSlot::Accessory3 => 19,
            ChrAsmSlot::Accessory4 => 20,
            ChrAsmSlot::AccessoryCovenant => 21,
        }
    }
}

/// The player's inventory and what they wear.
#[derive(Debug)]
pub struct PlayerEquipment {
    pub inventory: Inventory,
    /// By place, the inventory index of what is worn there.
    pub equipped_indices: Vec<i32>,
    /// Which of the three weapons is in each hand.
    pub left_weapon_slot: u32,
    pub right_weapon_slot: u32,
    /// How many talismans beyond the first can be worn.
    pub unlocked_talisman_slots: u8,
    /// The rows of the memorised spells, negative where there is none.
    pub spells: Vec<i32>,
    /// The tears in the flask.
    pub physick_tears: Vec<Option<ItemId>>,
    /// How many spell slots the player has.
    pub magic_slots: u32,
}

impl Inventory {
    /// Whether every place has an index.
    pub open spec fn wf(self) -> bool {
        &&& self.key@.len() + self.normal@.len() <= i32::MAX
        &&& forall|i: int|
            0 <= i < self.normal@.len() ==> ((#[trigger] self.normal@[i]) matches Some(e)
                ==> e.item_id.valid())
        &&& forall|i: int|
            0 <= i < self.key@.len() ==> ((#[trigger] self.key@[i]) matches Some(e)
                ==> e.item_id.valid())
    }

    /// The places in the order in which they are searched, normal items first.
    pub open spec fn places(self) -> Seq<Option<InventoryEntry>> {
        self.normal@ + self.key@
    }

    /// The index of the `k`-th place that is searched.
    pub open spec fn place_index(self, k: int) -> int {
        if k < self.normal@.len() {
            self.key@.len() + k
        } else {
            k - self.normal@.len()
        }
    }

    /// The entry at an index. An index of a normal item is known only below the number of normal
    /// places.
    pub open spec fn entry_at(self, index: int) -> Option<InventoryEntry> {
        if 0 <= index < self.key@.len() {
            self.key@[index]
        } else if self.key@.len() <= index < self.normal@.len() {
            self.normal@[index - self.key@.len()]
        } else {
            None
        }
    }
}

impl PlayerEquipment {
    /// Whether the inventory is sound and every place has an index.
    pub open spec fn wf(self) -> bool {
        &&& self.inventory.wf()
        &&& self.equipped_indices@.len() == CHR_ASM_SLOTS
        &&& forall|i: int|
            0 <= i < self.spells@.len() ==> (#[trigger] self.spells@[i])
                <= crate::items::item_id::MAX_PARAM_ID
    }

    /// What is worn at a place: its index and its entry.
    pub open spec fn worn_at(self, slot: ChrAsmSlot) -> Option<(i32, InventoryEntry)> {
        let index = self.equipped_indices@[slot_number(slot)];
        match self.inventory.entry_at(index as int) {
            Some(entry) => Some((index, entry)),
            None => None,
        }
    }
}

fn entries_sound(entries: &Vec<Option<InventoryEntry>>) -> (r: bool)
    ensures
        r == forall|i: int|
            0 <= i < entries@.len() ==> ((#[trigger] entries@[i]) matches Some(e)
                ==> e.item_id.valid()),
{
    let mut i: usize = 0;
    while i < entries.len()
        invariant
            i <= entries@.len(),
            forall|k: int|
                0 <= k < i ==> ((#[trigger] entries@[k]) matches Some(e) ==> e.item_id.valid()),
        decreases entries@.len() - i,
    {
        if let Some(e) = entries[i] {
            if e.item_id.param_id > crate::items::item_id::MAX_PARAM_ID {
                assert(entries@[i as int] is Some);
                return false;
            }
        }
        i = i + 1;
    }
    true
}

impl PlayerEquipment {
    /// Whether the inventory is sound and every place has an index.
    pub fn is_sound(&self) -> (r: bool)
        ensures
            r == self.wf(),
    {
        let key = self.inventory.key.len();
        let normal = self.inventory.normal.len();
        let most: usize = i32::MAX as usize;
        if key > most || normal > most - key {
            return false;
        }
        if !entries_sound(&self.inventory.normal) || !entries_sound(&self.inventory.key) {
            return false;
        }
        if self.equipped_indices.len() != CHR_ASM_SLOTS {
            return false;
        }
        let mut i: usize = 0;
        while i < self.spells.len()
            invariant
                i <= self.spells@.len(),
                forall|k: int|
                    0 <= k < i ==> (#[trigger] self.spells@[k])
                        <= crate::items::item_id::MAX_PARAM_ID,
            decreases self.spells@.len() - i,
        {
            if self.spells[i] > crate::items::item_id::MAX_PARAM_ID as i32 {
                return false;
            }
            i = i + 1;
        }
        true
    }
}

/// Whether an item is the one that is looked for, or of the same base where levels are ignored.
pub open spec fn matches_item(entry: ItemId, item: ItemId, ignore_level: bool) -> bool {
    if ignore_level {
        crate::items::data::base_item(entry) == crate::items::data::base_item(item)
    } else {
        entry == item
    }
}

/// The place, among the first `n` that are searched, of the newest entry of an item; of equally
/// new ones the last.
pub open spec fn newest_place(
    places: Seq<Option<InventoryEntry>>,
    item: ItemId,
    ignore_level: bool,
) -> Option<int>
    decreases places.len(),
{
    if places.len() == 0 {
        None
    } else {
        let before = newest_place(places.drop_last(), item, ignore_level);
        match places.last() {
            Some(e) if matches_item(e.item_id, item, ignore_level) && (before matches Some(k)
                ==> e.sort_id >= places[k].unwrap().sort_id) => Some(places.len() - 1),
            _ => before,
        }
    }
}

/// The newest entry of an item is of that item, and no newer one is.
pub proof fn lemma_newest_place(
    places: Seq<Option<InventoryEntry>>,
    item: ItemId,
    ignore_level: bool,
)
    ensures
        match newest_place(places, item, ignore_level) {
            Some(k) => {
                &&& 0 <= k < places.len()
                &&& places[k] matches Some(e) && matches_item(e.item_id, item, ignore_level)
                &&& forall|j: int|
                    0 <= j < places.len() ==> ((#[trigger] places[j]) matches Some(e)
                        ==> matches_item(e.item_id, item, ignore_level) ==> e.sort_id
                        < places[k].unwrap().sort_id || (e.sort_id
                        == places[k].unwrap().sort_id && j <= k))
            },
            None => forall|j: int|
                0 <= j < places.len() ==> ((#[trigger] places[j]) matches Some(e)
                    ==> !matches_item(e.item_id, item, ignore_level)),
        },
    decreases places.len(),
{
    if places.len() > 0 {
        let rest = places.drop_last();
        lemma_newest_place(rest, item, ignore_level);
        assert forall|j: int| 0 <= j < rest.len() implies rest[j] == places[j] by {}
        match newest_place(places, item, ignore_level) {
            Some(k) => {
                assert forall|j: int| 0 <= j < places.len() implies ((
                #[trigger] places[j]) matches Some(e) ==> matches_item(
                    e.item_id,
                    item,
                    ignore_level,
                ) ==> e.sort_id < places[k].unwrap().sort_id || (e.sort_id
                    == places[k].unwrap().sort_id && j <= k)) by {
                    if j < rest.len() {
                        assert(rest[j] == places[j]);
                    }
                }
            },
            None => {
                assert forall|j: int| 0 <= j < places.len() implies ((
                #[trigger] places[j]) matches Some(e) ==> !matches_item(
                    e.item_id,
                    item,
                    ignore_level,
                )) by {
                    if j < rest.len() {
                        assert(rest[j] == places[j]);
                    }
                }
            },
        }
    }
}

fn same_item(entry: ItemId, item: ItemId, ignore_level: bool) -> (r: bool)
    ensures
        r == matches_item(entry, item, ignore_level),
{
    if ignore_level {
        ItemData::get_base_item(entry) == ItemData::get_base_item(item)
    } else {
        entry == item
    }
}

/// The index and the entry of the newest of an item.
pub open spec fn latest_entry(inventory: Inventory, item: ItemId, ignore_level: bool) -> Option<
    (int, InventoryEntry),
> {
    match newest_place(inventory.places(), item, ignore_level) {
        Some(k) => Some((inventory.place_index(k), inventory.places()[k].unwrap())),
        None => None,
    }
}

/// The index and the entry of the newest of an item in the inventory.
pub fn get_latest_inventory_entry(inventory: &Inventory, item_id: ItemId, ignore_level: bool) -> (r:
    Option<(i32, InventoryEntry)>)
    requires
        inventory.wf(),
    ensures
        match r {
            Some((index, entry)) => latest_entry(*inventory, item_id, ignore_level) == Some(
                (index as int, entry),
            ),
            None => latest_entry(*inventory, item_id, ignore_level) is None,
        },
{
    let ghost places = inventory.places();
    let count: usize = inventory.normal.len();
    let mut found: Option<(i32, InventoryEntry)> = None;
    let ghost mut at: Option<int> = None;
    let mut i: usize = 0;
    while i < inventory.normal.len()
        invariant
            inventory.wf(),
            places == inventory.places(),
            i <= inventory.normal@.len(),
            at == newest_place(places.take(i as int), item_id, ignore_level),
            match at {
                Some(k) => 0 <= k < i && found == Some(
                    (inventory.place_index(k) as i32, places[k].unwrap()),
                ) && places[k] is Some,
                None => found is None,
            },
        decreases inventory.normal@.len() - i,
    {
        assert(places.take(i + 1).drop_last() =~= places.take(i as int));
        assert(places.take(i + 1).last() == inventory.normal@[i as int]);
        proof {
            if at is Some {
                assert(places.take(i + 1)[at.unwrap()] == places[at.unwrap()]);
            }
        }
        if let Some(entry) = inventory.normal[i] {
            let newer = match found {
                Some((_, best)) => entry.sort_id >= best.sort_id,
                None => true,
            };
            if newer && same_item(entry.item_id, item_id, ignore_level) {
                found = Some(((inventory.key.len() + i) as i32, entry));
                proof {
                    at = Some(i as int);
                }
            }
        }
        i = i + 1;
    }
    let mut i: usize = 0;
    while i < inventory.key.len()
        invariant
            inventory.wf(),
            places == inventory.places(),
            count == inventory.normal@.len(),
            i <= inventory.key@.len(),
            at == newest_place(places.take(count + i), item_id, ignore_level),
            match at {
                Some(k) => 0 <= k < count + i && found == Some(
                    (inventory.place_index(k) as i32, places[k].unwrap()),
                ) && places[k] is Some,
                None => found is None,
            },
        decreases inventory.key@.len() - i,
    {
        assert(places.take(count + i + 1).drop_last() =~= places.take(count + i));
        assert(places.take(count + i + 1).last() == inventory.key@[i as int]);
        proof {
            if at is Some {
                assert(places.take(count + i + 1)[at.unwrap()] == places[at.unwrap()]);
            }
        }
        if let Some(entry) = inventory.key[i] {
            let newer = match found {
                Some((_, best)) => entry.sort_id >= best.sort_id,
                None => true,
            };
            if newer && same_item(entry.item_id, item_id, ignore_level) {
                found = Some((i as i32, entry));
                proof {
                    at = Some(count + i);
                }
            }
        }
        i = i + 1;
    }
    assert(places.take(places.len() as int) =~= places);
    found
}

/// Whether a list holds an item.
pub open spec fn holds(items: Seq<Option<ItemId>>, item: ItemId) -> bool {
    items.contains(Some(item))
}

/// The indices of those of the first `n` places whose item is in a list, in the order in which
/// they are searched.
pub open spec fn item_indices(inventory: Inventory, items: Seq<Option<ItemId>>, n: int) -> Seq<int>
    decreases n,
{
    if n <= 0 {
        seq![]
    } else {
        let before = item_indices(inventory, items, n - 1);
        match inventory.places()[n - 1] {
            Some(e) if holds(items, e.item_id) => before.push(inventory.place_index(n - 1)),
            _ => before,
        }
    }
}

/// The indices of all entries whose item is in a list, in the order in which they are searched.
pub open spec fn index_list(inventory: Inventory, items: Seq<Option<ItemId>>) -> Seq<i32> {
    item_indices(inventory, items, inventory.places().len() as int).map_values(|i: int| i as i32)
}

fn list_holds(items: &Vec<Option<ItemId>>, item: ItemId) -> (r: bool)
    ensures
        r == holds(items@, item),
{
    let mut i: usize = 0;
    while i < items.len()
        invariant
            i <= items@.len(),
            forall|k: int| 0 <= k < i ==> #[trigger] items@[k] != Some(item),
        decreases items@.len() - i,
    {
        if let Some(id) = items[i] {
            if id == item {
                assert(items@[i as int] == Some(item));
                return true;
            }
        }
        i = i + 1;
    }
    false
}

/// The indices of all entries whose item is in a list, normal items first.
pub fn get_item_inventory_indices(inventory: &Inventory, item_ids: &Vec<Option<ItemId>>) -> (r: Vec<
    i32,
>)
    requires
        inventory.wf(),
    ensures
        r@ == index_list(*inventory, item_ids@),
        r@.map_values(|i: i32| i as int) == item_indices(
            *inventory,
            item_ids@,
            inventory.places().len() as int,
        ),
{
    let ghost places = inventory.places();
    let count: usize = inventory.normal.len();
    let mut indices: Vec<i32> = Vec::new();
    let mut i: usize = 0;
    assert(indices@.map_values(|i: i32| i as int) =~= seq![]);
    while i < inventory.normal.len()
        invariant
            inventory.wf(),
            places == inventory.places(),
            i <= inventory.normal@.len(),
            indices@.map_values(|i: i32| i as int) == item_indices(
                *inventory,
                item_ids@,
                i as int,
            ),
        decreases inventory.normal@.len() - i,
    {
        assert(places[i as int] == inventory.normal@[i as int]);
        let ghost before = indices@;
        if let Some(entry) = inventory.normal[i] {
            if list_holds(item_ids, entry.item_id) {
                indices.push((inventory.key.len() + i) as i32);
                assert(indices@.map_values(|i: i32| i as int) =~= before.map_values(
                    |i: i32| i as int,
                ).push(inventory.place_index(i as int)));
            }
        }
        i = i + 1;
    }
    let mut i: usize = 0;
    while i < inventory.key.len()
        invariant
            inventory.wf(),
            places == inventory.places(),
            count == inventory.normal@.len(),
            i <= inventory.key@.len(),
            indices@.map_values(|i: i32| i as int) == item_indices(
                *inventory,
                item_ids@,
                count + i,
            ),
        decreases inventory.key@.len() - i,
    {
        assert(places[count + i] == inventory.key@[i as int]);
        let ghost before = indices@;
        if let Some(entry) = inventory.key[i] {
            if list_holds(item_ids, entry.item_id) {
                indices.push(i as i32);
                assert(indices@.map_values(|i: i32| i as int) =~= before.map_values(
                    |i: i32| i as int,
                ).push(inventory.place_index(count + i)));
            }
        }
        i = i + 1;
    }
    assert(indices@ =~= index_list(*inventory, item_ids@)) by {
        let wide = indices@.map_values(|i: i32| i as int);
        assert forall|k: int| 0 <= k < indices@.len() implies indices@[k] == wide[k] as i32 by {}
    }
    indices
}

/// The position of an index among the normal items, or -1: below zero for an index of a key item,
/// and -1 for an index below zero or from the number of normal places on.
pub fn get_regular_inventory_index(inventory: &Inventory, index: i32) -> (r: i32)
    requires
        inventory.wf(),
    ensures
        r == if 0 <= index < inventory.normal@.len() {
            index - inventory.key@.len()
        } else {
            -1
        },
{
    if index < 0 || index as usize >= inventory.normal.len() {
        return -1;
    }
    index - inventory.key.len() as i32
}

/// The entry at an index.
pub fn get_inventory_entry(inventory: &Inventory, index: i32) -> (r: Option<InventoryEntry>)
    requires
        inventory.wf(),
    ensures
        r == inventory.entry_at(index as int),
{
    if index >= 0 && (index as usize) < inventory.key.len() {
        return inventory.key[index as usize];
    }
    let regular_index = get_regular_inventory_index(inventory, index);
    if regular_index < 0 {
        return None;
    }
    inventory.normal[regular_index as usize]
}

/// What is worn at a place.
pub fn get_equipment_inventory_entry(equipment: &PlayerEquipment, equip_slot: ChrAsmSlot) -> (r:
    Option<(i32, InventoryEntry)>)
    requires
        equipment.wf(),
    ensures
        r == equipment.worn_at(equip_slot),
{
    let index = equipment.equipped_indices[equip_slot.number()];
    match get_inventory_entry(&equipment.inventory, index) {
        Some(entry) => Some((index, entry)),
        None => None,
    }
}

/// The places for talismans.
pub open spec fn accessory_slots() -> Seq<ChrAsmSlot> {
    seq![
        ChrAsmSlot::Accessory1,
        ChrAsmSlot::Accessory2,
        ChrAsmSlot::Accessory3,
        ChrAsmSlot::Accessory4,
    ]
}

/// The place for the talisman with a number.
pub fn accessory_slot(i: usize) -> (r: Option<ChrAsmSlot>)
    ensures
        r == if i < 4 {
            Some(accessory_slots()[i as int])
        } else {
            None
        },
{
    match i {
        0 => Some(ChrAsmSlot::Accessory1),
        1 => Some(ChrAsmSlot::Accessory2),
        2 => Some(ChrAsmSlot::Accessory3),
        3 => Some(ChrAsmSlot::Accessory4),
        _ => None,
    }
}

/// How many talismans can be worn.
pub open spec fn accessory_count(equipment: PlayerEquipment) -> nat {
    if equipment.unlocked_talisman_slots < 3 {
        (equipment.unlocked_talisman_slots + 1) as nat
    } else {
        4
    }
}

/// The indices of the talismans, -1 where none is worn.
pub open spec fn accessory_indices(equipment: PlayerEquipment) -> Seq<i32> {
    Seq::new(
        accessory_count(equipment),
        |i: int|
            match equipment.worn_at(accessory_slots()[i]) {
                Some((index, _)) => index,
                None => -1i32,
            },
    )
}

/// The indices of the talismans.
pub fn get_equipped_accessory_indices(equipment: &PlayerEquipment) -> (r: Vec<i32>)
    requires
        equipment.wf(),
    ensures
        r@ == accessory_indices(*equipment),
{
    let mut ids: Vec<i32> = Vec::new();
    let mut i: usize = 0;
    while i < 4 && i <= equipment.unlocked_talisman_slots as usize
        invariant
            equipment.wf(),
            i <= 4,
            i <= accessory_count(*equipment),
            ids@ == accessory_indices(*equipment).take(i as int),
        decreases 4 - i,
    {
        if let Some(slot) = accessory_slot(i) {
            let index: i32 = match get_equipment_inventory_entry(equipment, slot) {
                Some((index, _)) => index,
                None => -1,
            };
            ids.push(index);
        }
        assert(ids@ =~= accessory_indices(*equipment).take(i + 1));
        i = i + 1;
    }
    assert(accessory_indices(*equipment).take(i as int) =~= accessory_indices(*equipment));
    ids
}

/// The talismans that are worn, by place.
pub open spec fn accessory_ids(equipment: PlayerEquipment) -> Seq<Option<ItemId>> {
    accessory_indices(equipment).map_values(
        |index: i32|
            match equipment.inventory.entry_at(index as int) {
                Some(e) => Some(e.item_id),
                None => None,
            },
    )
}

/// The talismans that are worn, by place.
pub fn get_equipped_accessory_ids(equipment: &PlayerEquipment) -> (r: Vec<Option<ItemId>>)
    requires
        equipment.wf(),
    ensures
        r@ == accessory_ids(*equipment),
{
    let indices = get_equipped_accessory_indices(equipment);
    let mut ids: Vec<Option<ItemId>> = Vec::new();
    let mut i: usize = 0;
    while i < indices.len()
        invariant
            equipment.wf(),
            i <= indices@.len(),
            indices@ == accessory_indices(*equipment),
            ids@ == accessory_ids(*equipment).take(i as int),
        decreases indices@.len() - i,
    {
        let id = match get_inventory_entry(&equipment.inventory, indices[i]) {
            Some(entry) => Some(entry.item_id),
            None => None,
        };
        ids.push(id);
        assert(ids@ =~= accessory_ids(*equipment).take(i + 1));
        i = i + 1;
    }
    assert(accessory_ids(*equipment).take(i as int) =~= accessory_ids(*equipment));
    ids
}

/// The item of a memorised spell's row.
pub open spec fn spell_item(row: i32) -> Option<ItemId> {
    if row < 0 {
        None
    } else {
        Some(ItemId { category: ItemCategory::Goods, param_id: row as u32 })
    }
}

/// The memorised spells.
pub open spec fn spell_ids(equipment: PlayerEquipment) -> Seq<Option<ItemId>> {
    equipment.spells@.map_values(|row: i32| spell_item(row))
}

/// The memorised spells.
pub fn get_equipped_spell_ids(equipment: &PlayerEquipment) -> (r: Vec<Option<ItemId>>)
    requires
        forall|i: int|
            0 <= i < equipment.spells@.len() ==> (#[trigger] equipment.spells@[i])
                <= crate::items::item_id::MAX_PARAM_ID,
    ensures
        r@ == spell_ids(*equipment),
{
    let mut ids: Vec<Option<ItemId>> = Vec::new();
    let mut i: usize = 0;
    while i < equipment.spells.len()
        invariant
            i <= equipment.spells@.len(),
            ids@ == spell_ids(*equipment).take(i as int),
        decreases equipment.spells@.len() - i,
    {
        let row = equipment.spells[i];
        let id = if row < 0 {
            None
        } else {
            Some(ItemId { category: ItemCategory::Goods, param_id: row as u32 })
        };
        ids.push(id);
        assert(ids@ =~= spell_ids(*equipment).take(i + 1));
        i = i + 1;
    }
    assert(spell_ids(*equipment).take(i as int) =~= spell_ids(*equipment));
    ids
}

/// How many slots a spell takes; none where it is not known as one.
pub open spec fn slots_of(spell_slots: Map<u32, u32>, spell: Option<ItemId>) -> nat {
    match spell {
        Some(id) if spell_slots.contains_key(id.raw()) => spell_slots[id.raw()] as nat,
        _ => 0,
    }
}

/// How many slots spells take together.
pub open spec fn used_slots(spell_slots: Map<u32, u32>, spells: Seq<Option<ItemId>>) -> nat
    decreases spells.len(),
{
    if spells.len() == 0 {
        0
    } else {
        used_slots(spell_slots, spells.drop_last()) + slots_of(spell_slots, spells.last())
    }
}

/// The first spells take no more slots than all of them.
pub proof fn lemma_used_prefix(spell_slots: Map<u32, u32>, spells: Seq<Option<ItemId>>, n: int)
    requires
        0 <= n <= spells.len(),
    ensures
        used_slots(spell_slots, spells.take(n)) <= used_slots(spell_slots, spells),
    decreases spells.len() - n,
{
    if n < spells.len() {
        lemma_used_prefix(spell_slots, spells, n + 1);
        assert(spells.take(n + 1).drop_last() =~= spells.take(n));
    } else {
        assert(spells.take(n) =~= spells);
    }
}

/// Whether every spell of a list is an item.
pub open spec fn all_valid(items: Seq<Option<ItemId>>) -> bool {
    forall|i: int|
        0 <= i < items.len() ==> ((#[trigger] items[i]) matches Some(id) ==> id.valid())
}

/// How many slots spells take together.
pub fn get_used_spell_slots(data: &ItemData, spells: &Vec<Option<ItemId>>) -> (r: u32)
    requires
        all_valid(spells@),
        used_slots(data@.spell_slots, spells@) <= u32::MAX,
    ensures
        r == used_slots(data@.spell_slots, spells@),
{
    let mut used: u32 = 0;
    let mut i: usize = 0;
    while i < spells.len()
        invariant
            i <= spells@.len(),
            all_valid(spells@),
            used_slots(data@.spell_slots, spells@) <= u32::MAX,
            used == used_slots(data@.spell_slots, spells@.take(i as int)),
        decreases spells@.len() - i,
    {
        assert(spells@.take(i + 1).drop_last() =~= spells@.take(i as int));
        proof {
            lemma_used_prefix(data@.spell_slots, spells@, i + 1);
        }
        if let Some(id) = spells[i] {
            assert(spells@[i as int] is Some);
            if let Some(slots) = data.spell_slots.get(&id.into_inner()) {
                used = used + *slots;
            }
        }
        i = i + 1;
    }
    assert(spells@.take(i as int) =~= spells@);
    used
}

} // verus!
