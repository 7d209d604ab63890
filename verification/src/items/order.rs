//! The order in which items were equipped, from oldest to newest.
use vstd::prelude::*;

use crate::items::equip::EquipHandler;
use crate::items::inventory::{
    get_equipped_accessory_indices, get_equipped_spell_ids, get_inventory_entry,
    get_item_inventory_indices, Inventory, InventoryEntry, PlayerEquipment,
};
use crate::items::item_id::ItemId;
use crate::sorting::key_order;

verus! {

/// The items of entries.
pub open spec fn entry_ids(entries: Seq<InventoryEntry>) -> Seq<ItemId> {
    entries.map_values(|e: InventoryEntry| e.item_id)
}

/// The position of an item's entry, or the number of entries.
pub open spec fn entry_position(entries: Seq<InventoryEntry>, item: ItemId) -> int
    decreases entries.len(),
{
    if entries.len() == 0 {
        0
    } else {
        let before = entry_position(entries.drop_last(), item);
        if before < entries.len() - 1 || entries.last().item_id == item {
            before
        } else {
            entries.len() as int
        }
    }
}

/// Entries with one more, in place of one of the same item.
pub open spec fn with_worn(entries: Seq<InventoryEntry>, entry: InventoryEntry) -> Seq<
    InventoryEntry,
> {
    let i = entry_position(entries, entry.item_id);
    if i < entries.len() {
        entries.update(i, entry)
    } else {
        entries.push(entry)
    }
}

/// The entries at inventory indices, one for each item.
pub open spec fn worn_entries(inventory: Inventory, indices: Seq<i32>) -> Seq<InventoryEntry>
    decreases indices.len(),
{
    if indices.len() == 0 {
        seq![]
    } else {
        let before = worn_entries(inventory, indices.drop_last());
        match inventory.entry_at(indices.last() as int) {
            Some(e) => with_worn(before, e),
            None => before,
        }
    }
}

/// Whether an item is at one of some inventory indices.
pub open spec fn is_at_indices(inventory: Inventory, indices: Seq<i32>, item: ItemId) -> bool {
    exists|k: int|
        0 <= k < indices.len() && (inventory.entry_at(#[trigger] indices[k] as int) matches Some(e)
            && e.item_id == item)
}

/// The items of an order that are still worn.
pub open spec fn still_worn(order: Seq<ItemId>, worn: Seq<InventoryEntry>) -> Seq<ItemId>
    decreases order.len(),
{
    if order.len() == 0 {
        seq![]
    } else {
        let before = still_worn(order.drop_last(), worn);
        if entry_ids(worn).contains(order.last()) {
            before.push(order.last())
        } else {
            before
        }
    }
}

/// The entries whose items are not in an order.
pub open spec fn newly_worn(order: Seq<ItemId>, worn: Seq<InventoryEntry>) -> Seq<InventoryEntry>
    decreases worn.len(),
{
    if worn.len() == 0 {
        seq![]
    } else {
        let before = newly_worn(order, worn.drop_last());
        if order.contains(worn.last().item_id) {
            before
        } else {
            before.push(worn.last())
        }
    }
}

/// The sort ids of entries.
pub open spec fn sort_keys(entries: Seq<InventoryEntry>) -> Seq<u64> {
    entries.map_values(|e: InventoryEntry| e.sort_id as u64)
}

/// Whether `ids` are the items of entries by ascending sort id.
pub open spec fn by_sort_id(entries: Seq<InventoryEntry>, ids: Seq<ItemId>) -> bool {
    exists|o: Seq<usize>| #[trigger]
        crate::sorting::is_key_order(
            sort_keys(entries),
            o,
        ) && ids == Seq::new(o.len(), |i: int| entries[o[i] as int].item_id)
}

/// Whether `after` follows from `order` when the items at inventory indices are worn: those that
/// are not worn any more are gone, and new ones come last, by the order they were picked up in.
pub open spec fn is_updated_order(
    order: Seq<ItemId>,
    inventory: Inventory,
    indices: Seq<i32>,
    after: Seq<ItemId>,
) -> bool {
    let worn = worn_entries(inventory, indices);
    let kept = still_worn(order, worn);
    exists|new: Seq<ItemId>| #[trigger]
        by_sort_id(newly_worn(order, worn), new) && after == kept + new
}

/// Whether all orders are brought up to date with what is equipped: talismans, spells and tears.
pub open spec fn is_update(
    before: EquipHandler,
    equipment: PlayerEquipment,
    after: EquipHandler,
) -> bool {
    &&& is_updated_order(
        before.accessory_order@,
        equipment.inventory,
        crate::items::inventory::accessory_indices(equipment),
        after.accessory_order@,
    )
    &&& is_updated_order(
        before.spell_order@,
        equipment.inventory,
        crate::items::inventory::index_list(
            equipment.inventory,
            crate::items::inventory::spell_ids(equipment),
        ),
        after.spell_order@,
    )
    &&& is_updated_order(
        before.tear_order@,
        equipment.inventory,
        crate::items::inventory::index_list(equipment.inventory, equipment.physick_tears@),
        after.tear_order@,
    )
}

fn find_entry(entries: &Vec<InventoryEntry>, item: ItemId) -> (r: usize)
    ensures
        r == entry_position(entries@, item),
        r <= entries@.len(),
        r < entries@.len() <==> entry_ids(entries@).contains(item),
{
    let mut found: Option<usize> = None;
    let mut i: usize = 0;
    while i < entries.len()
        invariant
            i <= entries@.len(),
            match found {
                Some(k) => k < i && entry_position(entries@.take(i as int), item) == k
                    && entries@[k as int].item_id == item,
                None => entry_position(entries@.take(i as int), item) == i && forall|k: int|
                    0 <= k < i ==> (#[trigger] entries@[k]).item_id != item,
            },
        decreases entries@.len() - i,
    {
        assert(entries@.take(i + 1).drop_last() =~= entries@.take(i as int));
        if found.is_none() && entries[i].item_id == item {
            found = Some(i);
        }
        i = i + 1;
    }
    assert(entries@.take(i as int) =~= entries@);
    proof {
        let ids = entry_ids(entries@);
        if found is Some {
            assert(ids[found.unwrap() as int] == item);
        } else if ids.contains(item) {
            let k = choose|k: int| 0 <= k < ids.len() && ids[k] == item;
            assert(entries@[k].item_id != item);
        }
    }
    match found {
        Some(k) => k,
        None => i,
    }
}

/// Whether an order holds an item.
pub fn find_in_order(order: &Vec<ItemId>, item: ItemId) -> (r: bool)
    ensures
        r == order@.contains(item),
{
    let mut i: usize = 0;
    while i < order.len()
        invariant
            i <= order@.len(),
            forall|k: int| 0 <= k < i ==> #[trigger] order@[k] != item,
        decreases order@.len() - i,
    {
        if order[i] == item {
            return true;
        }
        i = i + 1;
    }
    false
}

fn collect_worn(inventory: &Inventory, indices: &Vec<i32>) -> (r: Vec<InventoryEntry>)
    requires
        inventory.wf(),
    ensures
        r@ == worn_entries(*inventory, indices@),
{
    let mut worn: Vec<InventoryEntry> = Vec::new();
    let mut i: usize = 0;
    assert(worn@ =~= worn_entries(*inventory, indices@.take(0)));
    while i < indices.len()
        invariant
            inventory.wf(),
            i <= indices@.len(),
            worn@ == worn_entries(*inventory, indices@.take(i as int)),
        decreases indices@.len() - i,
    {
        assert(indices@.take(i + 1).drop_last() =~= indices@.take(i as int));
        if let Some(entry) = get_inventory_entry(inventory, indices[i]) {
            let k = find_entry(&worn, entry.item_id);
            if k < worn.len() {
                worn.set(k, entry);
            } else {
                worn.push(entry);
            }
        }
        i = i + 1;
    }
    assert(indices@.take(i as int) =~= indices@);
    worn
}

/// Brings an order up to date with the items at inventory indices.
pub fn update_equip_order(inventory: &Inventory, equip_order: &mut Vec<ItemId>, indices: &Vec<i32>)
    requires
        inventory.wf(),
    ensures
        is_updated_order(old(equip_order)@, *inventory, indices@, final(equip_order)@),
        old(equip_order)@.no_duplicates() ==> final(equip_order)@.no_duplicates(),
{
    let ghost order = equip_order@;
    let worn = collect_worn(inventory, indices);
    let mut after: Vec<ItemId> = Vec::new();
    let mut i: usize = 0;
    assert(after@ =~= still_worn(order.take(0), worn@));
    while i < equip_order.len()
        invariant
            i <= equip_order@.len(),
            order == equip_order@,
            after@ == still_worn(order.take(i as int), worn@),
        decreases equip_order@.len() - i,
    {
        assert(order.take(i + 1).drop_last() =~= order.take(i as int));
        if find_entry(&worn, equip_order[i]) < worn.len() {
            after.push(equip_order[i]);
        }
        i = i + 1;
    }
    assert(order.take(i as int) =~= order);
    let mut fresh: Vec<InventoryEntry> = Vec::new();
    let mut keys: Vec<u64> = Vec::new();
    let mut i: usize = 0;
    assert(fresh@ =~= newly_worn(order, worn@.take(0)));
    assert(keys@ =~= sort_keys(fresh@));
    while i < worn.len()
        invariant
            i <= worn@.len(),
            order == equip_order@,
            fresh@ == newly_worn(order, worn@.take(i as int)),
            keys@ == sort_keys(fresh@),
        decreases worn@.len() - i,
    {
        assert(worn@.take(i + 1).drop_last() =~= worn@.take(i as int));
        if !find_in_order(equip_order, worn[i].item_id) {
            let ghost before = fresh@;
            fresh.push(worn[i]);
            keys.push(worn[i].sort_id as u64);
            assert(keys@ =~= sort_keys(fresh@));
        }
        i = i + 1;
    }
    assert(worn@.take(i as int) =~= worn@);
    let sorted = key_order(&keys);
    let ghost kept = after@;
    let ghost new = Seq::new(sorted@.len(), |i: int| fresh@[sorted@[i] as int].item_id);
    let mut i: usize = 0;
    assert(after@ =~= kept + new.take(0));
    while i < sorted.len()
        invariant
            i <= sorted@.len(),
            sorted@.len() == fresh@.len(),
            forall|k: int| 0 <= k < sorted@.len() ==> #[trigger] sorted@[k] < fresh@.len(),
            new == Seq::new(sorted@.len(), |i: int| fresh@[sorted@[i] as int].item_id),
            after@ == kept + new.take(i as int),
        decreases sorted@.len() - i,
    {
        after.push(fresh[sorted[i]].item_id);
        assert(after@ =~= kept + new.take(i + 1));
        i = i + 1;
    }
    assert(new.take(i as int) =~= new);
    assert(by_sort_id(newly_worn(order, worn@), new));
    *equip_order = after;
    proof {
        if order.no_duplicates() {
            lemma_order_holds_worn(order, *inventory, indices@, equip_order@);
        }
    }
}

impl EquipHandler {
    /// Brings all orders up to date with what is equipped.
    pub fn update(&mut self, equipment: &PlayerEquipment)
        requires
            equipment.wf(),
        ensures
            is_update(*old(self), *equipment, *final(self)),
            old(self).wf() ==> final(self).wf(),
    {
        let inventory = &equipment.inventory;
        let accessories = get_equipped_accessory_indices(equipment);
        update_equip_order(inventory, &mut self.accessory_order, &accessories);
        let spells = get_item_inventory_indices(inventory, &get_equipped_spell_ids(equipment));
        update_equip_order(inventory, &mut self.spell_order, &spells);
        let tears = get_item_inventory_indices(inventory, &equipment.physick_tears);
        update_equip_order(inventory, &mut self.tear_order, &tears);
    }
}

proof fn lemma_still_worn(order: Seq<ItemId>, worn: Seq<InventoryEntry>)
    ensures
        forall|item: ItemId| #[trigger]
            still_worn(order, worn).contains(item) <==> order.contains(item) && entry_ids(
                worn,
            ).contains(item),
    decreases order.len(),
{
    let kept = still_worn(order, worn);
    if order.len() > 0 {
        let rest = order.drop_last();
        lemma_still_worn(rest, worn);
        let before = still_worn(rest, worn);
        assert forall|item: ItemId| #[trigger] kept.contains(item) <==> order.contains(item)
            && entry_ids(worn).contains(item) by {
            if kept.contains(item) {
                let k = choose|k: int| 0 <= k < kept.len() && kept[k] == item;
                if k < before.len() {
                    assert(before[k] == item);
                    assert(before.contains(item));
                    let j = choose|j: int| 0 <= j < rest.len() && rest[j] == item;
                    assert(order[j] == item);
                } else {
                    assert(order[order.len() - 1] == item);
                }
            }
            if order.contains(item) && entry_ids(worn).contains(item) {
                let j = choose|j: int| 0 <= j < order.len() && order[j] == item;
                if j < rest.len() {
                    assert(rest[j] == item);
                    assert(before.contains(item));
                    let k = choose|k: int| 0 <= k < before.len() && before[k] == item;
                    assert(kept[k] == item);
                } else {
                    assert(kept[kept.len() - 1] == item);
                }
            }
        }
    }
}

proof fn lemma_newly_worn(order: Seq<ItemId>, worn: Seq<InventoryEntry>)
    ensures
        forall|item: ItemId| #[trigger]
            entry_ids(newly_worn(order, worn)).contains(item) <==> !order.contains(item)
                && entry_ids(worn).contains(item),
    decreases worn.len(),
{
    let new = newly_worn(order, worn);
    if worn.len() > 0 {
        let rest = worn.drop_last();
        lemma_newly_worn(order, rest);
        let before = newly_worn(order, rest);
        assert forall|item: ItemId| #[trigger] entry_ids(new).contains(item) <==> !order.contains(
            item,
        ) && entry_ids(worn).contains(item) by {
            if entry_ids(new).contains(item) {
                let k = choose|k: int| 0 <= k < new.len() && entry_ids(new)[k] == item;
                if k < before.len() {
                    assert(entry_ids(before)[k] == item);
                    assert(entry_ids(before).contains(item));
                    let j = choose|j: int| 0 <= j < rest.len() && entry_ids(rest)[j] == item;
                    assert(entry_ids(worn)[j] == item);
                } else {
                    assert(entry_ids(worn)[worn.len() - 1] == item);
                }
            }
            if !order.contains(item) && entry_ids(worn).contains(item) {
                let j = choose|j: int| 0 <= j < worn.len() && entry_ids(worn)[j] == item;
                if j < rest.len() {
                    assert(entry_ids(rest)[j] == item);
                    assert(entry_ids(before).contains(item));
                    let k = choose|k: int| 0 <= k < before.len() && entry_ids(before)[k] == item;
                    assert(entry_ids(new)[k] == item);
                } else {
                    assert(entry_ids(new)[new.len() - 1] == item);
                }
            }
        }
    }
}

/// The position of an item is the first of an entry of it, where there is one.
pub proof fn lemma_entry_position(entries: Seq<InventoryEntry>, item: ItemId)
    ensures
        0 <= entry_position(entries, item) <= entries.len(),
        entry_position(entries, item) < entries.len() ==> entries[entry_position(
            entries,
            item,
        )].item_id == item,
        forall|i: int|
            0 <= i < entry_position(entries, item) ==> (#[trigger] entries[i]).item_id != item,
    decreases entries.len(),
{
    if entries.len() > 0 {
        let rest = entries.drop_last();
        lemma_entry_position(rest, item);
        assert forall|i: int| 0 <= i < entry_position(entries, item) implies (
        #[trigger] entries[i]).item_id != item by {
            if i < rest.len() {
                assert(rest[i] == entries[i]);
            }
        }
        if entry_position(rest, item) < rest.len() {
            assert(rest[entry_position(rest, item)] == entries[entry_position(rest, item)]);
        }
    }
}

proof fn lemma_worn_entries(inventory: Inventory, indices: Seq<i32>)
    ensures
        entry_ids(worn_entries(inventory, indices)).no_duplicates(),
        forall|item: ItemId| #[trigger]
            entry_ids(worn_entries(inventory, indices)).contains(item) <==> is_at_indices(
                inventory,
                indices,
                item,
            ),
    decreases indices.len(),
{
    let worn = worn_entries(inventory, indices);
    if indices.len() > 0 {
        let rest = indices.drop_last();
        let before = worn_entries(inventory, rest);
        lemma_worn_entries(inventory, rest);
        if let Some(e) = inventory.entry_at(indices.last() as int) {
            lemma_entry_position(before, e.item_id);
            let p = entry_position(before, e.item_id);
            if p < before.len() {
                assert(entry_ids(worn) =~= entry_ids(before));
                assert(entry_ids(before)[p] == e.item_id);
            } else {
                assert(entry_ids(worn) =~= entry_ids(before).push(e.item_id));
                assert forall|k: int| 0 <= k < before.len() implies #[trigger] entry_ids(
                    before,
                )[k] != e.item_id by {
                    assert(before[k].item_id != e.item_id);
                }
            }
        }
        assert forall|item: ItemId| #[trigger] entry_ids(worn).contains(item) <==> is_at_indices(
            inventory,
            indices,
            item,
        ) by {
            if is_at_indices(inventory, rest, item) {
                let k = choose|k: int|
                    0 <= k < rest.len() && (inventory.entry_at(#[trigger] rest[k] as int) matches Some(
                        e,
                    ) && e.item_id == item);
                assert(indices[k] == rest[k]);
                assert(is_at_indices(inventory, indices, item));
                assert(entry_ids(before).contains(item));
                let j = choose|j: int| 0 <= j < before.len() && entry_ids(before)[j] == item;
                assert(entry_ids(worn)[j] == item);
            }
            if inventory.entry_at(indices.last() as int) matches Some(e) && e.item_id == item {
                assert(indices[indices.len() - 1] == indices.last());
                assert(is_at_indices(inventory, indices, item));
                let p = entry_position(before, item);
                assert(entry_ids(worn)[p] == item);
            }
            if is_at_indices(inventory, indices, item) {
                let k = choose|k: int|
                    0 <= k < indices.len() && (inventory.entry_at(
                        #[trigger] indices[k] as int,
                    ) matches Some(e) && e.item_id == item);
                if k < rest.len() {
                    assert(rest[k] == indices[k]);
                }
            }
            if entry_ids(worn).contains(item) {
                let j = choose|j: int| 0 <= j < worn.len() && entry_ids(worn)[j] == item;
                if j < before.len() {
                    assert(entry_ids(before)[j] == item);
                    assert(entry_ids(before).contains(item));
                }
            }
        }
    }
}

proof fn lemma_still_worn_single(order: Seq<ItemId>, worn: Seq<InventoryEntry>)
    requires
        order.no_duplicates(),
    ensures
        still_worn(order, worn).no_duplicates(),
    decreases order.len(),
{
    if order.len() > 0 {
        let rest = order.drop_last();
        lemma_still_worn_single(rest, worn);
        lemma_still_worn(rest, worn);
        let before = still_worn(rest, worn);
        if before.contains(order.last()) {
            let j = choose|j: int| 0 <= j < rest.len() && rest[j] == order.last();
            assert(order[j] == order[order.len() - 1]);
        }
    }
}

proof fn lemma_newly_worn_single(order: Seq<ItemId>, worn: Seq<InventoryEntry>)
    requires
        entry_ids(worn).no_duplicates(),
    ensures
        entry_ids(newly_worn(order, worn)).no_duplicates(),
    decreases worn.len(),
{
    if worn.len() > 0 {
        let rest = worn.drop_last();
        assert(entry_ids(rest) =~= entry_ids(worn).drop_last());
        lemma_newly_worn_single(order, rest);
        lemma_newly_worn(order, rest);
        let before = newly_worn(order, rest);
        let last = worn.last().item_id;
        if entry_ids(before).contains(last) {
            let j = choose|j: int| 0 <= j < rest.len() && entry_ids(rest)[j] == last;
            assert(entry_ids(worn)[j] == entry_ids(worn)[worn.len() - 1]);
        }
        assert(entry_ids(before.push(worn.last())) =~= entry_ids(before).push(last));
    }
}

/// Items by sort id are the entries' items, each as often as there.
proof fn lemma_by_sort_id(entries: Seq<InventoryEntry>, ids: Seq<ItemId>)
    requires
        by_sort_id(entries, ids),
    ensures
        forall|item: ItemId| #[trigger]
            ids.contains(item) <==> entry_ids(entries).contains(item),
        entry_ids(entries).no_duplicates() ==> ids.no_duplicates(),
{
    let o = choose|o: Seq<usize>| #[trigger]
        crate::sorting::is_key_order(
            sort_keys(entries),
            o,
        ) && ids == Seq::new(o.len(), |i: int| entries[o[i] as int].item_id);
    let n = entries.len() as int;
    let places = o.map_values(|p: usize| p as int);
    assert(places.no_duplicates()) by {
        assert forall|i: int, j: int|
            0 <= i < places.len() && 0 <= j < places.len() && i != j implies places[i]
            != places[j] by {
            if i < j {
                assert(o[i] != o[j]);
            } else {
                assert(o[j] != o[i]);
            }
        }
    }
    places.unique_seq_to_set();
    vstd::set_lib::lemma_int_range(0, n);
    vstd::seq_lib::seq_to_set_is_finite(places);
    assert(places.to_set().subset_of(vstd::set_lib::set_int_range(0, n))) by {
        assert forall|p: int| places.to_set().contains(p) implies 0 <= p < n by {
            let k = choose|k: int| 0 <= k < places.len() && places[k] == p;
            assert(o[k] < sort_keys(entries).len());
        }
    }
    vstd::set_lib::lemma_subset_equality(
        places.to_set(),
        vstd::set_lib::set_int_range(0, n),
    );
    assert forall|item: ItemId| #[trigger] ids.contains(item) <==> entry_ids(entries).contains(
        item,
    ) by {
        if ids.contains(item) {
            let k = choose|k: int| 0 <= k < ids.len() && ids[k] == item;
            assert(o[k] < sort_keys(entries).len());
            assert(entry_ids(entries)[o[k] as int] == item);
        }
        if entry_ids(entries).contains(item) {
            let p = choose|p: int| 0 <= p < n && entry_ids(entries)[p] == item;
            assert(vstd::set_lib::set_int_range(0, n).contains(p));
            assert(places.to_set().contains(p));
            let k = choose|k: int| 0 <= k < places.len() && places[k] == p;
            assert(ids[k] == item);
        }
    }
    if entry_ids(entries).no_duplicates() {
        assert forall|i: int, j: int|
            0 <= i < ids.len() && 0 <= j < ids.len() && i != j implies ids[i] != ids[j] by {
            assert(o[i] < sort_keys(entries).len() && o[j] < sort_keys(entries).len());
            assert(places[i] != places[j]);
            assert(entry_ids(entries)[o[i] as int] != entry_ids(entries)[o[j] as int]);
        }
    }
}

/// After an update the order holds exactly the items that are worn, none of them twice, and begins
/// with those that were in it before, as they stood.
pub proof fn lemma_order_holds_worn(
    order: Seq<ItemId>,
    inventory: Inventory,
    indices: Seq<i32>,
    after: Seq<ItemId>,
)
    requires
        order.no_duplicates(),
        is_updated_order(order, inventory, indices, after),
    ensures
        forall|item: ItemId| #[trigger]
            after.contains(item) <==> is_at_indices(inventory, indices, item),
        after.no_duplicates(),
        still_worn(order, worn_entries(inventory, indices)).is_prefix_of(after),
{
    let worn = worn_entries(inventory, indices);
    let kept = still_worn(order, worn);
    let entries = newly_worn(order, worn);
    lemma_worn_entries(inventory, indices);
    lemma_still_worn(order, worn);
    lemma_still_worn_single(order, worn);
    lemma_newly_worn(order, worn);
    lemma_newly_worn_single(order, worn);
    let new = choose|new: Seq<ItemId>| #[trigger]
        by_sort_id(entries, new) && after == kept + new;
    lemma_by_sort_id(entries, new);
    assert forall|item: ItemId| #[trigger] after.contains(item) <==> is_at_indices(
        inventory,
        indices,
        item,
    ) by {
        if after.contains(item) {
            let k = choose|k: int| 0 <= k < after.len() && after[k] == item;
            if k < kept.len() {
                assert(kept[k] == item);
                assert(kept.contains(item));
            } else {
                assert(new[k - kept.len()] == item);
                assert(new.contains(item));
                assert(entry_ids(entries).contains(item));
            }
            assert(entry_ids(worn).contains(item));
        }
        if is_at_indices(inventory, indices, item) {
            assert(entry_ids(worn).contains(item));
            if order.contains(item) {
                assert(kept.contains(item));
                let k = choose|k: int| 0 <= k < kept.len() && kept[k] == item;
                assert(after[k] == item);
            } else {
                assert(entry_ids(entries).contains(item));
                assert(new.contains(item));
                let k = choose|k: int| 0 <= k < new.len() && new[k] == item;
                assert(after[kept.len() + k] == item);
            }
        }
    }
    assert forall|i: int, j: int|
        0 <= i < kept.len() && 0 <= j < new.len() implies kept[i] != new[j] by {
        assert(kept.contains(kept[i]));
        assert(new.contains(new[j]));
        assert(entry_ids(entries).contains(new[j]));
    }
    assert forall|i: int, j: int|
        0 <= i < after.len() && 0 <= j < after.len() && i != j implies after[i] != after[j] by {
        let cut = kept.len() as int;
        if i < cut && j < cut {
            assert(kept[i] != kept[j]);
        } else if i < cut {
            assert(kept[i] != new[j - cut]);
        } else if j < cut {
            assert(kept[j] != new[i - cut]);
        } else {
            assert(new[i - cut] != new[j - cut]);
        }
    }
    assert(kept.is_prefix_of(after));
}

/// The longest worn item, while it stays worn, stays the oldest.
pub proof fn lemma_oldest_stays_oldest(
    order: Seq<ItemId>,
    inventory: Inventory,
    indices: Seq<i32>,
    after: Seq<ItemId>,
)
    requires
        is_updated_order(order, inventory, indices, after),
        order.len() > 0,
        entry_ids(worn_entries(inventory, indices)).contains(order[0]),
    ensures
        after.len() > 0,
        after[0] == order[0],
{
    let worn = worn_entries(inventory, indices);
    lemma_first_kept(order, worn);
    let kept = still_worn(order, worn);
    let new = choose|new: Seq<ItemId>| #[trigger]
        by_sort_id(newly_worn(order, worn), new) && after == kept + new;
    assert(after[0] == kept[0]);
}

proof fn lemma_first_kept(order: Seq<ItemId>, worn: Seq<InventoryEntry>)
    requires
        order.len() > 0,
        entry_ids(worn).contains(order[0]),
    ensures
        still_worn(order, worn).len() > 0,
        still_worn(order, worn)[0] == order[0],
    decreases order.len(),
{
    if order.len() > 1 {
        assert(order.drop_last()[0] == order[0]);
        lemma_first_kept(order.drop_last(), worn);
    } else {
        assert(order.drop_last().len() == 0);
        reveal_with_fuel(still_worn, 2);
    }
}

} // verus!
