//! Laws of what is read from the item tables and written into them, of memorising spells, and of
//! the order of equipping.
use vstd::prelude::*;

use crate::items::data;
use crate::items::data::{ClientCat, ItemModel, ItemRow, MessageText, RowFacts, UpgradeType};
use crate::items::equip;
use crate::items::equip::{EquipHandler, EquipStatus};
use crate::items::inventory;
use crate::items::inventory::{Inventory, InventoryEntry, PlayerEquipment};
use crate::items::item_id::{ItemCategory, ItemId};
use crate::items::laws;
use crate::items::lot;
use crate::items::order;
use crate::items::spells;
use crate::items::spells::{SpellJob, SpellStep};

verus! {

// --- Names

/// A text is a name where it is not empty and nowhere says ERROR; the name is the whole text.
/// Otherwise it is said why not.
pub proof fn lemma_valid_name(text: MessageText)
    ensures
        match text {
            MessageText::Null => data::valid_name(text) == Err::<Seq<char>, _>("Null"@),
            MessageText::Invalid => data::valid_name(text) == Err::<Seq<char>, _>(
                "Invalid encoding"@,
            ),
            MessageText::Text(s) => {
                let marked = exists|at: int|
                    0 <= at && at + 5 <= s@.len() && #[trigger] s@.subrange(at, at + 5) == seq![
                        'E',
                        'R',
                        'R',
                        'O',
                        'R',
                    ];
                data::valid_name(text) == if s@.len() == 0 || marked {
                    Err("Error item"@)
                } else {
                    Ok(s@)
                }
            },
        },
{
    if let MessageText::Text(s) = text {
        reveal_strlit("ERROR");
        let word = seq!['E', 'R', 'R', 'O', 'R'];
        assert("ERROR"@ =~= word);
        if exists|at: int|
            0 <= at && at + 5 <= s@.len() && #[trigger] s@.subrange(at, at + 5) == word {
            let at = choose|at: int|
                0 <= at && at + 5 <= s@.len() && #[trigger] s@.subrange(at, at + 5) == word;
            assert(crate::text::occurs_at(s@, "ERROR"@, at));
        }
        if exists|at: int| crate::text::occurs_at(s@, "ERROR"@, at) {
            let at = choose|at: int| crate::text::occurs_at(s@, "ERROR"@, at);
            assert(s@.subrange(at, at + 5) =~= word);
        }
    }
}

/// Of two texts, the first that is a name is taken; where neither is, both reasons are given.
pub proof fn lemma_either_name(main: MessageText, dlc: MessageText)
    ensures
        data::valid_name(main) is Ok ==> data::either_name(main, dlc) == data::valid_name(main),
        data::valid_name(main) is Err && data::valid_name(dlc) is Ok ==> data::either_name(
            main,
            dlc,
        ) == data::valid_name(dlc),
        data::valid_name(main) is Err && data::valid_name(dlc) is Err ==> data::either_name(
            main,
            dlc,
        ) == Err::<Seq<char>, _>(
            data::valid_name(main)->Err_0 + ", "@ + data::valid_name(dlc)->Err_0,
        ),
{
}

// --- Rows

/// Whether a row is one of an item: not fists, not a hairstyle or missing armour, not a spirit ash
/// that is upgraded.
pub open spec fn is_item_row(row: ItemRow) -> bool {
    match row.facts {
        RowFacts::Weapon { .. } => row.row_id != 110000,
        RowFacts::Protector => row.row_id >= 40000,
        RowFacts::Goods { use_limit_summon_buddy, .. } => use_limit_summon_buddy != 1 || row.row_id
            % 100 == 0,
        _ => true,
    }
}

/// The item of a row.
pub open spec fn row_item(row: ItemRow) -> ItemId {
    ItemId {
        category: match row.facts {
            RowFacts::Weapon { .. } => ItemCategory::Weapon,
            RowFacts::Protector => ItemCategory::Protector,
            RowFacts::Accessory { .. } => ItemCategory::Accessory,
            RowFacts::Goods { .. } => ItemCategory::Goods,
            RowFacts::Gem => ItemCategory::Gem,
        },
        param_id: row.row_id,
    }
}

/// A row names its item where it is one of an item, has a name, its number fits, and neither the
/// item nor the name is known. Otherwise nothing changes.
pub proof fn lemma_row_names_item(m: ItemModel, row: ItemRow)
    ensures
        ({
            let raw = row_item(row).raw();
            let name = data::either_name(row.name, row.dlc_name);
            let read = is_item_row(row) && row.row_id <= 0x0FFF_FFFF && name is Ok
                && !m.names.contains_key(raw) && (forall|k: u32| #[trigger]
                m.names.contains_key(k) ==> m.names[k] != name->Ok_0);
            &&& read ==> data::after_row(m, row).names == m.names.insert(raw, name->Ok_0)
            &&& !read ==> data::after_row(m, row) == m
            &&& data::after_row(m, row).spell_slots == m.spell_slots
        }),
{
}

/// What a row that names its item says of it. The client shows weapons, armour and talismans as
/// such. A weapon with a 25th level is upgraded regularly, one with a tenth only somberly; spirit
/// ashes are upgraded in their own way, and nothing else is. Goods of one type are tears. A
/// talisman's group counts where it is above zero. Nothing is said of other items.
pub proof fn lemma_row_facts(m: ItemModel, row: ItemRow)
    requires
        data::after_row(m, row).names != m.names,
    ensures
        ({
            let after = data::after_row(m, row);
            let raw = row_item(row).raw();
            match row.facts {
                RowFacts::Weapon { origin_equip_wep25, origin_equip_wep10 } => {
                    &&& after.cats == m.cats.insert(raw, ClientCat::Weapon)
                    &&& origin_equip_wep25 > 0 ==> after.upgrades == m.upgrades.insert(
                        raw,
                        UpgradeType::Regular,
                    )
                    &&& origin_equip_wep25 <= 0 && origin_equip_wep10 > 0 ==> after.upgrades
                        == m.upgrades.insert(raw, UpgradeType::Somber)
                    &&& origin_equip_wep25 <= 0 && origin_equip_wep10 <= 0 ==> after.upgrades
                        == m.upgrades
                    &&& after.tears == m.tears && after.groups == m.groups
                },
                RowFacts::Protector => {
                    &&& after.cats == m.cats.insert(raw, ClientCat::Armor)
                    &&& after.upgrades == m.upgrades && after.tears == m.tears && after.groups
                        == m.groups
                },
                RowFacts::Accessory { accessory_group } => {
                    &&& after.cats == m.cats.insert(raw, ClientCat::Talisman)
                    &&& accessory_group > 0 ==> after.groups == m.groups.insert(
                        raw,
                        accessory_group,
                    )
                    &&& accessory_group <= 0 ==> after.groups == m.groups
                    &&& after.upgrades == m.upgrades && after.tears == m.tears
                },
                RowFacts::Goods { use_limit_summon_buddy, goods_type } => {
                    &&& after.cats == m.cats && after.groups == m.groups
                    &&& use_limit_summon_buddy == 1 ==> after.upgrades == m.upgrades.insert(
                        raw,
                        UpgradeType::SpiritAsh,
                    )
                    &&& use_limit_summon_buddy != 1 ==> after.upgrades == m.upgrades
                    &&& goods_type == 10 ==> after.tears == m.tears.insert(raw)
                    &&& goods_type != 10 ==> after.tears == m.tears
                },
                RowFacts::Gem => after.cats == m.cats && after.upgrades == m.upgrades && after.tears
                    == m.tears && after.groups == m.groups,
            }
        }),
{
}

/// Rows are read in order.
pub proof fn lemma_rows_in_order(
    m: ItemModel,
    rows: Seq<ItemRow>,
    next: ItemRow,
    spell_rows: Seq<(u32, u8)>,
    spell: (u32, u8),
)
    ensures
        data::after_rows(m, Seq::empty()) == m,
        data::after_rows(m, rows.push(next)) == data::after_row(data::after_rows(m, rows), next),
        data::after_spells(m, Seq::empty()) == m,
        data::after_spells(m, spell_rows.push(spell)) == data::after_spell(
            data::after_spells(m, spell_rows),
            spell.0,
            spell.1,
        ),
{
    assert(rows.push(next).drop_last() =~= rows);
    assert(spell_rows.push(spell).drop_last() =~= spell_rows);
}

/// A spell takes as many slots as its row says. A row without slots is none, nor is row 8000, nor
/// one whose number does not fit; nothing but the slots changes.
pub proof fn lemma_spell_row(m: ItemModel, row_id: u32, slot_length: u8)
    ensures
        ({
            let after = data::after_spell(m, row_id, slot_length);
            let raw = ItemId { category: ItemCategory::Goods, param_id: row_id }.raw();
            &&& row_id == 8000 || row_id > 0x0FFF_FFFF || slot_length == 0 ==> after == m
            &&& row_id != 8000 && row_id <= 0x0FFF_FFFF && slot_length > 0 ==> after.spell_slots
                == m.spell_slots.insert(raw, slot_length as u32)
            &&& after.names == m.names && after.cats == m.cats && after.upgrades == m.upgrades
                && after.tears == m.tears && after.groups == m.groups
        }),
{
}

/// The client is shown every item but weapons with an infusion or a level, whose last four digits
/// are not all zero; with the category that was read, and none where none was.
pub proof fn lemma_shown_to_client(m: ItemModel, item: ItemId)
    requires
        item.valid(),
    ensures
        item.category != ItemCategory::Weapon ==> data::shown_to_client(item.raw()),
        item.category == ItemCategory::Weapon ==> (data::shown_to_client(item.raw())
            <==> item.param_id % 10000 == 0),
        m.cats.contains_key(item.raw()) ==> data::client_cat(m, item.raw()) == m.cats[item.raw()],
        !m.cats.contains_key(item.raw()) ==> data::client_cat(m, item.raw())
            == ClientCat::Uncategorized,
{
    laws::lemma_item_of(item);
}

/// An item that the client is shown is shown by itself, under its name.
pub proof fn lemma_client_item(item: data::ClientItem, m: ItemModel, id: ItemId)
    requires
        id.valid(),
        data::is_client_item(item, m, id.raw()),
    ensures
        item.item_id == Some(id),
        m.names.contains_key(id.raw()) && m.names[id.raw()] == item.name@,
        item.cat == data::client_cat(m, id.raw()),
{
    crate::items::item_id::lemma_raw_is_injective(id, item.item_id.unwrap());
}

/// The base of a weapon is the weapon with its last two digits zero; other items are their own
/// base.
pub proof fn lemma_base_item(id: ItemId)
    ensures
        data::base_item(id).category == id.category,
        id.category != ItemCategory::Weapon ==> data::base_item(id) == id,
        id.category == ItemCategory::Weapon ==> data::base_item(id).param_id % 100 == 0
            && data::base_item(id).param_id <= id.param_id < data::base_item(id).param_id + 100,
{
}

/// The somber level grows by two for every five regular levels, first at the third of them and then
/// at the sixth.
pub proof fn lemma_somber_steps(level: int)
    requires
        0 <= level,
    ensures
        data::somber_level(0) == 0 && data::somber_level(1) == 0 && data::somber_level(2) == 1
            && data::somber_level(3) == 1 && data::somber_level(4) == 1,
        data::somber_level(level + 5) == data::somber_level(level) + 2,
{
}

// --- Lots

/// What is written to give an item. Only a weapon with an ash of war, where there is a row for it,
/// is given as a custom weapon: once, and made of the weapon's base, its level and the ash.
/// Anything else is given itself, as often as asked for, under its category's number. The chance is
/// the same whichever way.
pub proof fn lemma_lot(item: ItemId, quantity: u8, gem: Option<ItemId>, has_row: bool)
    requires
        item.valid(),
        gem matches Some(g) ==> g.valid(),
    ensures
        ({
            let custom = lot::custom_weapon(item, gem, has_row);
            let written = lot::lot_of(item, quantity, custom is Some);
            let forged = has_row && item.category == ItemCategory::Weapon && (gem matches Some(g)
                && g.category == ItemCategory::Gem);
            &&& custom is Some <==> forged
            &&& forged ==> {
                let c = custom.unwrap();
                &&& c.gem_id == gem.unwrap().param_id
                &&& c.base_wep_id % 100 == 0
                &&& c.base_wep_id + c.reinforce_lv == item.param_id
                &&& c.reinforce_lv < 100
                &&& written.lot_item_id01 == 333
                &&& written.lot_item_category01 == 6
                &&& written.lot_item_num01 == 1
            }
            &&& !forged ==> {
                &&& written.lot_item_id01 == item.param_id
                &&& written.lot_item_num01 == quantity
                &&& item.category == ItemCategory::Goods ==> written.lot_item_category01 == 1
                &&& item.category == ItemCategory::Weapon ==> written.lot_item_category01 == 2
                &&& item.category == ItemCategory::Protector ==> written.lot_item_category01 == 3
                &&& item.category == ItemCategory::Accessory ==> written.lot_item_category01 == 4
                &&& item.category == ItemCategory::Gem ==> written.lot_item_category01 == 5
            }
            &&& written.can_exec_by_friendly_ghost == 1
            &&& written.can_exec_by_hostile_ghost == 1
            &&& written.lot_item_base_point01 == 1000
            &&& written.lot_item_rarity == -1
            &&& written.game_clear_offset == -1
        }),
{
    let p = item.param_id;
    assert((p - p % 100) % 100 == 0);
}

// --- Spells

/// The memorised spells are goods, by row; a negative row is an empty slot.
pub proof fn lemma_spell_ids(equipment: PlayerEquipment)
    ensures
        ({
            let ids = inventory::spell_ids(equipment);
            &&& ids.len() == equipment.spells@.len()
            &&& forall|i: int|
                0 <= i < ids.len() ==> ((#[trigger] ids[i]) is None <==> equipment.spells@[i] < 0)
            &&& forall|i: int|
                0 <= i < ids.len() ==> ((#[trigger] ids[i]) matches Some(id) ==> id.category
                    == ItemCategory::Goods && id.param_id == equipment.spells@[i])
        }),
{
}

/// The slots in use are those of every spell together; what is not known as a spell takes none.
pub proof fn lemma_used_slots(
    slots: Map<u32, u32>,
    list: Seq<Option<ItemId>>,
    next: Option<ItemId>,
)
    ensures
        inventory::used_slots(slots, Seq::empty()) == 0,
        inventory::used_slots(slots, list.push(next)) == inventory::used_slots(slots, list) + match next {
            Some(id) => if slots.contains_key(id.raw()) {
                slots[id.raw()] as int
            } else {
                0int
            },
            None => 0int,
        },
{
    assert(list.push(next).drop_last() =~= list);
}

/// A spell is worked on where it is known as one, takes no more slots than there are, and is not
/// memorised; with the slots that it takes, that there are, and that are in use.
pub proof fn lemma_spell_job(m: ItemModel, equipment: PlayerEquipment, item: ItemId)
    requires
        spells::spells_fit(m, equipment, equipment.magic_slots),
    ensures
        ({
            let memorised = inventory::spell_ids(equipment);
            let job = spells::spell_job(m, equipment, item);
            &&& job is Some <==> m.spell_slots.contains_key(item.raw())
                && m.spell_slots[item.raw()] <= equipment.magic_slots && !memorised.contains(
                Some(item),
            )
            &&& job matches Some(j) ==> {
                &&& j.item_id == item
                &&& j.slots == m.spell_slots[item.raw()]
                &&& j.max_slots == equipment.magic_slots
                &&& j.used_slots == inventory::used_slots(m.spell_slots, memorised)
            }
        }),
{
    let memorised = inventory::spell_ids(equipment);
    laws::lemma_place_of(memorised, item);
    let p = equip::place_of(memorised, item);
    if memorised.contains(Some(item)) {
        let k = choose|k: int| 0 <= k < memorised.len() && memorised[k] == Some(item);
        assert(p <= k);
    }
    if p < memorised.len() {
        assert(memorised[p] == Some(item));
    }
}

/// What is done next for a spell. Where there is no room, the spell that was memorised first is
/// forgotten, at its first place; where that is not memorised, the work fails. Where there is room,
/// the spell goes to the first empty slot, and fails where there is none.
pub proof fn lemma_spell_step(job: SpellJob, order: Seq<ItemId>, list: Seq<Option<ItemId>>)
    requires
        list.len() <= usize::MAX,
    ensures
        ({
            let step = spells::next_step(job, order, list);
            let room = job.used_slots + job.slots <= job.max_slots;
            match step {
                SpellStep::Unequip { slot } => !room && order.len() > 0 && slot < list.len()
                    && list[slot as int] == Some(order[0]) && forall|j: int|
                    0 <= j < slot ==> #[trigger] list[j] != Some(order[0]),
                SpellStep::Equip { slot, param_id } => room && slot < list.len()
                    && list[slot as int] is None && param_id == job.item_id.param_id && forall|
                    j: int,
                |
                    0 <= j < slot ==> (#[trigger] list[j]) is Some,
                SpellStep::Stop(status) => status == EquipStatus::Failed && if room {
                    forall|j: int| 0 <= j < list.len() ==> (#[trigger] list[j]) is Some
                } else {
                    order.len() == 0 || !list.contains(Some(order[0]))
                },
                SpellStep::Select { .. } => false,
            }
        }),
{
    if order.len() > 0 {
        laws::lemma_place_of(list, order[0]);
    }
    laws::lemma_first_empty(list);
    if list.contains(Some(order[0])) && order.len() > 0 {
        let k = choose|k: int| 0 <= k < list.len() && list[k] == Some(order[0]);
        assert(equip::place_of(list, order[0]) <= k);
    }
}

/// What is done first for a spell: what is no spell, or takes more slots than there are, is left
/// alone; one that is memorised is selected at its first place; anything else is looked at as a
/// spell on its way.
pub proof fn lemma_first_step(
    m: ItemModel,
    equipment: PlayerEquipment,
    old_order: Seq<ItemId>,
    item: ItemId,
)
    requires
        spells::spells_fit(m, equipment, equipment.magic_slots),
        equipment.spells@.len() <= usize::MAX,
    ensures
        ({
            let memorised = inventory::spell_ids(equipment);
            let step = spells::first_step(m, equipment, old_order, item);
            if !m.spell_slots.contains_key(item.raw()) || m.spell_slots[item.raw()]
                > equipment.magic_slots {
                step == SpellStep::Stop(EquipStatus::NotNeeded)
            } else if memorised.contains(Some(item)) {
                step matches SpellStep::Select { slot } && slot < memorised.len()
                    && memorised[slot as int] == Some(item) && forall|j: int|
                    0 <= j < slot ==> #[trigger] memorised[j] != Some(item)
            } else {
                spells::spell_job(m, equipment, item) matches Some(job) && step
                    == spells::next_step(job, old_order, memorised)
            }
        }),
{
    lemma_spell_job(m, equipment, item);
    let memorised = inventory::spell_ids(equipment);
    laws::lemma_place_of(memorised, item);
    if memorised.contains(Some(item)) {
        let k = choose|k: int| 0 <= k < memorised.len() && memorised[k] == Some(item);
        assert(equip::place_of(memorised, item) <= k);
    }
}

/// After a spell was forgotten the work goes on, with the slots then in use, just where fewer are
/// in use than before; otherwise it fails. So it ends.
pub proof fn lemma_step_after(
    m: ItemModel,
    equipment: PlayerEquipment,
    old_order: Seq<ItemId>,
    job: SpellJob,
)
    requires
        spells::spells_fit(m, equipment, job.used_slots),
    ensures
        ({
            let memorised = inventory::spell_ids(equipment);
            let used = inventory::used_slots(m.spell_slots, memorised);
            let next = spells::job_after(m, equipment, job);
            let step = spells::step_after(m, equipment, old_order, job);
            &&& next.item_id == job.item_id && next.slots == job.slots && next.max_slots
                == job.max_slots
            &&& next.used_slots == used
            &&& used < job.used_slots ==> step == spells::next_step(next, old_order, memorised)
            &&& used >= job.used_slots ==> step == SpellStep::Stop(EquipStatus::Failed)
        }),
{
}

// --- The order of equipping

/// What stays of an order is what is still worn, in the order it was in.
pub proof fn lemma_still_worn_in_order(
    old_order: Seq<ItemId>,
    next: ItemId,
    worn: Seq<InventoryEntry>,
)
    ensures
        order::still_worn(Seq::empty(), worn).len() == 0,
        order::still_worn(old_order.push(next), worn) == if exists|k: int|
            0 <= k < worn.len() && (#[trigger] worn[k]).item_id == next {
            order::still_worn(old_order, worn).push(next)
        } else {
            order::still_worn(old_order, worn)
        },
{
    assert(old_order.push(next).drop_last() =~= old_order);
    let ids = order::entry_ids(worn);
    if exists|k: int| 0 <= k < worn.len() && (#[trigger] worn[k]).item_id == next {
        let k = choose|k: int| 0 <= k < worn.len() && (#[trigger] worn[k]).item_id == next;
        assert(ids[k] == next);
    }
    if ids.contains(next) {
        let k = choose|k: int| 0 <= k < ids.len() && ids[k] == next;
        assert(worn[k].item_id == next);
    }
}

/// Whether an item that is worn was picked up no later than another.
pub open spec fn picked_up_before(worn: Seq<InventoryEntry>, a: ItemId, b: ItemId) -> bool {
    exists|i: int, j: int|
        0 <= i < worn.len() && 0 <= j < worn.len() && (#[trigger] worn[i]).item_id == a && (
        #[trigger] worn[j]).item_id == b && worn[i].sort_id <= worn[j].sort_id
}

proof fn lemma_newly_worn_from(
    old_order: Seq<ItemId>,
    worn: Seq<InventoryEntry>,
)
    ensures
        forall|i: int|
            0 <= i < order::newly_worn(old_order, worn).len() ==> worn.contains(
                #[trigger] order::newly_worn(old_order, worn)[i],
            ),
    decreases worn.len(),
{
    if worn.len() > 0 {
        let rest = worn.drop_last();
        lemma_newly_worn_from(old_order, rest);
        let before = order::newly_worn(old_order, rest);
        let all = order::newly_worn(old_order, worn);
        assert forall|i: int| 0 <= i < all.len() implies worn.contains(#[trigger] all[i]) by {
            if i < before.len() {
                assert(all[i] == before[i]);
                assert(rest.contains(before[i]));
                let k = choose|k: int| 0 <= k < rest.len() && rest[k] == before[i];
                assert(worn[k] == all[i]);
            } else {
                assert(worn[worn.len() - 1] == all[i]);
            }
        }
    }
}

/// New items come after those that are still worn, and of two new ones the one that was picked up
/// first comes first.
pub proof fn lemma_new_items_by_pickup(
    old_order: Seq<ItemId>,
    inv: Inventory,
    indices: Seq<i32>,
    after: Seq<ItemId>,
)
    requires
        order::is_updated_order(old_order, inv, indices, after),
    ensures
        ({
            let worn = order::worn_entries(inv, indices);
            let kept = order::still_worn(old_order, worn).len();
            forall|i: int, j: int|
                kept <= i < j < after.len() ==> picked_up_before(
                    worn,
                    #[trigger] after[i],
                    #[trigger] after[j],
                )
        }),
{
    let worn = order::worn_entries(inv, indices);
    let kept = order::still_worn(old_order, worn);
    let entries = order::newly_worn(old_order, worn);
    let new = choose|new: Seq<ItemId>| #[trigger]
        order::by_sort_id(entries, new) && after == kept + new;
    let keys = order::sort_keys(entries);
    let o = choose|o: Seq<usize>| #[trigger]
        crate::sorting::is_key_order(keys, o) && new == Seq::new(
            o.len(),
            |i: int| entries[o[i] as int].item_id,
        );
    crate::sorting::lemma_key_order(keys, o);
    lemma_newly_worn_from(old_order, worn);
    assert forall|i: int, j: int| kept.len() <= i < j < after.len() implies picked_up_before(
        worn,
        #[trigger] after[i],
        #[trigger] after[j],
    ) by {
        let a = o[i - kept.len()];
        let b = o[j - kept.len()];
        assert(after[i] == new[i - kept.len()]);
        assert(after[j] == new[j - kept.len()]);
        assert(a < keys.len() && b < keys.len());
        assert(keys[a as int] <= keys[b as int]);
        assert(worn.contains(entries[a as int]) && worn.contains(entries[b as int]));
        let x = choose|x: int| 0 <= x < worn.len() && worn[x] == entries[a as int];
        let y = choose|y: int| 0 <= y < worn.len() && worn[y] == entries[b as int];
        assert(worn[x].item_id == after[i] && worn[y].item_id == after[j]);
    }
}

/// The items that count as worn at indices are those there, each once, with the pick-up that was
/// found last.
pub proof fn lemma_worn_entries_in_order(inv: Inventory, indices: Seq<i32>, next: i32)
    ensures
        order::worn_entries(inv, Seq::empty()).len() == 0,
        ({
            let before = order::worn_entries(inv, indices);
            let after = order::worn_entries(inv, indices.push(next));
            match inv.entry_at(next as int) {
                None => after == before,
                Some(e) => if exists|k: int|
                    0 <= k < before.len() && (#[trigger] before[k]).item_id == e.item_id {
                    exists|k: int|
                        0 <= k < before.len() && (#[trigger] before[k]).item_id == e.item_id
                            && after == before.update(k, e)
                } else {
                    after == before.push(e)
                },
            }
        }),
{
    assert(indices.push(next).drop_last() =~= indices);
    let before = order::worn_entries(inv, indices);
    if let Some(e) = inv.entry_at(next as int) {
        order::lemma_entry_position(before, e.item_id);
        let p = order::entry_position(before, e.item_id);
        if exists|k: int| 0 <= k < before.len() && (#[trigger] before[k]).item_id == e.item_id {
            let k = choose|k: int|
                0 <= k < before.len() && (#[trigger] before[k]).item_id == e.item_id;
            assert(p <= k);
            assert(before[p].item_id == e.item_id);
        }
    }
}

proof fn lemma_listed(inv: Inventory, items: Seq<Option<ItemId>>, item: ItemId)
    requires
        inv.wf(),
        order::is_at_indices(inv, inventory::index_list(inv, items), item),
    ensures
        items.contains(Some(item)),
{
    let n = inv.places().len() as int;
    let list = inventory::item_indices(inv, items, n);
    let indices = inventory::index_list(inv, items);
    laws::lemma_item_indices(inv, items, n);
    let k = choose|k: int|
        0 <= k < indices.len() && (inv.entry_at(#[trigger] indices[k] as int) matches Some(e)
            && e.item_id == item);
    let at = list[k];
    assert(0 <= at <= i32::MAX);
    assert(indices[k] == at);
    assert(list.contains(at));
    if at < inv.key@.len() {
        assert(inv.key@[at] matches Some(e) && e.item_id == item);
    } else {
        assert(inv.normal@[at - inv.key@.len()] matches Some(e) && e.item_id == item);
    }
}

/// After an update the order of talismans holds exactly those that are worn, and the orders of
/// spells and tears nothing but memorised spells and tears of the flask; none of them anything
/// twice.
pub proof fn lemma_update_orders(
    before: EquipHandler,
    equipment: PlayerEquipment,
    after: EquipHandler,
    item: ItemId,
)
    requires
        before.wf(),
        equipment.wf(),
        order::is_update(before, equipment, after),
    ensures
        after.wf(),
        after.accessory_order@.contains(item) <==> inventory::accessory_ids(equipment).contains(
            Some(item),
        ),
        after.spell_order@.contains(item) ==> inventory::spell_ids(equipment).contains(Some(item)),
        after.tear_order@.contains(item) ==> equipment.physick_tears@.contains(Some(item)),
{
    let inv = equipment.inventory;
    let worn = inventory::accessory_indices(equipment);
    let ids = inventory::accessory_ids(equipment);
    let spells = inventory::index_list(inv, inventory::spell_ids(equipment));
    let tears = inventory::index_list(inv, equipment.physick_tears@);
    order::lemma_order_holds_worn(before.accessory_order@, inv, worn, after.accessory_order@);
    order::lemma_order_holds_worn(before.spell_order@, inv, spells, after.spell_order@);
    order::lemma_order_holds_worn(before.tear_order@, inv, tears, after.tear_order@);
    if order::is_at_indices(inv, worn, item) {
        let k = choose|k: int|
            0 <= k < worn.len() && (inv.entry_at(#[trigger] worn[k] as int) matches Some(e)
                && e.item_id == item);
        assert(ids[k] == Some(item));
    }
    if ids.contains(Some(item)) {
        let k = choose|k: int| 0 <= k < ids.len() && ids[k] == Some(item);
        assert(inv.entry_at(worn[k] as int) is Some);
    }
    if after.spell_order@.contains(item) {
        lemma_listed(inv, inventory::spell_ids(equipment), item);
    }
    if after.tear_order@.contains(item) {
        lemma_listed(inv, equipment.physick_tears@, item);
    }
}

} // verus!
