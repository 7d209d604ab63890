//! Memorising a spell, and forgetting the oldest ones to make room for it.
use vstd::prelude::*;

use crate::items::data::ItemData;
use crate::items::equip::{find_empty, find_place, EquipHandler, EquipStatus};
use crate::items::inventory::{
    get_equipped_spell_ids, get_item_inventory_indices, get_used_spell_slots, PlayerEquipment,
};
use crate::items::item_id::ItemId;
use crate::items::order::update_equip_order;

verus! {

broadcast use vstd::std_specs::hash::group_hash_axioms;

/// What is done next to memorise a spell.
#[derive(PartialEq, Eq, Structural, Clone, Copy, Debug)]
pub enum SpellStep {
    /// Nothing more.
    Stop(EquipStatus),
    /// The spell is memorised already, and is selected.
    Select { slot: usize },
    /// The spell in this slot is forgotten, and then it is looked at again.
    Unequip { slot: usize },
    /// The spell is memorised in this slot, and selected.
    Equip { slot: usize, param_id: u32 },
}

/// A spell on its way to being memorised.
#[derive(PartialEq, Eq, Structural, Clone, Copy, Debug)]
pub struct SpellJob {
    pub item_id: ItemId,
    /// How many slots the spell takes.
    pub slots: u32,
    /// How many slots there are, and how many are taken.
    pub max_slots: u32,
    pub used_slots: u32,
}

/// What is done next, with the memorised spells and the order they were memorised in: where there
/// is room, the spell goes to the first empty slot; where there is not, the oldest is forgotten.
pub open spec fn next_step(job: SpellJob, order: Seq<ItemId>, spells: Seq<Option<ItemId>>) -> SpellStep {
    if job.max_slots - job.used_slots < job.slots {
        if order.len() > 0 && crate::items::equip::place_of(spells, order[0]) < spells.len() {
            SpellStep::Unequip { slot: crate::items::equip::place_of(spells, order[0]) as usize }
        } else {
            SpellStep::Stop(EquipStatus::Failed)
        }
    } else if crate::items::equip::first_empty(spells) < spells.len() {
        SpellStep::Equip {
            slot: crate::items::equip::first_empty(spells) as usize,
            param_id: job.item_id.param_id,
        }
    } else {
        SpellStep::Stop(EquipStatus::Failed)
    }
}

/// The spell as a job, where it is one that is not memorised and fits the slots at all.
pub open spec fn spell_job(
    data: crate::items::data::ItemModel,
    equipment: PlayerEquipment,
    item: ItemId,
) -> Option<SpellJob> {
    let spells = crate::items::inventory::spell_ids(equipment);
    if data.spell_slots.contains_key(item.raw()) && data.spell_slots[item.raw()]
        <= equipment.magic_slots && crate::items::equip::place_of(spells, item) == spells.len() {
        Some(
            SpellJob {
                item_id: item,
                slots: data.spell_slots[item.raw()],
                max_slots: equipment.magic_slots,
                used_slots: crate::items::inventory::used_slots(data.spell_slots, spells) as u32,
            },
        )
    } else {
        None
    }
}

/// What is done first to memorise a spell, with the order the memorised ones were memorised in: one
/// that is memorised is selected, and what is no spell or takes too many slots is left alone.
pub open spec fn first_step(
    data: crate::items::data::ItemModel,
    equipment: PlayerEquipment,
    order: Seq<ItemId>,
    item: ItemId,
) -> SpellStep {
    let spells = crate::items::inventory::spell_ids(equipment);
    match spell_job(data, equipment, item) {
        Some(job) => next_step(job, order, spells),
        None => if data.spell_slots.contains_key(item.raw()) && data.spell_slots[item.raw()]
            <= equipment.magic_slots {
            SpellStep::Select { slot: crate::items::equip::place_of(spells, item) as usize }
        } else {
            SpellStep::Stop(EquipStatus::NotNeeded)
        },
    }
}

/// A spell on its way after another was forgotten, leaving the given equipment.
pub open spec fn job_after(
    data: crate::items::data::ItemModel,
    equipment: PlayerEquipment,
    job: SpellJob,
) -> SpellJob {
    SpellJob {
        used_slots: crate::items::inventory::used_slots(
            data.spell_slots,
            crate::items::inventory::spell_ids(equipment),
        ) as u32,
        ..job
    }
}

/// What is done after a spell was forgotten, leaving the given equipment and order: nothing where
/// no slot was freed.
pub open spec fn step_after(
    data: crate::items::data::ItemModel,
    equipment: PlayerEquipment,
    order: Seq<ItemId>,
    job: SpellJob,
) -> SpellStep {
    let next = job_after(data, equipment, job);
    if next.used_slots < job.used_slots {
        next_step(next, order, crate::items::inventory::spell_ids(equipment))
    } else {
        SpellStep::Stop(EquipStatus::Failed)
    }
}

/// Whether the memorised spells fit the slots.
pub open spec fn spells_fit(
    data: crate::items::data::ItemModel,
    equipment: PlayerEquipment,
    max_slots: u32,
) -> bool {
    crate::items::inventory::used_slots(
        data.spell_slots,
        crate::items::inventory::spell_ids(equipment),
    ) <= max_slots
}

proof fn lemma_spells_valid(equipment: PlayerEquipment)
    requires
        equipment.wf(),
    ensures
        crate::items::inventory::all_valid(crate::items::inventory::spell_ids(equipment)),
{
}

impl SpellJob {
    fn step(&self, order: &Vec<ItemId>, spells: &Vec<Option<ItemId>>) -> (r: SpellStep)
        requires
            self.used_slots <= self.max_slots,
        ensures
            r == next_step(*self, order@, spells@),
    {
        if self.max_slots - self.used_slots < self.slots {
            if order.len() > 0 {
                let slot = find_place(spells, order[0]);
                if slot < spells.len() {
                    return SpellStep::Unequip { slot };
                }
            }
            return SpellStep::Stop(EquipStatus::Failed);
        }
        let slot = find_empty(spells);
        if slot < spells.len() {
            SpellStep::Equip { slot, param_id: self.item_id.param_id }
        } else {
            SpellStep::Stop(EquipStatus::Failed)
        }
    }
}

impl EquipHandler {
    /// Begins to memorise a spell: not where it is none, or takes more slots than there are.
    pub fn equip_spell(&self, data: &ItemData, equipment: &PlayerEquipment, item_id: ItemId) -> (r:
        (SpellStep, Option<SpellJob>))
        requires
            equipment.wf(),
            item_id.valid(),
            spell_job(data@, *equipment, item_id) is Some ==> spells_fit(
                data@,
                *equipment,
                equipment.magic_slots,
            ),
        ensures
            r.1 == spell_job(data@, *equipment, item_id),
            r.0 == first_step(data@, *equipment, self.spell_order@, item_id),
    {
        let slots = match data.spell_slots.get(&item_id.into_inner()) {
            Some(slots) => *slots,
            None => {
                return (SpellStep::Stop(EquipStatus::NotNeeded), None);
            },
        };
        let max_slots = equipment.magic_slots;
        if slots > max_slots {
            return (SpellStep::Stop(EquipStatus::NotNeeded), None);
        }
        let spells = get_equipped_spell_ids(equipment);
        let exist = find_place(&spells, item_id);
        if exist < spells.len() {
            return (SpellStep::Select { slot: exist }, None);
        }
        proof {
            lemma_spells_valid(*equipment);
        }
        let used_slots = get_used_spell_slots(data, &spells);
        let job = SpellJob { item_id, slots, max_slots, used_slots };
        (job.step(&self.spell_order, &spells), Some(job))
    }

    /// A spell was forgotten, leaving the given equipment: the order is brought up to date, and
    /// the spell is looked at again, unless nothing was freed.
    pub fn spell_forgotten(
        &mut self,
        data: &ItemData,
        equipment: &PlayerEquipment,
        job: SpellJob,
    ) -> (r: (SpellStep, SpellJob))
        requires
            equipment.wf(),
            spells_fit(data@, *equipment, job.used_slots),
            job.used_slots <= job.max_slots,
        ensures
            crate::items::order::is_updated_order(
                old(self).spell_order@,
                equipment.inventory,
                crate::items::inventory::index_list(
                    equipment.inventory,
                    crate::items::inventory::spell_ids(*equipment),
                ),
                final(self).spell_order@,
            ),
            final(self).accessory_order == old(self).accessory_order,
            final(self).tear_order == old(self).tear_order,
            old(self).wf() ==> final(self).wf(),
            r.1 == job_after(data@, *equipment, job),
            r.0 == step_after(data@, *equipment, final(self).spell_order@, job),
    {
        let spells = get_equipped_spell_ids(equipment);
        let indices = get_item_inventory_indices(&equipment.inventory, &spells);
        update_equip_order(&equipment.inventory, &mut self.spell_order, &indices);
        proof {
            lemma_spells_valid(*equipment);
        }
        let used_slots = get_used_spell_slots(data, &spells);
        let next = SpellJob {
            item_id: job.item_id,
            slots: job.slots,
            max_slots: job.max_slots,
            used_slots,
        };
        if used_slots < job.used_slots {
            (next.step(&self.spell_order, &spells), next)
        } else {
            (SpellStep::Stop(EquipStatus::Failed), next)
        }
    }
}

/// Whether the memorised spells fit the given number of slots.
pub fn check_spells(data: &ItemData, equipment: &PlayerEquipment, max_slots: u32) -> (r: bool)
    requires
        equipment.wf(),
    ensures
        r == spells_fit(data@, *equipment, max_slots),
{
    let spells = get_equipped_spell_ids(equipment);
    proof {
        lemma_spells_valid(*equipment);
    }
    let ghost map = data@.spell_slots;
    let mut used: u64 = 0;
    let mut i: usize = 0;
    while i < spells.len()
        invariant
            i <= spells@.len(),
            map == data@.spell_slots,
            crate::items::inventory::all_valid(spells@),
            spells@ == crate::items::inventory::spell_ids(*equipment),
            used <= max_slots,
            used == crate::items::inventory::used_slots(map, spells@.take(i as int)),
        decreases spells@.len() - i,
    {
        assert(spells@.take(i + 1).drop_last() =~= spells@.take(i as int));
        if let Some(id) = spells[i] {
            assert(spells@[i as int] is Some);
            if let Some(slots) = data.spell_slots.get(&id.into_inner()) {
                used = used + *slots as u64;
            }
        }
        if used > max_slots as u64 {
            proof {
                crate::items::inventory::lemma_used_prefix(map, spells@, i + 1);
            }
            return false;
        }
        i = i + 1;
    }
    assert(spells@.take(i as int) =~= spells@);
    true
}

/// Whether a spell can be looked at: where it is not memorised and could be, the memorised ones fit
/// the slots.
pub fn can_equip_spell(data: &ItemData, equipment: &PlayerEquipment, item_id: ItemId) -> (r: bool)
    requires
        equipment.wf(),
        item_id.valid(),
    ensures
        r == (spell_job(data@, *equipment, item_id) is Some ==> spells_fit(
            data@,
            *equipment,
            equipment.magic_slots,
        )),
{
    let slots = match data.spell_slots.get(&item_id.into_inner()) {
        Some(slots) => *slots,
        None => {
            return true;
        },
    };
    if slots > equipment.magic_slots {
        return true;
    }
    let spells = get_equipped_spell_ids(equipment);
    if find_place(&spells, item_id) < spells.len() {
        return true;
    }
    check_spells(data, equipment, equipment.magic_slots)
}

/// Where a spell is forgotten, it is the oldest one; and where the spell is memorised, there is
/// room for it.
pub proof fn lemma_next_step(job: SpellJob, order: Seq<ItemId>, spells: Seq<Option<ItemId>>)
    requires
        spells.len() <= usize::MAX,
    ensures
        match next_step(job, order, spells) {
            SpellStep::Unequip { slot } => order.len() > 0 && slot < spells.len()
                && spells[slot as int] == Some(order[0]) && job.max_slots - job.used_slots
                < job.slots,
            SpellStep::Equip { slot, param_id } => slot < spells.len() && spells[slot as int] is None
                && param_id == job.item_id.param_id && job.used_slots + job.slots
                <= job.max_slots,
            SpellStep::Select { .. } => false,
            SpellStep::Stop(status) => status == EquipStatus::Failed,
        },
{
    if order.len() > 0 {
        lemma_found_place(spells, order[0]);
    }
    lemma_found_empty(spells);
}

proof fn lemma_found_place(spells: Seq<Option<ItemId>>, item: ItemId)
    ensures
        0 <= crate::items::equip::place_of(spells, item) <= spells.len(),
        crate::items::equip::place_of(spells, item) < spells.len()
            ==> spells[crate::items::equip::place_of(spells, item)] == Some(item),
    decreases spells.len(),
{
    if spells.len() > 0 {
        lemma_found_place(spells.drop_last(), item);
    }
}

proof fn lemma_found_empty(spells: Seq<Option<ItemId>>)
    ensures
        0 <= crate::items::equip::first_empty(spells) <= spells.len(),
        crate::items::equip::first_empty(spells) < spells.len()
            ==> spells[crate::items::equip::first_empty(spells)] is None,
    decreases spells.len(),
{
    if spells.len() > 0 {
        lemma_found_empty(spells.drop_last());
    }
}

} // verus!
