//! Giving items by name, and equipping them until it works.
use vstd::prelude::*;

use std::collections::HashMap;

use crate::items::data::{ItemData, UpgradeType};
use crate::items::equip::EquipStatus;
use crate::items::item_id::{ItemCategory, ItemId};
use crate::text::{clone_text, join};

verus! {

broadcast use vstd::std_specs::hash::group_hash_axioms;

/// How often an item that could not be equipped is tried again: a minute's worth of frames.
pub const MAX_TRIES: u32 = 3600;

/// Items to give.
#[derive(Debug)]
pub struct ItemRequest {
    pub items: Vec<ItemDesc>,
}

/// An item to give.
#[derive(Debug)]
pub struct ItemDesc {
    pub name: String,
    /// The upgrade level; missing or negative for the one that matches the player's weapons.
    pub level: Option<i32>,
    pub quantity: Option<i32>,
    /// The ash of war on a weapon.
    pub gem: Option<String>,
    /// Whether to equip it.
    pub equip: bool,
    /// Whether any level of the item may be equipped.
    pub ignore_level: bool,
}

impl Clone for ItemDesc {
    fn clone(&self) -> (r: Self)
        ensures
            r == *self,
    {
        ItemDesc {
            name: self.name.clone(),
            level: self.level,
            quantity: self.quantity,
            gem: clone_text(&self.gem),
            equip: self.equip,
            ignore_level: self.ignore_level,
        }
    }
}

/// An item to give, as the rules see it.
#[verifier::ext_equal]
pub struct DescModel {
    pub name: Seq<char>,
    pub level: Option<i32>,
    pub quantity: Option<i32>,
    pub gem: Option<Seq<char>>,
    pub equip: bool,
    pub ignore_level: bool,
}

impl View for ItemDesc {
    type V = DescModel;

    open spec fn view(&self) -> DescModel {
        DescModel {
            name: self.name@,
            level: self.level,
            quantity: self.quantity,
            gem: crate::bosses::records::text_model(self.gem),
            equip: self.equip,
            ignore_level: self.ignore_level,
        }
    }
}

/// Items to give, as the rules see them.
pub open spec fn desc_models(items: Seq<ItemDesc>) -> Seq<DescModel> {
    items.map_values(|d: ItemDesc| d@)
}

/// An item on its way.
#[derive(Debug)]
pub struct PendingEquip {
    pub desc: ItemDesc,
    /// The item that was given, once it was.
    pub real_id: Option<ItemId>,
    pub gem_id: Option<ItemId>,
    pub tries: u32,
}

/// An item on its way, as the rules see it.
#[verifier::ext_equal]
pub struct PendingModel {
    pub desc: DescModel,
    pub real_id: Option<ItemId>,
    pub gem_id: Option<ItemId>,
    pub tries: u32,
}

impl View for PendingEquip {
    type V = PendingModel;

    open spec fn view(&self) -> PendingModel {
        PendingModel {
            desc: self.desc@,
            real_id: self.real_id,
            gem_id: self.gem_id,
            tries: self.tries,
        }
    }
}

/// The items on their way, by item number.
pub struct ItemUpdater {
    /// What is known of items, once it is loaded.
    pub data: Option<ItemData>,
    pub pending: HashMap<u32, PendingEquip>,
}

/// The items on their way as the rules see them.
#[verifier::ext_equal]
pub struct UpdaterModel {
    pub data: Option<crate::items::data::ItemModel>,
    pub pending: Map<u32, PendingModel>,
}

impl View for ItemUpdater {
    type V = UpdaterModel;

    open spec fn view(&self) -> UpdaterModel {
        UpdaterModel {
            data: match self.data {
                Some(data) => Some(data@),
                None => None,
            },
            pending: self.pending@.map_values(|p: PendingEquip| p@),
        }
    }
}

/// Whether what is known of items is sound, and everything on its way is an item.
pub open spec fn well_formed(m: UpdaterModel) -> bool {
    &&& m.data matches Some(data) ==> crate::items::data::well_formed(data)
    &&& forall|raw: u32| #[trigger]
        m.pending.contains_key(raw) ==> crate::items::data::is_item(raw) && (
        m.pending[raw].gem_id matches Some(g) ==> g.valid())
}

/// The item with a number.
pub open spec fn item_of(raw: u32) -> ItemId {
    choose|id: ItemId| #[trigger] id.valid() && id.raw() == raw
}

/// The number of the item with a name.
pub open spec fn named(names: Map<u32, Seq<char>>, name: Seq<char>) -> u32 {
    choose|k: u32| #[trigger] names.contains_key(k) && names[k] == name
}

/// Why an item cannot be given, if so: items are not loaded, or no item has its name or its ash
/// of war's.
pub open spec fn give_error(m: UpdaterModel, item: DescModel) -> Option<Seq<char>> {
    match m.data {
        None => Some("Item data not initialized"@),
        Some(data) => if !crate::items::names::has_name(data.names, item.name) {
            Some("No item found for "@ + item.name)
        } else {
            match item.gem {
                Some(gem) if !crate::items::names::has_name(data.names, gem) => Some(
                    "No gem found for "@ + gem,
                ),
                _ => None,
            }
        },
    }
}

/// What is on its way after an item is asked for: an item that is on its way already stays as it
/// is.
pub open spec fn after_give(m: UpdaterModel, item: DescModel) -> UpdaterModel {
    match m.data {
        Some(data) if give_error(m, item) is None => {
            let raw = named(data.names, item.name);
            if m.pending.contains_key(raw) {
                m
            } else {
                UpdaterModel {
                    pending: m.pending.insert(
                        raw,
                        PendingModel {
                            desc: item,
                            real_id: None,
                            gem_id: match item.gem {
                                Some(gem) => Some(item_of(named(data.names, gem))),
                                None => None,
                            },
                            tries: 0,
                        },
                    ),
                    ..m
                }
            }
        },
        _ => m,
    }
}

/// What is on its way after items are asked for, one after another.
pub open spec fn after_gives(m: UpdaterModel, items: Seq<DescModel>) -> UpdaterModel
    decreases items.len(),
{
    if items.len() == 0 {
        m
    } else {
        after_give(after_gives(m, items.drop_last()), items.last())
    }
}

/// Why items could not be given, in order.
pub open spec fn give_errors(m: UpdaterModel, items: Seq<DescModel>) -> Seq<Seq<char>>
    decreases items.len(),
{
    if items.len() == 0 {
        seq![]
    } else {
        let before = give_errors(m, items.drop_last());
        match give_error(m, items.last()) {
            Some(e) => before.push(e),
            None => before,
        }
    }
}

/// What is said of items that could not be given: nothing where all could.
pub open spec fn give_text(m: UpdaterModel, items: Seq<DescModel>) -> Option<Seq<char>> {
    let errors = give_errors(m, items);
    if errors.len() == 0 {
        None
    } else {
        Some(crate::text::joined(errors, "; "@))
    }
}

/// A number within bounds.
pub open spec fn clamped(n: int, lo: int, hi: int) -> int {
    if n < lo {
        lo
    } else if n > hi {
        hi
    } else {
        n
    }
}

/// A weapon with a level, where that is an item.
pub open spec fn leveled(item: ItemId, level: int) -> Option<ItemId> {
    if item.param_id + level <= crate::items::item_id::MAX_PARAM_ID {
        Some(ItemId { category: ItemCategory::Weapon, param_id: (item.param_id + level) as u32 })
    } else {
        None
    }
}

/// How a weapon is upgraded.
pub open spec fn weapon_upgrade(data: crate::items::data::ItemModel, item: ItemId) -> Option<
    UpgradeType,
> {
    if item.category == ItemCategory::Weapon && data.upgrades.contains_key(item.raw()) {
        Some(data.upgrades[item.raw()])
    } else {
        None
    }
}

/// A weapon with the level asked for, within what it can have; none for what has no levels.
pub open spec fn upgraded_weapon(
    data: crate::items::data::ItemModel,
    item: ItemId,
    level: int,
) -> Option<ItemId> {
    match weapon_upgrade(data, item) {
        Some(UpgradeType::Regular) => leveled(item, clamped(level, 0, 25)),
        Some(UpgradeType::Somber) => leveled(item, clamped(level, 0, 10)),
        _ => None,
    }
}

/// A weapon with the level that matches the player's weapons; none for what has no levels, and
/// without a player.
pub open spec fn auto_upgraded_weapon(
    data: crate::items::data::ItemModel,
    item: ItemId,
    matching_level: Option<u8>,
) -> Option<ItemId> {
    match (weapon_upgrade(data, item), matching_level) {
        (Some(UpgradeType::Regular), Some(level)) => leveled(item, clamped(level as int, 0, 25)),
        (Some(UpgradeType::Somber), Some(level)) => leveled(
            item,
            crate::items::data::somber_level(clamped(level as int, 0, 25)),
        ),
        _ => None,
    }
}

/// What is done for an item on its way.
#[derive(PartialEq, Eq, Structural, Clone, Copy, Debug)]
pub enum PendingStep {
    /// The item is given.
    Give { item_id: ItemId, quantity: u8, gem_id: Option<ItemId> },
    /// The item is equipped; the first attempt is noted.
    Equip { item_id: ItemId, first: bool, ignore_level: bool },
}

/// What is done for an item on its way: it is given with its level, between one and a hundred of
/// it, and once it was given, it is equipped.
pub open spec fn step_of(
    data: crate::items::data::ItemModel,
    item: ItemId,
    p: PendingModel,
    matching_level: Option<u8>,
) -> PendingStep {
    match p.real_id {
        Some(id) => PendingStep::Equip {
            item_id: id,
            first: p.tries == 0,
            ignore_level: p.desc.ignore_level,
        },
        None => {
            let upgraded = match p.desc.level {
                Some(level) if level >= 0 => upgraded_weapon(data, item, level as int),
                _ => auto_upgraded_weapon(data, item, matching_level),
            };
            PendingStep::Give {
                item_id: match upgraded {
                    Some(id) => id,
                    None => item,
                },
                quantity: clamped(
                    match p.desc.quantity {
                        Some(q) => q as int,
                        None => 1,
                    },
                    1,
                    100,
                ) as u8,
                gem_id: p.gem_id,
            }
        },
    }
}

/// What is done next for an item on its way; nothing for one that is not, or while items are not
/// loaded.
pub open spec fn planned_step(m: UpdaterModel, raw: u32, matching_level: Option<u8>) -> Option<
    PendingStep,
> {
    match m.data {
        Some(data) if m.pending.contains_key(raw) => Some(
            step_of(data, item_of(raw), m.pending[raw], matching_level),
        ),
        _ => None,
    }
}

/// An item on its way after it was given: done, unless it is to be equipped.
pub open spec fn after_given(p: PendingModel, item: ItemId) -> Option<PendingModel> {
    if p.desc.equip {
        Some(PendingModel { real_id: Some(item), ..p })
    } else {
        None
    }
}

/// An item on its way after an attempt to equip it: done, unless it failed and may be tried
/// again.
pub open spec fn after_equip(p: PendingModel, status: EquipStatus) -> Option<PendingModel> {
    if status == EquipStatus::Failed && p.tries < MAX_TRIES {
        Some(PendingModel { tries: (p.tries + 1) as u32, ..p })
    } else {
        None
    }
}

/// What is on its way with one item changed or done.
pub open spec fn with_pending(m: UpdaterModel, raw: u32, p: Option<PendingModel>) -> UpdaterModel {
    UpdaterModel {
        pending: match p {
            Some(p) => m.pending.insert(raw, p),
            None => m.pending.remove(raw),
        },
        ..m
    }
}

/// A weapon with the level asked for.
pub fn get_upgraded_weapon(data: &ItemData, item_id: ItemId, level: i32) -> (r: Option<ItemId>)
    requires
        item_id.valid(),
    ensures
        r == upgraded_weapon(data@, item_id, level as int),
{
    if item_id.category != ItemCategory::Weapon {
        return None;
    }
    let top: i32 = match data.upgrade_types.get(&item_id.into_inner()) {
        Some(UpgradeType::Regular) => 25,
        Some(UpgradeType::Somber) => 10,
        _ => {
            return None;
        },
    };
    let new_level: u32 = if level < 0 {
        0
    } else if level > top {
        top as u32
    } else {
        level as u32
    };
    ItemId::new(ItemCategory::Weapon, item_id.param_id + new_level)
}

/// A weapon with the level that matches the player's weapons.
pub fn get_auto_upgraded_weapon(
    data: &ItemData,
    item_id: ItemId,
    matching_level: Option<u8>,
) -> (r: Option<ItemId>)
    requires
        item_id.valid(),
    ensures
        r == auto_upgraded_weapon(data@, item_id, matching_level),
{
    if item_id.category != ItemCategory::Weapon {
        return None;
    }
    let level = match matching_level {
        Some(level) => level,
        None => {
            return None;
        },
    };
    let reg_level: u8 = if level > 25 {
        25
    } else {
        level
    };
    let new_level: u8 = match data.upgrade_types.get(&item_id.into_inner()) {
        Some(UpgradeType::Regular) => reg_level,
        Some(UpgradeType::Somber) => ItemData::regular_to_somber_level(reg_level),
        _ => {
            return None;
        },
    };
    ItemId::new(ItemCategory::Weapon, item_id.param_id + new_level as u32)
}

fn item_from(raw: u32) -> (r: ItemId)
    requires
        crate::items::data::is_item(raw),
    ensures
        r.valid(),
        r.raw() == raw,
        r == item_of(raw),
{
    proof {
        let id = choose|id: ItemId| #[trigger] id.valid() && id.raw() == raw;
        assert(id.valid());
    }
    match ItemId::from_raw(raw) {
        Some(id) => {
            proof {
                assert(id.valid());
                crate::items::item_id::lemma_raw_is_injective(id, item_of(raw));
            }
            id
        },
        None => ItemId { category: ItemCategory::Weapon, param_id: 0 },
    }
}

fn find_named(data: &ItemData, name: &str) -> (r: Option<u32>)
    requires
        crate::items::data::well_formed(data@),
    ensures
        match r {
            Some(raw) => crate::items::names::has_name(data@.names, name@) && raw == named(
                data@.names,
                name@,
            ) && crate::items::data::is_item(raw),
            None => !crate::items::names::has_name(data@.names, name@),
        },
{
    data.item_names.find(name)
}

/// An optional error as a sequence of characters.
pub open spec fn error_model(r: Result<(), String>) -> Option<Seq<char>> {
    match r {
        Ok(_) => None,
        Err(e) => Some(e@),
    }
}

impl ItemUpdater {
    /// Nothing on its way, and items not loaded.
    pub fn new() -> (r: Self)
        ensures
            r@ == (UpdaterModel { data: None, pending: Map::empty() }),
            well_formed(r@),
    {
        let r = ItemUpdater { data: None, pending: HashMap::new() };
        assert(r@.pending =~= Map::empty());
        r
    }

    /// Items have been loaded.
    pub fn load_data(&mut self, data: ItemData)
        requires
            crate::items::data::well_formed(data@),
            old(self)@.data is None,
        ensures
            final(self)@ == (UpdaterModel { data: Some(data@), ..old(self)@ }),
            well_formed(old(self)@) ==> well_formed(final(self)@),
    {
        self.data = Some(data);
    }

    /// Asks for an item.
    pub fn give_item(&mut self, item: &ItemDesc) -> (r: Result<(), String>)
        requires
            well_formed(old(self)@),
        ensures
            final(self)@ == after_give(old(self)@, item@),
            error_model(r) == give_error(old(self)@, item@),
            well_formed(final(self)@),
    {
        let ghost before = self@;
        let data = match &self.data {
            Some(data) => data,
            None => {
                return Err("Item data not initialized".to_owned());
            },
        };
        let raw = match find_named(data, item.name.as_str()) {
            Some(raw) => raw,
            None => {
                let mut err = "No item found for ".to_owned();
                err.append(item.name.as_str());
                return Err(err);
            },
        };
        let mut gem_id: Option<ItemId> = None;
        if let Some(gem_name) = &item.gem {
            match find_named(data, gem_name.as_str()) {
                Some(gem) => {
                    gem_id = Some(item_from(gem));
                },
                None => {
                    let mut err = "No gem found for ".to_owned();
                    err.append(gem_name.as_str());
                    return Err(err);
                },
            }
        }
        assert(self.pending@.contains_key(raw) == before.pending.contains_key(raw));
        if self.pending.contains_key(&raw) {
            return Ok(());
        }
        let equip = PendingEquip { desc: item.clone(), real_id: None, gem_id, tries: 0 };
        let ghost model = equip@;
        self.pending.insert(raw, equip);
        assert(self@.pending =~= before.pending.insert(raw, model));
        Ok(())
    }

    /// Asks for items. Those that cannot be given are passed over, and named in the error.
    pub fn give(&mut self, req: &ItemRequest) -> (r: Result<(), String>)
        requires
            well_formed(old(self)@),
        ensures
            final(self)@ == after_gives(old(self)@, desc_models(req.items@)),
            error_model(r) == give_text(old(self)@, desc_models(req.items@)),
            well_formed(final(self)@),
    {
        let ghost before = self@;
        let ghost models = desc_models(req.items@);
        let mut errs: Vec<String> = Vec::new();
        let mut i: usize = 0;
        assert(crate::text::texts(errs@) =~= give_errors(before, models.take(0)));
        while i < req.items.len()
            invariant
                i <= req.items@.len(),
                models == desc_models(req.items@),
                well_formed(self@),
                self@.data == before.data,
                self@ == after_gives(before, models.take(i as int)),
                crate::text::texts(errs@) == give_errors(before, models.take(i as int)),
            decreases req.items@.len() - i,
        {
            assert(models.take(i + 1).drop_last() =~= models.take(i as int));
            assert(models.take(i + 1).last() == req.items@[i as int]@);
            if let Err(err) = self.give_item(&req.items[i]) {
                let ghost listed = crate::text::texts(errs@);
                let ghost text = err@;
                errs.push(err);
                assert(crate::text::texts(errs@) =~= listed.push(text));
            }
            i = i + 1;
        }
        assert(models.take(i as int) =~= models);
        if errs.len() == 0 {
            Ok(())
        } else {
            Err(join(&errs, "; "))
        }
    }

    /// The numbers of the items on their way, in any order.
    pub fn pending_items(&self) -> (r: Vec<u32>)
        ensures
            r@.no_duplicates(),
            r@.to_set() == self@.pending.dom(),
    {
        let ghost all = vstd::std_specs::iter::IteratorSpec::remaining(
            &vstd::std_specs::hash::spec_keys_iter(&self.pending),
        ).unref();
        let mut out: Vec<u32> = Vec::new();
        for raw in it: self.pending.keys()
            invariant
                it.seq().unref() == all,
                all.to_set() == self.pending@.dom(),
                all.no_duplicates(),
                out@ == all.take(it.index()),
        {
            assert(it.seq().unref()[it.index()] == *raw);
            assert(all.take(it.index() + 1) =~= all.take(it.index()).push(*raw));
            out.push(*raw);
        }
        assert(all.take(all.len() as int) =~= all);
        assert(self@.pending.dom() =~= self.pending@.dom());
        out
    }

    /// What is done next for an item on its way, with the level that matches the player's
    /// weapons.
    pub fn plan(&self, raw: u32, matching_level: Option<u8>) -> (r: Option<PendingStep>)
        requires
            well_formed(self@),
        ensures
            r == planned_step(self@, raw, matching_level),
    {
        assert(self.pending@.contains_key(raw) == self@.pending.contains_key(raw));
        let data = match &self.data {
            Some(data) => data,
            None => {
                return None;
            },
        };
        let state = match self.pending.get(&raw) {
            Some(state) => state,
            None => {
                return None;
            },
        };
        assert(self@.pending[raw] == state@);
        let item_id = item_from(raw);
        if let Some(real_id) = state.real_id {
            return Some(
                PendingStep::Equip {
                    item_id: real_id,
                    first: state.tries == 0,
                    ignore_level: state.desc.ignore_level,
                },
            );
        }
        let upgraded = match state.desc.level {
            Some(level) if level >= 0 => get_upgraded_weapon(data, item_id, level),
            _ => get_auto_upgraded_weapon(data, item_id, matching_level),
        };
        let real_id = match upgraded {
            Some(id) => id,
            None => item_id,
        };
        let asked: i32 = match state.desc.quantity {
            Some(q) => q,
            None => 1,
        };
        let quantity: u8 = if asked < 1 {
            1
        } else if asked > 100 {
            100
        } else {
            asked as u8
        };
        Some(PendingStep::Give { item_id: real_id, quantity, gem_id: state.gem_id })
    }

    /// An item on its way was given.
    pub fn given(&mut self, raw: u32, item_id: ItemId)
        requires
            old(self)@.pending.contains_key(raw),
        ensures
            final(self)@ == with_pending(
                old(self)@,
                raw,
                after_given(old(self)@.pending[raw], item_id),
            ),
            well_formed(old(self)@) ==> well_formed(final(self)@),
    {
        let ghost before = self@;
        if let Some(mut state) = self.pending.remove(&raw) {
            assert(state@ == before.pending[raw]);
            if state.desc.equip {
                state.real_id = Some(item_id);
                self.pending.insert(raw, state);
            }
        }
        assert(self@.pending =~= with_pending(
            before,
            raw,
            after_given(before.pending[raw], item_id),
        ).pending);
    }

    /// An attempt was made to equip an item on its way.
    pub fn equipped(&mut self, raw: u32, status: EquipStatus)
        requires
            old(self)@.pending.contains_key(raw),
        ensures
            final(self)@ == with_pending(
                old(self)@,
                raw,
                after_equip(old(self)@.pending[raw], status),
            ),
            well_formed(old(self)@) ==> well_formed(final(self)@),
    {
        let ghost before = self@;
        if let Some(mut state) = self.pending.remove(&raw) {
            assert(state@ == before.pending[raw]);
            if status == EquipStatus::Failed && state.tries < MAX_TRIES {
                state.tries = state.tries + 1;
                self.pending.insert(raw, state);
            }
        }
        assert(self@.pending =~= with_pending(
            before,
            raw,
            after_equip(before.pending[raw], status),
        ).pending);
    }
}

/// An item that is asked for while it is on its way is not given twice.
pub proof fn lemma_asked_twice_is_given_once(m: UpdaterModel, item: DescModel, again: DescModel)
    requires
        item.name == again.name,
    ensures
        give_error(m, item) is None ==> after_give(after_give(m, item), again) == after_give(
            m,
            item,
        ),
{
}

/// An item that is not to be equipped is done once it was given; one that is to be equipped is
/// done when it is equipped, not needed or missing, and after enough attempts.
pub proof fn lemma_item_is_done(p: PendingModel, item: ItemId, status: EquipStatus)
    ensures
        after_given(p, item) is None <==> !p.desc.equip,
        status != EquipStatus::Failed ==> after_equip(p, status) is None,
        p.tries >= MAX_TRIES ==> after_equip(p, status) is None,
        after_equip(p, status) matches Some(q) ==> q.tries == p.tries + 1 && q.tries <= MAX_TRIES,
{
}

/// A weapon that is given has no level above what it can have, and is still the same weapon.
pub proof fn lemma_upgrade_keeps_the_weapon(
    data: crate::items::data::ItemModel,
    item: ItemId,
    level: int,
    matching_level: Option<u8>,
)
    requires
        item.valid(),
        item.param_id % 100 == 0,
    ensures
        upgraded_weapon(data, item, level) matches Some(id) ==> id.valid()
            && crate::items::data::base_item(id) == item,
        auto_upgraded_weapon(data, item, matching_level) matches Some(id) ==> id.valid()
            && crate::items::data::base_item(id) == item,
{
}

} // verus!
