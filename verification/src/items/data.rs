//! What is known of all items: their names, categories, upgrades, and how they are equipped.
use vstd::prelude::*;

use std::collections::{HashMap, HashSet};

use crate::items::item_id::{ItemCategory, ItemId};
use crate::items::names::ItemNames;
use crate::sorting::key_order;
use crate::text::contains_text;

verus! {

broadcast use vstd::std_specs::hash::group_hash_axioms;

/// How an item is upgraded.
#[derive(PartialEq, Eq, Structural, Clone, Copy, Debug)]
pub enum UpgradeType {
    Regular,
    Somber,
    SpiritAsh,
}

/// What kind of item the client shows.
#[derive(PartialEq, Eq, Structural, Clone, Copy, Debug)]
pub enum ClientCat {
    Uncategorized,
    Weapon,
    Arrow,
    Armor,
    Talisman,
    Spell,
    Runes,
    KeyItem,
    CrystalTear,
    UpgradeMaterial,
    SelfBuff,
    WeaponBuff,
    ReusableTool,
    Throwable,
    SpiritAsh,
    CraftingMaterial,
    Notes,
}

impl Default for ClientCat {
    fn default() -> (r: Self)
        ensures
            r == ClientCat::Uncategorized,
    {
        ClientCat::Uncategorized
    }
}

/// An item as the client shows it.
#[derive(Debug)]
pub struct ClientItem {
    pub item_id: Option<ItemId>,
    pub name: String,
    pub cat: ClientCat,
}

/// What is known of all items, as the rules see it, by item number.
#[verifier::ext_equal]
pub struct ItemModel {
    pub names: Map<u32, Seq<char>>,
    pub cats: Map<u32, ClientCat>,
    pub upgrades: Map<u32, UpgradeType>,
    pub tears: Set<u32>,
    pub spell_slots: Map<u32, u32>,
    pub groups: Map<u32, i32>,
}

/// What is known of all items, by item number.
pub struct ItemData {
    pub item_names: ItemNames,
    pub item_cats: HashMap<u32, ClientCat>,
    pub upgrade_types: HashMap<u32, UpgradeType>,
    pub crystal_tears: HashSet<u32>,
    pub spell_slots: HashMap<u32, u32>,
    pub accessory_groups: HashMap<u32, i32>,
}

impl View for ItemData {
    type V = ItemModel;

    open spec fn view(&self) -> ItemModel {
        ItemModel {
            names: self.item_names@,
            cats: self.item_cats@,
            upgrades: self.upgrade_types@,
            tears: self.crystal_tears@,
            spell_slots: self.spell_slots@,
            groups: self.accessory_groups@,
        }
    }
}

/// Whether a number is an item's.
pub open spec fn is_item(raw: u32) -> bool {
    exists|id: ItemId| #[trigger] id.valid() && id.raw() == raw
}

/// Whether every name belongs to an item, and to no other.
pub open spec fn well_formed(m: ItemModel) -> bool {
    &&& crate::items::names::names_are_unique(m.names)
    &&& forall|raw: u32| #[trigger] m.names.contains_key(raw) ==> is_item(raw)
}

/// What the game gives for a text.
#[derive(Debug)]
pub enum MessageText {
    Null,
    /// Not valid text.
    Invalid,
    Text(String),
}

/// Whether a text is an item's name: some text without the word that marks errors.
pub open spec fn is_name(text: Seq<char>) -> bool {
    text.len() > 0 && !(exists|at: int| crate::text::occurs_at(text, "ERROR"@, at))
}

/// The name that a text gives, or what is wrong with it.
pub open spec fn valid_name(text: MessageText) -> Result<Seq<char>, Seq<char>> {
    match text {
        MessageText::Null => Err("Null"@),
        MessageText::Invalid => Err("Invalid encoding"@),
        MessageText::Text(s) => if is_name(s@) {
            Ok(s@)
        } else {
            Err("Error item"@)
        },
    }
}

/// The name that one of two texts gives, the first before the second, or what is wrong with both.
pub open spec fn either_name(main: MessageText, dlc: MessageText) -> Result<Seq<char>, Seq<char>> {
    match (valid_name(main), valid_name(dlc)) {
        (Ok(name), _) => Ok(name),
        (Err(_), Ok(name)) => Ok(name),
        (Err(a), Err(b)) => Err(a + ", "@ + b),
    }
}

/// A result of texts as sequences of characters.
pub open spec fn text_result(r: Result<String, String>) -> Result<Seq<char>, Seq<char>> {
    match r {
        Ok(s) => Ok(s@),
        Err(s) => Err(s@),
    }
}

/// The name that a text gives.
pub fn get_valid_name(text: &MessageText) -> (r: Result<String, String>)
    ensures
        text_result(r) == valid_name(*text),
{
    match text {
        MessageText::Null => Err("Null".to_owned()),
        MessageText::Invalid => Err("Invalid encoding".to_owned()),
        MessageText::Text(s) => {
            proof {
                reveal_strlit("");
            }
            assert(s@.len() == 0 ==> s@ =~= ""@);
            if crate::text::same_text(s.as_str(), "") || contains_text(s.as_str(), "ERROR") {
                Err("Error item".to_owned())
            } else {
                Ok(s.clone())
            }
        },
    }
}

/// The name that one of two texts gives.
pub fn lookup_name(main: &MessageText, dlc: &MessageText) -> (r: Result<String, String>)
    ensures
        text_result(r) == either_name(*main, *dlc),
{
    match get_valid_name(main) {
        Ok(name) => Ok(name),
        Err(err) => match get_valid_name(dlc) {
            Ok(name) => Ok(name),
            Err(err2) => {
                let mut both = err;
                both.append(", ");
                both.append(err2.as_str());
                Err(both)
            },
        },
    }
}

/// What the library reads of an item's row, by category.
#[derive(PartialEq, Eq, Structural, Clone, Copy, Debug)]
pub enum RowFacts {
    Weapon { origin_equip_wep25: i32, origin_equip_wep10: i32 },
    Protector,
    Accessory { accessory_group: i32 },
    Goods { use_limit_summon_buddy: u8, goods_type: u8 },
    Gem,
}

/// The category that facts belong to.
pub open spec fn facts_category(facts: RowFacts) -> ItemCategory {
    match facts {
        RowFacts::Weapon { .. } => ItemCategory::Weapon,
        RowFacts::Protector => ItemCategory::Protector,
        RowFacts::Accessory { .. } => ItemCategory::Accessory,
        RowFacts::Goods { .. } => ItemCategory::Goods,
        RowFacts::Gem => ItemCategory::Gem,
    }
}

/// A row of an item table, with the texts for its name.
#[derive(Debug)]
pub struct ItemRow {
    pub row_id: u32,
    pub name: MessageText,
    pub dlc_name: MessageText,
    pub facts: RowFacts,
}

/// What a row adds to an item.
#[verifier::ext_equal]
pub struct RowEffects {
    pub cat: Option<ClientCat>,
    pub upgrade: Option<UpgradeType>,
    pub tear: bool,
    pub group: Option<i32>,
}

/// What a row adds to its item, if it is one: fists, hairstyles and missing armour are not, nor
/// are spirit ashes that are upgraded already.
pub open spec fn row_effects(param_id: u32, facts: RowFacts) -> Option<RowEffects> {
    let none = RowEffects { cat: None, upgrade: None, tear: false, group: None };
    match facts {
        RowFacts::Weapon { origin_equip_wep25, origin_equip_wep10 } => if param_id == 110000 {
            None
        } else {
            Some(
                RowEffects {
                    cat: Some(ClientCat::Weapon),
                    upgrade: if origin_equip_wep25 > 0 {
                        Some(UpgradeType::Regular)
                    } else if origin_equip_wep10 > 0 {
                        Some(UpgradeType::Somber)
                    } else {
                        None
                    },
                    ..none
                },
            )
        },
        RowFacts::Protector => if param_id < 40000 {
            None
        } else {
            Some(RowEffects { cat: Some(ClientCat::Armor), ..none })
        },
        RowFacts::Accessory { accessory_group } => Some(
            RowEffects {
                cat: Some(ClientCat::Talisman),
                group: if accessory_group > 0 {
                    Some(accessory_group)
                } else {
                    None
                },
                ..none
            },
        ),
        RowFacts::Goods { use_limit_summon_buddy, goods_type } => if use_limit_summon_buddy == 1
            && param_id % 100 != 0 {
            None
        } else {
            Some(
                RowEffects {
                    upgrade: if use_limit_summon_buddy == 1 {
                        Some(UpgradeType::SpiritAsh)
                    } else {
                        None
                    },
                    tear: goods_type == 10,
                    ..none
                },
            )
        },
        RowFacts::Gem => Some(none),
    }
}

/// A map with one more entry, where there is one.
pub open spec fn with_entry<V>(m: Map<u32, V>, key: u32, value: Option<V>) -> Map<u32, V> {
    match value {
        Some(v) => m.insert(key, v),
        None => m,
    }
}

/// What is known after a row: a row without a valid name, with too large a number, with an item
/// or a name that is known, or that is no item, adds nothing.
pub open spec fn after_row(m: ItemModel, row: ItemRow) -> ItemModel {
    let id = ItemId { category: facts_category(row.facts), param_id: row.row_id };
    let raw = id.raw();
    match (either_name(row.name, row.dlc_name), row_effects(row.row_id, row.facts)) {
        (Ok(name), Some(effects)) => if id.valid() && !m.names.contains_key(raw)
            && !crate::items::names::has_name(m.names, name) {
            ItemModel {
                names: m.names.insert(raw, name),
                cats: with_entry(m.cats, raw, effects.cat),
                upgrades: with_entry(m.upgrades, raw, effects.upgrade),
                tears: if effects.tear {
                    m.tears.insert(raw)
                } else {
                    m.tears
                },
                groups: with_entry(m.groups, raw, effects.group),
                ..m
            }
        } else {
            m
        },
        _ => m,
    }
}

/// What is known after rows, one after another.
pub open spec fn after_rows(m: ItemModel, rows: Seq<ItemRow>) -> ItemModel
    decreases rows.len(),
{
    if rows.len() == 0 {
        m
    } else {
        after_row(after_rows(m, rows.drop_last()), rows.last())
    }
}

/// What is known of spells after a row of the spell table: every spell that takes slots, but for
/// one row that is none.
pub open spec fn after_spell(m: ItemModel, row_id: u32, slot_length: u8) -> ItemModel {
    let id = ItemId { category: ItemCategory::Goods, param_id: row_id };
    if row_id != 8000 && id.valid() && slot_length > 0 {
        ItemModel { spell_slots: m.spell_slots.insert(id.raw(), slot_length as u32), ..m }
    } else {
        m
    }
}

/// What is known of spells after rows of the spell table, one after another.
pub open spec fn after_spells(m: ItemModel, rows: Seq<(u32, u8)>) -> ItemModel
    decreases rows.len(),
{
    if rows.len() == 0 {
        m
    } else {
        after_spell(after_spells(m, rows.drop_last()), rows.last().0, rows.last().1)
    }
}

/// Whether the game's tables are loaded, going by the names of those that are: the last of them
/// to load is there.
pub fn params_loaded(table_names: &Vec<String>) -> (r: bool)
    ensures
        r == crate::text::texts(table_names@).contains("THROW_PARAM_ST"@),
{
    let ghost list = crate::text::texts(table_names@);
    let mut i: usize = 0;
    while i < table_names.len()
        invariant
            i <= table_names@.len(),
            list == crate::text::texts(table_names@),
            forall|k: int| 0 <= k < i ==> #[trigger] list[k] != "THROW_PARAM_ST"@,
        decreases table_names@.len() - i,
    {
        assert(list[i as int] == table_names@[i as int]@);
        if crate::text::same_text(table_names[i].as_str(), "THROW_PARAM_ST") {
            return true;
        }
        i = i + 1;
    }
    false
}

/// The file of items for the client, around the items written as JSON.
pub fn items_file(json: &str) -> (r: String)
    ensures
        r@ == "export const ITEMS = (\n"@ + json@ + ");\n"@,
{
    let mut out = "export const ITEMS = (\n".to_owned();
    out.append(json);
    out.append(");\n");
    out
}

/// Reading rows keeps every name with one item.
pub proof fn lemma_rows_well_formed(m: ItemModel, rows: Seq<ItemRow>)
    requires
        well_formed(m),
    ensures
        well_formed(after_rows(m, rows)),
    decreases rows.len(),
{
    if rows.len() > 0 {
        lemma_rows_well_formed(m, rows.drop_last());
        let before = after_rows(m, rows.drop_last());
        let row = rows.last();
        let id = ItemId { category: facts_category(row.facts), param_id: row.row_id };
        let after = after_row(before, row);
        assert forall|raw: u32| #[trigger] after.names.contains_key(raw) implies is_item(raw) by {
            if !before.names.contains_key(raw) {
                assert(id.valid() && id.raw() == raw);
            }
        }
    }
}

/// A name, once read, stays with its item, whatever is read after it.
pub proof fn lemma_first_name_stays(m: ItemModel, rows: Seq<ItemRow>, raw: u32)
    requires
        m.names.contains_key(raw),
    ensures
        after_rows(m, rows).names.contains_key(raw),
        after_rows(m, rows).names[raw] == m.names[raw],
    decreases rows.len(),
{
    if rows.len() > 0 {
        lemma_first_name_stays(m, rows.drop_last(), raw);
    }
}

/// The base item of an item: a weapon without its upgrade level, anything else itself.
pub open spec fn base_item(id: ItemId) -> ItemId {
    if id.category == ItemCategory::Weapon {
        ItemId { category: ItemCategory::Weapon, param_id: (id.param_id - id.param_id % 100) as u32
        }
    } else {
        id
    }
}

/// A base item is its own base item.
pub proof fn lemma_base_of_base(id: ItemId)
    ensures
        base_item(base_item(id)) == base_item(id),
        id.valid() ==> base_item(id).valid(),
{
}

/// The somber level that matches a regular level: two for every five, the second from the third
/// on.
pub open spec fn somber_level(level: int) -> int {
    2 * (level / 5) + if level % 5 >= 2 {
        1int
    } else {
        0int
    }
}

/// Somber levels grow with regular levels, from 0 up to 10.
pub proof fn lemma_somber_level(a: int, b: int)
    requires
        0 <= a <= b <= 25,
    ensures
        0 <= somber_level(a) <= somber_level(b) <= 10,
        somber_level(0) == 0,
        somber_level(25) == 10,
{
}

/// Whether the client shows an item: weapons only without infusions and upgrades.
pub open spec fn shown_to_client(raw: u32) -> bool {
    raw >= 0x1000_0000 || raw % 10000 == 0
}

/// The category the client shows for an item.
pub open spec fn client_cat(m: ItemModel, raw: u32) -> ClientCat {
    if m.cats.contains_key(raw) {
        m.cats[raw]
    } else {
        ClientCat::Uncategorized
    }
}

/// Whether an entry of the client's list shows an item.
pub open spec fn is_client_item(item: ClientItem, m: ItemModel, raw: u32) -> bool {
    &&& item.item_id matches Some(id) && id.valid() && id.raw() == raw
    &&& m.names.contains_key(raw)
    &&& item.name@ == m.names[raw]
    &&& item.cat == client_cat(m, raw)
}

impl ItemData {
    /// Nothing known.
    pub fn new() -> (r: Self)
        ensures
            r@ == (ItemModel {
                names: crate::items::names::no_names(),
                cats: Map::empty(),
                upgrades: Map::empty(),
                tears: Set::empty(),
                spell_slots: Map::empty(),
                groups: Map::empty(),
            }),
            well_formed(r@),
    {
        ItemData {
            item_names: ItemNames::new(),
            item_cats: HashMap::new(),
            upgrade_types: HashMap::new(),
            crystal_tears: HashSet::new(),
            spell_slots: HashMap::new(),
            accessory_groups: HashMap::new(),
        }
    }

    /// The base item of an item.
    pub fn get_base_item(item_id: ItemId) -> (r: ItemId)
        ensures
            r == base_item(item_id),
    {
        if item_id.category != ItemCategory::Weapon {
            return item_id;
        }
        let id = item_id.param_id;
        ItemId { category: ItemCategory::Weapon, param_id: id - id % 100 }
    }

    /// The somber level that matches a regular level.
    pub fn regular_to_somber_level(level: u8) -> (r: u8)
        requires
            level <= 25,
        ensures
            r == somber_level(level as int),
    {
        let step: u8 = if level % 5 >= 2 {
            1
        } else {
            0
        };
        2 * (level / 5) + step
    }

    fn process_row(&mut self, raw: u32, param_id: u32, facts: RowFacts) -> (r: bool)
        ensures
            r == (row_effects(param_id, facts) is Some),
            final(self)@ == match row_effects(param_id, facts) {
                Some(effects) => ItemModel {
                    cats: with_entry(old(self)@.cats, raw, effects.cat),
                    upgrades: with_entry(old(self)@.upgrades, raw, effects.upgrade),
                    tears: if effects.tear {
                        old(self)@.tears.insert(raw)
                    } else {
                        old(self)@.tears
                    },
                    groups: with_entry(old(self)@.groups, raw, effects.group),
                    ..old(self)@
                },
                None => old(self)@,
            },
    {
        match facts {
            RowFacts::Weapon { origin_equip_wep25, origin_equip_wep10 } => {
                if param_id == 110000 {
                    return false;
                }
                if origin_equip_wep25 > 0 {
                    self.upgrade_types.insert(raw, UpgradeType::Regular);
                } else if origin_equip_wep10 > 0 {
                    self.upgrade_types.insert(raw, UpgradeType::Somber);
                }
                self.item_cats.insert(raw, ClientCat::Weapon);
                true
            },
            RowFacts::Protector => {
                if param_id < 40000 {
                    return false;
                }
                self.item_cats.insert(raw, ClientCat::Armor);
                true
            },
            RowFacts::Accessory { accessory_group } => {
                if accessory_group > 0 {
                    self.accessory_groups.insert(raw, accessory_group);
                }
                self.item_cats.insert(raw, ClientCat::Talisman);
                true
            },
            RowFacts::Goods { use_limit_summon_buddy, goods_type } => {
                if use_limit_summon_buddy == 1 {
                    if param_id % 100 == 0 {
                        self.upgrade_types.insert(raw, UpgradeType::SpiritAsh);
                    } else {
                        return false;
                    }
                }
                if goods_type == 10 {
                    self.crystal_tears.insert(raw);
                }
                true
            },
            RowFacts::Gem => true,
        }
    }

    fn read_row(&mut self, row: &ItemRow)
        ensures
            final(self)@ == after_row(old(self)@, *row),
    {
        let name = match lookup_name(&row.name, &row.dlc_name) {
            Ok(name) => name,
            Err(_) => {
                return ;
            },
        };
        let category = match row.facts {
            RowFacts::Weapon { .. } => ItemCategory::Weapon,
            RowFacts::Protector => ItemCategory::Protector,
            RowFacts::Accessory { .. } => ItemCategory::Accessory,
            RowFacts::Goods { .. } => ItemCategory::Goods,
            RowFacts::Gem => ItemCategory::Gem,
        };
        let raw = match ItemId::new(category, row.row_id) {
            Some(id) => id.into_inner(),
            None => {
                return ;
            },
        };
        if self.item_names.knows(raw, name.as_str()) {
            return ;
        }
        if self.process_row(raw, row.row_id, row.facts) {
            self.item_names.insert(raw, name);
        }
    }

    /// Reads the rows of an item table.
    pub fn iterate_items(&mut self, rows: &Vec<ItemRow>)
        ensures
            final(self)@ == after_rows(old(self)@, rows@),
            well_formed(old(self)@) ==> well_formed(final(self)@),
    {
        let ghost before = self@;
        let mut i: usize = 0;
        while i < rows.len()
            invariant
                i <= rows@.len(),
                self@ == after_rows(before, rows@.take(i as int)),
            decreases rows@.len() - i,
        {
            assert(rows@.take(i + 1).drop_last() =~= rows@.take(i as int));
            self.read_row(&rows[i]);
            i = i + 1;
        }
        assert(rows@.take(rows@.len() as int) =~= rows@);
        proof {
            if well_formed(before) {
                lemma_rows_well_formed(before, rows@);
            }
        }
    }

    /// Reads the rows of the spell table, with the slots that each spell takes.
    pub fn iterate_spells(&mut self, rows: &Vec<(u32, u8)>)
        ensures
            final(self)@ == after_spells(old(self)@, rows@),
            well_formed(old(self)@) ==> well_formed(final(self)@),
    {
        let ghost before = self@;
        let mut i: usize = 0;
        while i < rows.len()
            invariant
                i <= rows@.len(),
                self@ == after_spells(before, rows@.take(i as int)),
                self@.names == before.names,
            decreases rows@.len() - i,
        {
            assert(rows@.take(i + 1).drop_last() =~= rows@.take(i as int));
            let row_id = rows[i].0;
            let slot_length = rows[i].1;
            if row_id != 8000 {
                if let Some(id) = ItemId::new(ItemCategory::Goods, row_id) {
                    if slot_length > 0 {
                        self.spell_slots.insert(id.into_inner(), slot_length as u32);
                    }
                }
            }
            i = i + 1;
        }
        assert(rows@.take(rows@.len() as int) =~= rows@);
    }

    /// Reads all tables: weapons, armour, talismans, goods and ashes of war, each over the last,
    /// then spells.
    pub fn init(
        &mut self,
        weapons: &Vec<ItemRow>,
        protectors: &Vec<ItemRow>,
        accessories: &Vec<ItemRow>,
        goods: &Vec<ItemRow>,
        gems: &Vec<ItemRow>,
        spells: &Vec<(u32, u8)>,
    )
        ensures
            final(self)@ == after_spells(
                after_rows(
                    after_rows(
                        after_rows(
                            after_rows(after_rows(old(self)@, weapons@), protectors@),
                            accessories@,
                        ),
                        goods@,
                    ),
                    gems@,
                ),
                spells@,
            ),
            well_formed(old(self)@) ==> well_formed(final(self)@),
    {
        self.iterate_items(weapons);
        self.iterate_items(protectors);
        self.iterate_items(accessories);
        self.iterate_items(goods);
        self.iterate_items(gems);
        self.iterate_spells(spells);
    }

    /// The items for the client, by item number.
    pub fn for_client(&self) -> (r: Vec<ClientItem>)
        requires
            well_formed(self@),
        ensures
            forall|i: int|
                0 <= i < r@.len() ==> (#[trigger] r@[i]).item_id is Some && shown_to_client(
                    r@[i].item_id.unwrap().raw(),
                ) && is_client_item(r@[i], self@, r@[i].item_id.unwrap().raw()),
            forall|i: int, j: int|
                0 <= i < j < r@.len() ==> (#[trigger] r@[i]).item_id.unwrap().raw() < (
                #[trigger] r@[j]).item_id.unwrap().raw(),
            forall|raw: u32| #[trigger]
                self@.names.contains_key(raw) && shown_to_client(raw) ==> exists|i: int|
                    0 <= i < r@.len() && (#[trigger] r@[i]).item_id.unwrap().raw() == raw,
    {
        let pairs = self.item_names.pairs();
        let mut keys: Vec<u64> = Vec::new();
        let mut i: usize = 0;
        while i < pairs.len()
            invariant
                i <= pairs@.len(),
                keys@.len() == i,
                forall|k: int| 0 <= k < i ==> #[trigger] keys@[k] == pairs@[k].0,
            decreases pairs@.len() - i,
        {
            keys.push(pairs[i].0 as u64);
            i = i + 1;
        }
        let order = key_order(&keys);
        let mut items: Vec<ClientItem> = Vec::new();
        // For each item, the place in the order that it came from.
        let ghost mut places: Seq<int> = seq![];
        let mut i: usize = 0;
        while i < order.len()
            invariant
                i <= order@.len(),
                order@.len() == pairs@.len(),
                keys@.len() == pairs@.len(),
                well_formed(self@),
                crate::sorting::is_key_order(keys@, order@),
                forall|k: int| 0 <= k < keys@.len() ==> #[trigger] keys@[k] == pairs@[k].0,
                forall|a: int, b: int|
                    0 <= a < b < pairs@.len() ==> (#[trigger] pairs@[a]).0 != (
                    #[trigger] pairs@[b]).0,
                forall|k: int|
                    0 <= k < pairs@.len() ==> self@.names.contains_key((#[trigger] pairs@[k]).0)
                        && self@.names[pairs@[k].0] == pairs@[k].1@,
                places.len() == items@.len(),
                forall|k: int|
                    0 <= k < items@.len() ==> 0 <= #[trigger] places[k] < i && items@[k].item_id
                        is Some && items@[k].item_id.unwrap().raw()
                        == pairs@[order@[places[k]] as int].0 && shown_to_client(
                        items@[k].item_id.unwrap().raw(),
                    ) && is_client_item(items@[k], self@, items@[k].item_id.unwrap().raw()),
                forall|a: int, b: int|
                    0 <= a < b < places.len() ==> #[trigger] places[a] < #[trigger] places[b],
                forall|p: int|
                    0 <= p < i && shown_to_client(pairs@[#[trigger] order@[p] as int].0)
                        ==> places.contains(p),
            decreases order@.len() - i,
        {
            let at = order[i];
            let raw = pairs[at].0;
            let ghost old_places = places;
            let ghost old_items = items@;
            assert(self@.names.contains_key(raw));
            if raw >= 0x1000_0000 || raw % 10000 == 0 {
                if let Some(id) = ItemId::from_raw(raw) {
                    let cat = match self.item_cats.get(&raw) {
                        Some(cat) => *cat,
                        None => ClientCat::Uncategorized,
                    };
                    let item = ClientItem { item_id: Some(id), name: pairs[at].1.clone(), cat };
                    assert(is_client_item(item, self@, raw));
                    items.push(item);
                    proof {
                        places = places.push(i as int);
                    }
                } else {
                    proof {
                        assert(is_item(raw));
                        let id = choose|id: ItemId| #[trigger] id.valid() && id.raw() == raw;
                        assert(id.valid());
                        assert(false);
                    }
                }
            }
            proof {
                assert forall|k: int| 0 <= k < items@.len() implies 0 <= #[trigger] places[k]
                    < i + 1 && items@[k].item_id is Some && items@[k].item_id.unwrap().raw()
                    == pairs@[order@[places[k]] as int].0 && shown_to_client(
                    items@[k].item_id.unwrap().raw(),
                ) && is_client_item(items@[k], self@, items@[k].item_id.unwrap().raw()) by {
                    if k < old_items.len() {
                        assert(places[k] == old_places[k]);
                        assert(items@[k] == old_items[k]);
                    }
                }
                assert forall|p: int|
                    0 <= p < i + 1 && shown_to_client(
                        pairs@[#[trigger] order@[p] as int].0,
                    ) implies places.contains(p) by {
                    if p < i {
                        assert(old_places.contains(p));
                        let k = choose|k: int| 0 <= k < old_places.len() && old_places[k] == p;
                        assert(places[k] == p);
                    } else {
                        assert(places[places.len() - 1] == p);
                    }
                }
            }
            i = i + 1;
        }
        proof {
            assert forall|i: int, j: int| 0 <= i < j < items@.len() implies (
            #[trigger] items@[i]).item_id.unwrap().raw() < (
            #[trigger] items@[j]).item_id.unwrap().raw() by {
                let a = places[i];
                let b = places[j];
                assert(a < b);
                assert(order@[a] < keys@.len() && order@[b] < keys@.len());
                assert(keys@[order@[a] as int] == pairs@[order@[a] as int].0);
                assert(keys@[order@[b] as int] == pairs@[order@[b] as int].0);
                if keys@[order@[a] as int] == keys@[order@[b] as int] {
                    assert(order@[a] < order@[b]);
                    assert(pairs@[order@[a] as int].0 != pairs@[order@[b] as int].0);
                }
            }
            assert forall|raw: u32| #[trigger]
                self@.names.contains_key(raw) && shown_to_client(raw) implies exists|i: int|
                0 <= i < items@.len() && (#[trigger] items@[i]).item_id.unwrap().raw() == raw by {
                let q = choose|q: int| 0 <= q < pairs@.len() && (#[trigger] pairs@[q]).0 == raw;
                assert(order@.contains(q as usize));
                let p = choose|p: int| 0 <= p < order@.len() && order@[p] == q as usize;
                assert(pairs@[order@[p] as int].0 == raw);
                assert(places.contains(p));
                let k = choose|k: int| 0 <= k < places.len() && places[k] == p;
                assert(items@[k].item_id.unwrap().raw() == raw);
            }
            assert forall|i: int| 0 <= i < items@.len() implies (
            #[trigger] items@[i]).item_id is Some && shown_to_client(
                items@[i].item_id.unwrap().raw(),
            ) && is_client_item(items@[i], self@, items@[i].item_id.unwrap().raw()) by {
                assert(0 <= places[i]);
            }
        }
        items
    }
}

} // verus!
