//! Item ids: a category and the row of the category's table.
use vstd::prelude::*;

verus! {

/// The largest row of a category.
pub const MAX_PARAM_ID: u32 = 0x0FFF_FFFF;

#[derive(PartialEq, Eq, Structural, Clone, Copy, Debug)]
pub enum ItemCategory {
    Weapon,
    Protector,
    Accessory,
    Goods,
    Gem,
}

/// The number of a category within an item id.
pub open spec fn category_number(category: ItemCategory) -> int {
    match category {
        ItemCategory::Weapon => 0,
        ItemCategory::Protector => 1,
        ItemCategory::Accessory => 2,
        ItemCategory::Goods => 4,
        ItemCategory::Gem => 8,
    }
}

/// An item of a category.
#[derive(PartialEq, Eq, Structural, Clone, Copy, Debug)]
pub struct ItemId {
    pub category: ItemCategory,
    pub param_id: u32,
}

/// The number of an item id: the category's in the top four bits, the row below.
pub open spec fn raw_id(category: ItemCategory, param_id: u32) -> int {
    category_number(category) * 0x1000_0000 + param_id
}

impl ItemId {
    /// Whether the row is one that an item id can hold.
    pub open spec fn valid(self) -> bool {
        self.param_id <= MAX_PARAM_ID
    }

    /// The item id's number.
    pub open spec fn raw(self) -> u32 {
        raw_id(self.category, self.param_id) as u32
    }

    /// The item of a category with a row; none where the row is too large.
    pub fn new(category: ItemCategory, param_id: u32) -> (r: Option<Self>)
        ensures
            r == if param_id <= MAX_PARAM_ID {
                Some(ItemId { category, param_id })
            } else {
                None
            },
    {
        if param_id <= MAX_PARAM_ID {
            Some(ItemId { category, param_id })
        } else {
            None
        }
    }

    /// The item id's number.
    pub fn into_inner(&self) -> (r: u32)
        requires
            self.valid(),
        ensures
            r == self.raw(),
            r == raw_id(self.category, self.param_id),
    {
        let number: u32 = match self.category {
            ItemCategory::Weapon => 0,
            ItemCategory::Protector => 1,
            ItemCategory::Accessory => 2,
            ItemCategory::Goods => 4,
            ItemCategory::Gem => 8,
        };
        number * 0x1000_0000 + self.param_id
    }

    /// The item with a number, if any has it.
    pub fn from_raw(raw: u32) -> (r: Option<Self>)
        ensures
            match r {
                Some(id) => id.valid() && id.raw() == raw,
                None => forall|id: ItemId| #[trigger] id.valid() ==> id.raw() != raw,
            },
    {
        let category = match raw / 0x1000_0000 {
            0 => ItemCategory::Weapon,
            1 => ItemCategory::Protector,
            2 => ItemCategory::Accessory,
            4 => ItemCategory::Goods,
            8 => ItemCategory::Gem,
            _ => {
                return None;
            },
        };
        Some(ItemId { category, param_id: raw % 0x1000_0000 })
    }
}

/// Two items with one number are the same item.
pub proof fn lemma_raw_is_injective(a: ItemId, b: ItemId)
    requires
        a.valid(),
        b.valid(),
        a.raw() == b.raw(),
    ensures
        a == b,
{
}

} // verus!
