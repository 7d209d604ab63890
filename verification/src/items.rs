//! Items: giving them by name, upgrading them, and equipping them.

pub mod data;
pub mod equip;
pub mod inventory;
pub mod item_id;
pub mod laws;
pub mod lot;
pub mod names;
pub mod order;
pub mod spells;
pub mod table_laws;
pub mod updater;

pub use updater::{ItemDesc, ItemRequest, ItemUpdater};
