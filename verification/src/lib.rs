//! Verified core of a game companion client: the rules and state machines behind boss tracking,
//! name claims, item delivery, enemy spawning, death links and the overlay.

pub mod bosses;
pub mod client;
pub mod deathlink;
pub mod event;
pub mod game;
pub mod hooks;
pub mod items;
pub mod names;
pub mod program;
pub mod rva;
pub mod sorting;
pub mod spawn;
pub mod text;
pub mod ui;
pub mod wide;
