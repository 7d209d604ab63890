//! The game's event system.

pub mod emevd_utils;
pub mod emk_system;
