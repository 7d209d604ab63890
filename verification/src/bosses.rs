//! Boss tracking.

pub mod color;
pub mod data;
pub mod laws;
pub mod panel;
pub mod panel_laws;
pub mod records;
pub mod state;
pub mod word_laws;
pub mod words;
