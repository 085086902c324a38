//! The structures of definitions: their fields, with the names that text gives them
//! and what they are where nothing is set.

pub mod arena;
pub mod field;
pub mod inventory;
pub mod objects;
pub mod people;
pub mod record;
pub mod screens;
