//! Compiler support for Fable definition files.

pub mod build;
pub mod bytes;
pub mod crc32;
pub mod defs;
pub mod eval;
pub mod laws;
pub mod lower;
pub mod name_map;
pub mod names;
pub mod natural;
pub mod order;
pub mod reader;
pub mod single;
pub mod strings;
pub mod text;
pub mod value;
