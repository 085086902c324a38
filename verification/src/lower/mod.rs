//! Lowering: from parsed definitions to the fields that they set.

pub mod anim;
pub mod asking;
pub mod body;
pub mod builders;
pub mod calls;
pub mod construct;
pub mod controls;
pub mod def;
pub mod env;
pub mod extra;
pub mod fields;
pub mod keeping;
pub mod mesh;
pub mod morph;
pub mod opinions;
pub mod patch;
pub mod steps;
pub mod things;
pub mod ui;
