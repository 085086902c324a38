//! From files to definitions: which files are read, what is said about them, and
//! the order and numbers of what they define.

pub mod asked;
pub mod attach;
pub mod bin;
pub mod blocks;
pub mod chunks;
pub mod corpus;
pub mod diagnostics;
pub mod emit;
pub mod finished;
pub mod linking;
pub mod load;
pub mod paths;
pub mod render;
pub mod reports;
