//! Laws: what holds of the results, over all inputs, whatever way they are come by.

pub mod animations;
pub mod binaries;
pub mod checksums;
pub mod classes;
pub mod compounds;
pub mod containers;
pub mod corpora;
pub mod expressions;
pub mod families;
pub mod fields;
pub mod files;
pub mod headers;
pub mod inheritance;
pub mod members;
pub mod names;
pub mod numbers;
pub mod orders;
pub mod readers;
pub mod references;
pub mod reports;
pub mod schemes;
pub mod screens;
pub mod sources;
pub mod states;
pub mod tables;
