//! Builds game scripts out of a line-oriented text format: characters and
//! scripts are parsed into records, requirements are resolved, characters are
//! put into their canonical order, optional patches are applied, and the
//! interchange records and almanac pages are composed.
pub mod almanac;
pub mod apply;
pub mod character;
pub mod character_source;
pub mod error;
pub mod interchange;
pub mod patch;
pub mod resolve;
pub mod script;
pub mod sort;
pub mod special;
pub mod table;
pub mod text;
