//! Structural search over declarations: functions, records and tagged unions
//! are reduced to a normalized shape, indexed per file, and matched against a
//! query shape written in a small grammar.

pub mod text;
pub mod model;
pub mod matching;
pub mod index;
pub mod structmap;
pub mod fnmap;
pub mod query;
pub mod search;
pub mod enummap;
