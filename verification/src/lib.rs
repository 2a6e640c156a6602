//! A cache-accelerated, in-process structured store with a command dispatcher.
//!
//! The crate combines three parts: a time-bounded cache ([`cache::Cache`]),
//! a structured key/value-and-list store ([`nosql::NoSQLClient`]), and a
//! command dispatcher ([`facade::LunarDB`]) that routes typed commands to the
//! right backing structure and enforces the cache-coherence policy between
//! the two (writes invalidate, reads repopulate).

pub mod cache;
pub mod command;
pub mod facade;
pub mod keyed_map;
pub mod maps;
pub mod nosql;
pub mod order;
pub mod sql;
