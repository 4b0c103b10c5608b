//! Component stores: one store per component type, indexed by a presence
//! bitset.

pub mod disjoint;
pub mod iterator;
pub mod persist;
pub mod typed;
pub mod untyped;
