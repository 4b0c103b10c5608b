//! An entity-component data engine: entity identifiers with generations,
//! bitset-indexed component stores, joins over several stores, the
//! resolution of what a system borrows, and a staged scheduler, with the
//! behaviour of each operation stated as a contract and proved.
//!
//! - [`entities`]: entity identifiers and the allocator that issues and
//!   recycles them.
//! - [`bitset`]: the sets of entity indices that mark presence and drive
//!   joins.
//! - [`schema`]: runtime descriptions of component types, and their bytes.
//! - [`components`]: the stores, the cursors over them, and what is written
//!   out of a store and read back.
//! - [`resolver`]: shared and exclusive access of systems to stores and
//!   resources.
//! - [`stages`]: which systems run in a tick, and in which order.

pub mod bitset;
pub mod components;
pub mod entities;
pub mod resolver;
pub mod schema;
pub mod stages;
