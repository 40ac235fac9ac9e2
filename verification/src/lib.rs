//! The bookkeeping of a shard's world tick: the roster and the character
//! screen, entering and leaving the world, walk requests, the persistence
//! journal and its saves, and the boot-time restore of what was saved.
use vstd::prelude::*;

pub mod addons;
pub mod cursor;
pub mod decor;
pub mod entry;
pub mod holdings;
pub mod houses;
pub mod inventory;
pub mod journal;
pub mod motion;
pub mod names;
pub mod records;
pub mod regions;
pub mod roster;
pub mod runebook;
pub mod session;
pub mod spells;
pub mod traps;
pub mod types;
pub mod world;

verus! {

} // verus!
