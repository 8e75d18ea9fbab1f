//! A verified core for an autonomous "multiworld" randomizer agent.
//!
//! The library models a game world partitioned into regions of lockable
//! chests, a player inventory updated by server events, a prioritized hint
//! queue, and the decision algorithm that picks the next chest to check.
//! Network traffic, persistence I/O and task scheduling live outside the
//! library; they exchange plain values with the verified core.

use vstd::prelude::*;

pub mod chest;
pub mod config;
pub mod decimal;
pub mod events;
pub mod hints;
pub mod inventory;
pub mod items;
pub mod laws;
pub mod map;
pub mod pacing;
pub mod player;
mod rng;
pub mod save;
pub mod state;

pub use chest::Chest;
pub use chest::IdLayout;
pub use config::ArchipelaPalSlotData;
pub use config::OutputFileConfig;
pub use config::UserSettings;
pub use events::GoalSignal;
pub use events::HandlerAction;
pub use events::ServerEvent;
pub use hints::Hint;
pub use inventory::Inventory;
pub use items::Effect;
pub use items::Item;
pub use items::get_offset_from_le_bytes;
pub use items::get_region_from_loc_id;
pub use map::GameMap;
pub use map::WorldError;
pub use player::Player;
pub use save::SaveFile;
pub use state::FullGameState;

verus! {

/// A region of the world map; access is gated by possession of a key item.
pub type RegionID = u8;

/// A packed chest/location identifier.
pub type LocationID = u32;

/// A packed inventory item identifier.
pub type ItemID = u32;

/// The identifier offset that compact-layout chest identifiers start at.
pub const CHEST_OFFSET: LocationID = 0x020000;

} // verus!
