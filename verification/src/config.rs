//! Configuration records handed in at the session boundary, and the
//! persisted user settings.

use vstd::prelude::*;

verus! {

/// Whether a wait-time range is acceptable: both ends positive and the
/// minimum no greater than the maximum.
pub open spec fn wait_range_ok(min_wait_time: u16, max_wait_time: u16) -> bool {
    0 < min_wait_time <= max_wait_time
}

/// Slot configuration for the compact identifier layout.
#[derive(Debug)]
pub struct OutputFileConfig {
    pub min_wait_time: u16,
    pub max_wait_time: u16,
    pub num_goal: u16,
    pub slot_name: String,
    pub num_regions: u8,
    pub chests_per_region_list: Vec<u8>,
}

/// Slot configuration for the themed identifier layout: adds the theme
/// sub-field placed in byte 1 of every chest identifier.
#[derive(Debug)]
pub struct ArchipelaPalSlotData {
    pub min_wait_time: u16,
    pub max_wait_time: u16,
    pub num_goal: u16,
    pub slot_name: String,
    pub num_regions: u8,
    pub chests_per_region_list: Vec<u8>,
    pub game_theme: u8,
}

impl OutputFileConfig {
    /// Checks the configured wait-time range and goal threshold.
    pub fn validate(&self) -> (ok: bool)
        ensures
            ok == (wait_range_ok(self.min_wait_time, self.max_wait_time) && self.num_goal >= 1),
    {
        0 < self.min_wait_time && self.min_wait_time <= self.max_wait_time && self.num_goal >= 1
    }
}

impl ArchipelaPalSlotData {
    /// Checks the configured wait-time range and goal threshold.
    pub fn validate(&self) -> (ok: bool)
        ensures
            ok == (wait_range_ok(self.min_wait_time, self.max_wait_time) && self.num_goal >= 1),
    {
        0 < self.min_wait_time && self.min_wait_time <= self.max_wait_time && self.num_goal >= 1
    }
}

/// Remembered interactive inputs: the last server address and slot name.
#[derive(Debug)]
pub struct UserSettings {
    pub last_used_address: Option<String>,
    pub last_used_slot: Option<String>,
}

impl Default for UserSettings {
    /// Fresh settings remember nothing.
    fn default() -> (settings: UserSettings)
        ensures
            settings.last_used_address is None,
            settings.last_used_slot is None,
    {
        UserSettings { last_used_address: None, last_used_slot: None }
    }
}

} // verus!
