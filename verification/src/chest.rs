//! Chests: lockable collectible locations identified by a packed 32-bit
//! identifier.
//!
//! Two identifier packings are in use across game variants: a compact one
//! with the region in byte 1, and a themed one with the region in byte 2
//! and a theme sub-field in byte 1. The packing is an explicit parameter
//! instead of a constant baked into each call site.

use vstd::prelude::*;

verus! {

use vstd::string::StringExecFns;

use crate::LocationID;
use crate::RegionID;
use crate::decimal::dec_rep;
use crate::decimal::u64_to_dec_string;

/// Which byte of a location identifier holds the owning region.
#[derive(Clone, Copy, Debug, PartialEq, Eq, Structural)]
pub enum IdLayout {
    /// Region in byte 1, sequence number in byte 0.
    Compact,
    /// Region in byte 2, theme in byte 1, sequence number in byte 0.
    Themed,
}

/// The region field of an identifier under the given layout.
pub open spec fn layout_region_of(layout: IdLayout, id: LocationID) -> RegionID {
    match layout {
        IdLayout::Compact => ((id >> 8) & 0xff) as u8,
        IdLayout::Themed => ((id >> 16) & 0xff) as u8,
    }
}

/// The synthesized display name of a chest: hub chests are named after
/// their number alone, others after region and number.
pub open spec fn spec_chest_name(region: RegionID, number: u8) -> Seq<char> {
    if region == 0 {
        "Hub Chest "@ + dec_rep(number as nat)
    } else {
        "Chest "@ + dec_rep(region as nat) + "-"@ + dec_rep(number as nat)
    }
}

/// Extracts the region field of an identifier under the given layout.
pub fn region_of_id(id: LocationID, layout: IdLayout) -> (region: RegionID)
    ensures
        region == layout_region_of(layout, id),
{
    proof {
        assert(((id >> 8) & 0xff) < 256 && ((id >> 16) & 0xff) < 256) by (bit_vector);
    }
    match layout {
        IdLayout::Compact => ((id >> 8) & 0xff) as u8,
        IdLayout::Themed => ((id >> 16) & 0xff) as u8,
    }
}

/// A lockable collectible location. The `checked` flag is monotonic: once
/// set it is never reset.
#[derive(Debug)]
pub struct Chest {
    pub name: String,
    pub region: RegionID,
    pub full_id: LocationID,
    pub number: u8,
    pub checked: bool,
}

impl Chest {
    /// The chest's fields agree with its packed identifier.
    pub open spec fn consistent_with(&self, layout: IdLayout) -> bool {
        &&& self.region == layout_region_of(layout, self.full_id)
        &&& self.number == (self.full_id & 0xff) as u8
    }

    /// Builds the chest a packed identifier describes, with a synthesized
    /// display name; unchecked.
    pub fn new_from_id(id: LocationID, layout: IdLayout) -> (chest: Chest)
        ensures
            chest.checked == false,
            chest.full_id == id,
            chest.number == (id & 0xff) as u8,
            chest.region == layout_region_of(layout, id),
            chest.name@ == spec_chest_name(layout_region_of(layout, id), (id & 0xff) as u8),
            chest.consistent_with(layout),
    {
        proof {
            assert((id & 0xff) < 256 && ((id >> 8) & 0xff) < 256 && ((id >> 16) & 0xff) < 256)
                by (bit_vector);
        }
        let number = (id & 0xff) as u8;
        let region = match layout {
            IdLayout::Compact => ((id >> 8) & 0xff) as u8,
            IdLayout::Themed => ((id >> 16) & 0xff) as u8,
        };
        let name = if region == 0 {
            let mut name = String::from_str("Hub Chest ");
            name.append(u64_to_dec_string(number as u64).as_str());
            name
        } else {
            let mut name = String::from_str("Chest ");
            name.append(u64_to_dec_string(region as u64).as_str());
            name.append("-");
            name.append(u64_to_dec_string(number as u64).as_str());
            name
        };
        Chest { checked: false, name, number, region, full_id: id }
    }

    /// Builds a chest from a server data-package entry: a signed identifier
    /// (reinterpreted as unsigned) and a provided display name; the compact
    /// layout governs data-package identifiers.
    pub fn new_from_datapackage_entry(val: &i32, name: String) -> (chest: Chest)
        ensures
            chest.checked == false,
            chest.full_id == *val as u32,
            chest.number == ((*val as u32) & 0xff) as u8,
            chest.region == layout_region_of(IdLayout::Compact, *val as u32),
            chest.name@ == name@,
            chest.consistent_with(IdLayout::Compact),
    {
        let id: u32 = #[verifier::truncate] (*val as u32);
        proof {
            assert((id & 0xff) < 256 && ((id >> 8) & 0xff) < 256) by (bit_vector);
        }
        let number = (id & 0xff) as u8;
        let region = ((id >> 8) & 0xff) as u8;
        Chest { checked: false, name, number, region, full_id: id }
    }

    /// A field-for-field copy.
    pub fn duplicate(&self) -> (r: Chest)
        ensures
            r.name@ == self.name@,
            r.region == self.region,
            r.full_id == self.full_id,
            r.number == self.number,
            r.checked == self.checked,
    {
        Chest {
            name: String::from_str(self.name.as_str()),
            region: self.region,
            full_id: self.full_id,
            number: self.number,
            checked: self.checked,
        }
    }
}

} // verus!
