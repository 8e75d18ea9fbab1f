//! Tagged decoding of packed item identifiers.
//!
//! An item identifier is a 32-bit integer whose little-endian byte layout
//! encodes an item class in a type-discriminant byte: junk, the goal item,
//! a region key, or a gameplay affector such as a speed boost.

use vstd::prelude::*;

verus! {

use crate::ItemID;
use crate::LocationID;
use crate::RegionID;

/// The classes of items that can appear in an inventory.
#[derive(Clone, Copy, Debug, PartialEq, Eq, Structural)]
pub enum Item {
    Junk,
    Goal,
    Key(RegionID),
    GameAffector(Effect),
}

/// Gameplay-affecting item effects.
#[derive(Clone, Copy, Debug, PartialEq, Eq, Structural)]
pub enum Effect {
    SpeedBoost,
}

/// The little-endian bytes of a 32-bit identifier.
pub open spec fn le_bytes_of(id: u32) -> Seq<u8> {
    seq![
        (id & 0xff) as u8,
        ((id >> 8) & 0xff) as u8,
        ((id >> 16) & 0xff) as u8,
        ((id >> 24) & 0xff) as u8,
    ]
}

/// The type-discriminant ("offset") byte of an identifier: the last byte if
/// it is nonzero, otherwise the second-to-last byte.
pub open spec fn spec_offset_of(bytes: Seq<u8>) -> Option<u8> {
    if bytes.len() < 4 {
        None
    } else if bytes[3] != 0 {
        Some(bytes[3])
    } else {
        Some(bytes[2])
    }
}

/// The effect encoded in byte 2 of an identifier, if any.
pub open spec fn spec_effect_of(bytes: Seq<u8>) -> Option<Effect> {
    if bytes.len() < 3 {
        None
    } else if bytes[2] == 0 {
        Some(Effect::SpeedBoost)
    } else {
        None
    }
}

/// The item encoded by an identifier's little-endian bytes, if any.
pub open spec fn spec_item_of(bytes: Seq<u8>) -> Option<Item> {
    match spec_offset_of(bytes) {
        None => None,
        Some(offset) => if offset == 0x00 {
            Some(Item::Junk)
        } else if offset == 0x01 {
            Some(Item::Goal)
        } else if offset == 0x02 {
            Some(Item::Key(bytes[0]))
        } else if offset == 0x04 {
            match spec_effect_of(bytes) {
                Some(effect) => Some(Item::GameAffector(effect)),
                None => None,
            }
        } else {
            None
        },
    }
}

/// The item encoded by a packed identifier, if any.
pub open spec fn spec_item_of_id(id: ItemID) -> Option<Item> {
    spec_item_of(le_bytes_of(id))
}

/// Whether an identifier is the key for the given region.
pub open spec fn is_key_for(id: ItemID, region: RegionID) -> bool {
    spec_item_of_id(id) == Some(Item::Key(region))
}

/// Whether an identifier is a goal item.
pub open spec fn is_goal_item(id: ItemID) -> bool {
    spec_item_of_id(id) == Some(Item::Goal)
}

/// Whether an identifier is a speed-boost item.
pub open spec fn is_boost_item(id: ItemID) -> bool {
    spec_item_of_id(id) == Some(Item::GameAffector(Effect::SpeedBoost))
}

/// The region field of a packed location identifier (byte 2).
pub open spec fn spec_region_of(loc_id: LocationID) -> RegionID {
    ((loc_id >> 16) & 0xff) as u8
}

/// Splits a 32-bit identifier into its little-endian bytes.
pub fn id_le_bytes(id: u32) -> (bytes: Vec<u8>)
    ensures
        bytes@ == le_bytes_of(id),
{
    proof {
        assert((id & 0xff) < 256 && ((id >> 8) & 0xff) < 256 && ((id >> 16) & 0xff) < 256 && ((id
            >> 24) & 0xff) < 256) by (bit_vector);
    }
    let mut bytes: Vec<u8> = Vec::new();
    bytes.push((id & 0xff) as u8);
    bytes.push(((id >> 8) & 0xff) as u8);
    bytes.push(((id >> 16) & 0xff) as u8);
    bytes.push(((id >> 24) & 0xff) as u8);
    proof {
        assert(bytes@ =~= le_bytes_of(id));
    }
    bytes
}

/// Extracts the region field from a packed location identifier.
pub fn get_region_from_loc_id(loc_id: LocationID) -> (region: RegionID)
    ensures
        region == spec_region_of(loc_id),
{
    proof {
        assert(((loc_id >> 16) & 0xff) < 256) by (bit_vector);
    }
    ((loc_id >> 16) & 0xff) as u8
}

/// Reads the type-discriminant byte out of an identifier's little-endian
/// bytes: the last byte when nonzero, else the second-to-last.
pub fn get_offset_from_le_bytes(bytes: &[u8]) -> (offset: Option<u8>)
    ensures
        offset == spec_offset_of(bytes@),
{
    if bytes.len() < 4 {
        None
    } else if bytes[3] != 0 {
        Some(bytes[3])
    } else {
        Some(bytes[2])
    }
}

impl Item {
    /// Decodes an item from an identifier's little-endian bytes.
    pub fn try_from_le_bytes(bytes: &[u8]) -> (item: Option<Item>)
        ensures
            item == spec_item_of(bytes@),
    {
        let offset = get_offset_from_le_bytes(bytes)?;

        match offset {
            0x00 => Some(Item::Junk),
            0x01 => Some(Item::Goal),
            0x02 => Some(Item::Key(bytes[0])),
            0x04 => Some(Item::GameAffector(Effect::try_from_le_bytes(bytes)?)),
            _ => None,
        }
    }

    /// Decodes an item from a packed identifier.
    pub fn from_id(id: ItemID) -> (item: Option<Item>)
        ensures
            item == spec_item_of_id(id),
    {
        let bytes = id_le_bytes(id);
        Self::try_from_le_bytes(bytes.as_slice())
    }
}

impl Effect {
    /// Decodes an effect from an identifier's little-endian bytes.
    pub fn try_from_le_bytes(bytes: &[u8]) -> (effect: Option<Effect>)
        ensures
            effect == spec_effect_of(bytes@),
    {
        if bytes.len() < 3 {
            return None;
        }
        match bytes[2] {
            0x00 => Some(Effect::SpeedBoost),
            _ => None,
        }
    }
}

} // verus!
