//! The player model: inventory, current exploration region, and the speed
//! modifier derived from stacked speed-boost items.
//!
//! The speed modifier is kept in hundredths (a value of 100 means no boost)
//! so that it stays in integer arithmetic end to end.

use vstd::prelude::*;

verus! {

use crate::ItemID;
use crate::RegionID;
use crate::inventory::Inventory;
use crate::inventory::sat_cap;
use crate::items::Effect;
use crate::items::Item;
use crate::items::is_boost_item;
use crate::items::is_goal_item;
use crate::items::is_key_for;
use crate::items::spec_item_of_id;

/// Speed bonus per stacked speed-boost item, in hundredths (one percent).
pub const SPEED_BOOST_MODIFIER_PCT: u32 = 1;

/// The speed modifier of a player holding no boosts, in hundredths.
pub const BASE_SPEED_MODIFIER: u32 = 100;

/// The regions keyed by the entries of `s`, in entry order.
pub open spec fn key_regions_of(s: Seq<(ItemID, u16)>) -> Seq<RegionID>
    decreases s.len(),
{
    if s.len() == 0 {
        Seq::empty()
    } else {
        key_regions_of(s.drop_last()) + (match spec_item_of_id(s.last().0) {
            Some(Item::Key(region)) => seq![region],
            _ => Seq::empty(),
        })
    }
}

/// The total quantity of goal items among the entries of `s`.
pub open spec fn goal_total_of(s: Seq<(ItemID, u16)>) -> nat
    decreases s.len(),
{
    if s.len() == 0 {
        0
    } else {
        goal_total_of(s.drop_last()) + (if is_goal_item(s.last().0) {
            s.last().1 as nat
        } else {
            0nat
        })
    }
}

/// The total quantity of speed-boost items among the entries of `s`.
pub open spec fn boost_total_of(s: Seq<(ItemID, u16)>) -> nat
    decreases s.len(),
{
    if s.len() == 0 {
        0
    } else {
        boost_total_of(s.drop_last()) + (if is_boost_item(s.last().0) {
            s.last().1 as nat
        } else {
            0nat
        })
    }
}

/// A region key occurs in `key_regions_of(s)` exactly when some entry of `s`
/// is a key item for that region.
pub proof fn lemma_key_regions_iff(s: Seq<(ItemID, u16)>, region: RegionID)
    ensures
        key_regions_of(s).contains(region) <==> exists|i: int|
            0 <= i < s.len() && is_key_for((#[trigger] s[i]).0, region),
    decreases s.len(),
{
    if s.len() > 0 {
        lemma_key_regions_iff(s.drop_last(), region);
        let prefix = key_regions_of(s.drop_last());
        let last = s.last();
        if key_regions_of(s).contains(region) {
            let j = choose|j: int| 0 <= j < key_regions_of(s).len() && key_regions_of(s)[j]
                == region;
            if j < prefix.len() {
                assert(prefix.contains(region));
                let i = choose|i: int|
                    0 <= i < s.drop_last().len() && is_key_for((#[trigger] s.drop_last()[i]).0,
                    region);
                assert(s[i] == s.drop_last()[i]);
                assert(is_key_for(s[i].0, region));
            } else {
                assert(is_key_for(last.0, region));
                assert(s[s.len() - 1] == last);
            }
        }
        if exists|i: int| 0 <= i < s.len() && is_key_for((#[trigger] s[i]).0, region) {
            let i = choose|i: int| 0 <= i < s.len() && is_key_for((#[trigger] s[i]).0, region);
            if i < s.len() - 1 {
                assert(s.drop_last()[i] == s[i]);
                assert(prefix.contains(region));
                let j = choose|j: int| 0 <= j < prefix.len() && prefix[j] == region;
                assert(key_regions_of(s)[j] == region);
            } else {
                assert(key_regions_of(s).last() == region);
            }
        }
    }
}

/// A region list built by `key_regions_of` contains a region exactly when
/// the player's inventory makes that region accessible.
pub proof fn lemma_accessible_iff(player: Player, region: RegionID)
    ensures
        key_regions_of(player.inventory.entries@).contains(region)
            <==> player.region_accessible(region),
{
    let s = player.inventory.entries@;
    lemma_key_regions_iff(s, region);
    if exists|i: int| 0 <= i < s.len() && is_key_for((#[trigger] s[i]).0, region) {
        let i = choose|i: int| 0 <= i < s.len() && is_key_for((#[trigger] s[i]).0, region);
        assert(crate::inventory::seq_has(s, s[i].0));
        assert(player.inventory.has(s[i].0) && is_key_for(s[i].0, region));
    }
    if player.region_accessible(region) {
        let id = choose|id: ItemID| #[trigger] player.inventory.has(id) && is_key_for(id, region);
        let j = crate::inventory::seq_index_of(s, id);
        assert(0 <= j < s.len() && s[j].0 == id);
    }
}

/// Accessibility depends on the inventory alone: two players holding the
/// same entries can reach the same regions.
pub proof fn lemma_access_same_inventory(a: Player, b: Player, region: RegionID)
    requires
        a.inventory.entries@ == b.inventory.entries@,
        a.region_accessible(region),
    ensures
        b.region_accessible(region),
{
    let id = choose|id: ItemID| #[trigger] a.inventory.has(id) && is_key_for(id, region);
    assert(b.inventory.has(id));
}

/// Whether a region list contains a region.
pub fn regions_contain(regions: &Vec<RegionID>, region: RegionID) -> (c: bool)
    ensures
        c == regions@.contains(region),
{
    let n = regions.len();
    let mut i: usize = 0;
    while i < n
        invariant
            n == regions@.len(),
            0 <= i <= n,
            forall|k: int| 0 <= k < i ==> (#[trigger] regions@[k]) != region,
        decreases n - i,
    {
        if regions[i] == region {
            return true;
        }
        i += 1;
    }
    false
}

/// The player: inventory, current region, and derived speed modifier.
#[derive(Debug)]
pub struct Player {
    pub inventory: Inventory,
    pub currently_exploring_region: RegionID,
    pub speed_modifier: u32,
}

impl Player {
    /// The inventory is well formed.
    pub open spec fn wf(&self) -> bool {
        self.inventory.wf()
    }

    /// A region is accessible once the inventory holds a key item for it.
    pub open spec fn region_accessible(&self, region: RegionID) -> bool {
        exists|id: ItemID| #[trigger] self.inventory.has(id) && is_key_for(id, region)
    }

    /// The goal-item count the player holds, capped at the quantity cap.
    pub open spec fn goal_count(&self) -> u16 {
        sat_cap(goal_total_of(self.inventory.entries@) as int)
    }

    /// The boost count the player holds, capped at the quantity cap.
    pub open spec fn boost_count(&self) -> u16 {
        sat_cap(boost_total_of(self.inventory.entries@) as int)
    }

    /// The speed modifier derived from the current inventory, in hundredths.
    pub open spec fn derived_speed_modifier(&self) -> u32 {
        (BASE_SPEED_MODIFIER + self.boost_count() * SPEED_BOOST_MODIFIER_PCT) as u32
    }

    /// The regions for which the player holds a key, in inventory order.
    pub fn get_accessible_regions(&self) -> (regions: Vec<RegionID>)
        requires
            self.wf(),
        ensures
            regions@ == key_regions_of(self.inventory.entries@),
    {
        let n = self.inventory.entries.len();
        let mut regions: Vec<RegionID> = Vec::new();
        let mut i: usize = 0;
        proof {
            assert(self.inventory.entries@.take(0) =~= Seq::<(ItemID, u16)>::empty());
            assert(regions@ =~= key_regions_of(self.inventory.entries@.take(0)));
        }
        while i < n
            invariant
                n == self.inventory.entries@.len(),
                0 <= i <= n,
                regions@ == key_regions_of(self.inventory.entries@.take(i as int)),
            decreases n - i,
        {
            let (id, _) = self.inventory.entries[i];
            proof {
                assert(self.inventory.entries@.take(i + 1).drop_last() =~= self.inventory
                    .entries@.take(i as int));
                assert(self.inventory.entries@.take(i + 1).last() == self.inventory.entries@[i
                    as int]);
            }
            match Item::from_id(id) {
                Some(Item::Key(region)) => {
                    regions.push(region);
                    proof {
                        assert(regions@ =~= key_regions_of(
                            self.inventory.entries@.take(i + 1),
                        ));
                    }
                },
                _ => {
                    proof {
                        assert(regions@ =~= key_regions_of(
                            self.inventory.entries@.take(i + 1),
                        ));
                    }
                },
            }
            i += 1;
        }
        proof {
            assert(self.inventory.entries@.take(n as int) =~= self.inventory.entries@);
        }
        regions
    }

    /// The key regions the player holds, read straight off the identifier
    /// bytes; agrees with `get_accessible_regions`.
    pub fn get_key_info(&self) -> (regions: Vec<RegionID>)
        requires
            self.wf(),
        ensures
            regions@ == key_regions_of(self.inventory.entries@),
    {
        self.get_accessible_regions()
    }

    /// The total goal-item quantity held, capped at the quantity cap.
    pub fn get_num_goal_items(&self) -> (total: u16)
        requires
            self.wf(),
        ensures
            total == self.goal_count(),
    {
        let n = self.inventory.entries.len();
        let mut total: u16 = 0;
        let mut i: usize = 0;
        proof {
            assert(self.inventory.entries@.take(0) =~= Seq::<(ItemID, u16)>::empty());
        }
        while i < n
            invariant
                n == self.inventory.entries@.len(),
                0 <= i <= n,
                total == sat_cap(goal_total_of(self.inventory.entries@.take(i as int)) as int),
            decreases n - i,
        {
            let (id, qty) = self.inventory.entries[i];
            proof {
                assert(self.inventory.entries@.take(i + 1).drop_last() =~= self.inventory
                    .entries@.take(i as int));
                assert(self.inventory.entries@.take(i + 1).last() == self.inventory.entries@[i
                    as int]);
            }
            let bytes = crate::items::id_le_bytes(id);
            match Item::try_from_le_bytes(bytes.as_slice()) {
                Some(Item::Goal) => {
                    let sum: u32 = total as u32 + qty as u32;
                    total = if sum > 0xffff {
                        0xffff
                    } else {
                        sum as u16
                    };
                },
                _ => {},
            }
            i += 1;
        }
        proof {
            assert(self.inventory.entries@.take(n as int) =~= self.inventory.entries@);
        }
        total
    }

    /// The total speed-boost quantity held, capped at the quantity cap.
    pub fn get_num_boosts(&self) -> (total: u16)
        requires
            self.wf(),
        ensures
            total == self.boost_count(),
    {
        let n = self.inventory.entries.len();
        let mut total: u16 = 0;
        let mut i: usize = 0;
        proof {
            assert(self.inventory.entries@.take(0) =~= Seq::<(ItemID, u16)>::empty());
        }
        while i < n
            invariant
                n == self.inventory.entries@.len(),
                0 <= i <= n,
                total == sat_cap(boost_total_of(self.inventory.entries@.take(i as int)) as int),
            decreases n - i,
        {
            let (id, qty) = self.inventory.entries[i];
            proof {
                assert(self.inventory.entries@.take(i + 1).drop_last() =~= self.inventory
                    .entries@.take(i as int));
                assert(self.inventory.entries@.take(i + 1).last() == self.inventory.entries@[i
                    as int]);
            }
            match Item::from_id(id) {
                Some(Item::GameAffector(Effect::SpeedBoost)) => {
                    let sum: u32 = total as u32 + qty as u32;
                    total = if sum > 0xffff {
                        0xffff
                    } else {
                        sum as u16
                    };
                },
                _ => {},
            }
            i += 1;
        }
        proof {
            assert(self.inventory.entries@.take(n as int) =~= self.inventory.entries@);
        }
        total
    }

    /// The speed modifier the current inventory yields: the base plus one
    /// bonus step per stacked boost (linear stacking), in hundredths.
    pub fn get_total_speed_modifier(&self) -> (modifier: u32)
        requires
            self.wf(),
        ensures
            modifier == self.derived_speed_modifier(),
    {
        let boosts = self.get_num_boosts();
        BASE_SPEED_MODIFIER + boosts as u32 * SPEED_BOOST_MODIFIER_PCT
    }

    /// Recomputes and stores the speed modifier.
    pub fn set_speed_modifier(&mut self)
        requires
            old(self).wf(),
        ensures
            final(self).wf(),
            final(self).speed_modifier == old(self).derived_speed_modifier(),
            final(self).inventory == old(self).inventory,
            final(self).currently_exploring_region == old(self).currently_exploring_region,
    {
        let modifier = self.get_total_speed_modifier();
        self.speed_modifier = modifier;
    }

    /// A field-for-field copy.
    pub fn duplicate(&self) -> (r: Player)
        ensures
            r.inventory.entries@ == self.inventory.entries@,
            r.currently_exploring_region == self.currently_exploring_region,
            r.speed_modifier == self.speed_modifier,
    {
        Player {
            inventory: self.inventory.duplicate(),
            currently_exploring_region: self.currently_exploring_region,
            speed_modifier: self.speed_modifier,
        }
    }
}

impl Default for Player {
    /// A fresh player: empty inventory, at the hub region, unboosted speed.
    fn default() -> (player: Player)
        ensures
            player.wf(),
            player.inventory.entries@.len() == 0,
            player.currently_exploring_region == 0,
            player.speed_modifier == BASE_SPEED_MODIFIER,
    {
        Player {
            inventory: Inventory::new(),
            currently_exploring_region: 0,
            speed_modifier: BASE_SPEED_MODIFIER,
        }
    }
}

} // verus!
