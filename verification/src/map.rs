//! The world model: a mapping from region identifier to its ordered list
//! of chests, kept as an association vector sorted by region so that scan
//! order is the deterministic ascending-region order.

use vstd::prelude::*;

verus! {

use crate::CHEST_OFFSET;
use crate::LocationID;
use crate::RegionID;
use crate::chest::Chest;
use crate::chest::IdLayout;
use crate::chest::layout_region_of;
use crate::chest::spec_chest_name;
use crate::config::ArchipelaPalSlotData;
use crate::config::OutputFileConfig;

/// Errors of world construction.
#[derive(Clone, Copy, Debug, PartialEq, Eq, Structural)]
pub enum WorldError {
    /// Every region was configured with zero chests.
    DegenerateWorld,
}

/// Region keys are strictly increasing.
pub open spec fn regions_sorted(s: Seq<(RegionID, Vec<Chest>)>) -> bool {
    forall|i: int, j: int|
        0 <= i < j < s.len() ==> (#[trigger] s[i]).0 < (#[trigger] s[j]).0
}

/// Every chest is filed under the region its record names.
pub open spec fn regions_consistent(s: Seq<(RegionID, Vec<Chest>)>) -> bool {
    forall|i: int, j: int|
        #![trigger s[i].1@[j]]
        0 <= i < s.len() && 0 <= j < s[i].1@.len() ==> s[i].1@[j].region == s[i].0
}

/// Whether a region has an entry.
pub open spec fn seq_has_region(s: Seq<(RegionID, Vec<Chest>)>, region: RegionID) -> bool {
    exists|i: int| 0 <= i < s.len() && (#[trigger] s[i]).0 == region
}

/// The index of a region's entry (meaningful when present).
pub open spec fn region_index_of(s: Seq<(RegionID, Vec<Chest>)>, region: RegionID) -> int {
    choose|i: int| 0 <= i < s.len() && (#[trigger] s[i]).0 == region
}

/// The chests filed under a region, empty when the region has no entry.
pub open spec fn chests_of(s: Seq<(RegionID, Vec<Chest>)>, region: RegionID) -> Seq<Chest> {
    if seq_has_region(s, region) {
        s[region_index_of(s, region)].1@
    } else {
        Seq::empty()
    }
}

/// Whether some chest in the list is not yet checked.
pub open spec fn has_unchecked(chests: Seq<Chest>) -> bool {
    exists|j: int| 0 <= j < chests.len() && !(#[trigger] chests[j]).checked
}

/// Whether `j` is the first unchecked position in the list.
pub open spec fn is_first_unchecked(chests: Seq<Chest>, j: int) -> bool {
    &&& 0 <= j < chests.len()
    &&& !chests[j].checked
    &&& forall|k: int| 0 <= k < j ==> (#[trigger] chests[k]).checked
}

/// Whether `j` is the first position in the list whose chest carries the
/// given identifier.
pub open spec fn is_first_with_id(chests: Seq<Chest>, loc: LocationID, j: int) -> bool {
    &&& 0 <= j < chests.len()
    &&& chests[j].full_id == loc
    &&& forall|k: int| 0 <= k < j ==> (#[trigger] chests[k]).full_id != loc
}

/// Whether some chest of the region carries the given identifier.
pub open spec fn chest_located(m: GameMap, region: RegionID, loc: LocationID) -> bool {
    exists|j: int|
        0 <= j < m.chests(region).len() && (#[trigger] m.chests(region)[j]).full_id == loc
}

/// No two chests anywhere in the world share an identifier.
pub open spec fn ids_unique(m: GameMap) -> bool {
    forall|r1: RegionID, j1: int, r2: RegionID, j2: int|
        #![trigger m.chests(r1)[j1].full_id, m.chests(r2)[j2].full_id]
        0 <= j1 < m.chests(r1).len() && 0 <= j2 < m.chests(r2).len() && (r1 != r2 || j1 != j2)
            ==> m.chests(r1)[j1].full_id != m.chests(r2)[j2].full_id
}

/// The world after marking exactly the chest at position `j` of `region`.
pub open spec fn map_marked_at(pre: GameMap, post: GameMap, region: RegionID, j: int) -> bool {
    &&& forall|r: RegionID| #[trigger] post.has_region(r) <==> pre.has_region(r)
    &&& forall|r: RegionID| r != region ==> #[trigger] post.chests(r) == pre.chests(r)
    &&& post.chests(region).len() == pre.chests(region).len()
    &&& forall|k: int|
        0 <= k < pre.chests(region).len() && k != j ==> #[trigger] post.chests(region)[k]
            == pre.chests(region)[k]
    &&& chest_like(post.chests(region)[j], (Chest { checked: true, ..pre.chests(region)[j] }))
    &&& post.chests(region)[j].checked
}

/// The world `post` has the same regions, chest positions and identifiers
/// as `pre`, and every chest checked in `pre` is still checked in `post`.
pub open spec fn checked_monotone(pre: GameMap, post: GameMap) -> bool {
    &&& forall|r: RegionID| #[trigger] post.has_region(r) <==> pre.has_region(r)
    &&& forall|r: RegionID| #[trigger] post.chests(r).len() == pre.chests(r).len()
    &&& forall|r: RegionID, j: int|
        #![trigger post.chests(r)[j]]
        0 <= j < pre.chests(r).len() ==> post.chests(r)[j].full_id == pre.chests(r)[j].full_id
            && post.chests(r)[j].region == pre.chests(r)[j].region && (pre.chests(
            r,
        )[j].checked ==> post.chests(r)[j].checked)
}

/// Marking one chest is a checked-monotone step.
pub proof fn lemma_marked_monotone(pre: GameMap, post: GameMap, region: RegionID, j: int)
    requires
        0 <= j < pre.chests(region).len(),
        map_marked_at(pre, post, region, j),
    ensures
        checked_monotone(pre, post),
{
    assert forall|r: RegionID| #[trigger] post.chests(r).len() == pre.chests(r).len() by {
        if r != region {
            assert(post.chests(r) == pre.chests(r));
        }
    }
    assert forall|r: RegionID, k: int|
        #![trigger post.chests(r)[k]]
        0 <= k < pre.chests(r).len() implies post.chests(r)[k].full_id == pre.chests(
        r,
    )[k].full_id && post.chests(r)[k].region == pre.chests(r)[k].region && (pre.chests(
        r,
    )[k].checked ==> post.chests(r)[k].checked) by {
        if r != region {
            assert(post.chests(r) == pre.chests(r));
        }
    }
}

/// Equality of chest records up to the string view of the name.
pub open spec fn chest_like(a: Chest, b: Chest) -> bool {
    &&& a.name@ == b.name@
    &&& a.region == b.region
    &&& a.full_id == b.full_id
    &&& a.number == b.number
    &&& a.checked == b.checked
}

/// Equality of worlds up to the string views of chest names: same regions
/// in the same order, same chests position for position.
pub open spec fn map_mirror(a: GameMap, b: GameMap) -> bool {
    &&& a.regions@.len() == b.regions@.len()
    &&& forall|i: int|
        0 <= i < b.regions@.len() ==> (#[trigger] a.regions@[i]).0 == b.regions@[i].0
    &&& forall|i: int|
        0 <= i < b.regions@.len() ==> (#[trigger] a.regions@[i]).1@.len() == b.regions@[i].1@.len()
    &&& forall|i: int, j: int|
        #![trigger a.regions@[i].1@[j]]
        0 <= i < b.regions@.len() && 0 <= j < b.regions@[i].1@.len() ==> chest_like(
            a.regions@[i].1@[j],
            b.regions@[i].1@[j],
        )
}

/// Neighbor-wise ascending region keys make the whole sequence sorted.
proof fn lemma_regions_adjacent_sorted(s: Seq<(RegionID, Vec<Chest>)>)
    requires
        forall|k: int| 0 <= k < s.len() - 1 ==> (#[trigger] s[k]).0 < s[k + 1].0,
    ensures
        regions_sorted(s),
{
    assert forall|i: int, j: int| 0 <= i < j < s.len() implies (#[trigger] s[i]).0 < (
    #[trigger] s[j]).0 by {
        lemma_region_key_chain(s, i, j);
    }
}

/// Region keys grow along any span of a neighbor-wise ascending sequence.
proof fn lemma_region_key_chain(s: Seq<(RegionID, Vec<Chest>)>, i: int, j: int)
    requires
        forall|k: int| 0 <= k < s.len() - 1 ==> (#[trigger] s[k]).0 < s[k + 1].0,
        0 <= i < j < s.len(),
    ensures
        s[i].0 < s[j].0,
    decreases j - i,
{
    if j == i + 1 {
        assert(s[i].0 < s[i + 1].0);
    } else {
        lemma_region_key_chain(s, i, j - 1);
        assert(s[j - 1].0 < s[j].0);
    }
}

/// In a sorted entry sequence, the entry at `i` is the one `chests_of` reads.
proof fn lemma_region_at(s: Seq<(RegionID, Vec<Chest>)>, i: int)
    requires
        regions_sorted(s),
        0 <= i < s.len(),
    ensures
        seq_has_region(s, s[i].0),
        region_index_of(s, s[i].0) == i,
        chests_of(s, s[i].0) == s[i].1@,
{
    let region = s[i].0;
    assert(seq_has_region(s, region));
    let j = region_index_of(s, region);
    assert(0 <= j < s.len() && s[j].0 == region);
    if j < i {
        assert(s[j].0 < s[i].0);
    } else if j > i {
        assert(s[i].0 < s[j].0);
    }
}

/// Replacing the chest list at one position changes only that region.
proof fn lemma_chests_update(s: Seq<(RegionID, Vec<Chest>)>, i: int, v: Vec<Chest>)
    requires
        regions_sorted(s),
        0 <= i < s.len(),
    ensures
        regions_sorted(s.update(i, (s[i].0, v))),
        forall|r: RegionID|
            #[trigger] seq_has_region(s.update(i, (s[i].0, v)), r) <==> seq_has_region(s, r),
        forall|r: RegionID|
            #[trigger] chests_of(s.update(i, (s[i].0, v)), r) == if r == s[i].0 {
                v@
            } else {
                chests_of(s, r)
            },
{
    let region = s[i].0;
    let s2 = s.update(i, (region, v));
    assert forall|a: int, b: int| 0 <= a < b < s2.len() implies (#[trigger] s2[a]).0 < (
    #[trigger] s2[b]).0 by {
        assert(s2[a].0 == s[a].0 && s2[b].0 == s[b].0);
    }
    assert forall|r: RegionID| #[trigger] seq_has_region(s2, r) <==> seq_has_region(s, r) by {
        if seq_has_region(s2, r) {
            let j = region_index_of(s2, r);
            assert(s[j].0 == r);
        }
        if seq_has_region(s, r) {
            let j = region_index_of(s, r);
            assert(s2[j].0 == r);
        }
    }
    assert forall|r: RegionID|
        #[trigger] chests_of(s2, r) == (if r == region {
            v@
        } else {
            chests_of(s, r)
        }) by {
        if r == region {
            lemma_region_at(s2, i);
        } else {
            if seq_has_region(s2, r) {
                let j = region_index_of(s2, r);
                assert(s[j].0 == r);
                lemma_region_at(s, j);
                lemma_region_at(s2, j);
            } else {
                if seq_has_region(s, r) {
                    let j = region_index_of(s, r);
                    assert(s2[j].0 == r);
                }
            }
        }
    }
}

/// Inserting a fresh region at its sorted position keeps the sequence
/// sorted and changes only that region.
proof fn lemma_chests_insert(s: Seq<(RegionID, Vec<Chest>)>, i: int, region: RegionID, v: Vec<
    Chest,
>)
    requires
        regions_sorted(s),
        0 <= i <= s.len(),
        forall|k: int| 0 <= k < i ==> (#[trigger] s[k]).0 < region,
        forall|k: int| i <= k < s.len() ==> region < (#[trigger] s[k]).0,
    ensures
        regions_sorted(s.insert(i, (region, v))),
        forall|r: RegionID|
            #[trigger] seq_has_region(s.insert(i, (region, v)), r) <==> (seq_has_region(s, r)
                || r == region),
        forall|r: RegionID|
            #[trigger] chests_of(s.insert(i, (region, v)), r) == if r == region {
                v@
            } else {
                chests_of(s, r)
            },
{
    let s2 = s.insert(i, (region, v));
    assert forall|a: int, b: int| 0 <= a < b < s2.len() implies (#[trigger] s2[a]).0 < (
    #[trigger] s2[b]).0 by {
        if a < i {
            assert(s2[a] == s[a]);
        } else if a == i {
            assert(s2[a] == (region, v));
        } else {
            assert(s2[a] == s[a - 1]);
        }
        if b < i {
            assert(s2[b] == s[b]);
        } else if b == i {
            assert(s2[b] == (region, v));
        } else {
            assert(s2[b] == s[b - 1]);
        }
    }
    assert forall|r: RegionID|
        #[trigger] seq_has_region(s2, r) <==> (seq_has_region(s, r) || r == region) by {
        if seq_has_region(s2, r) {
            let j = region_index_of(s2, r);
            if j < i {
                assert(s[j].0 == r);
            } else if j > i {
                assert(s[j - 1].0 == r);
            }
        }
        if seq_has_region(s, r) {
            let j = region_index_of(s, r);
            if j < i {
                assert(s2[j].0 == r);
            } else {
                assert(s2[j + 1].0 == r);
            }
        }
        if r == region {
            assert(s2[i].0 == region);
        }
    }
    assert forall|r: RegionID|
        #[trigger] chests_of(s2, r) == (if r == region {
            v@
        } else {
            chests_of(s, r)
        }) by {
        if r == region {
            assert(s2[i] == (region, v));
            lemma_region_at(s2, i);
        } else {
            if seq_has_region(s2, r) {
                let j = region_index_of(s2, r);
                if j < i {
                    assert(s2[j] == s[j]);
                    lemma_region_at(s, j);
                    lemma_region_at(s2, j);
                } else {
                    assert(j != i);
                    assert(s2[j] == s[j - 1]);
                    lemma_region_at(s, j - 1);
                    lemma_region_at(s2, j);
                }
            } else {
                if seq_has_region(s, r) {
                    let j = region_index_of(s, r);
                    if j < i {
                        assert(s2[j].0 == r);
                    } else {
                        assert(s2[j + 1].0 == r);
                    }
                }
            }
        }
    }
}

/// The identifier a chest gets from its layout, offset, theme, region and
/// sequence number. The fields occupy disjoint bytes and the offset's low
/// bytes are zero, so the bitwise-or equals adding the offset.
pub open spec fn packed_id(
    layout: IdLayout,
    offset: u32,
    theme: u8,
    region: RegionID,
    number: u8,
) -> LocationID {
    match layout {
        IdLayout::Compact => offset | ((region as u32) << 8) | (number as u32),
        IdLayout::Themed => offset | ((region as u32) << 16) | ((theme as u32) << 8) | (
        number as u32),
    }
}

/// The offset constraint a layout puts on the configured chest offset: the
/// bytes that carry region, theme and sequence number must be clear.
pub open spec fn offset_fits(layout: IdLayout, offset: u32) -> bool {
    match layout {
        IdLayout::Compact => offset & 0xffff == 0,
        IdLayout::Themed => offset & 0xffffff == 0,
    }
}

/// Packed identifiers are injective in (region, number) for one layout,
/// offset and theme.
proof fn lemma_packed_id_injective(
    layout: IdLayout,
    offset: u32,
    theme: u8,
    r1: RegionID,
    n1: u8,
    r2: RegionID,
    n2: u8,
)
    requires
        offset_fits(layout, offset),
        r1 != r2 || n1 != n2,
    ensures
        packed_id(layout, offset, theme, r1, n1) != packed_id(layout, offset, theme, r2, n2),
{
    match layout {
        IdLayout::Compact => {
            lemma_compact_fields(offset, r1 as u32, n1 as u32);
            lemma_compact_fields(offset, r2 as u32, n2 as u32);
        },
        IdLayout::Themed => {
            lemma_themed_fields(offset, r1 as u32, theme as u32, n1 as u32);
            lemma_themed_fields(offset, r2 as u32, theme as u32, n2 as u32);
        },
    }
}

/// Compact packing puts the region in byte 1 and the number in byte 0.
proof fn lemma_compact_fields(offset: u32, region: u32, number: u32)
    requires
        offset & 0xffff == 0,
        region < 256,
        number < 256,
    ensures
        ((offset | (region << 8) | number) >> 8) & 0xff == region,
        (offset | (region << 8) | number) & 0xff == number,
{
    assert(((offset | (region << 8) | number) >> 8) & 0xff == region && (offset | (region << 8)
        | number) & 0xff == number) by (bit_vector)
        requires
            offset & 0xffff == 0u32,
            region < 256u32,
            number < 256u32,
    ;
}

/// Themed packing puts the region in byte 2, the theme in byte 1 and the
/// number in byte 0.
proof fn lemma_themed_fields(offset: u32, region: u32, theme: u32, number: u32)
    requires
        offset & 0xffffff == 0,
        region < 256,
        theme < 256,
        number < 256,
    ensures
        ((offset | (region << 16) | (theme << 8) | number) >> 16) & 0xff == region,
        (offset | (region << 16) | (theme << 8) | number) & 0xff == number,
{
    assert(((offset | (region << 16) | (theme << 8) | number) >> 16) & 0xff == region && (offset
        | (region << 16) | (theme << 8) | number) & 0xff == number) by (bit_vector)
        requires
            offset & 0xffffff == 0u32,
            region < 256u32,
            theme < 256u32,
            number < 256u32,
    ;
}

/// What a chest built from a per-region count configuration looks like at
/// position `number_idx` of its region's list.
pub open spec fn chest_matches(
    c: Chest,
    layout: IdLayout,
    offset: u32,
    theme: u8,
    region: RegionID,
    number_idx: int,
) -> bool {
    &&& c.checked == false
    &&& c.region == region
    &&& c.number == number_idx + 1
    &&& c.full_id == packed_id(layout, offset, theme, region, (number_idx + 1) as u8)
    &&& c.name@ == spec_chest_name(region, (number_idx + 1) as u8)
}

/// A region of a count-built world holds exactly its configured chests.
pub open spec fn region_filled(
    m: GameMap,
    counts: Seq<u8>,
    layout: IdLayout,
    offset: u32,
    theme: u8,
    first_region: u8,
    r: RegionID,
) -> bool {
    &&& m.chests(r).len() == counts[r - first_region]
    &&& forall|j: int|
        0 <= j < m.chests(r).len() ==> chest_matches(
            #[trigger] m.chests(r)[j],
            layout,
            offset,
            theme,
            r,
            j,
        )
}

/// The (name, identifier) pairs of the data-package entries that fall in
/// region `r`, in input order. Identifiers are reinterpreted as unsigned;
/// the compact layout governs data-package identifiers.
pub open spec fn dp_entries_for(entries: Seq<(String, i32)>, r: RegionID) -> Seq<
    (Seq<char>, u32),
>
    decreases entries.len(),
{
    if entries.len() == 0 {
        Seq::empty()
    } else {
        dp_entries_for(entries.drop_last(), r) + (if layout_region_of(
            IdLayout::Compact,
            entries.last().1 as u32,
        ) == r {
            seq![(entries.last().0@, entries.last().1 as u32)]
        } else {
            Seq::empty()
        })
    }
}

/// What a chest built from a data-package entry looks like.
pub open spec fn dp_chest_ok(c: Chest, e: (Seq<char>, u32), r: RegionID) -> bool {
    &&& c.name@ == e.0
    &&& c.full_id == e.1
    &&& c.region == r
    &&& c.number == (e.1 & 0xff) as u8
    &&& c.checked == false
}

/// The region→chests map, sorted by ascending region identifier.
#[derive(Debug)]
pub struct GameMap {
    pub regions: Vec<(RegionID, Vec<Chest>)>,
}

impl GameMap {
    /// Sorted by region, every chest filed under its own region.
    pub open spec fn wf(&self) -> bool {
        regions_sorted(self.regions@) && regions_consistent(self.regions@)
    }

    /// Whether a region has an entry.
    pub open spec fn has_region(&self, region: RegionID) -> bool {
        seq_has_region(self.regions@, region)
    }

    /// The chests of a region, empty when the region has no entry.
    pub open spec fn chests(&self, region: RegionID) -> Seq<Chest> {
        chests_of(self.regions@, region)
    }

    /// An empty world.
    pub fn new() -> (map: GameMap)
        ensures
            map.wf(),
            map.regions@.len() == 0,
            forall|r: RegionID| !(#[trigger] map.has_region(r)),
    {
        GameMap { regions: Vec::new() }
    }

    /// Reads a region's chest list.
    pub fn get_region_chests(&self, region: RegionID) -> (chests: Option<&Vec<Chest>>)
        requires
            self.wf(),
        ensures
            match chests {
                Some(v) => self.has_region(region) && v@ == self.chests(region),
                None => !self.has_region(region),
            },
    {
        let n = self.regions.len();
        let mut i: usize = 0;
        while i < n
            invariant
                self.wf(),
                n == self.regions@.len(),
                0 <= i <= n,
                forall|k: int| 0 <= k < i ==> (#[trigger] self.regions@[k]).0 != region,
            decreases n - i,
        {
            if self.regions[i].0 == region {
                proof {
                    lemma_region_at(self.regions@, i as int);
                }
                return Some(&self.regions[i].1);
            }
            i += 1;
        }
        proof {
            assert(!seq_has_region(self.regions@, region));
        }
        None
    }

    /// Files a chest under its region, creating the region's entry at its
    /// sorted position if it is new; the chest goes to the end of the list.
    pub(crate) fn push_chest(&mut self, chest: Chest)
        requires
            old(self).wf(),
        ensures
            final(self).wf(),
            forall|r: RegionID|
                #[trigger] final(self).has_region(r) <==> (old(self).has_region(r) || r
                    == chest.region),
            forall|r: RegionID|
                r != chest.region ==> #[trigger] final(self).chests(r) == old(self).chests(r),
            final(self).chests(chest.region) =~= old(self).chests(chest.region).push(chest),
    {
        let ghost orig = self.regions@;
        let region = chest.region;
        let len = self.regions.len();
        let mut i: usize = 0;
        while i < len && self.regions[i].0 < region
            invariant
                self.wf(),
                self.regions@ == orig,
                len == self.regions@.len(),
                0 <= i <= len,
                forall|k: int| 0 <= k < i ==> (#[trigger] self.regions@[k]).0 < region,
            decreases len - i,
        {
            i += 1;
        }
        if i < len && self.regions[i].0 == region {
            let entry = &mut self.regions[i];
            entry.1.push(chest);
            proof {
                assert(self.regions@ == orig.update(i as int, (region, self.regions@[i as int].1)));
                lemma_region_at(orig, i as int);
                lemma_chests_update(orig, i as int, self.regions@[i as int].1);
                assert(regions_consistent(self.regions@)) by {
                    assert forall|a: int, b: int|
                        #![trigger self.regions@[a].1@[b]]
                        0 <= a < self.regions@.len() && 0 <= b < self.regions@[a].1@.len() implies
                        self.regions@[a].1@[b].region == self.regions@[a].0 by {
                        if a == i {
                            assert(self.regions@[a].1@ == orig[a].1@.push(chest));
                            if b < orig[a].1@.len() {
                                assert(orig[a].1@[b].region == orig[a].0);
                            }
                        } else {
                            assert(self.regions@[a] == orig[a]);
                        }
                    }
                }
            }
        } else {
            proof {
                assert forall|k: int| i <= k < orig.len() implies region < (
                #[trigger] orig[k]).0 by {
                    assert(orig[i as int].0 <= orig[k].0);
                }
                if seq_has_region(orig, region) {
                    let j = region_index_of(orig, region);
                    assert(orig[j].0 == region);
                }
                assert(!seq_has_region(orig, region));
            }
            let mut chests: Vec<Chest> = Vec::new();
            chests.push(chest);
            proof {
                lemma_chests_insert(orig, i as int, region, chests);
                assert(chests_of(orig, region) =~= Seq::<Chest>::empty());
            }
            self.regions.insert(i, (region, chests));
            proof {
                assert(regions_consistent(self.regions@)) by {
                    assert forall|a: int, b: int|
                        #![trigger self.regions@[a].1@[b]]
                        0 <= a < self.regions@.len() && 0 <= b < self.regions@[a].1@.len() implies
                        self.regions@[a].1@[b].region == self.regions@[a].0 by {
                        if a < i {
                            assert(self.regions@[a] == orig[a]);
                        } else if a > i {
                            assert(self.regions@[a] == orig[a - 1]);
                        }
                    }
                }
            }
        }
    }

    /// Marks the chest at a position in a region as checked.
    pub fn mark_checked(&mut self, region: RegionID, idx: usize)
        requires
            old(self).wf(),
            old(self).has_region(region),
            idx < old(self).chests(region).len(),
        ensures
            final(self).wf(),
            forall|r: RegionID|
                #[trigger] final(self).has_region(r) <==> old(self).has_region(r),
            forall|r: RegionID|
                r != region ==> #[trigger] final(self).chests(r) == old(self).chests(r),
            final(self).chests(region).len() == old(self).chests(region).len(),
            forall|j: int|
                0 <= j < old(self).chests(region).len() && j != idx
                    ==> #[trigger] final(self).chests(region)[j] == old(self).chests(region)[j],
            chest_like(
                final(self).chests(region)[idx as int],
                (Chest { checked: true, ..old(self).chests(region)[idx as int] }),
            ),
            final(self).chests(region)[idx as int].checked,
    {
        let ghost orig = self.regions@;
        let len = self.regions.len();
        let mut i: usize = 0;
        while i < len && self.regions[i].0 != region
            invariant
                self.wf(),
                self.regions@ == orig,
                len == self.regions@.len(),
                0 <= i <= len,
                forall|k: int| 0 <= k < i ==> (#[trigger] self.regions@[k]).0 != region,
                seq_has_region(orig, region),
            decreases len - i,
        {
            i += 1;
        }
        proof {
            if i >= len {
                let j = region_index_of(orig, region);
                assert(orig[j].0 == region);
            }
            lemma_region_at(orig, i as int);
        }
        let entry = &mut self.regions[i];
        let chest = &mut entry.1[idx];
        chest.checked = true;
        proof {
            assert(self.regions@ == orig.update(i as int, (region, self.regions@[i as int].1)));
            lemma_chests_update(orig, i as int, self.regions@[i as int].1);
            assert(regions_consistent(self.regions@)) by {
                assert forall|a: int, b: int|
                    #![trigger self.regions@[a].1@[b]]
                    0 <= a < self.regions@.len() && 0 <= b < self.regions@[a].1@.len() implies self
                    .regions@[a].1@[b].region == self.regions@[a].0 by {
                    if a == i {
                        assert(self.regions@[a].1@ == orig[a].1@.update(
                            idx as int,
                            self.regions@[a].1@[idx as int],
                        ));
                        assert(orig[a].1@[b].region == orig[a].0);
                        if b != idx {
                            assert(self.regions@[a].1@[b] == orig[a].1@[b]);
                        }
                    } else {
                        assert(self.regions@[a] == orig[a]);
                    }
                }
            }
        }
    }

    /// The positions of the unchecked chests in a region, in ascending
    /// order.
    pub fn unchecked_positions(&self, region: RegionID) -> (positions: Vec<usize>)
        requires
            self.wf(),
        ensures
            forall|k: int|
                0 <= k < positions@.len() ==> #[trigger] positions@[k] < self.chests(
                    region,
                ).len() && !self.chests(region)[positions@[k] as int].checked,
            forall|j: int|
                0 <= j < self.chests(region).len() && !(#[trigger] self.chests(
                    region,
                )[j]).checked ==> positions@.contains(j as usize),
            positions@.len() == 0 <==> !has_unchecked(self.chests(region)),
    {
        let mut positions: Vec<usize> = Vec::new();
        match self.get_region_chests(region) {
            None => {
                proof {
                    assert(self.chests(region) =~= Seq::<Chest>::empty());
                }
                positions
            },
            Some(chests) => {
                let n = chests.len();
                let mut j: usize = 0;
                while j < n
                    invariant
                        n == chests@.len(),
                        chests@ == self.chests(region),
                        0 <= j <= n,
                        forall|k: int|
                            0 <= k < positions@.len() ==> #[trigger] positions@[k] < j && !chests@[
                                positions@[k] as int
                            ].checked,
                        forall|jj: int|
                            0 <= jj < j && !(#[trigger] chests@[jj]).checked ==> positions@
                                .contains(jj as usize),
                    decreases n - j,
                {
                    if !chests[j].checked {
                        let ghost p_old = positions@;
                        positions.push(j);
                        proof {
                            assert forall|jj: int|
                                0 <= jj < j + 1 && !(#[trigger] chests@[jj]).checked implies
                                positions@.contains(jj as usize) by {
                                if jj < j {
                                    assert(p_old.contains(jj as usize));
                                    let k = choose|k: int|
                                        0 <= k < p_old.len() && p_old[k] == jj as usize;
                                    assert(positions@[k] == jj as usize);
                                } else {
                                    assert(positions@[positions@.len() - 1] == jj as usize);
                                }
                            }
                        }
                    }
                    j += 1;
                }
                proof {
                    if positions@.len() == 0 {
                        assert(!has_unchecked(chests@));
                    } else {
                        assert(!chests@[positions@[0] as int].checked);
                    }
                }
                positions
            },
        }
    }

    /// The first unchecked position in a region's chest list, scanning in
    /// list order.
    pub fn first_unchecked_in(chests: &Vec<Chest>) -> (r: Option<usize>)
        ensures
            match r {
                Some(j) => is_first_unchecked(chests@, j as int),
                None => !has_unchecked(chests@),
            },
    {
        let n = chests.len();
        let mut j: usize = 0;
        while j < n
            invariant
                n == chests@.len(),
                0 <= j <= n,
                forall|k: int| 0 <= k < j ==> (#[trigger] chests@[k]).checked,
            decreases n - j,
        {
            if !chests[j].checked {
                return Some(j);
            }
            j += 1;
        }
        None
    }

    /// The first position in a chest list whose chest carries the given
    /// identifier, scanning in list order.
    pub fn find_first_id(chests: &Vec<Chest>, loc: LocationID) -> (r: Option<usize>)
        ensures
            match r {
                Some(j) => is_first_with_id(chests@, loc, j as int),
                None => forall|k: int|
                    0 <= k < chests@.len() ==> (#[trigger] chests@[k]).full_id != loc,
            },
    {
        let n = chests.len();
        let mut j: usize = 0;
        while j < n
            invariant
                n == chests@.len(),
                0 <= j <= n,
                forall|k: int| 0 <= k < j ==> (#[trigger] chests@[k]).full_id != loc,
            decreases n - j,
        {
            if chests[j].full_id == loc {
                return Some(j);
            }
            j += 1;
        }
        None
    }

    /// The first region, in ascending region order, that is not the
    /// current region, is among the given accessible regions, and still
    /// has an unchecked chest — together with that chest's position.
    pub fn find_fallback(&self, cur: RegionID, keys: &Vec<RegionID>) -> (r: Option<
        (RegionID, usize),
    >)
        requires
            self.wf(),
        ensures
            match r {
                Some(pick) => {
                    &&& pick.0 != cur
                    &&& keys@.contains(pick.0)
                    &&& is_first_unchecked(self.chests(pick.0), pick.1 as int)
                    &&& forall|r2: RegionID|
                        r2 < pick.0 ==> !(r2 != cur && keys@.contains(r2) && has_unchecked(
                            #[trigger] self.chests(r2),
                        ))
                },
                None => forall|r2: RegionID|
                    !(r2 != cur && keys@.contains(r2) && has_unchecked(
                        #[trigger] self.chests(r2),
                    )),
            },
    {
        let n = self.regions.len();
        let mut k: usize = 0;
        while k < n
            invariant
                self.wf(),
                n == self.regions@.len(),
                0 <= k <= n,
                forall|kk: int|
                    0 <= kk < k ==> !((#[trigger] self.regions@[kk]).0 != cur && keys@.contains(
                        self.regions@[kk].0,
                    ) && has_unchecked(self.chests(self.regions@[kk].0))),
            decreases n - k,
        {
            let entry = &self.regions[k];
            let region = entry.0;
            proof {
                lemma_region_at(self.regions@, k as int);
            }
            if region != cur && crate::player::regions_contain(keys, region) {
                match Self::first_unchecked_in(&entry.1) {
                    Some(j) => {
                        proof {
                            assert forall|r2: RegionID| r2 < region implies !(r2 != cur
                                && keys@.contains(r2) && has_unchecked(
                                #[trigger] self.chests(r2),
                            )) by {
                                if seq_has_region(self.regions@, r2) {
                                    let i2 = region_index_of(self.regions@, r2);
                                    assert(self.regions@[i2].0 == r2);
                                    if i2 >= k {
                                        assert(self.regions@[k as int].0 <= self.regions@[i2].0);
                                    }
                                } else {
                                    assert(self.chests(r2) =~= Seq::<Chest>::empty());
                                }
                            }
                        }
                        return Some((region, j));
                    },
                    None => {},
                }
            }
            k += 1;
        }
        proof {
            assert forall|r2: RegionID| !(r2 != cur && keys@.contains(r2) && has_unchecked(
                #[trigger] self.chests(r2),
            )) by {
                if seq_has_region(self.regions@, r2) {
                    let i2 = region_index_of(self.regions@, r2);
                    assert(self.regions@[i2].0 == r2);
                } else {
                    assert(self.chests(r2) =~= Seq::<Chest>::empty());
                }
            }
        }
        None
    }

    /// Checks well-formedness: strictly ascending region keys, every
    /// chest filed under its own region.
    pub fn check_wf(&self) -> (ok: bool)
        ensures
            ok == self.wf(),
    {
        let n = self.regions.len();
        let mut i: usize = 0;
        while i < n
            invariant
                n == self.regions@.len(),
                0 <= i <= n,
                forall|k: int|
                    0 <= k < i && k < n - 1 ==> (#[trigger] self.regions@[k]).0 < self.regions@[k
                        + 1].0,
                forall|k: int, j: int|
                    #![trigger self.regions@[k].1@[j]]
                    0 <= k < i && 0 <= j < self.regions@[k].1@.len() ==> self.regions@[k].1@[
                        j
                    ].region == self.regions@[k].0,
            decreases n - i,
        {
            if i + 1 < n && self.regions[i].0 >= self.regions[i + 1].0 {
                return false;
            }
            let entry = &self.regions[i];
            let m = entry.1.len();
            let mut j: usize = 0;
            while j < m
                invariant
                    m == entry.1@.len(),
                    0 <= j <= m,
                    entry.1@ == self.regions@[i as int].1@,
                    entry.0 == self.regions@[i as int].0,
                    0 <= i < n,
                    n == self.regions@.len(),
                    forall|k: int|
                        0 <= k < j ==> (#[trigger] entry.1@[k]).region == entry.0,
                decreases m - j,
            {
                if entry.1[j].region != entry.0 {
                    return false;
                }
                j += 1;
            }
            i += 1;
        }
        proof {
            lemma_regions_adjacent_sorted(self.regions@);
        }
        true
    }

    /// A deep copy: same regions in the same order, each chest copied
    /// field for field.
    pub fn duplicate(&self) -> (r: GameMap)
        ensures
            map_mirror(r, *self),
            self.wf() ==> r.wf(),
    {
        let n = self.regions.len();
        let mut regions: Vec<(RegionID, Vec<Chest>)> = Vec::new();
        let mut i: usize = 0;
        while i < n
            invariant
                n == self.regions@.len(),
                0 <= i <= n,
                regions@.len() == i,
                forall|k: int|
                    0 <= k < i ==> (#[trigger] regions@[k]).0 == self.regions@[k].0,
                forall|k: int|
                    0 <= k < i ==> (#[trigger] regions@[k]).1@.len() == self.regions@[k].1@.len(),
                forall|k: int, j: int|
                    #![trigger regions@[k].1@[j]]
                    0 <= k < i && 0 <= j < self.regions@[k].1@.len() ==> chest_like(
                        regions@[k].1@[j],
                        self.regions@[k].1@[j],
                    ),
            decreases n - i,
        {
            let entry = &self.regions[i];
            let m = entry.1.len();
            let mut chests: Vec<Chest> = Vec::new();
            let mut j: usize = 0;
            while j < m
                invariant
                    m == entry.1@.len(),
                    0 <= j <= m,
                    chests@.len() == j,
                    forall|k: int|
                        0 <= k < j ==> chest_like(#[trigger] chests@[k], entry.1@[k]),
                decreases m - j,
            {
                chests.push(entry.1[j].duplicate());
                j += 1;
            }
            regions.push((entry.0, chests));
            i += 1;
        }
        let r = GameMap { regions };
        proof {
            if self.wf() {
                assert(regions_sorted(r.regions@)) by {
                    assert forall|a: int, b: int| 0 <= a < b < r.regions@.len() implies (
                    #[trigger] r.regions@[a]).0 < (#[trigger] r.regions@[b]).0 by {
                        assert(self.regions@[a].0 < self.regions@[b].0);
                    }
                }
                assert(regions_consistent(r.regions@)) by {
                    assert forall|a: int, b: int|
                        #![trigger r.regions@[a].1@[b]]
                        0 <= a < r.regions@.len() && 0 <= b < r.regions@[a].1@.len() implies r
                        .regions@[a].1@[b].region == r.regions@[a].0 by {
                        assert(chest_like(r.regions@[a].1@[b], self.regions@[a].1@[b]));
                        assert(self.regions@[a].1@[b].region == self.regions@[a].0);
                    }
                }
            }
        }
        r
    }

    /// Builds a world from a server data package: every supplied
    /// name→identifier entry yields exactly one unchecked chest, filed
    /// under the region its identifier's compact layout names, in input
    /// order within each region.
    pub fn new_from_data_package(entries: &Vec<(String, i32)>) -> (m: GameMap)
        ensures
            m.wf(),
            forall|r: RegionID|
                #[trigger] m.has_region(r) <==> dp_entries_for(entries@, r).len() > 0,
            forall|r: RegionID|
                #[trigger] m.chests(r).len() == dp_entries_for(entries@, r).len(),
            forall|r: RegionID, j: int|
                #![trigger m.chests(r)[j]]
                0 <= j < dp_entries_for(entries@, r).len() ==> dp_chest_ok(
                    m.chests(r)[j],
                    dp_entries_for(entries@, r)[j],
                    r,
                ),
    {
        let n = entries.len();
        let mut m = GameMap::new();
        let mut i: usize = 0;
        proof {
            assert(entries@.take(0) =~= Seq::<(String, i32)>::empty());
        }
        while i < n
            invariant
                n == entries@.len(),
                0 <= i <= n,
                m.wf(),
                forall|r: RegionID|
                    #[trigger] m.has_region(r) <==> dp_entries_for(entries@.take(i as int), r).len()
                        > 0,
                forall|r: RegionID|
                    #[trigger] m.chests(r).len() == dp_entries_for(
                        entries@.take(i as int),
                        r,
                    ).len(),
                forall|r: RegionID, j: int|
                    #![trigger m.chests(r)[j]]
                    0 <= j < dp_entries_for(entries@.take(i as int), r).len() ==> dp_chest_ok(
                        m.chests(r)[j],
                        dp_entries_for(entries@.take(i as int), r)[j],
                        r,
                    ),
            decreases n - i,
        {
            let entry = &entries[i];
            let name = String::from_str(entry.0.as_str());
            let chest = Chest::new_from_datapackage_entry(&entry.1, name);
            let region = chest.region;
            let ghost before = m;
            m.push_chest(chest);
            proof {
                let pre = entries@.take(i as int);
                let post = entries@.take(i + 1);
                assert(post.drop_last() =~= pre);
                assert(post.last() == entries@[i as int]);
                assert forall|r: RegionID| r != region implies dp_entries_for(post, r)
                    == dp_entries_for(pre, r) by {
                    assert(dp_entries_for(post, r) =~= dp_entries_for(pre, r));
                }
                assert(dp_entries_for(post, region) =~= dp_entries_for(pre, region).push(
                    (entries@[i as int].0@, entries@[i as int].1 as u32),
                ));
                assert(m.chests(region) =~= before.chests(region).push(chest));
                assert forall|r: RegionID, j: int|
                    #![trigger m.chests(r)[j]]
                    0 <= j < dp_entries_for(post, r).len() implies dp_chest_ok(
                    m.chests(r)[j],
                    dp_entries_for(post, r)[j],
                    r,
                ) by {
                    if r == region {
                        if j < dp_entries_for(pre, region).len() {
                            assert(m.chests(r)[j] == before.chests(r)[j]);
                            assert(dp_chest_ok(
                                before.chests(r)[j],
                                dp_entries_for(pre, r)[j],
                                r,
                            ));
                        } else {
                            assert(m.chests(r)[j] == chest);
                        }
                    } else {
                        assert(m.chests(r) == before.chests(r));
                        assert(dp_chest_ok(before.chests(r)[j], dp_entries_for(pre, r)[j], r));
                    }
                }
            }
            i += 1;
        }
        proof {
            assert(entries@.take(n as int) =~= entries@);
        }
        m
    }

    /// Builds a world from a per-region chest-count list. Region `i` of the
    /// list gets identifier `first_region + i`; its chests are numbered
    /// from 1 and packed with the given layout, offset and theme. Fails on
    /// a degenerate world where every count is zero.
    pub fn new_from_counts(
        counts: &Vec<u8>,
        layout: IdLayout,
        offset: u32,
        theme: u8,
        first_region: u8,
    ) -> (result: Result<GameMap, WorldError>)
        requires
            offset_fits(layout, offset),
            counts@.len() + first_region <= 256,
        ensures
            result matches Err(e) ==> e == WorldError::DegenerateWorld,
            (result matches Err(_)) <==> (forall|i: int|
                0 <= i < counts@.len() ==> counts@[i] == 0),
            result matches Ok(m) ==> {
                &&& m.wf()
                &&& ids_unique(m)
                &&& forall|r: RegionID|
                    #[trigger] m.has_region(r) <==> (first_region <= r < first_region
                        + counts@.len() && counts@[r - first_region] > 0)
                &&& forall|r: RegionID|
                    (first_region <= r < first_region + counts@.len())
                        ==> #[trigger] region_filled(
                        m,
                        counts@,
                        layout,
                        offset,
                        theme,
                        first_region,
                        r,
                    ) || counts@[r - first_region] == 0
            },
    {
        let n = counts.len();
        let mut map = GameMap::new();
        let mut any_chests = false;
        let mut ri: usize = 0;
        while ri < n
            invariant
                offset_fits(layout, offset),
                n == counts@.len(),
                n + first_region <= 256,
                0 <= ri <= n,
                map.wf(),
                any_chests <==> exists|i: int| 0 <= i < ri && counts@[i] > 0,
                forall|r: RegionID|
                    #[trigger] map.has_region(r) <==> (first_region <= r < first_region + ri
                        && counts@[r - first_region] > 0),
                forall|r: RegionID|
                    (first_region <= r < first_region + ri) ==> #[trigger] region_filled(
                        map,
                        counts@,
                        layout,
                        offset,
                        theme,
                        first_region,
                        r,
                    ) || counts@[r - first_region] == 0,
            decreases n - ri,
        {
            let count = counts[ri];
            let region: u8 = first_region + ri as u8;
            if count > 0 {
                any_chests = true;
            }
            proof {
                assert(!map.has_region(region));
                assert(map.chests(region) =~= Seq::<Chest>::empty());
                if count > 0 {
                    assert(exists|i: int| 0 <= i < ri + 1 && counts@[i] > 0);
                }
            }
            let mut c: u16 = 1;
            while c <= count as u16
                invariant
                    offset_fits(layout, offset),
                    n == counts@.len(),
                    n + first_region <= 256,
                    0 <= ri < n,
                    region == first_region + ri,
                    count == counts@[ri as int],
                    1 <= c <= count as u16 + 1,
                    map.wf(),
                    forall|r: RegionID|
                        #[trigger] map.has_region(r) <==> ((first_region <= r < first_region + ri
                            && counts@[r - first_region] > 0) || (r == region && c > 1)),
                    forall|r: RegionID|
                        (first_region <= r < first_region + ri) ==> #[trigger] region_filled(
                            map,
                            counts@,
                            layout,
                            offset,
                            theme,
                            first_region,
                            r,
                        ) || counts@[r - first_region] == 0,
                    map.chests(region).len() == c - 1,
                    forall|j: int|
                        0 <= j < c - 1 ==> chest_matches(
                            #[trigger] map.chests(region)[j],
                            layout,
                            offset,
                            theme,
                            region,
                            j,
                        ),
                decreases count as int + 1 - c as int,
            {
                let number: u32 = c as u32;
                let region32: u32 = region as u32;
                let id: u32 = match layout {
                    IdLayout::Compact => offset | (region32 << 8) | number,
                    IdLayout::Themed => offset | (region32 << 16) | ((theme as u32) << 8)
                        | number,
                };
                proof {
                    match layout {
                        IdLayout::Compact => lemma_compact_fields(offset, region32, number),
                        IdLayout::Themed => lemma_themed_fields(
                            offset,
                            region32,
                            theme as u32,
                            number,
                        ),
                    }
                    assert(id == packed_id(layout, offset, theme, region, number as u8));
                }
                let chest = Chest::new_from_id(id, layout);
                proof {
                    assert(chest.region == region);
                    assert(chest.number == c);
                    assert(chest_matches(chest, layout, offset, theme, region, c - 1));
                }
                let ghost before = map;
                map.push_chest(chest);
                proof {
                    assert(map.chests(region) =~= before.chests(region).push(chest));
                    assert forall|r: RegionID|
                        (first_region <= r < first_region + ri) implies (#[trigger] region_filled(
                            map,
                            counts@,
                            layout,
                            offset,
                            theme,
                            first_region,
                            r,
                        ) || counts@[r - first_region] == 0) by {
                        assert(r != region);
                        assert(map.chests(r) == before.chests(r));
                        assert(region_filled(before, counts@, layout, offset, theme, first_region, r)
                            || counts@[r - first_region] == 0);
                        if counts@[r - first_region] != 0 {
                            assert(map.chests(r).len() == counts@[r - first_region]);
                            assert forall|j: int| 0 <= j < map.chests(r).len() implies chest_matches(
                                #[trigger] map.chests(r)[j],
                                layout,
                                offset,
                                theme,
                                r,
                                j,
                            ) by {
                                assert(chest_matches(
                                    before.chests(r)[j],
                                    layout,
                                    offset,
                                    theme,
                                    r,
                                    j,
                                ));
                            }
                        }
                    }
                }
                c += 1;
            }
            proof {
                if count > 0 {
                    assert(region_filled(
                        map,
                        counts@,
                        layout,
                        offset,
                        theme,
                        first_region,
                        region,
                    ));
                }
                assert forall|r: RegionID| (first_region <= r < first_region + (ri + 1)) implies (
                #[trigger] region_filled(map, counts@, layout, offset, theme, first_region, r)
                    || counts@[r - first_region] == 0) by {
                    if r != region {
                        assert(first_region <= r < first_region + ri);
                    }
                }
            }
            ri += 1;
        }
        if !any_chests {
            proof {
                assert forall|i: int| 0 <= i < counts@.len() implies counts@[i] == 0 by {
                    if counts@[i] > 0 {
                        assert(exists|k: int| 0 <= k < n && counts@[k] > 0);
                    }
                }
            }
            return Err(WorldError::DegenerateWorld);
        }
        proof {
            let k = choose|i: int| 0 <= i < n && counts@[i] > 0;
            assert(counts@[k] > 0);
            assert forall|r1: RegionID, j1: int, r2: RegionID, j2: int|
                #![trigger map.chests(r1)[j1].full_id, map.chests(r2)[j2].full_id]
                0 <= j1 < map.chests(r1).len() && 0 <= j2 < map.chests(r2).len() && (r1 != r2
                    || j1 != j2) implies map.chests(r1)[j1].full_id != map.chests(
                r2,
            )[j2].full_id by {
                assert(map.has_region(r1) && map.has_region(r2)) by {
                    if !seq_has_region(map.regions@, r1) {
                        assert(map.chests(r1) =~= Seq::<Chest>::empty());
                    }
                    if !seq_has_region(map.regions@, r2) {
                        assert(map.chests(r2) =~= Seq::<Chest>::empty());
                    }
                }
                assert(region_filled(map, counts@, layout, offset, theme, first_region, r1));
                assert(region_filled(map, counts@, layout, offset, theme, first_region, r2));
                assert(chest_matches(map.chests(r1)[j1], layout, offset, theme, r1, j1));
                assert(chest_matches(map.chests(r2)[j2], layout, offset, theme, r2, j2));
                lemma_packed_id_injective(
                    layout,
                    offset,
                    theme,
                    r1,
                    (j1 + 1) as u8,
                    r2,
                    (j2 + 1) as u8,
                );
            }
        }
        Ok(map)
    }

    /// Builds the world a compact-layout configuration describes: regions
    /// numbered from 1, identifiers offset by `CHEST_OFFSET`.
    pub fn new_from_config(config: &OutputFileConfig) -> (result: Result<GameMap, WorldError>)
        requires
            config.chests_per_region_list@.len() <= 255,
        ensures
            result matches Err(e) ==> e == WorldError::DegenerateWorld,
            (result matches Err(_)) <==> (forall|i: int|
                0 <= i < config.chests_per_region_list@.len()
                    ==> config.chests_per_region_list@[i] == 0),
            result matches Ok(m) ==> {
                &&& m.wf()
                &&& ids_unique(m)
                &&& forall|r: RegionID|
                    #[trigger] m.has_region(r) <==> (1 <= r < 1
                        + config.chests_per_region_list@.len()
                        && config.chests_per_region_list@[r - 1] > 0)
                &&& forall|r: RegionID|
                    (1 <= r < 1 + config.chests_per_region_list@.len())
                        ==> #[trigger] region_filled(
                        m,
                        config.chests_per_region_list@,
                        IdLayout::Compact,
                        CHEST_OFFSET,
                        0,
                        1,
                        r,
                    ) || config.chests_per_region_list@[r - 1] == 0
            },
    {
        proof {
            assert(CHEST_OFFSET & 0xffff == 0) by (bit_vector);
        }
        GameMap::new_from_counts(
            &config.chests_per_region_list,
            IdLayout::Compact,
            CHEST_OFFSET,
            0,
            1,
        )
    }

    /// Builds the world a themed-layout configuration describes: regions
    /// numbered from 0, the configured theme in byte 1 of every identifier,
    /// and the caller's chest offset (whose low three bytes must be clear).
    pub fn new_from_slot_data(config: &ArchipelaPalSlotData, chest_offset: LocationID) -> (result:
        Result<GameMap, WorldError>)
        requires
            chest_offset & 0xffffff == 0,
            config.chests_per_region_list@.len() <= 256,
        ensures
            result matches Err(e) ==> e == WorldError::DegenerateWorld,
            (result matches Err(_)) <==> (forall|i: int|
                0 <= i < config.chests_per_region_list@.len()
                    ==> config.chests_per_region_list@[i] == 0),
            result matches Ok(m) ==> {
                &&& m.wf()
                &&& ids_unique(m)
                &&& forall|r: RegionID|
                    #[trigger] m.has_region(r) <==> (r < config.chests_per_region_list@.len()
                        && config.chests_per_region_list@[r as int] > 0)
                &&& forall|r: RegionID|
                    (r < config.chests_per_region_list@.len()) ==> #[trigger] region_filled(
                        m,
                        config.chests_per_region_list@,
                        IdLayout::Themed,
                        chest_offset,
                        config.game_theme,
                        0,
                        r,
                    ) || config.chests_per_region_list@[r as int] == 0
            },
    {
        GameMap::new_from_counts(
            &config.chests_per_region_list,
            IdLayout::Themed,
            chest_offset,
            config.game_theme,
            0,
        )
    }
}

} // verus!
