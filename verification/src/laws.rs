//! Session-level laws: properties that relate several operations of the
//! library, each proved from the operations' contracts alone.

use vstd::prelude::*;

verus! {

use crate::ItemID;
use crate::LocationID;
use crate::RegionID;
use crate::chest::IdLayout;
use crate::events::received_items_rel;
use crate::inventory::count_of;
use crate::inventory::lemma_inventory_canonical;
use crate::inventory::sat_cap;
use crate::items::is_key_for;
use crate::map::checked_monotone;
use crate::map::ids_unique;
use crate::state::FullGameState;
use crate::state::first_hint_match;
use crate::state::normal_selection;
use crate::state::tick_rel;

/// A chest the decision algorithm returns was unchecked before the tick
/// and is checked after it, at one definite position of the world.
pub proof fn lemma_tick_pick_was_unchecked(
    pre: FullGameState,
    post: FullGameState,
    c: LocationID,
    layout: IdLayout,
)
    requires
        tick_rel(pre, post, Some(c), layout),
    ensures
        exists|r: RegionID, j: int|
            #![trigger pre.map.chests(r)[j], post.map.chests(r)[j]]
            {
                &&& 0 <= j < pre.map.chests(r).len()
                &&& pre.map.chests(r)[j].full_id == c
                &&& !pre.map.chests(r)[j].checked
                &&& post.map.chests(r)[j].checked
            },
{
    match first_hint_match(pre.source_hint_queue@, pre.player, pre.slot_id, layout) {
        Some(h) => {
            let hr = crate::chest::layout_region_of(layout, h.location);
            let j = choose|j: int|
                #![trigger pre.map.chests(hr)[j]]
                {
                    &&& crate::map::is_first_with_id(pre.map.chests(hr), h.location, j)
                    &&& if !pre.map.chests(hr)[j].checked {
                        &&& Some(c) == Some(h.location)
                        &&& crate::map::map_marked_at(pre.map, post.map, hr, j)
                        &&& post.player.currently_exploring_region
                            == pre.player.currently_exploring_region
                    } else {
                        normal_selection(pre, post, Some(c))
                    }
                };
            if !pre.map.chests(hr)[j].checked {
                assert(pre.map.chests(hr)[j].full_id == c);
                assert(post.map.chests(hr)[j].checked);
            } else {
                lemma_normal_pick_was_unchecked(pre, post, c);
            }
        },
        None => {
            lemma_normal_pick_was_unchecked(pre, post, c);
        },
    }
}

/// The same fact for the non-hint part of the algorithm.
proof fn lemma_normal_pick_was_unchecked(pre: FullGameState, post: FullGameState, c: LocationID)
    requires
        normal_selection(pre, post, Some(c)),
    ensures
        exists|r: RegionID, j: int|
            #![trigger pre.map.chests(r)[j], post.map.chests(r)[j]]
            {
                &&& 0 <= j < pre.map.chests(r).len()
                &&& pre.map.chests(r)[j].full_id == c
                &&& !pre.map.chests(r)[j].checked
                &&& post.map.chests(r)[j].checked
            },
{
    let cur = pre.player.currently_exploring_region;
    if crate::map::has_unchecked(pre.map.chests(cur)) {
        let j = choose|j: int|
            #![trigger pre.map.chests(cur)[j]]
            {
                &&& 0 <= j < pre.map.chests(cur).len()
                &&& !pre.map.chests(cur)[j].checked
                &&& Some(c) == Some(pre.map.chests(cur)[j].full_id)
                &&& crate::map::map_marked_at(pre.map, post.map, cur, j)
            };
        assert(post.map.chests(cur)[j].checked);
    } else {
        let (r, j) = choose|r: RegionID, j: int|
            #![trigger crate::state::is_first_fallback(pre, r), pre.map.chests(r)[j]]
            {
                &&& crate::state::is_first_fallback(pre, r)
                &&& crate::map::is_first_unchecked(pre.map.chests(r), j)
                &&& Some(c) == Some(pre.map.chests(r)[j].full_id)
                &&& crate::map::map_marked_at(pre.map, post.map, r, j)
                &&& post.player.currently_exploring_region == r
            };
        assert(post.map.chests(r)[j].checked);
    }
}

/// Checked-monotone steps compose.
pub proof fn lemma_monotone_trans(a: crate::map::GameMap, b: crate::map::GameMap, c:
    crate::map::GameMap)
    requires
        checked_monotone(a, b),
        checked_monotone(b, c),
    ensures
        checked_monotone(a, c),
{
    assert forall|r: RegionID, j: int|
        #![trigger c.chests(r)[j]]
        0 <= j < a.chests(r).len() implies c.chests(r)[j].full_id == a.chests(r)[j].full_id && c
        .chests(r)[j].region == a.chests(r)[j].region && (a.chests(r)[j].checked ==> c.chests(
        r,
    )[j].checked) by {
        assert(b.chests(r)[j].full_id == a.chests(r)[j].full_id);
    }
}

/// Checked-monotone steps keep identifiers unique.
pub proof fn lemma_monotone_keeps_ids_unique(a: crate::map::GameMap, b: crate::map::GameMap)
    requires
        ids_unique(a),
        checked_monotone(a, b),
    ensures
        ids_unique(b),
{
    assert forall|r1: RegionID, j1: int, r2: RegionID, j2: int|
        #![trigger b.chests(r1)[j1].full_id, b.chests(r2)[j2].full_id]
        0 <= j1 < b.chests(r1).len() && 0 <= j2 < b.chests(r2).len() && (r1 != r2 || j1
            != j2) implies b.chests(r1)[j1].full_id != b.chests(r2)[j2].full_id by {
        assert(a.chests(r1)[j1].full_id == b.chests(r1)[j1].full_id);
        assert(a.chests(r2)[j2].full_id == b.chests(r2)[j2].full_id);
    }
}

/// Law: a chest identifier is returned by the decision algorithm at most
/// once. Once a tick returns `c`, no later tick on any state derived from
/// the result by checked-monotone steps returns `c` again — provided the
/// world's chest identifiers are unique, as every world built by the
/// constructors' packed layouts has them.
pub proof fn lemma_check_at_most_once(
    s0: FullGameState,
    s1: FullGameState,
    s2: FullGameState,
    s3: FullGameState,
    r2: Option<LocationID>,
    c: LocationID,
    layout: IdLayout,
)
    requires
        ids_unique(s0.map),
        tick_rel(s0, s1, Some(c), layout),
        checked_monotone(s0.map, s1.map),
        checked_monotone(s1.map, s2.map),
        tick_rel(s2, s3, r2, layout),
    ensures
        r2 != Some(c),
{
    if r2 == Some(c) {
        lemma_tick_pick_was_unchecked(s0, s1, c, layout);
        let (r, j) = choose|r: RegionID, j: int|
            #![trigger s0.map.chests(r)[j], s1.map.chests(r)[j]]
            {
                &&& 0 <= j < s0.map.chests(r).len()
                &&& s0.map.chests(r)[j].full_id == c
                &&& !s0.map.chests(r)[j].checked
                &&& s1.map.chests(r)[j].checked
            };
        assert(s2.map.chests(r)[j].checked);
        assert(s2.map.chests(r)[j].full_id == c);
        lemma_monotone_trans(s0.map, s1.map, s2.map);
        lemma_monotone_keeps_ids_unique(s0.map, s2.map);
        lemma_tick_pick_was_unchecked(s2, s3, c, layout);
        let (r9, j9) = choose|r9: RegionID, j9: int|
            #![trigger s2.map.chests(r9)[j9], s3.map.chests(r9)[j9]]
            {
                &&& 0 <= j9 < s2.map.chests(r9).len()
                &&& s2.map.chests(r9)[j9].full_id == c
                &&& !s2.map.chests(r9)[j9].checked
                &&& s3.map.chests(r9)[j9].checked
            };
        if r9 == r && j9 == j {
            assert(false);
        } else {
            assert(s2.map.chests(r)[j].full_id != s2.map.chests(r9)[j9].full_id);
            assert(false);
        }
    }
}

/// Law: re-applying the same full inventory snapshot is idempotent — the
/// resulting inventory is identical entry for entry, whatever the states
/// the snapshot was applied to.
pub proof fn lemma_full_snapshot_idempotent(
    pre1: FullGameState,
    post1: FullGameState,
    pre2: FullGameState,
    post2: FullGameState,
    items: Seq<i32>,
)
    requires
        received_items_rel(pre1, post1, 0, items),
        received_items_rel(pre2, post2, 0, items),
        post1.wf(),
        post2.wf(),
    ensures
        post1.player.inventory.entries@ == post2.player.inventory.entries@,
{
    assert forall|k: ItemID|
        #[trigger] crate::inventory::seq_qty(post1.player.inventory.entries@, k)
            == crate::inventory::seq_qty(post2.player.inventory.entries@, k) by {
        assert(post1.player.inventory.qty(k) == sat_cap(count_of(items, k) as int));
        assert(post2.player.inventory.qty(k) == sat_cap(count_of(items, k) as int));
    }
    lemma_inventory_canonical(
        post1.player.inventory.entries@,
        post2.player.inventory.entries@,
    );
}

/// Law: a delta whose index is at or below the stored index is a
/// duplicate or stale replay, and leaves both the inventory and the
/// stored index unchanged.
pub proof fn lemma_stale_delta_is_ignored(
    pre: FullGameState,
    post: FullGameState,
    index: i32,
    items: Seq<i32>,
)
    requires
        received_items_rel(pre, post, index, items),
        index != 0,
        index <= pre.last_checked_idx,
    ensures
        post.player.inventory.entries@ == pre.player.inventory.entries@,
        post.last_checked_idx == pre.last_checked_idx,
{
}

/// Law: region accessibility is monotonic across incremental inventory
/// updates — fresh deltas only add items, and stale deltas change
/// nothing. (A full snapshot, index zero, replaces the inventory outright
/// and keeps a region accessible exactly when the snapshot itself holds a
/// key for it; see `lemma_access_after_full_snapshot`.)
pub proof fn lemma_access_monotone_incremental(
    pre: FullGameState,
    post: FullGameState,
    index: i32,
    items: Seq<i32>,
    region: RegionID,
)
    requires
        received_items_rel(pre, post, index, items),
        index != 0,
        pre.player.region_accessible(region),
    ensures
        post.player.region_accessible(region),
{
    let id = choose|id: ItemID|
        #[trigger] pre.player.inventory.has(id) && is_key_for(id, region);
    if index > pre.last_checked_idx {
        assert(post.player.inventory.has(id));
    } else {
        assert(post.player.inventory.has(id));
    }
}

/// Law: a full snapshot that carries a key item makes (or keeps) its
/// region accessible.
pub proof fn lemma_access_after_full_snapshot(
    pre: FullGameState,
    post: FullGameState,
    items: Seq<i32>,
    region: RegionID,
    id: ItemID,
)
    requires
        received_items_rel(pre, post, 0, items),
        is_key_for(id, region),
        count_of(items, id) > 0,
    ensures
        post.player.region_accessible(region),
{
    assert(post.player.inventory.qty(id) == sat_cap(count_of(items, id) as int));
    assert(post.player.inventory.qty(id) > 0);
    assert(post.player.inventory.has(id));
}

/// Law: a tick never touches the inventory, so it keeps every region
/// accessible that was accessible before.
pub proof fn lemma_tick_preserves_access(
    pre: FullGameState,
    post: FullGameState,
    picked: Option<LocationID>,
    layout: IdLayout,
    region: RegionID,
)
    requires
        tick_rel(pre, post, picked, layout),
        pre.player.region_accessible(region),
    ensures
        post.player.region_accessible(region),
{
    let id = choose|id: ItemID|
        #[trigger] pre.player.inventory.has(id) && is_key_for(id, region);
    assert(post.player.inventory.has(id));
}

} // verus!
