//! The shared game state and the decision algorithm.
//!
//! The state aggregates the world map, the player, the hint queue, the
//! last applied inventory-update index and the session identity. It is a
//! single plain value; the task layer around the library serializes all
//! access to it, so every operation here is an atomic step of the session.

use vstd::prelude::*;

verus! {

use vstd::string::StringExecFns;

use crate::LocationID;
use crate::RegionID;
use crate::chest::Chest;
use crate::chest::IdLayout;
use crate::chest::layout_region_of;
use crate::chest::region_of_id;
use crate::decimal::dec_rep_signed;
use crate::decimal::i32_to_dec_string;
use crate::hints::Hint;
use crate::hints::hint_wanted;
use crate::hints::hints_unique;
use crate::hints::hints_wanted;
use crate::hints::same_identity;
use crate::map::GameMap;
use crate::map::checked_monotone;
use crate::map::chest_located;
use crate::map::has_unchecked;
use crate::map::is_first_unchecked;
use crate::map::is_first_with_id;
use crate::map::lemma_marked_monotone;
use crate::map::map_marked_at;
use crate::player::Player;
use crate::player::key_regions_of;
use crate::player::lemma_accessible_iff;
use crate::player::regions_contain;
use crate::rng::random_in_range;

/// The storage key under which the server keeps a slot's hints.
pub open spec fn hints_key_of(team: int, slot_id: int) -> Seq<char> {
    "_read_hints_"@ + dec_rep_signed(team) + "_"@ + dec_rep_signed(slot_id)
}

/// Whether a hint can steer the next check: it concerns this agent's own
/// world and its target region is accessible to the player.
pub open spec fn hint_match(h: Hint, player: Player, slot_id: i32, layout: IdLayout) -> bool {
    h.player == slot_id && player.region_accessible(layout_region_of(layout, h.location))
}

/// The first hint in queue order that can steer the next check.
pub open spec fn first_hint_match(
    q: Seq<Hint>,
    player: Player,
    slot_id: i32,
    layout: IdLayout,
) -> Option<Hint>
    decreases q.len(),
{
    if q.len() == 0 {
        None
    } else if hint_match(q[0], player, slot_id, layout) {
        Some(q[0])
    } else {
        first_hint_match(q.drop_first(), player, slot_id, layout)
    }
}

/// A first hint match comes from the queue and matches.
pub proof fn lemma_first_hint_props(q: Seq<Hint>, player: Player, slot_id: i32, layout: IdLayout)
    ensures
        match first_hint_match(q, player, slot_id, layout) {
            Some(h) => q.contains(h) && hint_match(h, player, slot_id, layout),
            None => true,
        },
    decreases q.len(),
{
    if q.len() > 0 {
        if hint_match(q[0], player, slot_id, layout) {
            assert(q[0] == q[0]);
        } else {
            lemma_first_hint_props(q.drop_first(), player, slot_id, layout);
            match first_hint_match(q.drop_first(), player, slot_id, layout) {
                Some(h) => {
                    let i = choose|i: int|
                        0 <= i < q.drop_first().len() && q.drop_first()[i] == h;
                    assert(q[i + 1] == h);
                },
                None => {},
            }
        }
    }
}

/// Everything a tick leaves untouched: identity, indices, hints, the
/// inventory and the stored speed modifier.
pub open spec fn tick_frame(pre: FullGameState, post: FullGameState) -> bool {
    &&& post.seed_name@ == pre.seed_name@
    &&& post.team == pre.team
    &&& post.slot_id == pre.slot_id
    &&& post.last_checked_idx == pre.last_checked_idx
    &&& post.source_hint_queue@ == pre.source_hint_queue@
    &&& post.player.inventory.entries@ == pre.player.inventory.entries@
    &&& post.player.speed_modifier == pre.player.speed_modifier
}

/// A region the fallback scan may pick: not the current one, accessible,
/// and still holding an unchecked chest.
pub open spec fn is_fallback_region(pre: FullGameState, r: RegionID) -> bool {
    &&& r != pre.player.currently_exploring_region
    &&& pre.player.region_accessible(r)
    &&& has_unchecked(pre.map.chests(r))
}

/// The fallback region actually picked: the smallest, since the scan runs
/// in ascending region order.
pub open spec fn is_first_fallback(pre: FullGameState, r: RegionID) -> bool {
    &&& is_fallback_region(pre, r)
    &&& forall|r2: RegionID| r2 < r ==> !is_fallback_region(pre, r2)
}

/// Steps 3–5 of the decision algorithm: a random unchecked chest of the
/// current region; else the first unchecked chest of the first fallback
/// region, moving the player there; else no check, changing nothing.
pub open spec fn normal_selection(
    pre: FullGameState,
    post: FullGameState,
    picked: Option<LocationID>,
) -> bool {
    let cur = pre.player.currently_exploring_region;
    if has_unchecked(pre.map.chests(cur)) {
        &&& post.player.currently_exploring_region == cur
        &&& exists|j: int|
            #![trigger pre.map.chests(cur)[j]]
            {
                &&& 0 <= j < pre.map.chests(cur).len()
                &&& !pre.map.chests(cur)[j].checked
                &&& picked == Some(pre.map.chests(cur)[j].full_id)
                &&& map_marked_at(pre.map, post.map, cur, j)
            }
    } else if exists|r: RegionID| is_fallback_region(pre, r) {
        exists|r: RegionID, j: int|
            #![trigger is_first_fallback(pre, r), pre.map.chests(r)[j]]
            {
                &&& is_first_fallback(pre, r)
                &&& is_first_unchecked(pre.map.chests(r), j)
                &&& picked == Some(pre.map.chests(r)[j].full_id)
                &&& map_marked_at(pre.map, post.map, r, j)
                &&& post.player.currently_exploring_region == r
            }
    } else {
        &&& picked is None
        &&& post.map.regions@ == pre.map.regions@
        &&& post.player.currently_exploring_region == cur
    }
}

/// The whole decision algorithm: hint priority first (a matching hint's
/// chest is checked and returned unless already checked, which defensively
/// falls back to normal selection), then normal selection.
pub open spec fn tick_rel(
    pre: FullGameState,
    post: FullGameState,
    picked: Option<LocationID>,
    layout: IdLayout,
) -> bool {
    &&& tick_frame(pre, post)
    &&& match first_hint_match(pre.source_hint_queue@, pre.player, pre.slot_id, layout) {
        Some(h) => exists|j: int|
            #![trigger pre.map.chests(layout_region_of(layout, h.location))[j]]
            {
                &&& is_first_with_id(
                    pre.map.chests(layout_region_of(layout, h.location)),
                    h.location,
                    j,
                )
                &&& if !pre.map.chests(layout_region_of(layout, h.location))[j].checked {
                    &&& picked == Some(h.location)
                    &&& map_marked_at(
                        pre.map,
                        post.map,
                        layout_region_of(layout, h.location),
                        j,
                    )
                    &&& post.player.currently_exploring_region
                        == pre.player.currently_exploring_region
                } else {
                    normal_selection(pre, post, picked)
                }
            },
        None => normal_selection(pre, post, picked),
    }
}

/// The whole session state.
#[derive(Debug)]
pub struct FullGameState {
    pub player: Player,
    pub map: GameMap,
    pub seed_name: String,
    pub team: i32,
    pub last_checked_idx: i32,
    pub slot_id: i32,
    pub source_hint_queue: Vec<Hint>,
}

impl FullGameState {
    /// Player and map well formed; the hint queue holds only wanted hints,
    /// one per identity.
    pub open spec fn wf(&self) -> bool {
        &&& self.player.wf()
        &&& self.map.wf()
        &&& hints_unique(self.source_hint_queue@)
        &&& hints_wanted(self.source_hint_queue@, self.slot_id)
    }

    /// A fresh, empty state.
    pub fn new() -> (state: FullGameState)
        ensures
            state.wf(),
            state.player.inventory.entries@.len() == 0,
            state.player.currently_exploring_region == 0,
            state.map.regions@.len() == 0,
            state.seed_name@ == Seq::<char>::empty(),
            state.team == 0,
            state.last_checked_idx == 0,
            state.slot_id == 0,
            state.source_hint_queue@.len() == 0,
    {
        let state = FullGameState {
            player: Player::default(),
            map: GameMap::new(),
            seed_name: String::new(),
            team: 0,
            last_checked_idx: 0,
            slot_id: 0,
            source_hint_queue: Vec::new(),
        };
        state
    }

    /// Whether this state was never bound to a seed: a loaded snapshot
    /// carries its seed name, a fresh state has none.
    pub fn is_fresh(&self) -> (fresh: bool)
        ensures
            fresh == (self.seed_name@.len() == 0),
    {
        self.seed_name.as_str().is_empty()
    }

    /// Binds a fresh state to a session: installs the newly built world
    /// and the session identity. Only a state that has no hints queued yet
    /// can adopt a new slot.
    pub fn install_session(&mut self, map: GameMap, seed_name: String, team: i32, slot_id: i32)
        requires
            old(self).wf(),
            map.wf(),
            old(self).source_hint_queue@.len() == 0,
        ensures
            final(self).wf(),
            final(self).map == map,
            final(self).seed_name == seed_name,
            final(self).team == team,
            final(self).slot_id == slot_id,
            final(self).player == old(self).player,
            final(self).last_checked_idx == old(self).last_checked_idx,
            final(self).source_hint_queue@ == old(self).source_hint_queue@,
    {
        self.map = map;
        self.seed_name = seed_name;
        self.team = team;
        self.slot_id = slot_id;
    }

    /// The storage key naming this slot's hints on the server.
    pub fn make_hints_get_key(&self, slot_id: i32) -> (key: String)
        ensures
            key@ == hints_key_of(self.team as int, slot_id as int),
    {
        let mut key = String::from_str("_read_hints_");
        key.append(i32_to_dec_string(self.team).as_str());
        key.append("_");
        key.append(i32_to_dec_string(slot_id).as_str());
        key
    }

    /// Whether the queue already holds a hint with this identity.
    fn queue_has_identity(&self, hint: &Hint) -> (present: bool)
        ensures
            present == exists|i: int|
                0 <= i < self.source_hint_queue@.len() && same_identity(
                    #[trigger] self.source_hint_queue@[i],
                    *hint,
                ),
    {
        let n = self.source_hint_queue.len();
        let mut i: usize = 0;
        while i < n
            invariant
                n == self.source_hint_queue@.len(),
                0 <= i <= n,
                forall|k: int|
                    0 <= k < i ==> !same_identity(#[trigger] self.source_hint_queue@[k], *hint),
            decreases n - i,
        {
            let h = self.source_hint_queue[i];
            if h.player == hint.player && h.location == hint.location {
                return true;
            }
            i += 1;
        }
        false
    }

    /// Inserts a broadcast hint if it belongs in the queue: own world, not
    /// found, important, and not already present. Idempotent by identity.
    pub fn insert_hint(&mut self, hint: Hint)
        requires
            old(self).wf(),
        ensures
            final(self).wf(),
            forall|h: Hint|
                #[trigger] final(self).source_hint_queue@.contains(h) <==> (old(
                    self,
                ).source_hint_queue@.contains(h) || (h == hint && hint_wanted(
                    hint,
                    old(self).slot_id,
                ) && !old(self).source_hint_queue@.contains(hint))),
            final(self).player == old(self).player,
            final(self).map == old(self).map,
            final(self).seed_name == old(self).seed_name,
            final(self).team == old(self).team,
            final(self).last_checked_idx == old(self).last_checked_idx,
            final(self).slot_id == old(self).slot_id,
    {
        let ghost orig = self.source_hint_queue@;
        if !hint.wanted(self.slot_id) {
            return;
        }
        if self.queue_has_identity(&hint) {
            proof {
                let i = choose|i: int|
                    0 <= i < orig.len() && same_identity(#[trigger] orig[i], hint);
                assert(hint_wanted(orig[i], self.slot_id));
                assert(orig[i] == hint);
                assert(orig.contains(hint));
            }
            return;
        }
        proof {
            if orig.contains(hint) {
                let i = choose|i: int| 0 <= i < orig.len() && orig[i] == hint;
                assert(same_identity(orig[i], hint));
            }
        }
        self.source_hint_queue.push(hint);
        proof {
            assert forall|h: Hint|
                #[trigger] self.source_hint_queue@.contains(h) <==> (orig.contains(h) || h
                    == hint) by {
                if self.source_hint_queue@.contains(h) {
                    let i = choose|i: int|
                        0 <= i < self.source_hint_queue@.len() && self.source_hint_queue@[i] == h;
                    if i < orig.len() {
                        assert(orig[i] == h);
                    }
                } else {
                    if orig.contains(h) {
                        let i = choose|i: int| 0 <= i < orig.len() && orig[i] == h;
                        assert(self.source_hint_queue@[i] == h);
                    }
                    assert(self.source_hint_queue@.last() == hint);
                }
            }
            assert(hints_unique(self.source_hint_queue@)) by {
                assert forall|i: int, j: int|
                    0 <= i < j < self.source_hint_queue@.len() implies !same_identity(
                    #[trigger] self.source_hint_queue@[i],
                    #[trigger] self.source_hint_queue@[j],
                ) by {
                    if j == self.source_hint_queue@.len() - 1 {
                        assert(self.source_hint_queue@[i] == orig[i]);
                        assert(self.source_hint_queue@[j] == hint);
                    } else {
                        assert(self.source_hint_queue@[i] == orig[i]);
                        assert(self.source_hint_queue@[j] == orig[j]);
                    }
                }
            }
        }
    }

    /// Replaces the whole queue with the wanted entries of a fresh hint
    /// snapshot, dropping duplicate identities.
    pub fn replace_hint_queue(&mut self, hints: Vec<Hint>)
        requires
            old(self).wf(),
        ensures
            final(self).wf(),
            forall|h: Hint|
                #[trigger] final(self).source_hint_queue@.contains(h) <==> (hints@.contains(h)
                    && hint_wanted(h, old(self).slot_id)),
            final(self).player == old(self).player,
            final(self).map == old(self).map,
            final(self).seed_name == old(self).seed_name,
            final(self).team == old(self).team,
            final(self).last_checked_idx == old(self).last_checked_idx,
            final(self).slot_id == old(self).slot_id,
    {
        let n = hints.len();
        let mut queue: Vec<Hint> = Vec::new();
        let mut i: usize = 0;
        while i < n
            invariant
                n == hints@.len(),
                0 <= i <= n,
                hints_unique(queue@),
                hints_wanted(queue@, self.slot_id),
                forall|h: Hint|
                    #[trigger] queue@.contains(h) <==> (hints@.take(i as int).contains(h)
                        && hint_wanted(h, self.slot_id)),
            decreases n - i,
        {
            let h = hints[i];
            let ghost qorig = queue@;
            let ghost pre = hints@.take(i as int);
            let ghost post = hints@.take(i + 1);
            proof {
                assert(post.drop_last() =~= pre);
                assert(post.last() == hints@[i as int]);
            }
            if h.wanted(self.slot_id) {
                let mut present = false;
                let m = queue.len();
                let mut k: usize = 0;
                while k < m
                    invariant
                        m == queue@.len(),
                        0 <= k <= m,
                        queue@ == qorig,
                        present <==> exists|kk: int|
                            0 <= kk < k && same_identity(#[trigger] queue@[kk], h),
                    decreases m - k,
                {
                    let q = queue[k];
                    if q.player == h.player && q.location == h.location {
                        present = true;
                    }
                    k += 1;
                }
                if !present {
                    queue.push(h);
                    proof {
                        assert forall|hh: Hint|
                            #[trigger] queue@.contains(hh) <==> (post.contains(hh)
                                && hint_wanted(hh, self.slot_id)) by {
                            if queue@.contains(hh) {
                                let kk = choose|kk: int|
                                    0 <= kk < queue@.len() && queue@[kk] == hh;
                                if kk < qorig.len() {
                                    assert(qorig[kk] == hh);
                                    assert(qorig.contains(hh));
                                    let jj = choose|jj: int|
                                        0 <= jj < i && pre[jj] == hh;
                                    assert(post[jj] == hh);
                                } else {
                                    assert(hh == h);
                                    assert(post.last() == h);
                                }
                            } else {
                                if post.contains(hh) && hint_wanted(
                                    hh,
                                    self.slot_id,
                                ) {
                                    let jj = choose|jj: int|
                                        0 <= jj < i + 1 && post[jj] == hh;
                                    if jj < i {
                                        assert(pre[jj] == hh);
                                        assert(pre.contains(hh));
                                        assert(qorig.contains(hh));
                                        let kk = choose|kk: int|
                                            0 <= kk < qorig.len() && qorig[kk] == hh;
                                        assert(queue@[kk] == hh);
                                    } else {
                                        assert(hh == h);
                                        assert(queue@.last() == h);
                                    }
                                }
                            }
                        }
                        assert(hints_unique(queue@)) by {
                            assert forall|a: int, b: int|
                                0 <= a < b < queue@.len() implies !same_identity(
                                #[trigger] queue@[a],
                                #[trigger] queue@[b],
                            ) by {
                                if b == queue@.len() - 1 {
                                    assert(queue@[a] == qorig[a]);
                                    assert(queue@[b] == h);
                                } else {
                                    assert(queue@[a] == qorig[a]);
                                    assert(queue@[b] == qorig[b]);
                                }
                            }
                        }
                    }
                } else {
                    proof {
                        let kk = choose|kk: int|
                            0 <= kk < queue@.len() && same_identity(#[trigger] queue@[kk], h);
                        assert(hint_wanted(queue@[kk], self.slot_id));
                        assert(queue@[kk] == h);
                        assert(queue@.contains(h));
                        assert forall|hh: Hint|
                            #[trigger] queue@.contains(hh) <==> (post.contains(hh)
                                && hint_wanted(hh, self.slot_id)) by {
                            if queue@.contains(hh) {
                                assert(pre.contains(hh));
                                let jj = choose|jj: int|
                                    0 <= jj < i && pre[jj] == hh;
                                assert(post[jj] == hh);
                            } else {
                                if post.contains(hh) && hint_wanted(
                                    hh,
                                    self.slot_id,
                                ) {
                                    let jj = choose|jj: int|
                                        0 <= jj < i + 1 && post[jj] == hh;
                                    if jj < i {
                                        assert(pre[jj] == hh);
                                        assert(pre.contains(hh));
                                    } else {
                                        assert(hh == h);
                                    }
                                }
                            }
                        }
                    }
                }
            } else {
                proof {
                    assert forall|hh: Hint|
                        #[trigger] queue@.contains(hh) <==> (post.contains(hh)
                            && hint_wanted(hh, self.slot_id)) by {
                        if queue@.contains(hh) {
                            assert(pre.contains(hh));
                            let jj = choose|jj: int|
                                0 <= jj < i && pre[jj] == hh;
                            assert(post[jj] == hh);
                        } else {
                            if post.contains(hh) && hint_wanted(
                                hh,
                                self.slot_id,
                            ) {
                                let jj = choose|jj: int|
                                    0 <= jj < i + 1 && post[jj] == hh;
                                if jj < i {
                                    assert(pre[jj] == hh);
                                    assert(pre.contains(hh));
                                } else {
                                    assert(hh == h);
                                    assert(!hint_wanted(hh, self.slot_id));
                                }
                            }
                        }
                    }
                }
            }
            i += 1;
        }
        proof {
            assert(hints@.take(n as int) =~= hints@);
        }
        self.source_hint_queue = queue;
    }

    /// The first hint in queue order that concerns this agent's world and
    /// targets an accessible region. `keys` must list the player's key
    /// regions.
    fn first_matching_hint(&self, keys: &Vec<RegionID>, layout: IdLayout) -> (r: Option<Hint>)
        requires
            keys@ == key_regions_of(self.player.inventory.entries@),
        ensures
            r == first_hint_match(
                self.source_hint_queue@,
                self.player,
                self.slot_id,
                layout,
            ),
    {
        let ghost q = self.source_hint_queue@;
        let n = self.source_hint_queue.len();
        let mut i: usize = 0;
        proof {
            assert(q.skip(0) =~= q);
        }
        while i < n
            invariant
                n == q.len(),
                0 <= i <= n,
                self.source_hint_queue@ == q,
                keys@ == key_regions_of(self.player.inventory.entries@),
                first_hint_match(q, self.player, self.slot_id, layout) == first_hint_match(
                    q.skip(i as int),
                    self.player,
                    self.slot_id,
                    layout,
                ),
            decreases n - i,
        {
            let h = self.source_hint_queue[i];
            let hr = region_of_id(h.location, layout);
            proof {
                lemma_accessible_iff(self.player, hr);
                assert(q.skip(i as int)[0] == q[i as int]);
                assert(q.skip(i as int).drop_first() =~= q.skip(i + 1));
            }
            if h.player == self.slot_id && regions_contain(keys, hr) {
                proof {
                    assert(hint_match(h, self.player, self.slot_id, layout));
                }
                return Some(h);
            }
            proof {
                assert(!hint_match(h, self.player, self.slot_id, layout));
            }
            i += 1;
        }
        proof {
            assert(q.skip(n as int) =~= Seq::<Hint>::empty());
        }
        None
    }

    /// A uniformly random unchecked chest position in a region, if any is
    /// left there. The region must exist in the world.
    pub fn choose_chest_in_region(map_guard: &GameMap, region: &RegionID) -> (r: Option<usize>)
        requires
            map_guard.wf(),
            map_guard.has_region(*region),
        ensures
            match r {
                Some(j) => j < map_guard.chests(*region).len() && !map_guard.chests(
                    *region,
                )[j as int].checked,
                None => !has_unchecked(map_guard.chests(*region)),
            },
    {
        let positions = map_guard.unchecked_positions(*region);
        if positions.len() == 0 {
            return None;
        }
        let pick = random_in_range(0, (positions.len() - 1) as u64);
        let idx = positions[pick as usize];
        Some(idx)
    }

    /// One tick of the decision algorithm (steps in `tick_rel`): resolve
    /// the next chest to check, mark it checked in the same atomic step,
    /// and return its location; `None` reports a soft-lock. The hint the
    /// algorithm follows — the first match, if any — must refer to a
    /// chest the world holds, and the player's current region must exist
    /// in the world: a state breaking either is corrupt, and on it the
    /// algorithm owes an abort rather than an answer.
    pub fn tick_game_state(&mut self, layout: IdLayout) -> (picked: Option<LocationID>)
        requires
            old(self).wf(),
            old(self).map.has_region(old(self).player.currently_exploring_region),
            match first_hint_match(
                old(self).source_hint_queue@,
                old(self).player,
                old(self).slot_id,
                layout,
            ) {
                Some(h) => chest_located(
                    old(self).map,
                    layout_region_of(layout, h.location),
                    h.location,
                ),
                None => true,
            },
        ensures
            final(self).wf(),
            tick_rel(*old(self), *final(self), picked, layout),
            checked_monotone(old(self).map, final(self).map),
            final(self).map.has_region(final(self).player.currently_exploring_region),
    {
        let ghost pre = *self;
        let keys = self.player.get_accessible_regions();
        let hint_found = self.first_matching_hint(&keys, layout);
        let ghost mut hint_skipped: Option<(Hint, int)> = None;
        if let Some(h) = hint_found {
            let hr = region_of_id(h.location, layout);
            proof {
                lemma_first_hint_props(pre.source_hint_queue@, pre.player, pre.slot_id, layout);
                assert(pre.source_hint_queue@.contains(h));
                assert(chest_located(pre.map, hr, h.location));
                if !pre.map.has_region(hr) {
                    assert(pre.map.chests(hr) =~= Seq::<Chest>::empty());
                }
            }
            let chests = self.map.get_region_chests(hr).unwrap();
            let found_idx = match GameMap::find_first_id(chests, h.location) {
                Some(j) => j,
                None => {
                    proof {
                        let j = choose|j: int|
                            0 <= j < pre.map.chests(hr).len() && (#[trigger] pre.map.chests(
                                hr,
                            )[j]).full_id == h.location;
                        assert(false);
                    }
                    vstd::pervasive::unreached()
                },
            };
            let found_checked = chests[found_idx].checked;
            if !found_checked {
                self.map.mark_checked(hr, found_idx);
                proof {
                    assert(map_marked_at(pre.map, self.map, hr, found_idx as int));
                    lemma_marked_monotone(pre.map, self.map, hr, found_idx as int);
                    assert(tick_rel(pre, *self, Some(h.location), layout));
                }
                return Some(h.location);
            }
            proof {
                hint_skipped = Some((h, found_idx as int));
            }
        }
        let cur = self.player.currently_exploring_region;
        let pick = Self::choose_chest_in_region(&self.map, &cur);
        let picked: Option<LocationID> = match pick {
            Some(idx) => {
                let loc = {
                    let chests = self.map.get_region_chests(cur).unwrap();
                    chests[idx].full_id
                };
                self.map.mark_checked(cur, idx);
                proof {
                    assert(map_marked_at(pre.map, self.map, cur, idx as int));
                    lemma_marked_monotone(pre.map, self.map, cur, idx as int);
                    assert(has_unchecked(pre.map.chests(cur)));
                    assert(normal_selection(pre, *self, Some(loc)));
                }
                Some(loc)
            },
            None => {
                match self.map.find_fallback(cur, &keys) {
                    Some(pick) => {
                        let (fr, j) = pick;
                        proof {
                            if !self.map.has_region(fr) {
                                assert(self.map.chests(fr) =~= Seq::<Chest>::empty());
                            }
                        }
                        let loc = {
                            let chests = self.map.get_region_chests(fr).unwrap();
                            chests[j].full_id
                        };
                        self.player.currently_exploring_region = fr;
                        self.map.mark_checked(fr, j);
                        proof {
                            assert(map_marked_at(pre.map, self.map, fr, j as int));
                            lemma_marked_monotone(pre.map, self.map, fr, j as int);
                            assert(is_fallback_region(pre, fr)) by {
                                lemma_accessible_iff(pre.player, fr);
                            }
                            assert(is_first_fallback(pre, fr)) by {
                                assert forall|r2: RegionID| r2 < fr implies !is_fallback_region(
                                    pre,
                                    r2,
                                ) by {
                                    lemma_accessible_iff(pre.player, r2);
                                }
                            }
                            assert(normal_selection(pre, *self, Some(loc)));
                        }
                        Some(loc)
                    },
                    None => {
                        proof {
                            assert(!has_unchecked(pre.map.chests(cur)));
                            assert forall|r2: RegionID| !is_fallback_region(pre, r2) by {
                                lemma_accessible_iff(pre.player, r2);
                            }
                            assert(normal_selection(pre, *self, None));
                        }
                        None
                    },
                }
            },
        };
        proof {
            assert(tick_rel(pre, *self, picked, layout)) by {
                match first_hint_match(
                    pre.source_hint_queue@,
                    pre.player,
                    pre.slot_id,
                    layout,
                ) {
                    Some(h) => {
                        let (hh, j) = hint_skipped.unwrap();
                        assert(hh == h);
                        assert(is_first_with_id(
                            pre.map.chests(layout_region_of(layout, h.location)),
                            h.location,
                            j,
                        ));
                        assert(pre.map.chests(layout_region_of(layout, h.location))[j].checked);
                    },
                    None => {},
                }
            }
        }
        picked
    }

    /// Drops every hint for a location once that location was checked and
    /// reported.
    pub fn remove_hints_for_location(&mut self, location: LocationID)
        requires
            old(self).wf(),
        ensures
            final(self).wf(),
            forall|h: Hint|
                #[trigger] final(self).source_hint_queue@.contains(h) <==> (old(
                    self,
                ).source_hint_queue@.contains(h) && h.location != location),
            final(self).player == old(self).player,
            final(self).map == old(self).map,
            final(self).seed_name == old(self).seed_name,
            final(self).team == old(self).team,
            final(self).last_checked_idx == old(self).last_checked_idx,
            final(self).slot_id == old(self).slot_id,
    {
        let ghost orig = self.source_hint_queue@;
        let n = self.source_hint_queue.len();
        let mut queue: Vec<Hint> = Vec::new();
        let mut i: usize = 0;
        while i < n
            invariant
                n == orig.len(),
                self.source_hint_queue@ == orig,
                0 <= i <= n,
                hints_unique(orig),
                hints_wanted(orig, self.slot_id),
                hints_unique(queue@),
                hints_wanted(queue@, self.slot_id),
                forall|h: Hint|
                    #[trigger] queue@.contains(h) <==> (orig.take(i as int).contains(h)
                        && h.location != location),
                forall|a: int, b: int|
                    0 <= a < queue@.len() && 0 <= b < orig.len() ==> (#[trigger] queue@[a]
                        == #[trigger] orig[b] ==> b < i),
            decreases n - i,
        {
            let h = self.source_hint_queue[i];
            let ghost qorig = queue@;
            let ghost pre = orig.take(i as int);
            let ghost post = orig.take(i + 1);
            proof {
                assert(post.drop_last() =~= pre);
                assert(post.last() == orig[i as int]);
            }
            if h.location != location {
                queue.push(h);
                proof {
                    assert forall|hh: Hint|
                        #[trigger] queue@.contains(hh) <==> (post.contains(hh)
                            && hh.location != location) by {
                        if queue@.contains(hh) {
                            let kk = choose|kk: int| 0 <= kk < queue@.len() && queue@[kk] == hh;
                            if kk < qorig.len() {
                                assert(qorig[kk] == hh);
                                assert(qorig.contains(hh));
                                let jj = choose|jj: int|
                                    0 <= jj < i && pre[jj] == hh;
                                assert(post[jj] == hh);
                            } else {
                                assert(hh == h);
                                assert(post.last() == h);
                            }
                        } else {
                            if post.contains(hh) && hh.location != location {
                                let jj = choose|jj: int|
                                    0 <= jj < i + 1 && post[jj] == hh;
                                if jj < i {
                                    assert(pre[jj] == hh);
                                    assert(pre.contains(hh));
                                    assert(qorig.contains(hh));
                                    let kk = choose|kk: int|
                                        0 <= kk < qorig.len() && qorig[kk] == hh;
                                    assert(queue@[kk] == hh);
                                } else {
                                    assert(hh == h);
                                    assert(queue@.last() == h);
                                }
                            }
                        }
                    }
                    assert(hints_unique(queue@)) by {
                        assert forall|a: int, b: int|
                            0 <= a < b < queue@.len() implies !same_identity(
                            #[trigger] queue@[a],
                            #[trigger] queue@[b],
                        ) by {
                            if b == queue@.len() - 1 {
                                assert(queue@[a] == qorig[a]);
                                assert(qorig.contains(qorig[a]));
                                assert(queue@[b] == orig[i as int]);
                                let jj = choose|jj: int|
                                    0 <= jj < i && pre[jj] == qorig[a];
                                assert(orig[jj] == qorig[a]);
                                assert(!same_identity(orig[jj], orig[i as int]));
                            } else {
                                assert(queue@[a] == qorig[a]);
                                assert(queue@[b] == qorig[b]);
                            }
                        }
                    }
                    assert forall|a: int, b: int|
                        0 <= a < queue@.len() && 0 <= b < orig.len() implies ((
                        #[trigger] queue@[a]) == (#[trigger] orig[b]) ==> b < i + 1) by {
                        if a < qorig.len() {
                            assert(queue@[a] == qorig[a]);
                        } else {
                            assert(queue@[a] == orig[i as int]);
                            if 0 <= b < orig.len() && queue@[a] == orig[b] && b != i {
                                if b < i as int {
                                    assert(!same_identity(orig[b], orig[i as int]));
                                } else {
                                    assert(!same_identity(orig[i as int], orig[b]));
                                }
                            }
                        }
                    }
                }
            } else {
                proof {
                    assert forall|hh: Hint|
                        #[trigger] queue@.contains(hh) <==> (post.contains(hh)
                            && hh.location != location) by {
                        if queue@.contains(hh) {
                            assert(pre.contains(hh));
                            let jj = choose|jj: int|
                                0 <= jj < i && pre[jj] == hh;
                            assert(post[jj] == hh);
                        } else {
                            if post.contains(hh) && hh.location != location {
                                let jj = choose|jj: int|
                                    0 <= jj < i + 1 && post[jj] == hh;
                                if jj < i {
                                    assert(pre[jj] == hh);
                                    assert(pre.contains(hh));
                                } else {
                                    assert(hh == h);
                                }
                            }
                        }
                    }
                }
            }
            i += 1;
        }
        proof {
            assert(orig.take(n as int) =~= orig);
        }
        self.source_hint_queue = queue;
    }
}

} // verus!
