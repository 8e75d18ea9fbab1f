//! Snapshots of the session state. A snapshot is a plain record; the task
//! layer serializes it to a seed-scoped file and reads it back. Building a
//! snapshot copies the state, and loading one validates every invariant,
//! falling back to a fresh state on any mismatch.

use vstd::prelude::*;

verus! {

use vstd::string::StringExecFns;

use crate::hints::Hint;
use crate::hints::hint_wanted;
use crate::hints::hints_unique;
use crate::hints::hints_wanted;
use crate::hints::same_identity;
use crate::map::GameMap;
use crate::map::chest_like;
use crate::map::map_mirror;
use crate::player::Player;
use crate::state::FullGameState;

/// A persisted snapshot: one record per seed.
#[derive(Debug)]
pub struct SaveFile {
    pub player: Player,
    pub map: GameMap,
    pub seed: String,
    pub team: i32,
    pub last_checked_idx: i32,
    pub slot_id: i32,
    pub source_hint_queue: Vec<Hint>,
}

/// The snapshot records exactly the state: same inventory, same regions
/// and checked flags chest for chest, same hint queue, same identity and
/// indices.
pub open spec fn save_matches_state(sf: SaveFile, s: FullGameState) -> bool {
    &&& sf.player.inventory.entries@ == s.player.inventory.entries@
    &&& sf.player.currently_exploring_region == s.player.currently_exploring_region
    &&& sf.player.speed_modifier == s.player.speed_modifier
    &&& map_mirror(sf.map, s.map)
    &&& sf.seed@ == s.seed_name@
    &&& sf.team == s.team
    &&& sf.last_checked_idx == s.last_checked_idx
    &&& sf.slot_id == s.slot_id
    &&& sf.source_hint_queue@ == s.source_hint_queue@
}

/// Two states that agree on everything a snapshot records.
pub open spec fn state_equiv(a: FullGameState, b: FullGameState) -> bool {
    &&& a.player.inventory.entries@ == b.player.inventory.entries@
    &&& a.player.currently_exploring_region == b.player.currently_exploring_region
    &&& a.player.speed_modifier == b.player.speed_modifier
    &&& map_mirror(a.map, b.map)
    &&& a.seed_name@ == b.seed_name@
    &&& a.team == b.team
    &&& a.last_checked_idx == b.last_checked_idx
    &&& a.slot_id == b.slot_id
    &&& a.source_hint_queue@ == b.source_hint_queue@
}

/// A snapshot whose contents satisfy every state invariant.
pub open spec fn save_wf(sf: SaveFile) -> bool {
    &&& sf.player.wf()
    &&& sf.map.wf()
    &&& hints_unique(sf.source_hint_queue@)
    &&& hints_wanted(sf.source_hint_queue@, sf.slot_id)
}

/// Checks that a queue holds only wanted hints, one per identity.
pub fn check_hint_queue(queue: &Vec<Hint>, slot_id: i32) -> (ok: bool)
    ensures
        ok == (hints_unique(queue@) && hints_wanted(queue@, slot_id)),
{
    let n = queue.len();
    let mut i: usize = 0;
    while i < n
        invariant
            n == queue@.len(),
            0 <= i <= n,
            forall|a: int| 0 <= a < i ==> hint_wanted(#[trigger] queue@[a], slot_id),
            forall|a: int, b: int|
                0 <= a < i && a < b < n ==> !same_identity(
                    #[trigger] queue@[a],
                    #[trigger] queue@[b],
                ),
        decreases n - i,
    {
        let h = queue[i];
        if !h.wanted(slot_id) {
            return false;
        }
        let mut j: usize = i + 1;
        while j < n
            invariant
                n == queue@.len(),
                0 <= i < j <= n,
                h == queue@[i as int],
                forall|b: int|
                    i < b < j ==> !same_identity(queue@[i as int], #[trigger] queue@[b]),
            decreases n - j,
        {
            let other = queue[j];
            if other.player == h.player && other.location == h.location {
                return false;
            }
            j += 1;
        }
        i += 1;
    }
    true
}

impl FullGameState {
    /// Captures a copied, non-aliased snapshot of the whole state.
    pub fn to_save_file(&self) -> (sf: SaveFile)
        ensures
            save_matches_state(sf, *self),
            self.wf() ==> save_wf(sf),
    {
        let sf = SaveFile {
            player: self.player.duplicate(),
            map: self.map.duplicate(),
            seed: String::from_str(self.seed_name.as_str()),
            team: self.team,
            last_checked_idx: self.last_checked_idx,
            slot_id: self.slot_id,
            source_hint_queue: duplicate_hints(&self.source_hint_queue),
        };
        sf
    }

    /// Rebuilds a state from a snapshot. A snapshot that violates any
    /// invariant counts as corrupt and yields a fresh state instead.
    pub fn from_save_file(sf: SaveFile) -> (s: FullGameState)
        ensures
            save_wf(sf) ==> s.wf() && save_matches_state(sf, s),
            !save_wf(sf) ==> {
                &&& s.wf()
                &&& s.player.inventory.entries@.len() == 0
                &&& s.player.currently_exploring_region == 0
                &&& s.map.regions@.len() == 0
                &&& s.seed_name@ == Seq::<char>::empty()
                &&& s.team == 0
                &&& s.last_checked_idx == 0
                &&& s.slot_id == 0
                &&& s.source_hint_queue@.len() == 0
            },
    {
        let valid = sf.player.inventory.check_wf() && sf.map.check_wf() && check_hint_queue(
            &sf.source_hint_queue,
            sf.slot_id,
        );
        if valid {
            let SaveFile { player, map, seed, team, last_checked_idx, slot_id, source_hint_queue } =
                sf;
            let s = FullGameState {
                player,
                map,
                seed_name: seed,
                team,
                last_checked_idx,
                slot_id,
                source_hint_queue,
            };
            proof {
                lemma_map_mirror_reflexive(s.map);
            }
            s
        } else {
            FullGameState::new()
        }
    }
}

/// An element-for-element copy of a hint queue.
fn duplicate_hints(queue: &Vec<Hint>) -> (r: Vec<Hint>)
    ensures
        r@ == queue@,
{
    let n = queue.len();
    let mut r: Vec<Hint> = Vec::new();
    let mut i: usize = 0;
    while i < n
        invariant
            n == queue@.len(),
            0 <= i <= n,
            r@ =~= queue@.take(i as int),
        decreases n - i,
    {
        r.push(queue[i]);
        i += 1;
    }
    proof {
        assert(r@ =~= queue@);
    }
    r
}

/// Every world mirrors itself.
proof fn lemma_map_mirror_reflexive(m: GameMap)
    ensures
        map_mirror(m, m),
{
    assert forall|i: int, j: int|
        #![trigger m.regions@[i].1@[j]]
        0 <= i < m.regions@.len() && 0 <= j < m.regions@[i].1@.len() implies chest_like(
        m.regions@[i].1@[j],
        m.regions@[i].1@[j],
    ) by {}
}

/// Law: loading a saved snapshot reproduces an equivalent state. If a
/// snapshot records a well-formed state, then any state rebuilt from that
/// snapshot agrees with the state it was taken from on the inventory,
/// every chest's checked flag, the hint queue, the identity fields and
/// the indices.
pub proof fn lemma_save_load_round_trip(s: FullGameState, sf: SaveFile, s2: FullGameState)
    requires
        s.wf(),
        save_matches_state(sf, s),
        save_matches_state(sf, s2),
    ensures
        state_equiv(s2, s),
{
    assert forall|i: int|
        0 <= i < s.map.regions@.len() implies (#[trigger] s2.map.regions@[i]).0 == s.map.regions@[
        i
    ].0 && s2.map.regions@[i].1@.len() == s.map.regions@[i].1@.len() by {
        assert(sf.map.regions@[i].0 == s.map.regions@[i].0);
        assert(sf.map.regions@[i].0 == s2.map.regions@[i].0);
        assert(sf.map.regions@[i].1@.len() == s.map.regions@[i].1@.len());
        assert(sf.map.regions@[i].1@.len() == s2.map.regions@[i].1@.len());
    }
    assert forall|i: int, j: int|
        #![trigger s2.map.regions@[i].1@[j]]
        0 <= i < s.map.regions@.len() && 0 <= j < s.map.regions@[i].1@.len() implies chest_like(
        s2.map.regions@[i].1@[j],
        s.map.regions@[i].1@[j],
    ) by {
        assert(chest_like(sf.map.regions@[i].1@[j], s.map.regions@[i].1@[j]));
        assert(chest_like(sf.map.regions@[i].1@[j], s2.map.regions@[i].1@[j]));
    }
}

} // verus!
