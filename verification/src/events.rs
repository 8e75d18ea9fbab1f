//! Inbound event application: the decisions of the listener task.
//!
//! The task layer turns each protocol message into a plain `ServerEvent`,
//! hands it in here, and performs the returned action: persist a snapshot,
//! keep listening, or shut down because the goal was reached. The goal
//! signal is fire-once; the listener stops handing in events after it
//! fires.

use vstd::prelude::*;

verus! {

use crate::ItemID;
use crate::hints::Hint;
use crate::hints::hint_wanted;
use crate::inventory::Inventory;
use crate::inventory::count_of;
use crate::inventory::sat_cap;
use crate::state::FullGameState;

/// The client-status value the server stores for a slot that reached its
/// goal.
pub const CLIENT_STATUS_GOAL: u32 = 30;

/// A protocol event reduced to plain values.
#[derive(Debug)]
pub enum ServerEvent {
    /// An inventory update: a full snapshot when `index` is zero, an
    /// incremental delta otherwise.
    ReceivedItems { index: i32, items: Vec<i32> },
    /// A stored client status fetched from the server.
    RetrievedClientStatus { for_this_slot: bool, status: Option<u32> },
    /// A fresh snapshot of this slot's hints fetched from the server.
    RetrievedHints { hints: Vec<Hint> },
    /// One broadcast hint notification.
    HintNotification { hint: Hint },
    /// Any event kind the handler does not act on.
    Other,
}

/// What the listener must do after an event was applied.
#[derive(Clone, Copy, Debug, PartialEq, Eq, Structural)]
pub enum HandlerAction {
    /// Keep listening.
    Continue,
    /// Persist a snapshot, then keep listening.
    SaveAndContinue,
    /// The goal was reached and the signal fired: stop listening.
    Goal,
}

/// The one-shot goal signal: it can fire only once.
#[derive(Clone, Copy, Debug, PartialEq, Eq, Structural)]
pub struct GoalSignal {
    pub fired: bool,
}

impl GoalSignal {
    /// A signal that has not fired.
    pub fn new() -> (signal: GoalSignal)
        ensures
            !signal.fired,
    {
        GoalSignal { fired: false }
    }

    /// Fires the signal; returns whether this call was the one that fired
    /// it. A second call is a no-op that returns false, never an error.
    pub fn fire(&mut self) -> (first: bool)
        ensures
            final(self).fired,
            first == !old(self).fired,
    {
        let first = !self.fired;
        self.fired = true;
        first
    }
}

/// How an inventory update relates the state before it to the state after
/// it: a zero index replaces the inventory with the snapshot's counts; a
/// fresh index adds one per occurrence and advances the stored index; a
/// stale index changes nothing. The speed modifier is recomputed either
/// way.
pub open spec fn received_items_rel(
    pre: FullGameState,
    post: FullGameState,
    index: i32,
    items: Seq<i32>,
) -> bool {
    &&& post.player.currently_exploring_region == pre.player.currently_exploring_region
    &&& post.player.speed_modifier == post.player.derived_speed_modifier()
    &&& if index == 0 {
        &&& forall|k: ItemID|
            #[trigger] post.player.inventory.qty(k) == sat_cap(count_of(items, k) as int)
        &&& post.last_checked_idx == pre.last_checked_idx
    } else if index > pre.last_checked_idx {
        &&& forall|k: ItemID|
            #[trigger] post.player.inventory.qty(k) == sat_cap(
                pre.player.inventory.qty(k) + count_of(items, k),
            )
        &&& forall|k: ItemID|
            #[trigger] post.player.inventory.has(k) <==> (pre.player.inventory.has(k)
                || count_of(items, k) > 0)
        &&& post.last_checked_idx == index
    } else {
        &&& post.player.inventory.entries@ == pre.player.inventory.entries@
        &&& post.last_checked_idx == pre.last_checked_idx
    }
}

impl FullGameState {
    /// Applies one inventory update (see `received_items_rel`).
    pub fn apply_received_items(&mut self, index: i32, items: &Vec<i32>)
        requires
            old(self).wf(),
        ensures
            final(self).wf(),
            received_items_rel(*old(self), *final(self), index, items@),
            final(self).map == old(self).map,
            final(self).seed_name == old(self).seed_name,
            final(self).team == old(self).team,
            final(self).slot_id == old(self).slot_id,
            final(self).source_hint_queue@ == old(self).source_hint_queue@,
    {
        if index == 0 {
            self.player.inventory = Inventory::from_items(items);
        } else if index > self.last_checked_idx {
            self.player.inventory.apply_delta(items);
            self.last_checked_idx = index;
        }
        self.player.set_speed_modifier();
    }

    /// Whether the player's goal-item count has reached the threshold.
    pub fn player_goaled(&self, num_goal: u16) -> (goaled: bool)
        requires
            self.wf(),
        ensures
            goaled == (self.player.goal_count() >= num_goal),
    {
        self.player.get_num_goal_items() >= num_goal
    }

    /// Applies one inbound event and decides what the listener does next.
    /// The goal signal fires exactly on the first event that shows the
    /// goal reached — an inventory update meeting the threshold, or a
    /// stored status of goal; the listener stops after that, so the signal
    /// must not have fired yet.
    pub fn handle_event(
        &mut self,
        event: ServerEvent,
        num_goal: u16,
        goal: &mut GoalSignal,
    ) -> (action: HandlerAction)
        requires
            old(self).wf(),
            !old(goal).fired,
        ensures
            final(self).wf(),
            final(goal).fired == (action == HandlerAction::Goal),
            match event {
                ServerEvent::ReceivedItems { index, items } => {
                    &&& received_items_rel(*old(self), *final(self), index, items@)
                    &&& final(self).map == old(self).map
                    &&& final(self).seed_name == old(self).seed_name
                    &&& final(self).team == old(self).team
                    &&& final(self).slot_id == old(self).slot_id
                    &&& final(self).source_hint_queue@ == old(self).source_hint_queue@
                    &&& action == (if final(self).player.goal_count() >= num_goal {
                        HandlerAction::Goal
                    } else {
                        HandlerAction::SaveAndContinue
                    })
                },
                ServerEvent::RetrievedClientStatus { for_this_slot, status } => {
                    &&& *final(self) == *old(self)
                    &&& action == (if for_this_slot && status == Some(CLIENT_STATUS_GOAL) {
                        HandlerAction::Goal
                    } else {
                        HandlerAction::Continue
                    })
                },
                ServerEvent::RetrievedHints { hints } => {
                    &&& forall|h: Hint|
                        #[trigger] final(self).source_hint_queue@.contains(h) <==> (
                        hints@.contains(h) && hint_wanted(h, old(self).slot_id))
                    &&& final(self).player == old(self).player
                    &&& final(self).map == old(self).map
                    &&& final(self).seed_name == old(self).seed_name
                    &&& final(self).team == old(self).team
                    &&& final(self).last_checked_idx == old(self).last_checked_idx
                    &&& final(self).slot_id == old(self).slot_id
                    &&& action == HandlerAction::Continue
                },
                ServerEvent::HintNotification { hint } => {
                    &&& forall|h: Hint|
                        #[trigger] final(self).source_hint_queue@.contains(h) <==> (old(
                            self,
                        ).source_hint_queue@.contains(h) || (h == hint && hint_wanted(
                            hint,
                            old(self).slot_id,
                        ) && !old(self).source_hint_queue@.contains(hint)))
                    &&& final(self).player == old(self).player
                    &&& final(self).map == old(self).map
                    &&& final(self).seed_name == old(self).seed_name
                    &&& final(self).team == old(self).team
                    &&& final(self).last_checked_idx == old(self).last_checked_idx
                    &&& final(self).slot_id == old(self).slot_id
                    &&& action == HandlerAction::Continue
                },
                ServerEvent::Other => {
                    &&& *final(self) == *old(self)
                    &&& action == HandlerAction::Continue
                },
            },
    {
        match event {
            ServerEvent::ReceivedItems { index, items } => {
                self.apply_received_items(index, &items);
                if self.player_goaled(num_goal) {
                    goal.fire();
                    HandlerAction::Goal
                } else {
                    HandlerAction::SaveAndContinue
                }
            },
            ServerEvent::RetrievedClientStatus { for_this_slot, status } => {
                let is_goal = match status {
                    Some(value) => for_this_slot && value == CLIENT_STATUS_GOAL,
                    None => false,
                };
                if is_goal {
                    goal.fire();
                    HandlerAction::Goal
                } else {
                    HandlerAction::Continue
                }
            },
            ServerEvent::RetrievedHints { hints } => {
                self.replace_hint_queue(hints);
                HandlerAction::Continue
            },
            ServerEvent::HintNotification { hint } => {
                self.insert_hint(hint);
                HandlerAction::Continue
            },
            ServerEvent::Other => HandlerAction::Continue,
        }
    }
}

} // verus!
