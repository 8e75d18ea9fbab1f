use archipelapal::FullGameState;
use archipelapal::GameMap;
use archipelapal::GoalSignal;
use archipelapal::HandlerAction;
use archipelapal::Hint;
use archipelapal::IdLayout;
use archipelapal::Inventory;
use archipelapal::Player;
use archipelapal::SaveFile;
use archipelapal::ServerEvent;
use archipelapal::pacing;
use archipelapal::pacing::ReleasePermission;
use archipelapal::pacing::should_release;

const KEY_REGION_1: i32 = 0x020001;
const KEY_REGION_2: i32 = 0x020002;
const GOAL_ITEM: i32 = 0x010000;
const BOOST_ITEM: i32 = 0x04000001;

fn hub_world(counts: Vec<u8>) -> GameMap {
    GameMap::new_from_counts(&counts, IdLayout::Compact, 0x020000, 0, 0).unwrap()
}

fn session_with_map(map: GameMap) -> FullGameState {
    let mut state = FullGameState::new();
    state.install_session(map, String::from("seed-1"), 0, 0);
    state
}

#[test]
fn full_snapshot_replaces_and_reapplying_is_idempotent() {
    let mut state = FullGameState::new();
    state.apply_received_items(1, &vec![KEY_REGION_1]);
    assert_eq!(state.player.inventory.get(KEY_REGION_1 as u32), 1);

    state.apply_received_items(0, &vec![GOAL_ITEM, GOAL_ITEM, BOOST_ITEM]);
    assert_eq!(state.player.inventory.get(GOAL_ITEM as u32), 2);
    assert_eq!(state.player.inventory.get(BOOST_ITEM as u32), 1);
    assert_eq!(state.player.inventory.get(KEY_REGION_1 as u32), 0);

    let first = state.player.inventory.entries.clone();
    state.apply_received_items(0, &vec![GOAL_ITEM, GOAL_ITEM, BOOST_ITEM]);
    assert_eq!(state.player.inventory.entries, first);
}

#[test]
fn negative_item_ids_are_filtered_out() {
    let mut state = FullGameState::new();
    state.apply_received_items(0, &vec![-1, GOAL_ITEM, -42]);
    assert_eq!(state.player.inventory.entries.len(), 1);
    assert_eq!(state.player.inventory.get(GOAL_ITEM as u32), 1);
}

#[test]
fn stale_delta_changes_nothing() {
    let mut state = FullGameState::new();
    state.apply_received_items(3, &vec![GOAL_ITEM]);
    assert_eq!(state.last_checked_idx, 3);
    let before = state.player.inventory.entries.clone();

    state.apply_received_items(3, &vec![GOAL_ITEM]);
    assert_eq!(state.player.inventory.entries, before);
    assert_eq!(state.last_checked_idx, 3);

    state.apply_received_items(2, &vec![GOAL_ITEM, GOAL_ITEM]);
    assert_eq!(state.player.inventory.entries, before);
    assert_eq!(state.last_checked_idx, 3);

    state.apply_received_items(4, &vec![GOAL_ITEM]);
    assert_eq!(state.player.inventory.get(GOAL_ITEM as u32), 2);
    assert_eq!(state.last_checked_idx, 4);
}

#[test]
fn save_and_load_round_trip_reproduces_the_state() {
    let mut state = session_with_map(hub_world(vec![2, 1]));
    state.apply_received_items(2, &vec![KEY_REGION_1, GOAL_ITEM]);
    state.insert_hint(Hint { player: 0, location: 0x020101, found: false, is_important: true });
    let picked = state.tick_game_state(IdLayout::Compact);
    assert!(picked.is_some());

    let snapshot = state.to_save_file();
    let reloaded = FullGameState::from_save_file(snapshot);

    assert_eq!(reloaded.player.inventory.entries, state.player.inventory.entries);
    assert_eq!(
        reloaded.player.currently_exploring_region,
        state.player.currently_exploring_region
    );
    assert_eq!(reloaded.seed_name, state.seed_name);
    assert_eq!(reloaded.team, state.team);
    assert_eq!(reloaded.last_checked_idx, state.last_checked_idx);
    assert_eq!(reloaded.slot_id, state.slot_id);
    assert_eq!(reloaded.source_hint_queue, state.source_hint_queue);
    assert_eq!(reloaded.map.regions.len(), state.map.regions.len());
    for (left, right) in reloaded.map.regions.iter().zip(state.map.regions.iter()) {
        assert_eq!(left.0, right.0);
        assert_eq!(left.1.len(), right.1.len());
        for (lc, rc) in left.1.iter().zip(right.1.iter()) {
            assert_eq!(lc.full_id, rc.full_id);
            assert_eq!(lc.checked, rc.checked);
            assert_eq!(lc.name, rc.name);
        }
    }
}

#[test]
fn corrupt_snapshot_loads_as_a_fresh_state() {
    let snapshot = SaveFile {
        player: Player {
            inventory: Inventory { entries: vec![(7, 1), (3, 1)] },
            currently_exploring_region: 0,
            speed_modifier: 100,
        },
        map: GameMap { regions: Vec::new() },
        seed: String::from("seed-x"),
        team: 1,
        last_checked_idx: 5,
        slot_id: 2,
        source_hint_queue: Vec::new(),
    };
    let state = FullGameState::from_save_file(snapshot);
    assert!(state.player.inventory.entries.is_empty());
    assert!(state.seed_name.is_empty());
    assert_eq!(state.last_checked_idx, 0);
}

#[test]
fn keys_keep_their_regions_accessible() {
    let mut state = FullGameState::new();
    state.apply_received_items(1, &vec![KEY_REGION_2]);
    assert_eq!(state.player.get_accessible_regions(), vec![2]);

    state.apply_received_items(2, &vec![KEY_REGION_1, GOAL_ITEM]);
    let regions = state.player.get_accessible_regions();
    assert!(regions.contains(&1));
    assert!(regions.contains(&2));

    state.apply_received_items(2, &vec![BOOST_ITEM]);
    let regions = state.player.get_accessible_regions();
    assert!(regions.contains(&1));
    assert!(regions.contains(&2));
}

#[test]
fn hint_for_accessible_region_wins_over_local_chests() {
    let map = GameMap::new_from_counts(&vec![2, 2], IdLayout::Compact, 0x020000, 0, 1).unwrap();
    let mut state = session_with_map(map);
    state.apply_received_items(1, &vec![KEY_REGION_1, KEY_REGION_2]);
    state.player.currently_exploring_region = 2;
    state.insert_hint(Hint { player: 0, location: 0x020101, found: false, is_important: true });

    let picked = state.tick_game_state(IdLayout::Compact);
    assert_eq!(picked, Some(0x020101));
    assert_eq!(state.player.currently_exploring_region, 2);
    let (region, chests) = &state.map.regions[0];
    assert_eq!(*region, 1);
    assert!(chests[0].checked);
    assert!(!chests[1].checked);
}

#[test]
fn foreign_and_found_hints_never_enter_the_queue() {
    let mut state = FullGameState::new();
    state.insert_hint(Hint { player: 9, location: 1, found: false, is_important: true });
    state.insert_hint(Hint { player: 0, location: 2, found: true, is_important: true });
    state.insert_hint(Hint { player: 0, location: 3, found: false, is_important: false });
    assert!(state.source_hint_queue.is_empty());

    let wanted = Hint { player: 0, location: 4, found: false, is_important: true };
    state.insert_hint(wanted);
    state.insert_hint(wanted);
    assert_eq!(state.source_hint_queue.len(), 1);
}

#[test]
fn hint_refresh_replaces_the_queue_and_filters() {
    let mut state = FullGameState::new();
    state.insert_hint(Hint { player: 0, location: 9, found: false, is_important: true });

    let refresh = vec![
        Hint { player: 0, location: 1, found: false, is_important: true },
        Hint { player: 0, location: 1, found: false, is_important: true },
        Hint { player: 0, location: 2, found: true, is_important: true },
        Hint { player: 5, location: 3, found: false, is_important: true },
        Hint { player: 0, location: 4, found: false, is_important: false },
    ];
    let mut goal = GoalSignal::new();
    let action = state.handle_event(ServerEvent::RetrievedHints { hints: refresh }, 1, &mut goal);
    assert_eq!(action, HandlerAction::Continue);
    assert_eq!(state.source_hint_queue.len(), 1);
    assert_eq!(state.source_hint_queue[0].location, 1);
}

#[test]
fn soft_locked_player_gets_no_check_and_stays_put() {
    let mut state = session_with_map(hub_world(vec![2]));
    let first = state.tick_game_state(IdLayout::Compact);
    let second = state.tick_game_state(IdLayout::Compact);
    assert!(first.is_some() && second.is_some());
    assert_ne!(first, second);

    let third = state.tick_game_state(IdLayout::Compact);
    assert_eq!(third, None);
    assert_eq!(state.player.currently_exploring_region, 0);
}

#[test]
fn every_chest_is_returned_exactly_once() {
    let mut state = session_with_map(hub_world(vec![3]));
    let mut seen = Vec::new();
    for _ in 0..3 {
        let picked = state.tick_game_state(IdLayout::Compact).unwrap();
        assert!(!seen.contains(&picked));
        seen.push(picked);
    }
    assert_eq!(state.tick_game_state(IdLayout::Compact), None);
    seen.sort();
    assert_eq!(seen, vec![0x020001, 0x020002, 0x020003]);
}

#[test]
fn fallback_moves_to_the_first_accessible_region() {
    let map = GameMap::new_from_counts(&vec![1, 1, 1], IdLayout::Compact, 0x020000, 0, 0).unwrap();
    let mut state = session_with_map(map);
    state.apply_received_items(1, &vec![KEY_REGION_2]);

    let first = state.tick_game_state(IdLayout::Compact);
    assert_eq!(first, Some(0x020001));
    assert_eq!(state.player.currently_exploring_region, 0);

    let second = state.tick_game_state(IdLayout::Compact);
    assert_eq!(second, Some(0x020201));
    assert_eq!(state.player.currently_exploring_region, 2);
}

#[test]
fn goal_threshold_fires_the_signal_exactly_once() {
    let mut state = FullGameState::new();
    let mut goal = GoalSignal::new();

    let action = state.handle_event(
        ServerEvent::ReceivedItems { index: 1, items: vec![GOAL_ITEM] },
        2,
        &mut goal,
    );
    assert_eq!(action, HandlerAction::SaveAndContinue);
    assert!(!goal.fired);

    let action = state.handle_event(
        ServerEvent::ReceivedItems { index: 2, items: vec![GOAL_ITEM] },
        2,
        &mut goal,
    );
    assert_eq!(action, HandlerAction::Goal);
    assert!(goal.fired);
    assert!(!goal.fire());
}

#[test]
fn stored_goal_status_fires_the_signal() {
    let mut state = FullGameState::new();
    let mut goal = GoalSignal::new();
    let action = state.handle_event(
        ServerEvent::RetrievedClientStatus { for_this_slot: true, status: Some(30) },
        1,
        &mut goal,
    );
    assert_eq!(action, HandlerAction::Goal);

    let mut other = GoalSignal::new();
    let mut state2 = FullGameState::new();
    let action = state2.handle_event(
        ServerEvent::RetrievedClientStatus { for_this_slot: false, status: Some(30) },
        1,
        &mut other,
    );
    assert_eq!(action, HandlerAction::Continue);
    let action = state2.handle_event(
        ServerEvent::RetrievedClientStatus { for_this_slot: true, status: Some(20) },
        1,
        &mut other,
    );
    assert_eq!(action, HandlerAction::Continue);
    assert!(!other.fired);
}

#[test]
fn speed_modifier_stacks_linearly() {
    let mut state = FullGameState::new();
    assert_eq!(state.player.get_total_speed_modifier(), 100);

    state.apply_received_items(1, &vec![BOOST_ITEM, BOOST_ITEM, BOOST_ITEM]);
    assert_eq!(state.player.get_num_boosts(), 3);
    assert_eq!(state.player.speed_modifier, 103);

    state.apply_received_items(2, &vec![BOOST_ITEM; 7]);
    assert_eq!(state.player.get_num_boosts(), 10);
    assert_eq!(state.player.speed_modifier, 110);
}

#[test]
fn wait_time_scales_inversely_with_the_modifier() {
    assert_eq!(pacing::compute_wait_ms(10, 100), 10_000);
    assert_eq!(pacing::compute_wait_ms(10, 103), 9_708);
    assert_eq!(pacing::compute_wait_ms(10, 110), 9_090);
    assert_eq!(pacing::compute_wait_ms(0, 100), 0);

    let base = pacing::draw_wait_seconds(5, 5);
    assert_eq!(base, 5);
    let drawn = pacing::draw_wait_seconds(3, 9);
    assert!((3..=9).contains(&drawn));
}

#[test]
fn release_is_sent_only_when_the_room_allows_it() {
    assert!(should_release(ReleasePermission::Enabled));
    assert!(should_release(ReleasePermission::Goal));
    assert!(!should_release(ReleasePermission::Disabled));
    assert!(!should_release(ReleasePermission::Auto));
    assert!(!should_release(ReleasePermission::AutoEnabled));
}

#[test]
fn hint_keys_name_team_and_slot() {
    let mut state = FullGameState::new();
    assert_eq!(state.make_hints_get_key(3), "_read_hints_0_3");
    state.team = -2;
    assert_eq!(state.make_hints_get_key(17), "_read_hints_-2_17");
}

#[test]
fn checked_hints_are_dropped_from_the_queue() {
    let mut state = FullGameState::new();
    state.insert_hint(Hint { player: 0, location: 5, found: false, is_important: true });
    state.insert_hint(Hint { player: 0, location: 6, found: false, is_important: true });
    state.remove_hints_for_location(5);
    assert_eq!(state.source_hint_queue.len(), 1);
    assert_eq!(state.source_hint_queue[0].location, 6);
}
