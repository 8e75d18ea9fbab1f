use archipelapal::ArchipelaPalSlotData;
use archipelapal::Chest;
use archipelapal::GameMap;
use archipelapal::IdLayout;
use archipelapal::OutputFileConfig;
use archipelapal::UserSettings;
use archipelapal::WorldError;

fn compact_config(counts: Vec<u8>) -> OutputFileConfig {
    OutputFileConfig {
        min_wait_time: 1,
        max_wait_time: 2,
        num_goal: 1,
        slot_name: String::from("slot"),
        num_regions: counts.len() as u8,
        chests_per_region_list: counts,
    }
}

#[test]
fn compact_world_packs_region_and_number() {
    let map = GameMap::new_from_config(&compact_config(vec![2, 1])).unwrap();
    assert_eq!(map.regions.len(), 2);
    let (r1, chests1) = &map.regions[0];
    assert_eq!(*r1, 1);
    assert_eq!(chests1.len(), 2);
    assert_eq!(chests1[0].full_id, 0x020101);
    assert_eq!(chests1[0].number, 1);
    assert_eq!(chests1[0].region, 1);
    assert!(!chests1[0].checked);
    assert_eq!(chests1[0].name, "Chest 1-1");
    assert_eq!(chests1[1].full_id, 0x020102);
    let (r2, chests2) = &map.regions[1];
    assert_eq!(*r2, 2);
    assert_eq!(chests2.len(), 1);
    assert_eq!(chests2[0].full_id, 0x020201);
}

#[test]
fn empty_regions_get_no_entry() {
    let map = GameMap::new_from_config(&compact_config(vec![1, 0, 1])).unwrap();
    assert_eq!(map.regions.len(), 2);
    assert_eq!(map.regions[0].0, 1);
    assert_eq!(map.regions[1].0, 3);
}

#[test]
fn all_zero_counts_are_a_degenerate_world() {
    let err = GameMap::new_from_config(&compact_config(vec![0, 0, 0])).unwrap_err();
    assert_eq!(err, WorldError::DegenerateWorld);
    let err = GameMap::new_from_config(&compact_config(vec![])).unwrap_err();
    assert_eq!(err, WorldError::DegenerateWorld);
}

#[test]
fn themed_world_packs_theme_in_byte_one() {
    let config = ArchipelaPalSlotData {
        min_wait_time: 1,
        max_wait_time: 2,
        num_goal: 1,
        slot_name: String::from("slot"),
        num_regions: 2,
        chests_per_region_list: vec![1, 2],
        game_theme: 7,
    };
    let map = GameMap::new_from_slot_data(&config, 0x01000000).unwrap();
    assert_eq!(map.regions.len(), 2);
    assert_eq!(map.regions[0].0, 0);
    assert_eq!(map.regions[0].1[0].full_id, 0x01000701);
    assert_eq!(map.regions[1].0, 1);
    assert_eq!(map.regions[1].1[0].full_id, 0x01010701);
    assert_eq!(map.regions[1].1[1].full_id, 0x01010702);
    assert_eq!(map.regions[1].1[1].number, 2);
    assert_eq!(map.regions[1].1[1].region, 1);
}

#[test]
fn data_package_groups_by_region_in_input_order() {
    let entries = vec![
        (String::from("Cavern Chest"), 0x0101_i32),
        (String::from("Summit Chest"), 0x0201_i32),
        (String::from("Cavern Floor"), 0x0102_i32),
    ];
    let map = GameMap::new_from_data_package(&entries);
    assert_eq!(map.regions.len(), 2);
    let (r1, chests1) = &map.regions[0];
    assert_eq!(*r1, 1);
    assert_eq!(chests1.len(), 2);
    assert_eq!(chests1[0].name, "Cavern Chest");
    assert_eq!(chests1[0].full_id, 0x0101);
    assert_eq!(chests1[1].name, "Cavern Floor");
    let (r2, chests2) = &map.regions[1];
    assert_eq!(*r2, 2);
    assert_eq!(chests2[0].name, "Summit Chest");
}

#[test]
fn chest_names_follow_the_hub_convention() {
    let hub = Chest::new_from_id(0x020001, IdLayout::Compact);
    assert_eq!(hub.region, 0);
    assert_eq!(hub.name, "Hub Chest 1");
    let themed = Chest::new_from_id(0x030201, IdLayout::Themed);
    assert_eq!(themed.region, 3);
    assert_eq!(themed.number, 1);
    assert_eq!(themed.name, "Chest 3-1");
    let wide = Chest::new_from_id(0x02170b, IdLayout::Compact);
    assert_eq!(wide.region, 23);
    assert_eq!(wide.number, 11);
    assert_eq!(wide.name, "Chest 23-11");
}

#[test]
fn datapackage_chest_keeps_its_name() {
    let chest = Chest::new_from_datapackage_entry(&0x0203, String::from("Old Oak"));
    assert_eq!(chest.name, "Old Oak");
    assert_eq!(chest.region, 2);
    assert_eq!(chest.number, 3);
    assert_eq!(chest.full_id, 0x0203);
    assert!(!chest.checked);
}

#[test]
fn wait_range_must_be_positive_and_ordered() {
    let mut config = compact_config(vec![1]);
    assert!(config.validate());
    config.min_wait_time = 0;
    assert!(!config.validate());
    config.min_wait_time = 3;
    config.max_wait_time = 2;
    assert!(!config.validate());
    config.max_wait_time = 3;
    assert!(config.validate());
    config.num_goal = 0;
    assert!(!config.validate());
}

#[test]
fn fresh_user_settings_remember_nothing() {
    let settings = UserSettings::default();
    assert!(settings.last_used_address.is_none());
    assert!(settings.last_used_slot.is_none());
}
