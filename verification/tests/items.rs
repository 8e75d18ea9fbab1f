use archipelapal::Effect;
use archipelapal::Item;
use archipelapal::get_offset_from_le_bytes;
use archipelapal::get_region_from_loc_id;

#[test]
fn test_junk_item() {
    let value: u32 = 0x000001;
    let item = Item::from_id(value).unwrap();
    assert!(matches!(item, Item::Junk));
}

#[test]
fn test_goal_item() {
    let value: u32 = 0x010001;
    let item = Item::from_id(value).unwrap();
    assert!(matches!(item, Item::Goal));
}

#[test]
fn test_key_deser() {
    let value: u32 = 0x020001;
    let item = Item::from_id(value).unwrap();
    assert!(matches!(item, Item::Key(1)));
}

#[test]
fn test_speed_boost() {
    let value: u32 = 0x04000001;
    let item = Item::from_id(value).unwrap();
    assert!(matches!(item, Item::GameAffector(Effect::SpeedBoost)));
}

#[test]
fn unknown_offsets_decode_to_nothing() {
    assert!(Item::from_id(0x05000001).is_none());
    assert!(Item::from_id(0x030001).is_none());
}

#[test]
fn offset_prefers_last_byte_when_nonzero() {
    assert_eq!(get_offset_from_le_bytes(&[1, 0, 2, 0]), Some(2));
    assert_eq!(get_offset_from_le_bytes(&[1, 0, 2, 4]), Some(4));
    assert_eq!(get_offset_from_le_bytes(&[1, 0, 2]), None);
    assert_eq!(get_offset_from_le_bytes(&[]), None);
}

#[test]
fn effect_needs_three_bytes() {
    assert!(Effect::try_from_le_bytes(&[1, 2]).is_none());
    assert!(matches!(
        Effect::try_from_le_bytes(&[1, 2, 0]),
        Some(Effect::SpeedBoost)
    ));
    assert!(Effect::try_from_le_bytes(&[1, 2, 9]).is_none());
}

#[test]
fn region_is_byte_two_of_location() {
    assert_eq!(get_region_from_loc_id(0x030201), 3);
    assert_eq!(get_region_from_loc_id(0x000001), 0);
    assert_eq!(get_region_from_loc_id(0xff0000), 0xff);
}
