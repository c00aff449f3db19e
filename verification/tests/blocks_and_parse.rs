use railscan::blocks::{
    block_name_to_id, facing_to_sign_data, shape_to_rail_data, Block, BlockID, Direction,
    RailData, SignData,
};
use railscan::coords::{BlockCoords, Realm};
use railscan::parse::{coord_from_str, i32_from_str, realm_from_str, station_sign_nearest_num};

#[test]
fn block_names_map_to_ids() {
    assert_eq!(block_name_to_id("minecraft:rail"), Some(BlockID::UnpoweredRail));
    assert_eq!(block_name_to_id("minecraft:powered_rail"), Some(BlockID::PoweredRail));
    assert_eq!(block_name_to_id("minecraft:detector_rail"), Some(BlockID::DetectorRail));
    assert_eq!(block_name_to_id("minecraft:oak_wall_sign"), Some(BlockID::OakWallSign));
    assert_eq!(block_name_to_id("minecraft:warped_wall_sign"), Some(BlockID::WarpedWallSign));
    assert_eq!(block_name_to_id("minecraft:stone"), None);
}

#[test]
fn shapes_and_facings() {
    assert_eq!(shape_to_rail_data("north_south"), Some(RailData::NS));
    assert_eq!(shape_to_rail_data("ascending_east"), Some(RailData::AE));
    assert_eq!(shape_to_rail_data("south_west"), Some(RailData::SW));
    assert_eq!(shape_to_rail_data("diagonal"), None);
    assert_eq!(facing_to_sign_data("north"), Some(SignData::N));
    assert_eq!(facing_to_sign_data("up"), Some(SignData::U));
    assert_eq!(facing_to_sign_data("sideways"), None);
}

#[test]
fn direction_conversions() {
    assert_eq!(Direction::from_usize(0), Direction::N);
    assert_eq!(Direction::from_usize(3), Direction::E);
    assert_eq!(Direction::N.opposite_direction(), Direction::S);
    assert_eq!(Direction::W.opposite_direction(), Direction::E);
    assert_eq!(Direction::direction_from_str("N"), Some(Direction::N));
    assert_eq!(Direction::direction_from_str("e"), Some(Direction::E));
    assert_eq!(Direction::direction_from_str("x"), None);
    assert_eq!(Direction::S.to_str(), "s");
}

#[test]
fn rail_predicates() {
    let b = Block {
        coords: BlockCoords { x: 0, y: 0, z: 0, realm: Realm::Overworld },
        id: BlockID::UnpoweredRail,
        rail_data: RailData::SE,
        sign_data: SignData::N,
        sign_text: String::new(),
    };
    assert!(b.is_rail());
    assert!(!b.is_sign());
    assert!(b.is_curved_rail());
    assert!(!b.is_straight_rail());
    assert!(!b.is_north_south_rail());
    assert!(!b.is_east_west_rail());
    assert!(RailData::AN.is_straight());
    assert!(RailData::AN.is_north_south());
    assert_eq!(RailData::NW.to_str(), "nw");
}

#[test]
fn integer_parsing() {
    assert_eq!(i32_from_str("42"), Some(42));
    assert_eq!(i32_from_str("-42"), Some(-42));
    assert_eq!(i32_from_str("+7"), Some(7));
    assert_eq!(i32_from_str("2147483647"), Some(i32::MAX));
    assert_eq!(i32_from_str("-2147483648"), Some(i32::MIN));
    assert_eq!(i32_from_str("2147483648"), None);
    assert_eq!(i32_from_str(""), None);
    assert_eq!(i32_from_str("12a"), None);
    assert_eq!(i32_from_str("-"), None);
    assert_eq!(coord_from_str("-100"), Some(-100));
}

#[test]
fn realm_parsing() {
    assert_eq!(realm_from_str("TheNether"), Realm::Nether);
    assert_eq!(realm_from_str("the_end"), Realm::End);
    assert_eq!(realm_from_str("overworld"), Realm::Overworld);
    assert_eq!(realm_from_str("anything else"), Realm::Overworld);
    // any mention of the nether wins over the end
    assert_eq!(realm_from_str("nether end"), Realm::Nether);
}

#[test]
fn nearest_rank_parsing() {
    assert_eq!(station_sign_nearest_num(&String::from("To N3 station")), 3);
    assert_eq!(station_sign_nearest_num(&String::from("n12")), 12);
    assert_eq!(station_sign_nearest_num(&String::from("no rank here")), 0);
    assert_eq!(station_sign_nearest_num(&String::from("N")), 0);
    assert_eq!(station_sign_nearest_num(&String::from("x n2 n5")), 2);
}

#[test]
fn string_utilities() {
    assert_eq!(railscan::strutil::trim_str("  hello \t"), "hello");
    assert_eq!(railscan::strutil::trim_str(""), "");
    assert_eq!(railscan::strutil::trim_str("   "), "");
    let hay = b"abcdef".to_vec();
    let needle = b"cde".to_vec();
    let missing = b"xyz".to_vec();
    assert!(railscan::strutil::contains_bytes(&hay, &needle));
    assert!(!railscan::strutil::contains_bytes(&hay, &missing));
    assert!(railscan::strutil::bytes_le(&b"abc".to_vec(), &b"abd".to_vec()));
    assert!(railscan::strutil::bytes_le(&b"ab".to_vec(), &b"abc".to_vec()));
    assert!(!railscan::strutil::bytes_le(&b"b".to_vec(), &b"abc".to_vec()));
}
