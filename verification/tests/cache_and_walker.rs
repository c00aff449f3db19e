use railscan::blocks::{Block, BlockID, Direction, RailData, SignData};
use railscan::coords::{BlockCoords, Realm, RegionCoords};
use railscan::error::Error;
use railscan::maps::{build_block_maps, CoordMap, Tie};
use railscan::region::Region;
use railscan::region_cache::{
    insert_region, maybe_shrink_region_cache, update_region_cache, RegionCache,
    MAX_CACHED_REGIONS,
};
use railscan::walker::{blocks_to_check, find_connection, find_next_rail_block};

fn rc(x: i32, z: i32) -> RegionCoords {
    RegionCoords {
        x,
        z,
        realm: Realm::Overworld,
    }
}

fn bc(x: i32, y: i32, z: i32) -> BlockCoords {
    BlockCoords {
        x,
        y,
        z,
        realm: Realm::Overworld,
    }
}

fn region(x: i32, z: i32, seq: u32) -> Region {
    Region {
        coords: rc(x, z),
        data: vec![x as u8, z as u8],
        last_chunk_num: seq,
    }
}

#[test]
fn cache_evicts_least_recently_touched() {
    let mut cache = RegionCache::new();
    for i in 0..(MAX_CACHED_REGIONS as i32 + 1) {
        // give the third insertion the smallest sequence number
        let seq = if i == 3 { 1 } else { 100 + i as u32 };
        insert_region(&mut cache, region(i, 0, seq));
    }
    assert_eq!(cache.entries.len(), MAX_CACHED_REGIONS);
    assert!(cache.get_data(rc(3, 0)).is_none());
    assert!(cache.get_data(rc(0, 0)).is_some());
    assert!(cache.get_data(rc(10, 0)).is_some());
}

#[test]
fn touching_refreshes_without_reading() {
    let mut cache = RegionCache::new();
    insert_region(&mut cache, region(0, 0, 1));
    insert_region(&mut cache, region(1, 0, 2));
    // touching the oldest entry refreshes its sequence number in place
    let hit = update_region_cache(rc(0, 0), 50, &mut cache);
    assert!(hit);
    assert_eq!(cache.entries.len(), 2);
    assert_eq!(cache.entries[0].last_chunk_num, 50);
    assert_eq!(cache.entries[0].data, vec![0u8, 0u8]);
    // a miss changes nothing and asks the caller to read
    let miss = update_region_cache(rc(9, 9), 51, &mut cache);
    assert!(!miss);
    assert_eq!(cache.entries.len(), 2);
    // after the refresh, filling up evicts the other entry
    for i in 2..(MAX_CACHED_REGIONS as i32 + 1) {
        insert_region(&mut cache, region(i, 0, 100 + i as u32));
    }
    assert!(cache.get_data(rc(1, 0)).is_none());
    assert!(cache.get_data(rc(0, 0)).is_some());
}

#[test]
fn shrink_leaves_cache_at_capacity_alone() {
    let mut cache = RegionCache::new();
    for i in 0..MAX_CACHED_REGIONS as i32 {
        insert_region(&mut cache, region(i, 0, i as u32));
    }
    maybe_shrink_region_cache(&mut cache);
    assert_eq!(cache.entries.len(), MAX_CACHED_REGIONS);
}

fn rail(x: i32, y: i32, z: i32, data: RailData) -> Block {
    Block {
        coords: bc(x, y, z),
        id: BlockID::UnpoweredRail,
        rail_data: data,
        sign_data: SignData::N,
        sign_text: String::new(),
    }
}

#[test]
fn continuation_table_shapes() {
    let north = blocks_to_check(RailData::NS, Direction::N).expect("a northbound rail continues");
    assert_eq!(north.len(), 7);
    assert_eq!(north[0], (RailData::NS, Direction::N, 0));
    assert_eq!(north[2], (RailData::AS, Direction::N, -1));
    // a curved rail ignores its own shape
    let curved = blocks_to_check(RailData::SE, Direction::W).expect("a curve continues");
    assert_eq!(curved[0], (RailData::EW, Direction::W, 0));
    // a rail crossed against its axis has no continuation
    assert!(blocks_to_check(RailData::NS, Direction::E).is_none());
    let ascending = blocks_to_check(RailData::AE, Direction::E).expect("up the gradient");
    assert!(ascending.iter().all(|c| c.2 == 1));
}

#[test]
fn straight_chain_advances_monotonically() {
    let blocks = vec![
        rail(0, 0, 0, RailData::NS),
        rail(0, 0, -1, RailData::NS),
        rail(0, 0, -2, RailData::NS),
    ];
    let (rail_map, _sign_map) = build_block_maps(&blocks);
    let ties: CoordMap<Tie> = CoordMap::new();
    let (c1, d1) =
        find_next_rail_block(bc(0, 0, 0), Direction::N, &blocks, &rail_map, &ties).expect("step");
    assert_eq!(c1, bc(0, 0, -1));
    assert_eq!(d1, Direction::N);
    let (c2, d2) = find_next_rail_block(c1, d1, &blocks, &rail_map, &ties).expect("step");
    assert_eq!(c2, bc(0, 0, -2));
    assert_eq!(d2, Direction::N);
}

#[test]
fn ascending_segment_shifts_height_by_one() {
    // heading east onto an ascending-east rail, then off its top
    let blocks = vec![
        rail(0, 0, 0, RailData::EW),
        rail(1, 0, 0, RailData::AE),
        rail(2, 1, 0, RailData::EW),
    ];
    let (rail_map, _sign_map) = build_block_maps(&blocks);
    let ties: CoordMap<Tie> = CoordMap::new();
    let (c1, d1) =
        find_next_rail_block(bc(0, 0, 0), Direction::E, &blocks, &rail_map, &ties).expect("step");
    assert_eq!(c1, bc(1, 0, 0));
    let (c2, _) = find_next_rail_block(c1, d1, &blocks, &rail_map, &ties).expect("step");
    assert_eq!(c2, bc(2, 1, 0));
    // and back down the gradient: heading west off the ascending rail
    let (c3, d3) =
        find_next_rail_block(bc(2, 1, 0), Direction::W, &blocks, &rail_map, &ties).expect("step");
    assert_eq!(c3, bc(1, 0, 0));
    assert_eq!(d3, Direction::W);
}

#[test]
fn missing_next_segment_is_fatal() {
    let blocks = vec![rail(0, 0, 0, RailData::NS)];
    let (rail_map, _sign_map) = build_block_maps(&blocks);
    let ties: CoordMap<Tie> = CoordMap::new();
    let err = find_next_rail_block(bc(0, 0, 0), Direction::N, &blocks, &rail_map, &ties)
        .expect_err("a dead end must be fatal");
    assert_eq!(err, Error::InconsistentTopology(bc(0, 0, 0)));
}

#[test]
fn rail_crossed_against_its_axis_is_fatal() {
    // a north-south rail offers no continuation for eastbound travel
    let blocks = vec![rail(0, 0, 0, RailData::NS), rail(1, 0, 0, RailData::EW)];
    let (rail_map, _sign_map) = build_block_maps(&blocks);
    let ties: CoordMap<Tie> = CoordMap::new();
    let err = find_next_rail_block(bc(0, 0, 0), Direction::E, &blocks, &rail_map, &ties)
        .expect_err("crossing the axis must be fatal");
    assert_eq!(err, Error::InconsistentTopology(bc(0, 0, 0)));
}

#[test]
fn tie_overrides_physical_continuity() {
    let blocks = vec![rail(0, 0, 0, RailData::NS), rail(100, 7, 100, RailData::EW)];
    let (rail_map, _sign_map) = build_block_maps(&blocks);
    let mut ties: CoordMap<Tie> = CoordMap::new();
    ties.insert(
        bc(0, 0, 0),
        Tie {
            to_coords: bc(100, 7, 100),
            from_direction: Direction::N,
            to_direction: Direction::E,
        },
    );
    let (c, d) =
        find_next_rail_block(bc(0, 0, 0), Direction::N, &blocks, &rail_map, &ties).expect("jump");
    assert_eq!(c, bc(100, 7, 100));
    assert_eq!(d, Direction::E);
    // the tie only fires for its own travel direction
    let err = find_next_rail_block(bc(0, 0, 0), Direction::S, &blocks, &rail_map, &ties);
    assert!(err.is_err());
}

#[test]
fn walk_reaches_station_with_cost() {
    let blocks = vec![
        rail(0, 0, 0, RailData::NS),
        rail(0, 0, -1, RailData::NS),
        rail(0, 0, -2, RailData::NS),
        rail(0, 0, -3, RailData::NS),
    ];
    let (rail_map, _sign_map) = build_block_maps(&blocks);
    let ties: CoordMap<Tie> = CoordMap::new();
    let mut weights: CoordMap<i32> = CoordMap::new();
    weights.insert(bc(0, 0, -2), 10);
    let mut stations: CoordMap<usize> = CoordMap::new();
    stations.insert(bc(0, 0, -3), 0);
    let switches: CoordMap<usize> = CoordMap::new();
    let (node, dist, trace) = find_connection(
        bc(0, 0, 0),
        Direction::N,
        &stations,
        &switches,
        &blocks,
        &rail_map,
        &ties,
        &weights,
        1,
    )
    .expect("the walk reaches the station");
    assert_eq!(node, 0);
    // three steps plus the weight at the second cell
    assert_eq!(dist, 13);
    assert_eq!(
        trace,
        vec![bc(0, 0, 0), bc(0, 0, -1), bc(0, 0, -2), bc(0, 0, -3)]
    );
}

#[test]
fn walk_reaches_switch_exit_labelled_against_travel() {
    let blocks = vec![
        rail(0, 0, 0, RailData::NS),
        rail(0, 0, -1, RailData::NS),
        rail(0, 0, -2, RailData::SE),
    ];
    let (rail_map, _sign_map) = build_block_maps(&blocks);
    let ties: CoordMap<Tie> = CoordMap::new();
    let weights: CoordMap<i32> = CoordMap::new();
    let stations: CoordMap<usize> = CoordMap::new();
    let mut switches: CoordMap<usize> = CoordMap::new();
    switches.insert(bc(0, 0, -2), 0);
    let (node, dist, _trace) = find_connection(
        bc(0, 0, 0),
        Direction::N,
        &stations,
        &switches,
        &blocks,
        &rail_map,
        &ties,
        &weights,
        5,
    )
    .expect("the walk reaches the switch");
    // travelling north into the switch enters through its south exit:
    // node id = numStations + 4 * switchIndex + directionIndex(S)
    assert_eq!(node, 5 + 4 * 0 + 1);
    assert_eq!(dist, 2);
}
