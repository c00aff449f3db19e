use railscan::blocks::{Block, BlockID, RailData, SignData, Direction};
use railscan::coords::{BlockCoords, ChunkCoords, Realm};
use railscan::explore::{find_more_chunk_coords_to_process, is_block_at_chunk_edge};
use railscan::maps::{CoordMap, Tie};

fn bc(x: i32, y: i32, z: i32) -> BlockCoords {
    BlockCoords {
        x,
        y,
        z,
        realm: Realm::Overworld,
    }
}

fn cc(x: i32, z: i32) -> ChunkCoords {
    ChunkCoords {
        x,
        z,
        realm: Realm::Overworld,
    }
}

fn block(x: i32, y: i32, z: i32, id: BlockID, data: RailData) -> Block {
    Block {
        coords: bc(x, y, z),
        id,
        rail_data: data,
        sign_data: SignData::N,
        sign_text: String::new(),
    }
}

#[test]
fn edge_detection() {
    let b = block(0, 0, 15, BlockID::UnpoweredRail, RailData::NS);
    assert_eq!(is_block_at_chunk_edge(&b), (false, true, true, false));
    let c = block(-16, 0, -16, BlockID::UnpoweredRail, RailData::NS);
    assert_eq!(is_block_at_chunk_edge(&c), (true, false, true, false));
    let d = block(7, 0, 9, BlockID::UnpoweredRail, RailData::NS);
    assert_eq!(is_block_at_chunk_edge(&d), (false, false, false, false));
}

#[test]
fn straight_rail_at_edge_pulls_in_neighbour() {
    let blocks = vec![block(5, 0, 0, BlockID::UnpoweredRail, RailData::NS)];
    let ties: CoordMap<Tie> = CoordMap::new();
    let more = find_more_chunk_coords_to_process(&blocks, &ties);
    assert_eq!(more, vec![cc(0, -1)]);
}

#[test]
fn perpendicular_rail_at_edge_pulls_in_nothing() {
    let blocks = vec![block(5, 0, 0, BlockID::UnpoweredRail, RailData::EW)];
    let ties: CoordMap<Tie> = CoordMap::new();
    let more = find_more_chunk_coords_to_process(&blocks, &ties);
    assert!(more.is_empty());
}

#[test]
fn curved_rail_at_edge_always_pulls_in_neighbour() {
    let blocks = vec![block(0, 0, 8, BlockID::UnpoweredRail, RailData::SE)];
    let ties: CoordMap<Tie> = CoordMap::new();
    let more = find_more_chunk_coords_to_process(&blocks, &ties);
    assert_eq!(more, vec![cc(-1, 0)]);
}

#[test]
fn tie_pulls_in_target_chunk() {
    let blocks = vec![block(5, 0, 5, BlockID::UnpoweredRail, RailData::NS)];
    let mut ties: CoordMap<Tie> = CoordMap::new();
    ties.insert(
        bc(5, 0, 5),
        Tie {
            to_coords: bc(1000, 0, -1000),
            from_direction: Direction::N,
            to_direction: Direction::N,
        },
    );
    let more = find_more_chunk_coords_to_process(&blocks, &ties);
    assert_eq!(more, vec![cc(62, -63)]);
}

#[test]
fn candidate_station_centre_pulls_in_twenty_chunks() {
    let blocks = vec![
        block(8, 0, 8, BlockID::UnpoweredRail, RailData::NS),
        block(8, 1, 8, BlockID::OakWallSign, RailData::NS),
        block(8, 2, 8, BlockID::OakWallSign, RailData::NS),
    ];
    let ties: CoordMap<Tie> = CoordMap::new();
    let more = find_more_chunk_coords_to_process(&blocks, &ties);
    assert_eq!(more.len(), 20);
    // the four outer corners and the centre are left out
    assert!(!more.contains(&cc(0, 0)));
    assert!(!more.contains(&cc(-2, -2)));
    assert!(!more.contains(&cc(2, 2)));
    assert!(more.contains(&cc(-2, 0)));
    assert!(more.contains(&cc(1, 1)));
    assert!(more.contains(&cc(0, 2)));
}

#[test]
fn powered_rail_candidate_is_not_a_station_centre() {
    let blocks = vec![
        block(8, 0, 8, BlockID::PoweredRail, RailData::NS),
        block(8, 1, 8, BlockID::OakWallSign, RailData::NS),
        block(8, 2, 8, BlockID::OakWallSign, RailData::NS),
    ];
    let ties: CoordMap<Tie> = CoordMap::new();
    let more = find_more_chunk_coords_to_process(&blocks, &ties);
    assert!(more.is_empty());
}
