use railscan::blocks::{Block, BlockID, Direction, RailData, SignData, Station, Switch};
use railscan::coords::{BlockCoords, Realm};
use railscan::graph::{
    bool_to_int, find_distances, floyd_warshall, get_distance, get_num_nodes, is_switch_node,
    set_distance, switch_node_id,
};
use railscan::in_files::{build_ties_map, build_weights_map};
use railscan::maps::{build_block_maps, CoordMap, Tie};
use railscan::stations::find_stations;
use railscan::switches::find_switches;

fn bc(x: i32, y: i32, z: i32) -> BlockCoords {
    BlockCoords {
        x,
        y,
        z,
        realm: Realm::Overworld,
    }
}

fn rail(x: i32, y: i32, z: i32, data: RailData) -> Block {
    Block {
        coords: bc(x, y, z),
        id: BlockID::UnpoweredRail,
        rail_data: data,
        sign_data: SignData::N,
        sign_text: String::new(),
    }
}

fn detector(x: i32, y: i32, z: i32) -> Block {
    Block {
        coords: bc(x, y, z),
        id: BlockID::DetectorRail,
        rail_data: RailData::NS,
        sign_data: SignData::N,
        sign_text: String::new(),
    }
}

fn sign(x: i32, y: i32, z: i32, facing: SignData, text: &str) -> Block {
    Block {
        coords: bc(x, y, z),
        id: BlockID::OakWallSign,
        rail_data: RailData::NS,
        sign_data: facing,
        sign_text: text.to_string(),
    }
}

#[test]
fn matrix_helpers() {
    assert_eq!(bool_to_int(true), 1);
    assert_eq!(bool_to_int(false), 0);
    assert_eq!(get_num_nodes(&vec![0i32; 9]), 3);
    assert_eq!(get_num_nodes(&vec![0i32; 10]), 3);
    assert_eq!(get_num_nodes(&Vec::new()), 0);
    assert_eq!(switch_node_id(2, 3, 5), 16);
    assert!(is_switch_node(5, 5));
    assert!(!is_switch_node(4, 5));
    let mut m = vec![0i32; 4];
    set_distance(&mut m, 2, 1, 0, 7);
    assert_eq!(get_distance(&m, 2, 1, 0), 7);
    assert_eq!(m, vec![0, 0, 7, 0]);
}

#[test]
fn three_node_path_relaxes_to_ten() {
    // path graph A - B(5) - C(5) with no direct A - C edge
    let n = 3usize;
    let mut d = vec![i32::MAX; n * n];
    for i in 0..n {
        set_distance(&mut d, n, i, i, 0);
    }
    set_distance(&mut d, n, 0, 1, 5);
    set_distance(&mut d, n, 1, 0, 5);
    set_distance(&mut d, n, 1, 2, 5);
    set_distance(&mut d, n, 2, 1, 5);
    floyd_warshall(&mut d, n);
    assert_eq!(get_distance(&d, n, 0, 2), 10);
    assert_eq!(get_distance(&d, n, 2, 0), 10);
    for i in 0..n {
        assert_eq!(get_distance(&d, n, i, i), 0);
    }
}

#[test]
fn station_pair_distances() {
    // two stations joined by a straight north-south line
    let mut blocks = Vec::new();
    for z in 0..=5 {
        blocks.push(rail(0, 0, -z, RailData::NS));
    }
    let (rail_map, _signs) = build_block_maps(&blocks);
    let stations = vec![
        Station {
            coords: bc(0, 0, 0),
            name: "alpha".to_string(),
            direction: Direction::N,
        },
        Station {
            coords: bc(0, 0, -5),
            name: "omega".to_string(),
            direction: Direction::S,
        },
    ];
    let switches: Vec<Switch> = Vec::new();
    let ties: CoordMap<Tie> = CoordMap::new();
    let weights: CoordMap<i32> = CoordMap::new();
    let (d, coords) = find_distances(&stations, &switches, &blocks, &rail_map, &ties, &weights)
        .expect("the graph resolves");
    // matrix side length is numStations + 4 * numSwitches
    assert_eq!(d.len(), 4);
    assert_eq!(get_distance(&d, 2, 0, 1), 5);
    assert_eq!(get_distance(&d, 2, 1, 0), 5);
    assert_eq!(get_distance(&d, 2, 0, 0), 0);
    assert_eq!(get_distance(&d, 2, 1, 1), 0);
    // both walks were recorded, six coordinates each
    assert_eq!(coords.len(), 12);
}

#[test]
fn same_switch_exits_carry_distance_two() {
    // one switch with three present exits, each two steps from a station
    let mut blocks = vec![rail(0, 0, 0, RailData::SE)];
    blocks.push(rail(0, 0, -1, RailData::NS));
    blocks.push(rail(0, 0, -2, RailData::NS));
    blocks.push(rail(0, 0, 1, RailData::NS));
    blocks.push(rail(0, 0, 2, RailData::NS));
    blocks.push(rail(-1, 0, 0, RailData::EW));
    blocks.push(rail(-2, 0, 0, RailData::EW));
    let (rail_map, _signs) = build_block_maps(&blocks);
    let stations = vec![
        Station {
            coords: bc(0, 0, -2),
            name: "north end".to_string(),
            direction: Direction::S,
        },
        Station {
            coords: bc(0, 0, 2),
            name: "south end".to_string(),
            direction: Direction::N,
        },
        Station {
            coords: bc(-2, 0, 0),
            name: "west end".to_string(),
            direction: Direction::E,
        },
    ];
    let switches = vec![Switch {
        coords: bc(0, 0, 0),
        has_directions: [true, true, true, false],
    }];
    let ties: CoordMap<Tie> = CoordMap::new();
    let weights: CoordMap<i32> = CoordMap::new();
    let (d, _coords) = find_distances(&stations, &switches, &blocks, &rail_map, &ties, &weights)
        .expect("the graph resolves");
    let n = 3 + 4;
    assert_eq!(d.len(), n * n);
    // the present exits of one switch stand at mutual distance exactly two
    let north_exit = switch_node_id(0, 0, 3);
    let south_exit = switch_node_id(0, 1, 3);
    let west_exit = switch_node_id(0, 2, 3);
    assert_eq!(get_distance(&d, n, north_exit, south_exit), 2);
    assert_eq!(get_distance(&d, n, south_exit, north_exit), 2);
    assert_eq!(get_distance(&d, n, north_exit, west_exit), 2);
    assert_eq!(get_distance(&d, n, west_exit, south_exit), 2);
    // every present node keeps a zero self-distance
    for sid in 0..3 {
        assert_eq!(get_distance(&d, n, sid, sid), 0);
    }
    for exit in [north_exit, south_exit, west_exit] {
        assert_eq!(get_distance(&d, n, exit, exit), 0);
    }
    // the absent east exit also keeps a zero self-distance
    let east_exit = switch_node_id(0, 3, 3);
    assert_eq!(get_distance(&d, n, east_exit, east_exit), 0);
}

fn station_candidate_blocks(facing: SignData) -> Vec<Block> {
    vec![
        rail(0, 0, 0, RailData::NS),
        detector(0, 0, -1),
        sign(0, 1, 0, facing, "launch"),
        sign(0, 2, 0, facing, "Central"),
        sign(1, 1, 0, facing, "left"),
        sign(-1, 1, 0, facing, "right"),
    ]
}

#[test]
fn station_detected_with_all_four_signs() {
    let blocks = station_candidate_blocks(SignData::N);
    let (rail_map, sign_map) = build_block_maps(&blocks);
    let stations = find_stations(&blocks, &rail_map, &sign_map);
    assert_eq!(stations.len(), 1);
    assert_eq!(stations[0].coords, bc(0, 0, 0));
    assert_eq!(stations[0].name, "Central");
    assert_eq!(stations[0].direction, Direction::N);
}

#[test]
fn station_rejected_when_one_sign_is_missing() {
    for skip in 2..6 {
        let mut blocks = station_candidate_blocks(SignData::N);
        blocks.remove(skip);
        let (rail_map, sign_map) = build_block_maps(&blocks);
        let stations = find_stations(&blocks, &rail_map, &sign_map);
        assert!(stations.is_empty());
    }
}

#[test]
fn station_rejected_on_mismatched_facing() {
    let mut blocks = station_candidate_blocks(SignData::N);
    blocks[4] = sign(1, 1, 0, SignData::S, "left");
    let (rail_map, sign_map) = build_block_maps(&blocks);
    let stations = find_stations(&blocks, &rail_map, &sign_map);
    assert!(stations.is_empty());
}

#[test]
fn station_rejected_without_detector() {
    let mut blocks = station_candidate_blocks(SignData::N);
    blocks.remove(1);
    let (rail_map, sign_map) = build_block_maps(&blocks);
    let stations = find_stations(&blocks, &rail_map, &sign_map);
    assert!(stations.is_empty());
}

#[test]
fn stations_sort_case_insensitively() {
    let mut blocks = station_candidate_blocks(SignData::N);
    blocks[3] = sign(0, 2, 0, SignData::N, "zeta");
    let mut second = vec![
        rail(50, 0, 0, RailData::NS),
        detector(50, 0, -1),
        sign(50, 1, 0, SignData::N, "launch"),
        sign(50, 2, 0, SignData::N, "Alpha"),
        sign(51, 1, 0, SignData::N, "left"),
        sign(49, 1, 0, SignData::N, "right"),
    ];
    blocks.append(&mut second);
    let (rail_map, sign_map) = build_block_maps(&blocks);
    let stations = find_stations(&blocks, &rail_map, &sign_map);
    assert_eq!(stations.len(), 2);
    assert_eq!(stations[0].name, "Alpha");
    assert_eq!(stations[1].name, "zeta");
}

fn switch_candidate_blocks(directions: usize) -> Vec<Block> {
    let mut blocks = vec![rail(0, 0, 0, RailData::SE)];
    let offsets = [(0, -1), (0, 1), (-1, 0), (1, 0)];
    for (i, &(dx, dz)) in offsets.iter().enumerate() {
        if i < directions {
            blocks.push(rail(dx, 0, dz, RailData::NS));
            blocks.push(detector(2 * dx, 0, 2 * dz));
        }
    }
    blocks
}

#[test]
fn switch_detected_with_three_directions() {
    let blocks = switch_candidate_blocks(3);
    let (rail_map, _signs) = build_block_maps(&blocks);
    let switches = find_switches(&blocks, &rail_map);
    assert_eq!(switches.len(), 1);
    assert_eq!(switches[0].coords, bc(0, 0, 0));
    assert_eq!(switches[0].has_directions, [true, true, true, false]);
}

#[test]
fn switch_rejected_with_two_directions() {
    let blocks = switch_candidate_blocks(2);
    let (rail_map, _signs) = build_block_maps(&blocks);
    let switches = find_switches(&blocks, &rail_map);
    assert!(switches.is_empty());
}

#[test]
fn switch_detected_with_four_directions() {
    let blocks = switch_candidate_blocks(4);
    let (rail_map, _signs) = build_block_maps(&blocks);
    let switches = find_switches(&blocks, &rail_map);
    assert_eq!(switches.len(), 1);
    assert_eq!(switches[0].has_directions, [true, true, true, true]);
}

#[test]
fn ties_file_round_trip() {
    let lines = vec![
        "1\t2\t3\toverworld\tn\t10\t20\t30\tnether\te".to_string(),
    ];
    let ties = build_ties_map(&lines).expect("the line parses");
    let tie = ties.get(bc(1, 2, 3)).expect("the tie is registered");
    assert_eq!(tie.to_coords.x, 10);
    assert_eq!(tie.to_coords.y, 20);
    assert_eq!(tie.to_coords.z, 30);
    assert_eq!(tie.to_coords.realm, Realm::Nether);
    assert_eq!(tie.from_direction, Direction::N);
    assert_eq!(tie.to_direction, Direction::E);
}

#[test]
fn ties_file_rejects_short_lines() {
    let lines = vec!["1\t2\t3\toverworld\tn".to_string()];
    assert!(build_ties_map(&lines).is_err());
    let bad = vec!["a\tb\tc\toverworld\tn\t1\t2\t3\toverworld\te".to_string()];
    assert!(build_ties_map(&bad).is_err());
}

#[test]
fn weights_file_round_trip() {
    let lines = vec![
        "5\t6\t7\tend\t-4".to_string(),
        "5\t6\t7\tend\t9".to_string(),
    ];
    let weights = build_weights_map(&lines).expect("the lines parse");
    // the later line overrides the earlier one
    let c = BlockCoords {
        x: 5,
        y: 6,
        z: 7,
        realm: Realm::End,
    };
    assert_eq!(weights.get(c), Some(&9));
    assert!(build_weights_map(&vec!["1\t2\t3".to_string()]).is_err());
}
