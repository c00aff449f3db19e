//! Station detector: an unpowered straight rail qualifies as a station
//! launch rail only if wall signs stand directly above it, one more above
//! that, and laterally on both sides perpendicular to the rail axis, all
//! four sharing one facing along the rail axis, and a detector rail stands
//! exactly one block beyond the rail in that facing direction. Detected
//! stations are sorted case-insensitively by name.

use vstd::prelude::*;
use vstd::utf8::encode_utf8;
use vstd::multiset::Multiset;

use crate::blocks::{
    Block,
    BlockID,
    Direction,
    SignData,
    Station,
    spec_is_straight,
    spec_is_north_south,
    spec_is_east_west,
    spec_sign_to_direction,
};
use crate::coords::BlockCoords;
use crate::maps::{CoordMap, spec_map_lookup};
use crate::strutil::{
    spec_lower_bytes,
    spec_bytes_le,
    lower_bytes_of_str,
    bytes_le,
    lemma_bytes_le_total,
    lemma_bytes_le_trans,
};

verus! {

/// What one detected station must hold: the launch rail's coordinates, the
/// name sign's text, and the shared sign facing.
pub struct StationDesc {
    pub coords: BlockCoords,
    pub name: Seq<char>,
    pub direction: Direction,
}

/// The index a coordinate map registers for `c`, if it names a block of
/// the list.
pub open spec fn spec_block_at(
    blocks: Seq<Block>,
    m: Seq<(BlockCoords, usize)>,
    c: BlockCoords,
) -> Option<usize> {
    match spec_map_lookup(m, c) {
        Some(i) => if i < blocks.len() {
            Some(i)
        } else {
            None
        },
        None => None,
    }
}

/// Whether a detector rail stands at `c`.
pub open spec fn spec_detector_at(
    blocks: Seq<Block>,
    rails: Seq<(BlockCoords, usize)>,
    c: BlockCoords,
) -> bool {
    match spec_block_at(blocks, rails, c) {
        Some(i) => blocks[i as int].id == BlockID::DetectorRail,
        None => false,
    }
}

/// The station detected on block `b`, if any: the index of its name sign
/// and the shared facing direction. The launch rail must be an unpowered
/// straight rail; the name sign sits two above it, the launch sign one
/// above, and the side signs one above and one block to each side
/// perpendicular to the rail axis; all four share one facing along the
/// axis; and a detector rail stands one block beyond the rail in the
/// facing direction.
pub open spec fn spec_station_of(
    b: Block,
    blocks: Seq<Block>,
    rails: Seq<(BlockCoords, usize)>,
    signs: Seq<(BlockCoords, usize)>,
) -> Option<(usize, Direction)> {
    let x = b.coords.x;
    let y = b.coords.y;
    let z = b.coords.z;
    let realm = b.coords.realm;
    if b.id != BlockID::UnpoweredRail || !spec_is_straight(b.rail_data) || y as int + 2
        > i32::MAX {
        None
    } else {
        let name_i = spec_block_at(
            blocks,
            signs,
            BlockCoords { x, y: (y + 2) as i32, z, realm },
        );
        let launch_i = spec_block_at(
            blocks,
            signs,
            BlockCoords { x, y: (y + 1) as i32, z, realm },
        );
        match (name_i, launch_i) {
            (Some(ni), Some(li)) => {
                let facing = blocks[ni as int].sign_data;
                if spec_is_north_south(b.rail_data) && x as int + 1 <= i32::MAX && x as int - 1
                    >= i32::MIN {
                    let s1 = spec_block_at(
                        blocks,
                        signs,
                        BlockCoords { x: (x + 1) as i32, y: (y + 1) as i32, z, realm },
                    );
                    let s2 = spec_block_at(
                        blocks,
                        signs,
                        BlockCoords { x: (x - 1) as i32, y: (y + 1) as i32, z, realm },
                    );
                    match (s1, s2) {
                        (Some(i1), Some(i2)) => {
                            if facing == blocks[li as int].sign_data && facing == blocks[
                                i1 as int].sign_data && facing == blocks[i2 as int].sign_data {
                                if facing == SignData::N && z as int - 1 >= i32::MIN
                                    && spec_detector_at(
                                    blocks,
                                    rails,
                                    BlockCoords { x, y, z: (z - 1) as i32, realm },
                                ) {
                                    Some((ni, Direction::N))
                                } else if facing == SignData::S && z as int + 1 <= i32::MAX
                                    && spec_detector_at(
                                    blocks,
                                    rails,
                                    BlockCoords { x, y, z: (z + 1) as i32, realm },
                                ) {
                                    Some((ni, Direction::S))
                                } else {
                                    None
                                }
                            } else {
                                None
                            }
                        },
                        _ => None,
                    }
                } else if spec_is_east_west(b.rail_data) && z as int + 1 <= i32::MAX && z as int
                    - 1 >= i32::MIN {
                    let s1 = spec_block_at(
                        blocks,
                        signs,
                        BlockCoords { x, y: (y + 1) as i32, z: (z + 1) as i32, realm },
                    );
                    let s2 = spec_block_at(
                        blocks,
                        signs,
                        BlockCoords { x, y: (y + 1) as i32, z: (z - 1) as i32, realm },
                    );
                    match (s1, s2) {
                        (Some(i1), Some(i2)) => {
                            if facing == blocks[li as int].sign_data && facing == blocks[
                                i1 as int].sign_data && facing == blocks[i2 as int].sign_data {
                                if facing == SignData::W && x as int - 1 >= i32::MIN
                                    && spec_detector_at(
                                    blocks,
                                    rails,
                                    BlockCoords { x: (x - 1) as i32, y, z, realm },
                                ) {
                                    Some((ni, Direction::W))
                                } else if facing == SignData::E && x as int + 1 <= i32::MAX
                                    && spec_detector_at(
                                    blocks,
                                    rails,
                                    BlockCoords { x: (x + 1) as i32, y, z, realm },
                                ) {
                                    Some((ni, Direction::E))
                                } else {
                                    None
                                }
                            } else {
                                None
                            }
                        },
                        _ => None,
                    }
                } else {
                    None
                }
            },
            _ => None,
        }
    }
}

/// The stations the first `k` blocks give rise to, in block order, before
/// sorting.
pub open spec fn spec_station_descs(
    blocks: Seq<Block>,
    rails: Seq<(BlockCoords, usize)>,
    signs: Seq<(BlockCoords, usize)>,
    k: int,
) -> Seq<StationDesc>
    decreases k,
{
    if k <= 0 {
        Seq::empty()
    } else {
        let rest = spec_station_descs(blocks, rails, signs, k - 1);
        match spec_station_of(blocks[k - 1], blocks, rails, signs) {
            Some((ni, d)) => rest.push(
                StationDesc {
                    coords: blocks[k - 1].coords,
                    name: blocks[ni as int].sign_text@,
                    direction: d,
                },
            ),
            None => rest,
        }
    }
}

/// The stations hold exactly what their descriptions say, in order.
pub open spec fn spec_stations_match(sts: Seq<Station>, descs: Seq<StationDesc>) -> bool {
    sts.len() == descs.len() && forall|i: int|
        0 <= i < descs.len() ==> {
            &&& (#[trigger] sts[i]).coords == descs[i].coords
            &&& sts[i].name@ == descs[i].name
            &&& sts[i].direction == descs[i].direction
        }
}

/// The sort key of a station: the ASCII-lowered bytes of its name.
/// Lowering is ASCII-only, so names are compared case-insensitively over
/// the ASCII letters and byte-for-byte beyond them.
pub open spec fn spec_station_key(st: Station) -> Seq<u8> {
    spec_lower_bytes(encode_utf8(st.name@))
}

/// The stations stand in case-insensitive name order.
pub open spec fn spec_sorted_stations(sts: Seq<Station>) -> bool {
    forall|i: int, j: int|
        0 <= i < j < sts.len() ==> spec_bytes_le(
            spec_station_key(#[trigger] sts[i]),
            spec_station_key(#[trigger] sts[j]),
        )
}

/// What `find_stations` returns: some list matching the detected stations
/// in block order, rearranged into case-insensitive name order.
pub open spec fn spec_find_stations_ok(
    blocks: Seq<Block>,
    rails: Seq<(BlockCoords, usize)>,
    signs: Seq<(BlockCoords, usize)>,
    result: Seq<Station>,
) -> bool {
    exists|pre: Seq<Station>|
        {
            &&& #[trigger] spec_stations_match(
                pre,
                spec_station_descs(blocks, rails, signs, blocks.len() as int),
            )
            &&& result.to_multiset() == pre.to_multiset()
            &&& spec_sorted_stations(result)
        }
}

/// Appends the station detected on a rail block, named and oriented by its
/// name sign.
pub fn push_station(stations: &mut Vec<Station>, rail_block: &Block, name_sign: &Block)
    requires
        name_sign.sign_data != SignData::U,
        name_sign.sign_data != SignData::D,
    ensures
        final(stations)@.len() == old(stations)@.len() + 1,
        final(stations)@.subrange(0, old(stations)@.len() as int) == old(stations)@,
        final(stations)@.last().coords == rail_block.coords,
        final(stations)@.last().name@ == name_sign.sign_text@,
        final(stations)@.last().direction == spec_sign_to_direction(name_sign.sign_data),
{
    let station = Station {
        coords: rail_block.coords,
        name: name_sign.sign_text.clone(),
        direction: name_sign.sign_data.to_direction(),
    };
    stations.push(station);
    proof {
        assert(stations@.subrange(0, old(stations)@.len() as int) =~= old(stations)@);
    }
}

/// Inserting an element anywhere adds exactly it to the multiset.
proof fn lemma_insert_to_multiset(s: Seq<Station>, i: int, x: Station)
    requires
        0 <= i <= s.len(),
    ensures
        s.insert(i, x).to_multiset() =~= s.to_multiset().insert(x),
{
    broadcast use vstd::seq_lib::group_to_multiset_ensures;

    let t = s.insert(i, x);
    assert(t.remove(i) =~= s);
    assert(t[i] == x);
    assert(t.remove(i).to_multiset() =~= t.to_multiset().remove(x));
    assert(t.contains(x));
    assert(t.to_multiset().count(x) > 0);
    assert(s.to_multiset().insert(x) =~= t.to_multiset().remove(x).insert(x));
    assert(t.to_multiset().remove(x).insert(x) =~= t.to_multiset());
}

/// Inserts a station into a name-sorted list, keeping it sorted and adding
/// exactly that station.
fn insert_sorted(out: &mut Vec<Station>, st: Station)
    requires
        spec_sorted_stations(old(out)@),
    ensures
        spec_sorted_stations(final(out)@),
        final(out)@.to_multiset() == old(out)@.to_multiset().insert(st),
        final(out)@.len() == old(out)@.len() + 1,
{
    let key = lower_bytes_of_str(st.name.as_str());
    proof {
        assert(key@ == spec_station_key(st));
    }
    let mut k: usize = 0;
    loop
        invariant
            k <= out@.len(),
            out@ == old(out)@,
            key@ == spec_station_key(st),
            spec_sorted_stations(out@),
            forall|i: int|
                0 <= i < k ==> spec_bytes_le(spec_station_key(#[trigger] out@[i]), key@),
        ensures
            k <= out@.len(),
            out@ == old(out)@,
            forall|i: int|
                0 <= i < k ==> spec_bytes_le(spec_station_key(#[trigger] out@[i]), key@),
            k < out@.len() ==> !spec_bytes_le(spec_station_key(out@[k as int]), key@),
        decreases out@.len() - k,
    {
        if k >= out.len() {
            break ;
        }
        let other = lower_bytes_of_str(out[k].name.as_str());
        if !bytes_le(&other, &key) {
            break ;
        }
        k = k + 1;
    }
    proof {
        if k < out@.len() {
            lemma_bytes_le_total(spec_station_key(out@[k as int]), key@);
        }
    }
    let ghost pre = out@;
    out.insert(k, st);
    proof {
        assert(out@ == pre.insert(k as int, st));
        lemma_insert_to_multiset(pre, k as int, st);
        assert forall|i: int, j: int| 0 <= i < j < out@.len() implies spec_bytes_le(
            spec_station_key(#[trigger] out@[i]),
            spec_station_key(#[trigger] out@[j]),
        ) by {
            if i < k && j == k {
            } else if i == k && j > k {
                assert(out@[j] == pre[j - 1]);
                if k < pre.len() {
                    if j - 1 > k {
                        lemma_bytes_le_trans(
                            key@,
                            spec_station_key(pre[k as int]),
                            spec_station_key(pre[j - 1]),
                        );
                    }
                }
            } else if i < k && j > k {
                assert(out@[i] == pre[i]);
                assert(out@[j] == pre[j - 1]);
            } else if i > k && j > k {
                assert(out@[i] == pre[i - 1]);
                assert(out@[j] == pre[j - 1]);
            } else {
                assert(out@[i] == pre[i]);
                assert(out@[j] == pre[j]);
            }
        }
    }
}

/// Detects every station among the blocks and returns them sorted
/// case-insensitively by name, ASCII case folding only.
#[verifier::loop_isolation(false)]
pub fn find_stations(
    blocks: &Vec<Block>,
    rail_map: &CoordMap<usize>,
    sign_map: &CoordMap<usize>,
) -> (r: Vec<Station>)
    ensures
        spec_find_stations_ok(blocks@, rail_map.entries@, sign_map.entries@, r@),
{
    let mut pre_list: Vec<Station> = Vec::new();
    let mut bi: usize = 0;
    while bi < blocks.len()
        invariant
            bi <= blocks@.len(),
            spec_stations_match(
                pre_list@,
                spec_station_descs(blocks@, rail_map.entries@, sign_map.entries@, bi as int),
            ),
        decreases blocks@.len() - bi,
    {
        let block = &blocks[bi];
        let detected = detect_station(block, blocks, rail_map, sign_map);
        if let Some((ni, d)) = detected {
            let name_sign = &blocks[ni];
            proof {
                assert(spec_station_of(
                    blocks@[bi as int],
                    blocks@,
                    rail_map.entries@,
                    sign_map.entries@,
                ) == Some((ni, d)));
                assert(blocks@[ni as int].sign_data != SignData::U && blocks@[
                    ni as int].sign_data != SignData::D);
                assert(d == spec_sign_to_direction(blocks@[ni as int].sign_data));
            }
            let ghost list_pre = pre_list@;
            push_station(&mut pre_list, block, name_sign);
            proof {
                let descs_prev = spec_station_descs(
                    blocks@,
                    rail_map.entries@,
                    sign_map.entries@,
                    bi as int,
                );
                let descs_new = spec_station_descs(
                    blocks@,
                    rail_map.entries@,
                    sign_map.entries@,
                    bi + 1,
                );
                assert(descs_new == descs_prev.push(
                    StationDesc {
                        coords: blocks@[bi as int].coords,
                        name: blocks@[ni as int].sign_text@,
                        direction: d,
                    },
                ));
                assert forall|i: int| 0 <= i < descs_new.len() implies {
                    &&& (#[trigger] pre_list@[i]).coords == descs_new[i].coords
                    &&& pre_list@[i].name@ == descs_new[i].name
                    &&& pre_list@[i].direction == descs_new[i].direction
                } by {
                    if i < descs_prev.len() {
                        assert(pre_list@[i] == pre_list@.subrange(0, list_pre.len() as int)[i]);
                        assert(pre_list@[i] == list_pre[i]);
                    } else {
                        assert(pre_list@[i] == pre_list@.last());
                    }
                }
            }
        }
        bi = bi + 1;
    }
    let ghost pre_view = pre_list@;
    let mut sorted: Vec<Station> = Vec::new();
    proof {
        broadcast use vstd::seq_lib::group_to_multiset_ensures;

        assert(Seq::<Station>::empty().to_multiset() =~= Multiset::<Station>::empty());
    }
    while pre_list.len() > 0
        invariant
            spec_sorted_stations(sorted@),
            sorted@.to_multiset().add(pre_list@.to_multiset()) == pre_view.to_multiset(),
        decreases pre_list@.len(),
    {
        let ghost plv = pre_list@;
        let st = pre_list.remove(0);
        proof {
            broadcast use vstd::seq_lib::group_to_multiset_ensures;

            assert(plv.remove(0) =~= pre_list@);
            assert(pre_list@.to_multiset() =~= plv.to_multiset().remove(st));
            assert(plv.to_multiset().count(st) > 0);
        }
        insert_sorted(&mut sorted, st);
        proof {
            assert(sorted@.to_multiset().add(pre_list@.to_multiset()) =~= pre_view.to_multiset());
        }
    }
    proof {
        broadcast use vstd::seq_lib::group_to_multiset_ensures;

        assert(pre_list@ =~= Seq::<Station>::empty());
        assert(sorted@.to_multiset() =~= pre_view.to_multiset());
        assert(spec_stations_match(
            pre_view,
            spec_station_descs(
                blocks@,
                rail_map.entries@,
                sign_map.entries@,
                blocks@.len() as int,
            ),
        ));
    }
    sorted
}

/// Runs the station detection on one block, mirroring the detection rule.
#[verifier::loop_isolation(false)]
fn detect_station(
    b: &Block,
    blocks: &Vec<Block>,
    rail_map: &CoordMap<usize>,
    sign_map: &CoordMap<usize>,
) -> (r: Option<(usize, Direction)>)
    ensures
        r == spec_station_of(*b, blocks@, rail_map.entries@, sign_map.entries@),
{
    let x = b.coords.x;
    let y = b.coords.y;
    let z = b.coords.z;
    let realm = b.coords.realm;
    if !(b.id == BlockID::UnpoweredRail) || !b.is_straight_rail() {
        return None;
    }
    let y2 = match y.checked_add(2) {
        Some(v) => v,
        None => {
            return None;
        },
    };
    let ni = match sign_block_at(blocks, sign_map, BlockCoords { x, y: y2, z, realm }) {
        Some(v) => v,
        None => {
            return None;
        },
    };
    let li = match sign_block_at(blocks, sign_map, BlockCoords { x, y: y + 1, z, realm }) {
        Some(v) => v,
        None => {
            return None;
        },
    };
    let facing = blocks[ni].sign_data;
    if b.is_north_south_rail() {
        let x1 = match x.checked_add(1) {
            Some(v) => v,
            None => {
                return None;
            },
        };
        let x2 = match x.checked_sub(1) {
            Some(v) => v,
            None => {
                return None;
            },
        };
        let i1 = match sign_block_at(blocks, sign_map, BlockCoords { x: x1, y: y + 1, z, realm }) {
            Some(v) => v,
            None => {
                return None;
            },
        };
        let i2 = match sign_block_at(blocks, sign_map, BlockCoords { x: x2, y: y + 1, z, realm }) {
            Some(v) => v,
            None => {
                return None;
            },
        };
        if facing == blocks[li].sign_data && facing == blocks[i1].sign_data && facing == blocks[
            i2].sign_data {
            if facing == SignData::N {
                if let Some(z1) = z.checked_sub(1) {
                    if detector_at(blocks, rail_map, BlockCoords { x, y, z: z1, realm }) {
                        return Some((ni, Direction::N));
                    }
                }
            }
            if facing == SignData::S {
                if let Some(z1) = z.checked_add(1) {
                    if detector_at(blocks, rail_map, BlockCoords { x, y, z: z1, realm }) {
                        return Some((ni, Direction::S));
                    }
                }
            }
        }
        return None;
    }
    if b.is_east_west_rail() {
        let z1 = match z.checked_add(1) {
            Some(v) => v,
            None => {
                return None;
            },
        };
        let z2 = match z.checked_sub(1) {
            Some(v) => v,
            None => {
                return None;
            },
        };
        let i1 = match sign_block_at(blocks, sign_map, BlockCoords { x, y: y + 1, z: z1, realm }) {
            Some(v) => v,
            None => {
                return None;
            },
        };
        let i2 = match sign_block_at(blocks, sign_map, BlockCoords { x, y: y + 1, z: z2, realm }) {
            Some(v) => v,
            None => {
                return None;
            },
        };
        if facing == blocks[li].sign_data && facing == blocks[i1].sign_data && facing == blocks[
            i2].sign_data {
            if facing == SignData::W {
                if let Some(x1) = x.checked_sub(1) {
                    if detector_at(blocks, rail_map, BlockCoords { x: x1, y, z, realm }) {
                        return Some((ni, Direction::W));
                    }
                }
            }
            if facing == SignData::E {
                if let Some(x1) = x.checked_add(1) {
                    if detector_at(blocks, rail_map, BlockCoords { x: x1, y, z, realm }) {
                        return Some((ni, Direction::E));
                    }
                }
            }
        }
        return None;
    }
    None
}

/// Looks up a block index registered for the coordinates.
fn sign_block_at(blocks: &Vec<Block>, m: &CoordMap<usize>, c: BlockCoords) -> (r: Option<usize>)
    ensures
        r == spec_block_at(blocks@, m.entries@, c),
        r matches Some(i) ==> i < blocks@.len(),
{
    match m.get(c) {
        Some(i) => if *i < blocks.len() {
            Some(*i)
        } else {
            None
        },
        None => None,
    }
}

/// Whether a detector rail stands at the coordinates.
fn detector_at(blocks: &Vec<Block>, rails: &CoordMap<usize>, c: BlockCoords) -> (r: bool)
    ensures
        r == spec_detector_at(blocks@, rails.entries@, c),
{
    match sign_block_at(blocks, rails, c) {
        Some(i) => blocks[i].id == BlockID::DetectorRail,
        None => false,
    }
}

} // verus!
