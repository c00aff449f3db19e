//! Track Walker: follows physical rail continuity, plus explicit tie
//! overrides, one block at a time. A state is a (coordinates, travel
//! direction) pair; a fixed lookup table keyed by the current rail
//! orientation and travel direction enumerates the candidate continuations.

use vstd::prelude::*;
use crate::blocks::{
    Block,
    Direction,
    RailData,
    spec_is_curved,
    spec_is_rail_id,
};
use crate::coords::BlockCoords;
use crate::error::Error;
use crate::maps::{CoordMap, Tie, spec_map_lookup};

verus! {

/// One candidate continuation: the rail orientation required at the next
/// horizontal cell, the resulting travel direction, and the vertical offset
/// of the next cell.
pub type Candidate = (RailData, Direction, i32);

/// The candidates for travel heading north out of a plain cell.
pub open spec fn spec_regular_north() -> Seq<Candidate> {
    seq![
        (RailData::NS, Direction::N, 0i32),
        (RailData::AN, Direction::N, 0i32),
        (RailData::AS, Direction::N, -1i32),
        (RailData::SE, Direction::E, 0i32),
        (RailData::SW, Direction::W, 0i32),
        (RailData::NW, Direction::N, 0i32),
        (RailData::NE, Direction::N, 0i32),
    ]
}

/// The candidates for travel heading south out of a plain cell.
pub open spec fn spec_regular_south() -> Seq<Candidate> {
    seq![
        (RailData::NS, Direction::S, 0i32),
        (RailData::AN, Direction::S, -1i32),
        (RailData::AS, Direction::S, 0i32),
        (RailData::SE, Direction::S, 0i32),
        (RailData::SW, Direction::S, 0i32),
        (RailData::NW, Direction::W, 0i32),
        (RailData::NE, Direction::E, 0i32),
    ]
}

/// The candidates for travel heading west out of a plain cell.
pub open spec fn spec_regular_west() -> Seq<Candidate> {
    seq![
        (RailData::EW, Direction::W, 0i32),
        (RailData::AE, Direction::W, -1i32),
        (RailData::AW, Direction::W, 0i32),
        (RailData::SE, Direction::S, 0i32),
        (RailData::SW, Direction::W, 0i32),
        (RailData::NW, Direction::W, 0i32),
        (RailData::NE, Direction::N, 0i32),
    ]
}

/// The candidates for travel heading east out of a plain cell.
pub open spec fn spec_regular_east() -> Seq<Candidate> {
    seq![
        (RailData::EW, Direction::E, 0i32),
        (RailData::AE, Direction::E, 0i32),
        (RailData::AW, Direction::E, -1i32),
        (RailData::SE, Direction::E, 0i32),
        (RailData::SW, Direction::S, 0i32),
        (RailData::NW, Direction::N, 0i32),
        (RailData::NE, Direction::E, 0i32),
    ]
}

/// The fixed continuation table: which (required orientation, new
/// direction, vertical offset) candidates to probe for a current rail
/// orientation and travel direction. Curved rail ignores its own declared
/// shape, because a curve at a switch is set at routing time, and offers
/// every plausible continuation of the incoming direction. `None` marks a
/// rail/direction pairing that cannot occur on a consistent network.
pub open spec fn spec_blocks_to_check(rail_data: RailData, direction: Direction) -> Option<
    Seq<Candidate>,
> {
    if spec_is_curved(rail_data) {
        Some(
            match direction {
                Direction::N => spec_regular_north(),
                Direction::S => spec_regular_south(),
                Direction::W => spec_regular_west(),
                Direction::E => spec_regular_east(),
            },
        )
    } else {
        match (rail_data, direction) {
            (RailData::NS, Direction::N) => Some(spec_regular_north()),
            (RailData::NS, Direction::S) => Some(spec_regular_south()),
            (RailData::EW, Direction::W) => Some(spec_regular_west()),
            (RailData::EW, Direction::E) => Some(spec_regular_east()),
            (RailData::AE, Direction::W) => Some(spec_regular_west()),
            (RailData::AW, Direction::E) => Some(spec_regular_east()),
            (RailData::AN, Direction::S) => Some(spec_regular_south()),
            (RailData::AS, Direction::N) => Some(spec_regular_north()),
            (RailData::AE, Direction::E) => Some(
                seq![
                    (RailData::EW, Direction::E, 1i32),
                    (RailData::AE, Direction::E, 1i32),
                    (RailData::SE, Direction::E, 1i32),
                    (RailData::SW, Direction::S, 1i32),
                    (RailData::NW, Direction::N, 1i32),
                    (RailData::NE, Direction::E, 1i32),
                ],
            ),
            (RailData::AW, Direction::W) => Some(
                seq![
                    (RailData::EW, Direction::W, 1i32),
                    (RailData::AW, Direction::W, 1i32),
                    (RailData::SE, Direction::S, 1i32),
                    (RailData::SW, Direction::W, 1i32),
                    (RailData::NW, Direction::W, 1i32),
                    (RailData::NE, Direction::N, 1i32),
                ],
            ),
            (RailData::AN, Direction::N) => Some(
                seq![
                    (RailData::NS, Direction::N, 1i32),
                    (RailData::AN, Direction::N, 1i32),
                    (RailData::SE, Direction::E, 1i32),
                    (RailData::SW, Direction::W, 1i32),
                    (RailData::NW, Direction::N, 1i32),
                    (RailData::NE, Direction::N, 1i32),
                ],
            ),
            (RailData::AS, Direction::S) => Some(
                seq![
                    (RailData::NS, Direction::S, 1i32),
                    (RailData::AS, Direction::S, 1i32),
                    (RailData::SE, Direction::S, 1i32),
                    (RailData::SW, Direction::S, 1i32),
                    (RailData::NW, Direction::W, 1i32),
                    (RailData::NE, Direction::E, 1i32),
                ],
            ),
            _ => None,
        }
    }
}

/// Builds the continuation candidates for a current rail orientation and
/// travel direction.
pub fn blocks_to_check(current_rail_data: RailData, current_direction: Direction) -> (r: Option<
    Vec<Candidate>,
>)
    ensures
        match r {
            Some(v) => spec_blocks_to_check(current_rail_data, current_direction) == Some(v@),
            None => spec_blocks_to_check(current_rail_data, current_direction) is None,
        },
{
    let regular: Option<Direction> = if current_rail_data.is_curved() {
        Some(current_direction)
    } else {
        match (current_rail_data, current_direction) {
            (RailData::NS, Direction::N) => Some(Direction::N),
            (RailData::NS, Direction::S) => Some(Direction::S),
            (RailData::EW, Direction::W) => Some(Direction::W),
            (RailData::EW, Direction::E) => Some(Direction::E),
            (RailData::AE, Direction::W) => Some(Direction::W),
            (RailData::AW, Direction::E) => Some(Direction::E),
            (RailData::AN, Direction::S) => Some(Direction::S),
            (RailData::AS, Direction::N) => Some(Direction::N),
            _ => None,
        }
    };
    if let Some(d) = regular {
        let v: Vec<Candidate> = match d {
            Direction::N => vec![
                (RailData::NS, Direction::N, 0i32),
                (RailData::AN, Direction::N, 0i32),
                (RailData::AS, Direction::N, -1i32),
                (RailData::SE, Direction::E, 0i32),
                (RailData::SW, Direction::W, 0i32),
                (RailData::NW, Direction::N, 0i32),
                (RailData::NE, Direction::N, 0i32),
            ],
            Direction::S => vec![
                (RailData::NS, Direction::S, 0i32),
                (RailData::AN, Direction::S, -1i32),
                (RailData::AS, Direction::S, 0i32),
                (RailData::SE, Direction::S, 0i32),
                (RailData::SW, Direction::S, 0i32),
                (RailData::NW, Direction::W, 0i32),
                (RailData::NE, Direction::E, 0i32),
            ],
            Direction::W => vec![
                (RailData::EW, Direction::W, 0i32),
                (RailData::AE, Direction::W, -1i32),
                (RailData::AW, Direction::W, 0i32),
                (RailData::SE, Direction::S, 0i32),
                (RailData::SW, Direction::W, 0i32),
                (RailData::NW, Direction::W, 0i32),
                (RailData::NE, Direction::N, 0i32),
            ],
            Direction::E => vec![
                (RailData::EW, Direction::E, 0i32),
                (RailData::AE, Direction::E, 0i32),
                (RailData::AW, Direction::E, -1i32),
                (RailData::SE, Direction::E, 0i32),
                (RailData::SW, Direction::S, 0i32),
                (RailData::NW, Direction::N, 0i32),
                (RailData::NE, Direction::E, 0i32),
            ],
        };
        proof {
            assert(spec_blocks_to_check(current_rail_data, current_direction) == Some(v@));
        }
        return Some(v);
    }
    match (current_rail_data, current_direction) {
        (RailData::AE, Direction::E) => Some(
            vec![
                (RailData::EW, Direction::E, 1i32),
                (RailData::AE, Direction::E, 1i32),
                (RailData::SE, Direction::E, 1i32),
                (RailData::SW, Direction::S, 1i32),
                (RailData::NW, Direction::N, 1i32),
                (RailData::NE, Direction::E, 1i32),
            ],
        ),
        (RailData::AW, Direction::W) => Some(
            vec![
                (RailData::EW, Direction::W, 1i32),
                (RailData::AW, Direction::W, 1i32),
                (RailData::SE, Direction::S, 1i32),
                (RailData::SW, Direction::W, 1i32),
                (RailData::NW, Direction::W, 1i32),
                (RailData::NE, Direction::N, 1i32),
            ],
        ),
        (RailData::AN, Direction::N) => Some(
            vec![
                (RailData::NS, Direction::N, 1i32),
                (RailData::AN, Direction::N, 1i32),
                (RailData::SE, Direction::E, 1i32),
                (RailData::SW, Direction::W, 1i32),
                (RailData::NW, Direction::N, 1i32),
                (RailData::NE, Direction::N, 1i32),
            ],
        ),
        (RailData::AS, Direction::S) => Some(
            vec![
                (RailData::NS, Direction::S, 1i32),
                (RailData::AS, Direction::S, 1i32),
                (RailData::SE, Direction::S, 1i32),
                (RailData::SW, Direction::S, 1i32),
                (RailData::NW, Direction::W, 1i32),
                (RailData::NE, Direction::E, 1i32),
            ],
        ),
        _ => None,
    }
}

/// The horizontal neighbor of `coords` one cell along `direction`, if it
/// stays inside the coordinate range.
pub open spec fn spec_neighbor(coords: BlockCoords, direction: Direction) -> Option<BlockCoords> {
    let (nx, nz) = match direction {
        Direction::N => (coords.x as int, coords.z as int - 1),
        Direction::S => (coords.x as int, coords.z as int + 1),
        Direction::W => (coords.x as int - 1, coords.z as int),
        Direction::E => (coords.x as int + 1, coords.z as int),
    };
    if i32::MIN <= nx <= i32::MAX && i32::MIN <= nz <= i32::MAX {
        Some(BlockCoords { x: nx as i32, y: coords.y, z: nz as i32, realm: coords.realm })
    } else {
        None
    }
}

/// Whether the rail map holds, at the candidate's cell, a rail block of the
/// candidate's required orientation.
pub open spec fn spec_candidate_matches(
    cand: Candidate,
    base: BlockCoords,
    blocks: Seq<Block>,
    rails: Seq<(BlockCoords, usize)>,
) -> bool {
    let y = base.y as int + cand.2 as int;
    &&& i32::MIN <= y <= i32::MAX
    &&& match spec_map_lookup(
        rails,
        BlockCoords { x: base.x, y: y as i32, z: base.z, realm: base.realm },
    ) {
        Some(idx) => {
            &&& idx < blocks.len()
            &&& spec_is_rail_id(blocks[idx as int].id)
            &&& blocks[idx as int].rail_data == cand.0
        },
        None => false,
    }
}

/// The first candidate of the list whose cell holds a matching rail, with
/// the new state it leads to.
pub open spec fn spec_first_candidate(
    cands: Seq<Candidate>,
    base: BlockCoords,
    blocks: Seq<Block>,
    rails: Seq<(BlockCoords, usize)>,
) -> Option<(BlockCoords, Direction)>
    decreases cands.len(),
{
    if cands.len() == 0 {
        None
    } else {
        let c = cands[0];
        if spec_candidate_matches(c, base, blocks, rails) {
            Some(
                (
                    BlockCoords {
                        x: base.x,
                        y: (base.y + c.2) as i32,
                        z: base.z,
                        realm: base.realm,
                    },
                    c.1,
                ),
            )
        } else {
            spec_first_candidate(cands.drop_first(), base, blocks, rails)
        }
    }
}

/// One walker transition out of state (`coords`, `direction`): a matching
/// tie jumps to its target state; otherwise the continuation table is
/// probed at the horizontal neighbor, and the first matching candidate is
/// taken. `None` is a dead end on an inconsistent network.
pub open spec fn spec_next_rail(
    coords: BlockCoords,
    direction: Direction,
    blocks: Seq<Block>,
    rails: Seq<(BlockCoords, usize)>,
    ties: Seq<(BlockCoords, Tie)>,
) -> Option<(BlockCoords, Direction)> {
    match spec_map_lookup(ties, coords) {
        Some(tie) => if tie.from_direction == direction {
            Some((tie.to_coords, tie.to_direction))
        } else {
            spec_next_physical(coords, direction, blocks, rails)
        },
        None => spec_next_physical(coords, direction, blocks, rails),
    }
}

/// One physical walker transition: the continuation table keyed by the rail
/// orientation under the walker, probed at the horizontal neighbor.
pub open spec fn spec_next_physical(
    coords: BlockCoords,
    direction: Direction,
    blocks: Seq<Block>,
    rails: Seq<(BlockCoords, usize)>,
) -> Option<(BlockCoords, Direction)> {
    match spec_map_lookup(rails, coords) {
        Some(idx) => if idx < blocks.len() {
            match spec_blocks_to_check(blocks[idx as int].rail_data, direction) {
                Some(cands) => match spec_neighbor(coords, direction) {
                    Some(base) => spec_first_candidate(cands, base, blocks, rails),
                    None => None,
                },
                None => None,
            }
        } else {
            None
        },
        None => None,
    }
}

/// Finds the next rail block from the given state: a matching tie wins,
/// else the first matching candidate of the continuation table. A dead end
/// is a fatal inconsistency, reported with the failing coordinates.
#[verifier::loop_isolation(false)]
pub fn find_next_rail_block(
    coords: BlockCoords,
    direction: Direction,
    blocks: &Vec<Block>,
    rail_map: &CoordMap<usize>,
    ties_map: &CoordMap<Tie>,
) -> (r: Result<(BlockCoords, Direction), Error>)
    ensures
        match r {
            Ok(v) => spec_next_rail(coords, direction, blocks@, rail_map.entries@, ties_map.entries@)
                == Some(v),
            Err(e) => {
                &&& spec_next_rail(
                    coords,
                    direction,
                    blocks@,
                    rail_map.entries@,
                    ties_map.entries@,
                ) is None
                &&& e == Error::InconsistentTopology(coords)
            },
        },
{
    if let Some(tie) = ties_map.get(coords) {
        if tie.from_direction == direction {
            return Ok((tie.to_coords, tie.to_direction));
        }
    }
    let idx: usize = match rail_map.get(coords) {
        Some(i) => *i,
        None => {
            return Err(Error::InconsistentTopology(coords));
        },
    };
    if idx >= blocks.len() {
        return Err(Error::InconsistentTopology(coords));
    }
    let current_rail_data = blocks[idx].rail_data;
    let cands = match blocks_to_check(current_rail_data, direction) {
        Some(v) => v,
        None => {
            return Err(Error::InconsistentTopology(coords));
        },
    };
    let (nxo, nzo): (Option<i32>, Option<i32>) = match direction {
        Direction::N => (Some(coords.x), coords.z.checked_sub(1)),
        Direction::S => (Some(coords.x), coords.z.checked_add(1)),
        Direction::W => (coords.x.checked_sub(1), Some(coords.z)),
        Direction::E => (coords.x.checked_add(1), Some(coords.z)),
    };
    let (new_x, new_z) = match (nxo, nzo) {
        (Some(a), Some(b)) => (a, b),
        _ => {
            return Err(Error::InconsistentTopology(coords));
        },
    };
    let base = BlockCoords { x: new_x, y: coords.y, z: new_z, realm: coords.realm };
    let ghost all_cands = cands@;
    let mut k: usize = 0;
    proof {
        assert(all_cands.subrange(0, all_cands.len() as int) =~= all_cands);
    }
    while k < cands.len()
        invariant
            k <= all_cands.len(),
            all_cands == cands@,
            spec_neighbor(coords, direction) == Some(base),
            spec_first_candidate(all_cands, base, blocks@, rail_map.entries@)
                == spec_first_candidate(
                all_cands.subrange(k as int, all_cands.len() as int),
                base,
                blocks@,
                rail_map.entries@,
            ),
        decreases all_cands.len() - k,
    {
        proof {
            let tail = all_cands.subrange(k as int, all_cands.len() as int);
            assert(tail[0] == all_cands[k as int]);
            assert(tail.drop_first() =~= all_cands.subrange(k + 1, all_cands.len() as int));
        }
        let (need_rail, new_direction, y_offset) = cands[k];
        if let Some(ny) = base.y.checked_add(y_offset) {
            let new_coords = BlockCoords { x: base.x, y: ny, z: base.z, realm: base.realm };
            if let Some(bi) = rail_map.get(new_coords) {
                if *bi < blocks.len() {
                    let nb = &blocks[*bi];
                    if nb.is_rail() && nb.rail_data == need_rail {
                        proof {
                            let tail = all_cands.subrange(k as int, all_cands.len() as int);
                            assert(spec_candidate_matches(
                                all_cands[k as int],
                                base,
                                blocks@,
                                rail_map.entries@,
                            ));
                            assert(spec_first_candidate(tail, base, blocks@, rail_map.entries@)
                                == Some((new_coords, new_direction)));
                            assert(spec_first_candidate(all_cands, base, blocks@, rail_map.entries@)
                                == Some((new_coords, new_direction)));
                        }
                        return Ok((new_coords, new_direction));
                    }
                }
            }
        }
        proof {
            assert(!spec_candidate_matches(
                all_cands[k as int],
                base,
                blocks@,
                rail_map.entries@,
            ));
        }
        k = k + 1;
    }
    proof {
        assert(all_cands.subrange(k as int, all_cands.len() as int) =~= Seq::<Candidate>::empty());
    }
    Err(Error::InconsistentTopology(coords))
}

/// Every physical step leaves realm and the cross-axis coordinate alone,
/// advances exactly one cell along the travel axis, and moves at most one
/// block vertically: a chain of matching segments advances monotonically,
/// and one ascending segment shifts the height by exactly one over that
/// single step.
pub proof fn lemma_walker_step_advances(
    coords: BlockCoords,
    direction: Direction,
    blocks: Seq<Block>,
    rails: Seq<(BlockCoords, usize)>,
    nc: BlockCoords,
    nd: Direction,
)
    requires
        spec_next_physical(coords, direction, blocks, rails) == Some((nc, nd)),
    ensures
        nc.realm == coords.realm,
        direction == Direction::N ==> nc.x == coords.x && nc.z == coords.z - 1,
        direction == Direction::S ==> nc.x == coords.x && nc.z == coords.z + 1,
        direction == Direction::W ==> nc.x == coords.x - 1 && nc.z == coords.z,
        direction == Direction::E ==> nc.x == coords.x + 1 && nc.z == coords.z,
        coords.y - 1 <= nc.y <= coords.y + 1,
{
    let idx = spec_map_lookup(rails, coords).unwrap();
    let cands = spec_blocks_to_check(blocks[idx as int].rail_data, direction).unwrap();
    let base = spec_neighbor(coords, direction).unwrap();
    lemma_first_candidate_shape(cands, base, blocks, rails, nc, nd);
}

/// The state a candidate search returns lies at the probed neighbor cell,
/// within one block vertically.
proof fn lemma_first_candidate_shape(
    cands: Seq<Candidate>,
    base: BlockCoords,
    blocks: Seq<Block>,
    rails: Seq<(BlockCoords, usize)>,
    nc: BlockCoords,
    nd: Direction,
)
    requires
        spec_first_candidate(cands, base, blocks, rails) == Some((nc, nd)),
        forall|i: int| 0 <= i < cands.len() ==> -1 <= (#[trigger] cands[i]).2 <= 1,
    ensures
        nc.x == base.x && nc.z == base.z && nc.realm == base.realm,
        base.y - 1 <= nc.y <= base.y + 1,
    decreases cands.len(),
{
    if cands.len() > 0 {
        if spec_candidate_matches(cands[0], base, blocks, rails) {
        } else {
            assert(forall|i: int|
                0 <= i < cands.drop_first().len() ==> (#[trigger] cands.drop_first()[i]) == cands[
                    i + 1
                ]);
            lemma_first_candidate_shape(cands.drop_first(), base, blocks, rails, nc, nd);
        }
    }
}


/// The extra cost registered at coordinates, zero when none is.
pub open spec fn spec_weight_at(weights: Seq<(BlockCoords, i32)>, c: BlockCoords) -> int {
    match spec_map_lookup(weights, c) {
        Some(w) => w as int,
        None => 0,
    }
}

/// The accumulated cost of a walk: one per step taken, plus the weight
/// registered at each coordinate stepped onto.
pub open spec fn spec_trace_cost(trace: Seq<BlockCoords>, weights: Seq<(BlockCoords, i32)>) -> int
    decreases trace.len(),
{
    if trace.len() <= 1 {
        0
    } else {
        spec_trace_cost(trace.drop_last(), weights) + 1 + spec_weight_at(weights, trace.last())
    }
}

/// A valid resolved connection: the trace starts at the start state, every
/// consecutive pair is one walker transition, no intermediate coordinate is
/// a station or switch centre, and the final coordinate is the station or
/// switch the returned node id names. A switch entry is attributed to the
/// exit labelled with the reverse of the direction just before the switch
/// was reached.
pub open spec fn spec_walk_ok(
    start_coords: BlockCoords,
    start_direction: Direction,
    dirs: Seq<Direction>,
    trace: Seq<BlockCoords>,
    blocks: Seq<Block>,
    rails: Seq<(BlockCoords, usize)>,
    ties: Seq<(BlockCoords, Tie)>,
    stations: Seq<(BlockCoords, usize)>,
    switches: Seq<(BlockCoords, usize)>,
    node_id: usize,
    num_stations: usize,
) -> bool {
    &&& trace.len() >= 2
    &&& dirs.len() == trace.len()
    &&& trace[0] == start_coords
    &&& dirs[0] == start_direction
    &&& (forall|i: int|
        0 <= i < trace.len() - 1 ==> spec_next_rail(#[trigger] trace[i], dirs[i], blocks, rails, ties)
            == Some((trace[i + 1], dirs[i + 1])))
    &&& (forall|i: int|
        1 <= i < trace.len() - 1 ==> spec_map_lookup(stations, #[trigger] trace[i]) is None
            && spec_map_lookup(switches, trace[i]) is None)
    &&& {
        let last = trace.len() - 1;
        match spec_map_lookup(stations, trace[last]) {
            Some(sid) => node_id == sid,
            None => match spec_map_lookup(switches, trace[last]) {
                Some(swid) => node_id as int == num_stations + 4 * swid
                    + crate::blocks::spec_direction_index(
                    crate::blocks::spec_opposite_direction(dirs[last - 1]),
                ),
                None => false,
            },
        }
    }
}

/// A transition-valid prefix of a walk: the trace starts at the start
/// state, every consecutive pair is one walker transition, and no internal
/// coordinate (the endpoints exempt) is a station or switch centre.
pub open spec fn spec_walk_prefix_ok(
    start_coords: BlockCoords,
    start_direction: Direction,
    dirs: Seq<Direction>,
    trace: Seq<BlockCoords>,
    blocks: Seq<Block>,
    rails: Seq<(BlockCoords, usize)>,
    ties: Seq<(BlockCoords, Tie)>,
    stations: Seq<(BlockCoords, usize)>,
    switches: Seq<(BlockCoords, usize)>,
) -> bool {
    &&& trace.len() >= 1
    &&& dirs.len() == trace.len()
    &&& trace[0] == start_coords
    &&& dirs[0] == start_direction
    &&& (forall|i: int|
        0 <= i < trace.len() - 1 ==> spec_next_rail(#[trigger] trace[i], dirs[i], blocks, rails, ties)
            == Some((trace[i + 1], dirs[i + 1])))
    &&& (forall|i: int|
        1 <= i < trace.len() - 1 ==> spec_map_lookup(stations, #[trigger] trace[i]) is None
            && spec_map_lookup(switches, trace[i]) is None)
}

/// The walk from the start state runs into a dead end at `c`: some
/// transition-valid prefix reaches `c`, and no transition leaves it.
pub open spec fn spec_walk_stuck(
    start_coords: BlockCoords,
    start_direction: Direction,
    c: BlockCoords,
    blocks: Seq<Block>,
    rails: Seq<(BlockCoords, usize)>,
    ties: Seq<(BlockCoords, Tie)>,
    stations: Seq<(BlockCoords, usize)>,
    switches: Seq<(BlockCoords, usize)>,
) -> bool {
    exists|dirs: Seq<Direction>, trace: Seq<BlockCoords>|
        {
            &&& #[trigger] spec_walk_prefix_ok(
                start_coords,
                start_direction,
                dirs,
                trace,
                blocks,
                rails,
                ties,
                stations,
                switches,
            )
            &&& trace.last() == c
            &&& spec_next_rail(c, dirs.last(), blocks, rails, ties) is None
        }
}

/// The step budget of a walk: past this many states the walk must have
/// revisited one, which an endless loop on a consistent network cannot do.
pub open spec fn spec_walk_budget(
    rails: Seq<(BlockCoords, usize)>,
    ties: Seq<(BlockCoords, Tie)>,
) -> int {
    4 * (rails.len() + ties.len()) as int + 8
}

/// Accumulating the last step's cost leaves the i32 range: the running
/// total plus one, or plus one and the arrival weight, overflows.
pub open spec fn spec_cost_step_overflows(
    trace: Seq<BlockCoords>,
    weights: Seq<(BlockCoords, i32)>,
) -> bool {
    let c0 = spec_trace_cost(trace.drop_last(), weights);
    let w = spec_weight_at(weights, trace.last());
    ||| c0 + 1 > i32::MAX as int
    ||| c0 + 1 + w > i32::MAX as int
    ||| c0 + 1 + w < i32::MIN as int
}

/// The walk from the start state exhausts its budget: some
/// transition-valid prefix grows past the step budget, or its cost leaves
/// the i32 range.
pub open spec fn spec_walk_exhausted(
    start_coords: BlockCoords,
    start_direction: Direction,
    blocks: Seq<Block>,
    rails: Seq<(BlockCoords, usize)>,
    ties: Seq<(BlockCoords, Tie)>,
    stations: Seq<(BlockCoords, usize)>,
    switches: Seq<(BlockCoords, usize)>,
    weights: Seq<(BlockCoords, i32)>,
) -> bool {
    exists|dirs: Seq<Direction>, trace: Seq<BlockCoords>|
        {
            &&& #[trigger] spec_walk_prefix_ok(
                start_coords,
                start_direction,
                dirs,
                trace,
                blocks,
                rails,
                ties,
                stations,
                switches,
            )
            &&& (trace.len() > spec_walk_budget(rails, ties) || spec_cost_step_overflows(
                trace,
                weights,
            ))
        }
}

/// A resolved connection is some valid walk: there is a sequence of travel
/// directions under which the trace is a step-by-step walk from the start
/// state to the returned node, and the cost is the trace's cost.
pub open spec fn spec_connection_ok(
    start_coords: BlockCoords,
    start_direction: Direction,
    node_id: usize,
    distance: i32,
    trace: Seq<BlockCoords>,
    blocks: Seq<Block>,
    rails: Seq<(BlockCoords, usize)>,
    ties: Seq<(BlockCoords, Tie)>,
    stations: Seq<(BlockCoords, usize)>,
    switches: Seq<(BlockCoords, usize)>,
    weights: Seq<(BlockCoords, i32)>,
    num_stations: usize,
) -> bool {
    &&& exists|dirs: Seq<Direction>|
        #[trigger] spec_walk_ok(
            start_coords,
            start_direction,
            dirs,
            trace,
            blocks,
            rails,
            ties,
            stations,
            switches,
            node_id,
            num_stations,
        )
    &&& distance == spec_trace_cost(trace, weights)
}

/// A prefix whose last step's cost falls outside the i32 range witnesses
/// an exhausted walk.
proof fn lemma_walk_overflow_witness(
    start_coords: BlockCoords,
    start_direction: Direction,
    dirs: Seq<Direction>,
    trace: Seq<BlockCoords>,
    blocks: Seq<Block>,
    rails: Seq<(BlockCoords, usize)>,
    ties: Seq<(BlockCoords, Tie)>,
    stations: Seq<(BlockCoords, usize)>,
    switches: Seq<(BlockCoords, usize)>,
    weights: Seq<(BlockCoords, i32)>,
)
    requires
        spec_walk_prefix_ok(
            start_coords,
            start_direction,
            dirs,
            trace,
            blocks,
            rails,
            ties,
            stations,
            switches,
        ),
        spec_cost_step_overflows(trace, weights),
    ensures
        spec_walk_exhausted(
            start_coords,
            start_direction,
            blocks,
            rails,
            ties,
            stations,
            switches,
            weights,
        ),
{
}

/// Walks from the start state until the next station or switch, returning
/// the reached node id, the accumulated cost, and every coordinate visited
/// on the way, the start included.
#[verifier::loop_isolation(false)]
pub fn find_connection(
    start_coords: BlockCoords,
    start_direction: Direction,
    station_id_map: &CoordMap<usize>,
    switch_id_map: &CoordMap<usize>,
    blocks: &Vec<Block>,
    rail_map: &CoordMap<usize>,
    ties_map: &CoordMap<Tie>,
    weights_map: &CoordMap<i32>,
    num_stations: usize,
) -> (r: Result<(usize, i32, Vec<BlockCoords>), Error>)
    requires
        forall|i: int|
            0 <= i < switch_id_map.entries@.len() ==> num_stations + 4 * (
            #[trigger] switch_id_map.entries@[i]).1 + 3 <= usize::MAX,
    ensures
        match r {
            Ok(v) => spec_connection_ok(
                start_coords,
                start_direction,
                v.0,
                v.1,
                v.2@,
                blocks@,
                rail_map.entries@,
                ties_map.entries@,
                station_id_map.entries@,
                switch_id_map.entries@,
                weights_map.entries@,
                num_stations,
            ),
            Err(e) => match e {
                Error::InconsistentTopology(c) => spec_walk_stuck(
                    start_coords,
                    start_direction,
                    c,
                    blocks@,
                    rail_map.entries@,
                    ties_map.entries@,
                    station_id_map.entries@,
                    switch_id_map.entries@,
                ),
                Error::SearchLimitExceeded => spec_walk_exhausted(
                    start_coords,
                    start_direction,
                    blocks@,
                    rail_map.entries@,
                    ties_map.entries@,
                    station_id_map.entries@,
                    switch_id_map.entries@,
                    weights_map.entries@,
                ),
                Error::MalformedInput => false,
            },
        },
{
    let mut coords = start_coords;
    let mut direction = start_direction;
    let mut distance: i32 = 0;
    let mut rail_connection_coords: Vec<BlockCoords> = Vec::new();
    rail_connection_coords.push(start_coords);
    let ghost mut dirs: Seq<Direction> = seq![start_direction];
    let mut fuel: u128 = 4 * ((rail_map.entries.len() as u128) + (ties_map.entries.len() as u128))
        + 8;
    while fuel > 0
        invariant
            fuel as int == spec_walk_budget(rail_map.entries@, ties_map.entries@) + 1
                - rail_connection_coords@.len(),
            forall|i: int|
                0 <= i < switch_id_map.entries@.len() ==> num_stations + 4 * (
                #[trigger] switch_id_map.entries@[i]).1 + 3 <= usize::MAX,
            rail_connection_coords@.len() >= 1,
            dirs.len() == rail_connection_coords@.len(),
            rail_connection_coords@[0] == start_coords,
            dirs[0] == start_direction,
            coords == rail_connection_coords@.last(),
            direction == dirs.last(),
            distance == spec_trace_cost(rail_connection_coords@, weights_map.entries@),
            forall|i: int|
                0 <= i < rail_connection_coords@.len() - 1 ==> spec_next_rail(
                    #[trigger] rail_connection_coords@[i],
                    dirs[i],
                    blocks@,
                    rail_map.entries@,
                    ties_map.entries@,
                ) == Some((rail_connection_coords@[i + 1], dirs[i + 1])),
            forall|i: int|
                1 <= i < rail_connection_coords@.len() ==> spec_map_lookup(
                    station_id_map.entries@,
                    #[trigger] rail_connection_coords@[i],
                ) is None && spec_map_lookup(
                    switch_id_map.entries@,
                    rail_connection_coords@[i],
                ) is None,
        decreases fuel,
    {
        let prev_direction = direction;
        let step = find_next_rail_block(coords, direction, blocks, rail_map, ties_map);
        let (new_coords, new_direction) = match step {
            Ok(v) => v,
            Err(e) => {
                proof {
                    assert(spec_walk_prefix_ok(
                        start_coords,
                        start_direction,
                        dirs,
                        rail_connection_coords@,
                        blocks@,
                        rail_map.entries@,
                        ties_map.entries@,
                        station_id_map.entries@,
                        switch_id_map.entries@,
                    ));
                    assert(spec_walk_stuck(
                        start_coords,
                        start_direction,
                        coords,
                        blocks@,
                        rail_map.entries@,
                        ties_map.entries@,
                        station_id_map.entries@,
                        switch_id_map.entries@,
                    ));
                }
                return Err(e);
            },
        };
        let ghost trace_before = rail_connection_coords@;
        coords = new_coords;
        direction = new_direction;
        rail_connection_coords.push(coords);
        proof {
            dirs = dirs.push(new_direction);
            assert(rail_connection_coords@.drop_last() =~= trace_before);
        }
        let step_weight: i32 = match weights_map.get(coords) {
            Some(w) => *w,
            None => 0,
        };
        let with_step = match distance.checked_add(1) {
            Some(v) => v,
            None => {
                proof {
                    lemma_walk_overflow_witness(
                        start_coords,
                        start_direction,
                        dirs,
                        rail_connection_coords@,
                        blocks@,
                        rail_map.entries@,
                        ties_map.entries@,
                        station_id_map.entries@,
                        switch_id_map.entries@,
                        weights_map.entries@,
                    );
                }
                return Err(Error::SearchLimitExceeded);
            },
        };
        distance = match with_step.checked_add(step_weight) {
            Some(v) => v,
            None => {
                proof {
                    lemma_walk_overflow_witness(
                        start_coords,
                        start_direction,
                        dirs,
                        rail_connection_coords@,
                        blocks@,
                        rail_map.entries@,
                        ties_map.entries@,
                        station_id_map.entries@,
                        switch_id_map.entries@,
                        weights_map.entries@,
                    );
                }
                return Err(Error::SearchLimitExceeded);
            },
        };
        proof {
            assert(rail_connection_coords@.len() >= 2);
            assert(distance == spec_trace_cost(rail_connection_coords@, weights_map.entries@));
        }
        if let Some(to_station_id) = station_id_map.get(coords) {
            let node_id = *to_station_id;
            proof {
                assert(spec_walk_ok(
                    start_coords,
                    start_direction,
                    dirs,
                    rail_connection_coords@,
                    blocks@,
                    rail_map.entries@,
                    ties_map.entries@,
                    station_id_map.entries@,
                    switch_id_map.entries@,
                    node_id,
                    num_stations,
                ));
                assert(spec_connection_ok(
                    start_coords,
                    start_direction,
                    node_id,
                    distance,
                    rail_connection_coords@,
                    blocks@,
                    rail_map.entries@,
                    ties_map.entries@,
                    station_id_map.entries@,
                    switch_id_map.entries@,
                    weights_map.entries@,
                    num_stations,
                ));
            }
            return Ok((node_id, distance, rail_connection_coords));
        }
        if let Some(to_switch_id) = switch_id_map.get(coords) {
            let swid = *to_switch_id;
            proof {
                crate::maps::lemma_map_lookup_ok(switch_id_map.entries@, coords);
            }
            let exit_index = prev_direction.opposite_direction().to_index();
            let node_id = num_stations + 4 * swid + exit_index;
            proof {
                assert(dirs[dirs.len() - 2] == prev_direction);
                assert(spec_walk_ok(
                    start_coords,
                    start_direction,
                    dirs,
                    rail_connection_coords@,
                    blocks@,
                    rail_map.entries@,
                    ties_map.entries@,
                    station_id_map.entries@,
                    switch_id_map.entries@,
                    node_id,
                    num_stations,
                ));
                assert(spec_connection_ok(
                    start_coords,
                    start_direction,
                    node_id,
                    distance,
                    rail_connection_coords@,
                    blocks@,
                    rail_map.entries@,
                    ties_map.entries@,
                    station_id_map.entries@,
                    switch_id_map.entries@,
                    weights_map.entries@,
                    num_stations,
                ));
            }
            return Ok((node_id, distance, rail_connection_coords));
        }
        fuel = fuel - 1;
    }
    proof {
        assert(spec_walk_prefix_ok(
            start_coords,
            start_direction,
            dirs,
            rail_connection_coords@,
            blocks@,
            rail_map.entries@,
            ties_map.entries@,
            station_id_map.entries@,
            switch_id_map.entries@,
        ));
        assert(rail_connection_coords@.len() > spec_walk_budget(
            rail_map.entries@,
            ties_map.entries@,
        ));
        assert(spec_walk_exhausted(
            start_coords,
            start_direction,
            blocks@,
            rail_map.entries@,
            ties_map.entries@,
            station_id_map.entries@,
            switch_id_map.entries@,
            weights_map.entries@,
        ));
    }
    Err(Error::SearchLimitExceeded)
}

} // verus!
