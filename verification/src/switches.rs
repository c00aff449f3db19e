//! Switch detector: an unpowered curved rail qualifies as a switch centre
//! if at least three of its four cardinal directions each hold an unpowered
//! rail at distance one and a detector rail at distance two.

use vstd::prelude::*;
use crate::blocks::{Block, BlockID, Switch, spec_is_curved};
use crate::coords::BlockCoords;
use crate::maps::{CoordMap, spec_map_lookup};

verus! {

/// What one detected switch must hold: its centre and which cardinal exits
/// qualified, in N, S, W, E order.
pub struct SwitchDesc {
    pub coords: BlockCoords,
    pub has_n: bool,
    pub has_s: bool,
    pub has_w: bool,
    pub has_e: bool,
}

/// The block of the given id standing at `c`, if the map registers one.
pub open spec fn spec_id_at(
    blocks: Seq<Block>,
    rails: Seq<(BlockCoords, usize)>,
    c: BlockCoords,
    id: BlockID,
) -> bool {
    match spec_map_lookup(rails, c) {
        Some(i) => i < blocks.len() && blocks[i as int].id == id,
        None => false,
    }
}

/// One cardinal direction of a curved rail qualifies: an unpowered rail at
/// distance one and a detector rail at distance two, both representable.
pub open spec fn spec_exit_ok(
    blocks: Seq<Block>,
    rails: Seq<(BlockCoords, usize)>,
    c: BlockCoords,
    dx: int,
    dz: int,
) -> bool {
    &&& i32::MIN <= c.x as int + 2 * dx <= i32::MAX
    &&& i32::MIN <= c.z as int + 2 * dz <= i32::MAX
    &&& spec_id_at(
        blocks,
        rails,
        BlockCoords { x: (c.x + dx) as i32, y: c.y, z: (c.z + dz) as i32, realm: c.realm },
        BlockID::UnpoweredRail,
    )
    &&& spec_id_at(
        blocks,
        rails,
        BlockCoords { x: (c.x + 2 * dx) as i32, y: c.y, z: (c.z + 2 * dz) as i32, realm: c.realm },
        BlockID::DetectorRail,
    )
}

/// The switch detected on block `b`, if any: an unpowered curved rail with
/// at least three qualifying cardinal directions.
pub open spec fn spec_switch_of(
    b: Block,
    blocks: Seq<Block>,
    rails: Seq<(BlockCoords, usize)>,
) -> Option<SwitchDesc> {
    if b.id == BlockID::UnpoweredRail && spec_is_curved(b.rail_data) {
        let n = spec_exit_ok(blocks, rails, b.coords, 0, -1);
        let s = spec_exit_ok(blocks, rails, b.coords, 0, 1);
        let w = spec_exit_ok(blocks, rails, b.coords, -1, 0);
        let e = spec_exit_ok(blocks, rails, b.coords, 1, 0);
        let count = (if n {
            1int
        } else {
            0int
        }) + (if s {
            1int
        } else {
            0int
        }) + (if w {
            1int
        } else {
            0int
        }) + (if e {
            1int
        } else {
            0int
        });
        if count >= 3 {
            Some(SwitchDesc { coords: b.coords, has_n: n, has_s: s, has_w: w, has_e: e })
        } else {
            None
        }
    } else {
        None
    }
}

/// The switches the first `k` blocks give rise to, in block order.
pub open spec fn spec_switch_descs(
    blocks: Seq<Block>,
    rails: Seq<(BlockCoords, usize)>,
    k: int,
) -> Seq<SwitchDesc>
    decreases k,
{
    if k <= 0 {
        Seq::empty()
    } else {
        let rest = spec_switch_descs(blocks, rails, k - 1);
        match spec_switch_of(blocks[k - 1], blocks, rails) {
            Some(d) => rest.push(d),
            None => rest,
        }
    }
}

/// The switches hold exactly what their descriptions say, in order.
pub open spec fn spec_switches_match(sws: Seq<Switch>, descs: Seq<SwitchDesc>) -> bool {
    sws.len() == descs.len() && forall|i: int|
        0 <= i < descs.len() ==> {
            &&& (#[trigger] sws[i]).coords == descs[i].coords
            &&& sws[i].has_directions[0] == descs[i].has_n
            &&& sws[i].has_directions[1] == descs[i].has_s
            &&& sws[i].has_directions[2] == descs[i].has_w
            &&& sws[i].has_directions[3] == descs[i].has_e
        }
}

/// Whether the block of the given id stands at the coordinates.
fn id_at(blocks: &Vec<Block>, rails: &CoordMap<usize>, c: BlockCoords, id: BlockID) -> (r: bool)
    ensures
        r == spec_id_at(blocks@, rails.entries@, c, id),
{
    match rails.get(c) {
        Some(i) => *i < blocks.len() && blocks[*i].id == id,
        None => false,
    }
}

/// Whether one cardinal direction of a curved rail qualifies.
fn exit_ok(blocks: &Vec<Block>, rails: &CoordMap<usize>, c: BlockCoords, dx: i32, dz: i32) -> (r:
    bool)
    requires
        -1 <= dx <= 1,
        -1 <= dz <= 1,
    ensures
        r == spec_exit_ok(blocks@, rails.entries@, c, dx as int, dz as int),
{
    let x2o = match c.x.checked_add(2 * dx) {
        Some(v) => Some(v),
        None => None,
    };
    let z2o = match c.z.checked_add(2 * dz) {
        Some(v) => Some(v),
        None => None,
    };
    match (x2o, z2o) {
        (Some(x2), Some(z2)) => {
            let near = BlockCoords { x: c.x + dx, y: c.y, z: c.z + dz, realm: c.realm };
            let far = BlockCoords { x: x2, y: c.y, z: z2, realm: c.realm };
            id_at(blocks, rails, near, BlockID::UnpoweredRail) && id_at(
                blocks,
                rails,
                far,
                BlockID::DetectorRail,
            )
        },
        _ => false,
    }
}

/// Detects every switch among the blocks, in block order.
#[verifier::loop_isolation(false)]
pub fn find_switches(blocks: &Vec<Block>, rail_map: &CoordMap<usize>) -> (r: Vec<Switch>)
    ensures
        spec_switches_match(r@, spec_switch_descs(blocks@, rail_map.entries@, blocks@.len() as int)),
{
    let mut switches: Vec<Switch> = Vec::new();
    let mut bi: usize = 0;
    while bi < blocks.len()
        invariant
            bi <= blocks@.len(),
            spec_switches_match(
                switches@,
                spec_switch_descs(blocks@, rail_map.entries@, bi as int),
            ),
        decreases blocks@.len() - bi,
    {
        let block = &blocks[bi];
        if block.id == BlockID::UnpoweredRail && block.is_curved_rail() {
            let c = block.coords;
            let n = exit_ok(blocks, rail_map, c, 0, -1);
            let s = exit_ok(blocks, rail_map, c, 0, 1);
            let w = exit_ok(blocks, rail_map, c, -1, 0);
            let e = exit_ok(blocks, rail_map, c, 1, 0);
            let count: u32 = (if n {
                1
            } else {
                0
            }) + (if s {
                1
            } else {
                0
            }) + (if w {
                1
            } else {
                0
            }) + (if e {
                1
            } else {
                0
            });
            if count >= 3 {
                let ghost pre = switches@;
                switches.push(Switch { coords: c, has_directions: [n, s, w, e] });
                proof {
                    assert(switches@.last().has_directions[0] == n);
                    assert(switches@.last().has_directions[1] == s);
                    assert(switches@.last().has_directions[2] == w);
                    assert(switches@.last().has_directions[3] == e);
                    assert(forall|i: int| 0 <= i < pre.len() ==> switches@[i] == #[trigger] pre[i]);
                }
            }
        }
        bi = bi + 1;
    }
    switches
}

} // verus!
