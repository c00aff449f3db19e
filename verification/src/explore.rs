//! Frontier Explorer: a worklist of chunk coordinates seeded with one
//! starting chunk, and a visited set. Each processed chunk is decoded, and
//! the blocks just extracted decide which further chunks must be decoded:
//! rails at a chunk edge pull in the chunk across the edge, tie overrides
//! pull in the chunk of their target, and a candidate station centre pulls
//! in two rings of chunks around it to capture its signage.

use vstd::prelude::*;
use crate::blocks::{Block, spec_is_rail_id, spec_is_sign_id, spec_is_curved, spec_is_north_south, spec_is_east_west, spec_is_straight, BlockID};
use crate::coords::{BlockCoords, ChunkCoords, RegionCoords, spec_block_to_chunk, spec_chunk_to_region, block_coords_to_chunk_coords, chunk_coords_to_region_coords};
use crate::error::Error;
use crate::maps::{CoordMap, Tie, spec_map_lookup};
use crate::region::{Region, find_chunk_blocks, spec_chunk_blocks_ok, spec_chunk_undecodable};
use crate::region_cache::{RegionCache, update_region_cache, insert_region, spec_region_index};
use crate::nbt_blocks::spec_chunk_in_range;

verus! {

/// The chunk coordinates of any block lie within the range whose blocks fit
/// in an i32.
pub proof fn lemma_chunk_of_block_in_range(c: BlockCoords)
    ensures
        spec_chunk_in_range(spec_block_to_chunk(c)),
{
    vstd::arithmetic::div_mod::lemma_div_is_ordered(i32::MIN as int, c.x as int, 16);
    vstd::arithmetic::div_mod::lemma_div_is_ordered(c.x as int, i32::MAX as int, 16);
    vstd::arithmetic::div_mod::lemma_div_is_ordered(i32::MIN as int, c.z as int, 16);
    vstd::arithmetic::div_mod::lemma_div_is_ordered(c.z as int, i32::MAX as int, 16);
    vstd::arithmetic::div_mod::lemma_fundamental_div_mod_converse(
        i32::MIN as int,
        16,
        -134217728,
        0,
    );
    vstd::arithmetic::div_mod::lemma_fundamental_div_mod_converse(
        i32::MAX as int,
        16,
        134217727,
        15,
    );
}

/// Floor remainder of a coordinate by 16.
fn rem16(x: i32) -> (r: i32)
    ensures
        r == x as int % 16,
{
    match x.checked_rem_euclid(16) {
        Some(v) => v,
        None => {
            proof {
                assert(false);
            }
            0
        },
    }
}

/// Whether the block sits on the (north, south, west, east) edge of its
/// chunk: its z is 0 or 15 mod 16, or its x is.
pub fn is_block_at_chunk_edge(block: &Block) -> (r: (bool, bool, bool, bool))
    ensures
        r.0 == (block.coords.z as int % 16 == 0),
        r.1 == (block.coords.z as int % 16 == 15),
        r.2 == (block.coords.x as int % 16 == 0),
        r.3 == (block.coords.x as int % 16 == 15),
{
    let zr = rem16(block.coords.z);
    let xr = rem16(block.coords.x);
    (zr == 0, zr == 15, xr == 0, xr == 15)
}

/// A sign block with the given coordinates stands in the list.
pub open spec fn spec_has_sign(blocks: Seq<Block>, c: BlockCoords) -> bool {
    exists|i: int|
        0 <= i < blocks.len() && spec_is_sign_id(#[trigger] blocks[i].id) && blocks[i].coords == c
}

/// Whether a sign block with the given coordinates stands in the list.
fn has_sign_at(blocks: &Vec<Block>, c: BlockCoords) -> (r: bool)
    ensures
        r == spec_has_sign(blocks@, c),
{
    let mut i: usize = 0;
    while i < blocks.len()
        invariant
            i <= blocks@.len(),
            forall|j: int|
                0 <= j < i ==> !(spec_is_sign_id(#[trigger] blocks@[j].id) && blocks@[j].coords
                    == c),
        decreases blocks@.len() - i,
    {
        if blocks[i].is_sign() && blocks[i].coords == c {
            return true;
        }
        i = i + 1;
    }
    false
}

/// The two rings of chunks around a candidate station centre: the 5x5
/// square minus the four outer corners and the centre itself, in x-major,
/// then z order, from offset index `idx` on.
pub open spec fn spec_ring_from(ch: ChunkCoords, idx: int) -> Seq<ChunkCoords>
    decreases 25 - idx,
{
    if idx < 0 || idx >= 25 {
        Seq::empty()
    } else {
        let dx = idx / 5 - 2;
        let dz = idx % 5 - 2;
        let rest = spec_ring_from(ch, idx + 1);
        if ((dx == 2 || dx == -2) && (dz == 2 || dz == -2)) || (dx == 0 && dz == 0) {
            rest
        } else {
            seq![
                ChunkCoords { x: (ch.x + dx) as i32, z: (ch.z + dz) as i32, realm: ch.realm },
            ] + rest
        }
    }
}

/// The chunks one just-extracted block asks to have processed: adjacent
/// chunks across edges the block's rail could run over, the chunk of a
/// matching tie's target, and the station-signage rings.
pub open spec fn spec_block_more(b: Block, blocks: Seq<Block>, ties: Seq<(BlockCoords, Tie)>) -> Seq<
    ChunkCoords,
> {
    if !spec_is_rail_id(b.id) {
        Seq::empty()
    } else {
        let ch = spec_block_to_chunk(b.coords);
        let north = if b.coords.z as int % 16 == 0 && (spec_is_curved(b.rail_data)
            || spec_is_north_south(b.rail_data)) {
            seq![ChunkCoords { x: ch.x, z: (ch.z - 1) as i32, realm: ch.realm }]
        } else {
            Seq::empty()
        };
        let south = if b.coords.z as int % 16 == 15 && (spec_is_curved(b.rail_data)
            || spec_is_north_south(b.rail_data)) {
            seq![ChunkCoords { x: ch.x, z: (ch.z + 1) as i32, realm: ch.realm }]
        } else {
            Seq::empty()
        };
        let west = if b.coords.x as int % 16 == 0 && (spec_is_curved(b.rail_data)
            || spec_is_east_west(b.rail_data)) {
            seq![ChunkCoords { x: (ch.x - 1) as i32, z: ch.z, realm: ch.realm }]
        } else {
            Seq::empty()
        };
        let east = if b.coords.x as int % 16 == 15 && (spec_is_curved(b.rail_data)
            || spec_is_east_west(b.rail_data)) {
            seq![ChunkCoords { x: (ch.x + 1) as i32, z: ch.z, realm: ch.realm }]
        } else {
            Seq::empty()
        };
        let tie_part = match spec_map_lookup(ties, b.coords) {
            Some(t) => seq![spec_block_to_chunk(t.to_coords)],
            None => Seq::<ChunkCoords>::empty(),
        };
        let ring = if b.id == BlockID::UnpoweredRail && spec_is_straight(b.rail_data)
            && b.coords.y as int + 2 <= i32::MAX && spec_has_sign(
            blocks,
            BlockCoords { x: b.coords.x, y: (b.coords.y + 1) as i32, z: b.coords.z, realm: b.coords.realm },
        ) && spec_has_sign(
            blocks,
            BlockCoords { x: b.coords.x, y: (b.coords.y + 2) as i32, z: b.coords.z, realm: b.coords.realm },
        ) {
            spec_ring_from(ch, 0)
        } else {
            Seq::<ChunkCoords>::empty()
        };
        north + south + west + east + tie_part + ring
    }
}

/// The chunks the first `k` blocks ask to have processed, in block order.
pub open spec fn spec_more_chunks(blocks: Seq<Block>, ties: Seq<(BlockCoords, Tie)>, k: int) -> Seq<
    ChunkCoords,
>
    decreases k,
{
    if k <= 0 {
        Seq::empty()
    } else {
        spec_more_chunks(blocks, ties, k - 1) + spec_block_more(blocks[k - 1], blocks, ties)
    }
}

/// Builds the two rings of chunks around a candidate station centre.
fn station_ring(ch: ChunkCoords) -> (r: Vec<ChunkCoords>)
    requires
        spec_chunk_in_range(ch),
    ensures
        r@ == spec_ring_from(ch, 0),
{
    let mut out: Vec<ChunkCoords> = Vec::new();
    let mut idx: usize = 0;
    proof {
        assert(spec_ring_from(ch, 0) =~= out@ + spec_ring_from(ch, 0));
    }
    while idx < 25
        invariant
            idx <= 25,
            spec_chunk_in_range(ch),
            spec_ring_from(ch, 0) == out@ + spec_ring_from(ch, idx as int),
        decreases 25 - idx,
    {
        let dx: i32 = (idx / 5) as i32 - 2;
        let dz: i32 = (idx % 5) as i32 - 2;
        if !(((dx == 2 || dx == -2) && (dz == 2 || dz == -2)) || (dx == 0 && dz == 0)) {
            out.push(ChunkCoords { x: ch.x + dx, z: ch.z + dz, realm: ch.realm });
        }
        proof {
            assert(spec_ring_from(ch, 0) =~= out@ + spec_ring_from(ch, idx + 1));
        }
        idx = idx + 1;
    }
    proof {
        assert(spec_ring_from(ch, 25) =~= Seq::<ChunkCoords>::empty());
        assert(out@ =~= out@ + spec_ring_from(ch, 25));
    }
    out
}

/// The chunks one just-extracted block asks to have processed.
#[verifier::loop_isolation(false)]
fn block_more_chunks(block: &Block, blocks: &Vec<Block>, ties_map: &CoordMap<Tie>) -> (r: Vec<
    ChunkCoords,
>)
    ensures
        r@ == spec_block_more(*block, blocks@, ties_map.entries@),
{
    let mut out: Vec<ChunkCoords> = Vec::new();
    if !block.is_rail() {
        proof {
            assert(out@ =~= spec_block_more(*block, blocks@, ties_map.entries@));
        }
        return out;
    }
    proof {
        lemma_chunk_of_block_in_range(block.coords);
    }
    let ch = block_coords_to_chunk_coords(block.coords);
    let (n_edge, s_edge, w_edge, e_edge) = is_block_at_chunk_edge(block);
    if n_edge && (block.is_curved_rail() || block.is_north_south_rail()) {
        out.push(ChunkCoords { x: ch.x, z: ch.z - 1, realm: ch.realm });
    }
    if s_edge && (block.is_curved_rail() || block.is_north_south_rail()) {
        out.push(ChunkCoords { x: ch.x, z: ch.z + 1, realm: ch.realm });
    }
    if w_edge && (block.is_curved_rail() || block.is_east_west_rail()) {
        out.push(ChunkCoords { x: ch.x - 1, z: ch.z, realm: ch.realm });
    }
    if e_edge && (block.is_curved_rail() || block.is_east_west_rail()) {
        out.push(ChunkCoords { x: ch.x + 1, z: ch.z, realm: ch.realm });
    }
    if let Some(tie) = ties_map.get(block.coords) {
        out.push(block_coords_to_chunk_coords(tie.to_coords));
    }
    let is_candidate_centre = block.id == BlockID::UnpoweredRail && block.is_straight_rail()
        && match block.coords.y.checked_add(2) {
        Some(y2) => {
            let above = BlockCoords {
                x: block.coords.x,
                y: block.coords.y + 1,
                z: block.coords.z,
                realm: block.coords.realm,
            };
            let above2 = BlockCoords {
                x: block.coords.x,
                y: y2,
                z: block.coords.z,
                realm: block.coords.realm,
            };
            has_sign_at(blocks, above) && has_sign_at(blocks, above2)
        },
        None => false,
    };
    if is_candidate_centre {
        let mut ring = station_ring(ch);
        out.append(&mut ring);
    }
    proof {
        assert(out@ =~= spec_block_more(*block, blocks@, ties_map.entries@));
    }
    out
}

/// Decides, from the blocks just extracted, which further chunks must be
/// processed.
pub fn find_more_chunk_coords_to_process(blocks: &Vec<Block>, ties_map: &CoordMap<Tie>) -> (r: Vec<
    ChunkCoords,
>)
    ensures
        r@ == spec_more_chunks(blocks@, ties_map.entries@, blocks@.len() as int),
{
    let mut out: Vec<ChunkCoords> = Vec::new();
    let mut i: usize = 0;
    while i < blocks.len()
        invariant
            i <= blocks@.len(),
            out@ == spec_more_chunks(blocks@, ties_map.entries@, i as int),
        decreases blocks@.len() - i,
    {
        let mut more = block_more_chunks(&blocks[i], blocks, ties_map);
        out.append(&mut more);
        i = i + 1;
    }
    out
}


/// The total of the per-chunk block counts.
pub open spec fn spec_counts_sum(chunks: Seq<(ChunkCoords, usize)>) -> int
    decreases chunks.len(),
{
    if chunks.len() == 0 {
        0
    } else {
        spec_counts_sum(chunks.drop_last()) + chunks.last().1
    }
}

/// Marking one more chunk visited, and recording it at most once, keeps
/// the exploration bookkeeping sound.
proof fn lemma_wf_after_process(
    old_v: Seq<ChunkCoords>,
    new_v: Seq<ChunkCoords>,
    old_ch: Seq<(ChunkCoords, usize)>,
    new_ch: Seq<(ChunkCoords, usize)>,
    c: ChunkCoords,
)
    requires
        forall|i: int, j: int| 0 <= i < j < old_v.len() ==> old_v[i] != old_v[j],
        forall|i: int| 0 <= i < old_ch.len() ==> old_v.contains((#[trigger] old_ch[i]).0),
        forall|i: int, j: int| 0 <= i < j < old_ch.len() ==> old_ch[i].0 != old_ch[j].0,
        !old_v.contains(c),
        new_v == old_v.push(c),
        new_ch == old_ch || (new_ch.len() == old_ch.len() + 1 && new_ch.drop_last() == old_ch
            && new_ch.last().0 == c),
    ensures
        forall|i: int, j: int| 0 <= i < j < new_v.len() ==> new_v[i] != new_v[j],
        forall|i: int| 0 <= i < new_ch.len() ==> new_v.contains((#[trigger] new_ch[i]).0),
        forall|i: int, j: int| 0 <= i < j < new_ch.len() ==> new_ch[i].0 != new_ch[j].0,
{
    assert forall|i: int, j: int| 0 <= i < j < new_v.len() implies new_v[i] != new_v[j] by {
        if j == new_v.len() - 1 {
            assert(new_v[i] == old_v[i]);
            assert(old_v.contains(old_v[i]));
        } else {
            assert(new_v[i] == old_v[i]);
            assert(new_v[j] == old_v[j]);
        }
    }
    assert forall|i: int| 0 <= i < new_ch.len() implies new_v.contains(
        (#[trigger] new_ch[i]).0,
    ) by {
        if i < old_ch.len() {
            assert(new_ch[i] == old_ch[i]);
            let x = old_ch[i].0;
            assert(old_v.contains(x));
            let w = choose|w: int| 0 <= w < old_v.len() && old_v[w] == x;
            assert(new_v[w] == x);
        } else {
            assert(new_v[new_v.len() - 1] == c);
        }
    }
    assert forall|i: int, j: int| 0 <= i < j < new_ch.len() implies new_ch[i].0 != new_ch[j].0 by {
        if j == new_ch.len() - 1 && new_ch.len() > old_ch.len() {
            assert(new_ch[i] == old_ch[i]);
            assert(old_v.contains(old_ch[i].0));
        } else {
            assert(new_ch[i] == old_ch[i]);
            assert(new_ch[j] == old_ch[j]);
        }
    }
}

/// What one explorer step does: `Done` when the worklist is empty,
/// `Skipped` for an already visited chunk, `NeedRegion` when the chunk's
/// region is neither cached nor known absent, and `Processed` once a chunk
/// has been decoded and its discoveries enqueued.
pub enum ExploreStep {
    Done,
    Skipped,
    NeedRegion(RegionCoords),
    Processed(ChunkCoords),
}

/// The exploration state: the worklist and visited set, the region cache
/// and the regions known to have no file, the blocks and per-chunk counts
/// collected so far, and the tie overrides that steer enqueueing.
pub struct Explorer {
    pub worklist: Vec<ChunkCoords>,
    pub visited: Vec<ChunkCoords>,
    pub chunk_num: u32,
    pub cache: RegionCache,
    pub absent: Vec<RegionCoords>,
    pub blocks: Vec<Block>,
    pub chunks: Vec<(ChunkCoords, usize)>,
    pub ties: CoordMap<Tie>,
}

/// What processing chunk `c` did to the explorer: some decoded block list
/// was appended, its discoveries were enqueued in place of the popped
/// chunk, a positive count was recorded, and the blocks are exactly what
/// the cached region bytes decode to (no blocks when the region is absent
/// or the chunk lies outside the representable range).
pub open spec fn spec_step_processed(
    c: ChunkCoords,
    old_ex: Explorer,
    new_ex: Explorer,
) -> bool {
    exists|added: Seq<Block>|
        {
            &&& new_ex.blocks@ == old_ex.blocks@ + added
            &&& new_ex.worklist@ == old_ex.worklist@.drop_last() + spec_more_chunks(
                added,
                old_ex.ties.entries@,
                added.len() as int,
            )
            &&& new_ex.chunks@ == if added.len() > 0 {
                old_ex.chunks@.push((c, added.len() as usize))
            } else {
                old_ex.chunks@
            }
            &&& #[trigger] added.len() >= 0
            &&& (if spec_chunk_in_range(c) {
                match spec_region_index(old_ex.cache.entries@, spec_chunk_to_region(c)) {
                    Some(i) => spec_chunk_blocks_ok(old_ex.cache.entries@[i].data@, c, added),
                    None => added.len() == 0,
                }
            } else {
                added.len() == 0
            })
        }
}

/// The cache after taking in a freshly read region: the new entry is
/// appended, and the least-recently-touched entry is evicted if that runs
/// over capacity.
pub open spec fn spec_cache_insertion(
    old_cache: Seq<Region>,
    reg: Region,
    new_cache: Seq<Region>,
) -> bool {
    let all = old_cache.push(reg);
    if all.len() <= crate::region_cache::MAX_CACHED_REGIONS {
        new_cache == all
    } else {
        exists|j: int| crate::region_cache::spec_evicted_oldest(all, j, new_cache)
    }
}

impl Explorer {
    /// Every recorded per-chunk block count is positive.
    pub open spec fn spec_counts_positive(self) -> bool {
        forall|i: int| 0 <= i < self.chunks@.len() ==> (#[trigger] self.chunks@[i]).1 > 0
    }

    /// The bookkeeping invariant: no chunk is visited twice, every recorded
    /// chunk was visited, and no chunk is recorded twice.
    pub open spec fn spec_visited_wf(self) -> bool {
        &&& (forall|i: int, j: int|
            0 <= i < j < self.visited@.len() ==> self.visited@[i] != self.visited@[j])
        &&& (forall|i: int|
            0 <= i < self.chunks@.len() ==> self.visited@.contains(
                (#[trigger] self.chunks@[i]).0,
            ))
        &&& (forall|i: int, j: int|
            0 <= i < j < self.chunks@.len() ==> self.chunks@[i].0 != self.chunks@[j].0)
    }

    /// A fresh exploration, seeded with one starting chunk.
    pub fn new(starting_chunk_coords: ChunkCoords, ties: CoordMap<Tie>) -> (r: Explorer)
        ensures
            r.worklist@ =~= seq![starting_chunk_coords],
            r.visited@.len() == 0,
            r.chunk_num == 0,
            r.cache.entries@.len() == 0,
            r.absent@.len() == 0,
            r.blocks@.len() == 0,
            r.chunks@.len() == 0,
            r.ties == ties,
    {
        let mut worklist: Vec<ChunkCoords> = Vec::new();
        worklist.push(starting_chunk_coords);
        Explorer {
            worklist,
            visited: Vec::new(),
            chunk_num: 0,
            cache: RegionCache::new(),
            absent: Vec::new(),
            blocks: Vec::new(),
            chunks: Vec::new(),
            ties,
        }
    }

    /// Whether a region is known to have no file.
    fn is_absent(&self, rc: RegionCoords) -> (r: bool)
        ensures
            r == self.absent@.contains(rc),
    {
        let mut i: usize = 0;
        while i < self.absent.len()
            invariant
                i <= self.absent@.len(),
                forall|j: int| 0 <= j < i ==> self.absent@[j] != rc,
            decreases self.absent@.len() - i,
        {
            if self.absent[i] == rc {
                return true;
            }
            i = i + 1;
        }
        false
    }

    /// Whether a chunk has been processed already.
    fn is_visited(&self, c: ChunkCoords) -> (r: bool)
        ensures
            r == self.visited@.contains(c),
    {
        let mut i: usize = 0;
        while i < self.visited.len()
            invariant
                i <= self.visited@.len(),
                forall|j: int| 0 <= j < i ==> self.visited@[j] != c,
            decreases self.visited@.len() - i,
        {
            if self.visited[i] == c {
                return true;
            }
            i = i + 1;
        }
        false
    }

    /// Takes one chunk off the worklist and advances: an already visited
    /// chunk is skipped; a chunk whose region is neither cached nor known
    /// absent is handed back as a region request, with the chunk kept; a
    /// chunk with a cached region is decoded and its discoveries enqueued.
    #[verifier::loop_isolation(false)]
    pub fn step(&mut self) -> (r: Result<ExploreStep, Error>)
        ensures
            match r {
                Ok(ExploreStep::Done) => *final(self) == *old(self) && old(self).worklist@.len()
                    == 0,
                Ok(ExploreStep::Skipped) => {
                    &&& old(self).worklist@.len() > 0
                    &&& old(self).visited@.contains(old(self).worklist@.last())
                    &&& *final(self) == Explorer {
                        worklist: final(self).worklist,
                        ..*old(self)
                    }
                    &&& final(self).worklist@ == old(self).worklist@.drop_last()
                },
                Ok(ExploreStep::NeedRegion(rc)) => {
                    &&& old(self).worklist@.len() > 0
                    &&& rc == spec_chunk_to_region(old(self).worklist@.last())
                    &&& !old(self).cache.spec_has(rc)
                    &&& !old(self).absent@.contains(rc)
                    &&& final(self).worklist@ == old(self).worklist@
                    &&& final(self).visited == old(self).visited
                    &&& final(self).chunk_num == old(self).chunk_num
                    &&& final(self).cache == old(self).cache
                    &&& final(self).absent == old(self).absent
                    &&& final(self).blocks == old(self).blocks
                    &&& final(self).chunks == old(self).chunks
                    &&& final(self).ties == old(self).ties
                },
                Ok(ExploreStep::Processed(c)) => {
                    &&& old(self).worklist@.len() > 0
                    &&& c == old(self).worklist@.last()
                    &&& !old(self).visited@.contains(c)
                    &&& final(self).visited@ == old(self).visited@.push(c)
                    &&& final(self).ties == old(self).ties
                    &&& final(self).absent == old(self).absent
                    &&& final(self).chunk_num == old(self).chunk_num + 1
                    &&& final(self).cache.entries@.len() == old(self).cache.entries@.len()
                    &&& (forall|i: int|
                        0 <= i < old(self).cache.entries@.len()
                            ==> (#[trigger] final(self).cache.entries@[i]).coords
                            == old(self).cache.entries@[i].coords
                            && final(self).cache.entries@[i].data
                            == old(self).cache.entries@[i].data)
                    &&& spec_step_processed(c, *old(self), *final(self))
                },
                Err(e) => {
                    &&& old(self).worklist@.len() > 0
                    &&& !old(self).visited@.contains(old(self).worklist@.last())
                    &&& match e {
                        Error::SearchLimitExceeded => old(self).chunk_num == u32::MAX,
                        Error::MalformedInput => {
                            let c = old(self).worklist@.last();
                            let rc = spec_chunk_to_region(c);
                            &&& spec_chunk_in_range(c)
                            &&& match spec_region_index(old(self).cache.entries@, rc) {
                                Some(ix) => spec_chunk_undecodable(
                                    old(self).cache.entries@[ix].data@,
                                    c,
                                ),
                                None => false,
                            }
                        },
                        Error::InconsistentTopology(_) => false,
                    }
                },
            },
            old(self).spec_counts_positive() && (r matches Ok(_))
                ==> final(self).spec_counts_positive(),
            old(self).spec_visited_wf() && (r matches Ok(_)) ==> final(self).spec_visited_wf(),
            spec_counts_sum(old(self).chunks@) == old(self).blocks@.len() && (r matches Ok(_))
                ==> spec_counts_sum(final(self).chunks@) == final(self).blocks@.len(),
    {
        if self.worklist.len() == 0 {
            return Ok(ExploreStep::Done);
        }
        let c = match self.worklist.pop() {
            Some(v) => v,
            None => {
                proof {
                    assert(false);
                }
                return Err(Error::MalformedInput);
            },
        };
        if self.is_visited(c) {
            return Ok(ExploreStep::Skipped);
        }
        let new_num = match self.chunk_num.checked_add(1) {
            Some(v) => v,
            None => {
                return Err(Error::SearchLimitExceeded);
            },
        };
        let in_range = -134217728 <= c.x && c.x <= 134217727 && -134217728 <= c.z && c.z
            <= 134217727;
        if !in_range {
            self.chunk_num = new_num;
            self.visited.push(c);
            proof {
                assert(spec_more_chunks(
                    Seq::<Block>::empty(),
                    old(self).ties.entries@,
                    0,
                ) =~= Seq::<ChunkCoords>::empty());
                assert(self.worklist@ =~= old(self).worklist@.drop_last() + Seq::<
                    ChunkCoords,
                >::empty());
                assert(self.blocks@ =~= old(self).blocks@ + Seq::<Block>::empty());
                assert(spec_step_processed(c, *old(self), *self));
                if old(self).spec_visited_wf() {
                    lemma_wf_after_process(
                        old(self).visited@,
                        self.visited@,
                        old(self).chunks@,
                        self.chunks@,
                        c,
                    );
                }
            }
            return Ok(ExploreStep::Processed(c));
        }
        let rc = chunk_coords_to_region_coords(c);
        let ghost old_entries = self.cache.entries@;
        let hit = update_region_cache(rc, new_num, &mut self.cache);
        if hit {
            self.chunk_num = new_num;
            proof {
                crate::region_cache::lemma_region_index_valid(old_entries, rc);
                let oi = crate::region_cache::spec_region_index(old_entries, rc).unwrap();
                crate::region_cache::lemma_region_index_first(self.cache.entries@, rc, oi);
                assert(crate::region_cache::spec_region_index(self.cache.entries@, rc) == Some(
                    oi,
                ));
                assert(self.cache.entries@[oi].data == old_entries[oi].data);
            }
            let mut added = match self.cache.get_data(rc) {
                Some(data) => match find_chunk_blocks(c, data) {
                    Ok(v) => v,
                    Err(e) => {
                        proof {
                            let oi = crate::region_cache::spec_region_index(
                                old_entries,
                                rc,
                            ).unwrap();
                            assert(spec_chunk_undecodable(old_entries[oi].data@, c));
                        }
                        return Err(e);
                    },
                },
                None => {
                    proof {
                        assert(false);
                    }
                    return Err(Error::MalformedInput);
                },
            };
            let mut more = find_more_chunk_coords_to_process(&added, &self.ties);
            let count = added.len();
            self.visited.push(c);
            if count > 0 {
                self.chunks.push((c, count));
            }
            self.worklist.append(&mut more);
            let ghost added_view = added@;
            self.blocks.append(&mut added);
            proof {
                assert(self.blocks@ =~= old(self).blocks@ + added_view);
                assert(spec_step_processed(c, *old(self), *self));
                if self.chunks@.len() > old(self).chunks@.len() {
                    assert(self.chunks@.drop_last() =~= old(self).chunks@);
                    assert(spec_counts_sum(self.chunks@) == spec_counts_sum(old(self).chunks@)
                        + added_view.len());
                }
                if old(self).spec_visited_wf() {
                    lemma_wf_after_process(
                        old(self).visited@,
                        self.visited@,
                        old(self).chunks@,
                        self.chunks@,
                        c,
                    );
                }
            }
            return Ok(ExploreStep::Processed(c));
        }
        if self.is_absent(rc) {
            self.chunk_num = new_num;
            self.visited.push(c);
            proof {
                crate::region_cache::lemma_region_index_valid(old(self).cache.entries@, rc);
                assert(spec_more_chunks(
                    Seq::<Block>::empty(),
                    old(self).ties.entries@,
                    0,
                ) =~= Seq::<ChunkCoords>::empty());
                assert(self.worklist@ =~= old(self).worklist@.drop_last() + Seq::<
                    ChunkCoords,
                >::empty());
                assert(self.blocks@ =~= old(self).blocks@ + Seq::<Block>::empty());
                assert(spec_step_processed(c, *old(self), *self));
                if old(self).spec_visited_wf() {
                    lemma_wf_after_process(
                        old(self).visited@,
                        self.visited@,
                        old(self).chunks@,
                        self.chunks@,
                        c,
                    );
                }
            }
            return Ok(ExploreStep::Processed(c));
        }
        self.worklist.push(c);
        proof {
            assert(self.worklist@ =~= old(self).worklist@);
        }
        Ok(ExploreStep::NeedRegion(rc))
    }

    /// Records the raw bytes of a freshly read region file, or that the
    /// region has no file, in which case its chunks count as never
    /// generated.
    pub fn provide_region(&mut self, coords: RegionCoords, data: Option<Vec<u8>>)
        ensures
            final(self).worklist == old(self).worklist,
            final(self).visited == old(self).visited,
            final(self).chunk_num == old(self).chunk_num,
            final(self).blocks == old(self).blocks,
            final(self).chunks == old(self).chunks,
            final(self).ties == old(self).ties,
            match data {
                Some(d) => {
                    &&& final(self).absent == old(self).absent
                    &&& exists|reg: Region|
                        {
                            &&& #[trigger] spec_cache_insertion(
                                old(self).cache.entries@,
                                reg,
                                final(self).cache.entries@,
                            )
                            &&& reg.coords == coords
                            &&& reg.last_chunk_num == old(self).chunk_num
                            &&& reg.data@ == d@
                        }
                },
                None => final(self).cache == old(self).cache
                    && final(self).absent@ == old(self).absent@.push(coords),
            },
    {
        match data {
            Some(d) => {
                let ghost dv = d;
                let region = Region { coords, data: d, last_chunk_num: self.chunk_num };
                insert_region(&mut self.cache, region);
                proof {
                    let witness = Region {
                        coords: coords,
                        data: dv,
                        last_chunk_num: old(self).chunk_num,
                    };
                    let all = old(self).cache.entries@.push(witness);
                    if all.len() > crate::region_cache::MAX_CACHED_REGIONS {
                        let j = choose|j: int|
                            crate::region_cache::spec_evicted_oldest(
                                all,
                                j,
                                self.cache.entries@,
                            );
                        assert(crate::region_cache::spec_evicted_oldest(
                            all,
                            j,
                            self.cache.entries@,
                        ));
                    }
                    assert(spec_cache_insertion(
                        old(self).cache.entries@,
                        witness,
                        self.cache.entries@,
                    ));
                }
            },
            None => {
                self.absent.push(coords);
            },
        }
    }

    /// Hands out what the exploration collected: the full block set and the
    /// per-chunk block counts.
    pub fn finish(self) -> (r: (Vec<Block>, Vec<(ChunkCoords, usize)>))
        ensures
            r.0 == self.blocks,
            r.1 == self.chunks,
    {
        (self.blocks, self.chunks)
    }
}

/// A snapshot of the exploration state, all fields abstracted to their
/// mathematical views.
pub struct ExpState {
    pub worklist: Seq<ChunkCoords>,
    pub visited: Seq<ChunkCoords>,
    pub chunk_num: int,
    pub cache: Seq<Region>,
    pub absent: Seq<RegionCoords>,
    pub blocks: Seq<Block>,
    pub chunks: Seq<(ChunkCoords, usize)>,
    pub ties: Seq<(BlockCoords, Tie)>,
}

/// The snapshot of an explorer.
pub open spec fn spec_abs(e: Explorer) -> ExpState {
    ExpState {
        worklist: e.worklist@,
        visited: e.visited@,
        chunk_num: e.chunk_num as int,
        cache: e.cache.entries@,
        absent: e.absent@,
        blocks: e.blocks@,
        chunks: e.chunks@,
        ties: e.ties.entries@,
    }
}

/// One transition that skips an already visited chunk.
pub open spec fn spec_run_skipped(a: ExpState, b: ExpState) -> bool {
    &&& a.worklist.len() > 0
    &&& a.visited.contains(a.worklist.last())
    &&& b == ExpState { worklist: a.worklist.drop_last(), ..a }
}

/// One transition that processes the chunk on top of the worklist: the
/// chunk is marked visited, the blocks its cached region decodes to are
/// appended, its discoveries replace it on the worklist, and a positive
/// count is recorded.
pub open spec fn spec_run_processed(a: ExpState, b: ExpState) -> bool {
    let c = a.worklist.last();
    &&& a.worklist.len() > 0
    &&& !a.visited.contains(c)
    &&& b.visited == a.visited.push(c)
    &&& b.ties == a.ties
    &&& b.absent == a.absent
    &&& b.chunk_num == a.chunk_num + 1
    &&& b.cache.len() == a.cache.len()
    &&& (forall|i: int|
        0 <= i < a.cache.len() ==> (#[trigger] b.cache[i]).coords == a.cache[i].coords
            && b.cache[i].data == a.cache[i].data)
    &&& exists|added: Seq<Block>|
        {
            &&& b.blocks == a.blocks + added
            &&& b.worklist == a.worklist.drop_last() + spec_more_chunks(
                added,
                a.ties,
                added.len() as int,
            )
            &&& b.chunks == if added.len() > 0 {
                a.chunks.push((c, added.len() as usize))
            } else {
                a.chunks
            }
            &&& #[trigger] added.len() >= 0
            &&& (if spec_chunk_in_range(c) {
                match spec_region_index(a.cache, spec_chunk_to_region(c)) {
                    Some(ix) => spec_chunk_blocks_ok(a.cache[ix].data@, c, added),
                    None => added.len() == 0,
                }
            } else {
                added.len() == 0
            })
        }
}

/// One transition that answers a region request from the given list: the
/// requested region is neither cached nor known absent; its bytes from the
/// list enter the cache, or, if the list has none, the region is marked
/// absent. Nothing else changes.
pub open spec fn spec_run_provided(
    a: ExpState,
    b: ExpState,
    regions: Seq<(RegionCoords, Vec<u8>)>,
) -> bool {
    let rc = spec_chunk_to_region(a.worklist.last());
    &&& a.worklist.len() > 0
    &&& spec_region_index(a.cache, rc) is None
    &&& !a.absent.contains(rc)
    &&& b.worklist == a.worklist
    &&& b.visited == a.visited
    &&& b.chunk_num == a.chunk_num
    &&& b.blocks == a.blocks
    &&& b.chunks == a.chunks
    &&& b.ties == a.ties
    &&& ({
        ||| (b.absent == a.absent && exists|reg: Region|
            {
                &&& #[trigger] spec_cache_insertion(a.cache, reg, b.cache)
                &&& reg.coords == rc
                &&& reg.last_chunk_num as int == a.chunk_num
                &&& exists|i: int|
                    0 <= i < regions.len() && (#[trigger] regions[i]).0 == rc && regions[i].1@
                        == reg.data@
            })
        ||| ((forall|i: int| 0 <= i < regions.len() ==> (#[trigger] regions[i]).0 != rc)
            && b.cache == a.cache && b.absent == a.absent.push(rc))
    })
}

/// The snapshot starts a fresh exploration of the given seed and ties.
pub open spec fn spec_explorer_initial(
    st: ExpState,
    start: ChunkCoords,
    ties: Seq<(BlockCoords, Tie)>,
) -> bool {
    &&& st.worklist == seq![start]
    &&& st.visited.len() == 0
    &&& st.chunk_num == 0
    &&& st.cache.len() == 0
    &&& st.absent.len() == 0
    &&& st.blocks.len() == 0
    &&& st.chunks.len() == 0
    &&& st.ties == ties
}

/// A run of the exploration: a sequence of snapshots from the fresh state,
/// each consecutive pair one skip, process, or region-answer transition.
pub open spec fn spec_explorer_run(
    states: Seq<ExpState>,
    start: ChunkCoords,
    ties: Seq<(BlockCoords, Tie)>,
    regions: Seq<(RegionCoords, Vec<u8>)>,
) -> bool {
    &&& states.len() >= 1
    &&& spec_explorer_initial(states[0], start, ties)
    &&& forall|t: int|
        0 <= t < states.len() - 1 ==> spec_run_skipped(#[trigger] states[t], states[t + 1])
            || spec_run_processed(states[t], states[t + 1]) || spec_run_provided(
            states[t],
            states[t + 1],
            regions,
        )
}

/// What a finished exploration returns: some run of the exploration from
/// the seed, drawing regions from the given list, ends with an empty
/// worklist and exactly these blocks and per-chunk counts.
pub open spec fn spec_find_blocks_ok(
    start: ChunkCoords,
    ties: Seq<(BlockCoords, Tie)>,
    regions: Seq<(RegionCoords, Vec<u8>)>,
    blocks: Seq<Block>,
    chunks: Seq<(ChunkCoords, usize)>,
) -> bool {
    exists|states: Seq<ExpState>|
        {
            &&& #[trigger] spec_explorer_run(states, start, ties, regions)
            &&& states.last().worklist.len() == 0
            &&& states.last().blocks == blocks
            &&& states.last().chunks == chunks
        }
}

/// The step budget of an in-memory exploration.
pub const EXPLORE_STEP_LIMIT: u64 = 0x10_0000_0000;

/// The raw bytes of the region with the given coordinates, if the list
/// holds one.
fn region_bytes_for(regions: &Vec<(RegionCoords, Vec<u8>)>, rc: RegionCoords) -> (r: Option<
    Vec<u8>,
>)
    ensures
        match r {
            Some(d) => exists|i: int|
                0 <= i < regions@.len() && (#[trigger] regions@[i]).0 == rc && regions@[i].1@
                    == d@,
            None => forall|i: int| 0 <= i < regions@.len() ==> (#[trigger] regions@[i]).0 != rc,
        },
{
    let mut i: usize = 0;
    while i < regions.len()
        invariant
            i <= regions@.len(),
            forall|j: int| 0 <= j < i ==> (#[trigger] regions@[j]).0 != rc,
        decreases regions@.len() - i,
    {
        if regions[i].0 == rc {
            return Some(vstd::slice::slice_to_vec(regions[i].1.as_slice()));
        }
        i = i + 1;
    }
    None
}

/// Explores the world from one starting chunk, drawing region bytes from
/// the given preloaded list; a region missing from the list counts as
/// having no file and yields no blocks. Returns the full block set and,
/// per visited chunk that held blocks, its block count.
#[verifier::loop_isolation(false)]
pub fn find_blocks(
    starting_chunk_coords: ChunkCoords,
    regions: &Vec<(RegionCoords, Vec<u8>)>,
    ties_map: &CoordMap<Tie>,
) -> (r: Result<(Vec<Block>, Vec<(ChunkCoords, usize)>), Error>)
    ensures
        match r {
            Ok(v) => {
                &&& spec_find_blocks_ok(
                    starting_chunk_coords,
                    ties_map.entries@,
                    regions@,
                    v.0@,
                    v.1@,
                )
                &&& (forall|i: int| 0 <= i < v.1@.len() ==> (#[trigger] v.1@[i]).1 > 0)
                &&& (forall|i: int, j: int|
                    0 <= i < j < v.1@.len() ==> (#[trigger] v.1@[i]).0 != (#[trigger] v.1@[j]).0)
                &&& spec_counts_sum(v.1@) == v.0@.len()
            },
            Err(e) => e == Error::MalformedInput || e == Error::SearchLimitExceeded,
        },
{
    let mut explorer = Explorer::new(starting_chunk_coords, ties_map.duplicate());
    let ghost mut states: Seq<ExpState> = seq![spec_abs(explorer)];
    proof {
        assert(explorer.worklist@ == seq![starting_chunk_coords]);
        assert(spec_explorer_initial(
            spec_abs(explorer),
            starting_chunk_coords,
            ties_map.entries@,
        ));
        assert(spec_explorer_run(states, starting_chunk_coords, ties_map.entries@, regions@));
    }
    let mut fuel: u64 = EXPLORE_STEP_LIMIT;
    while fuel > 0
        invariant
            explorer.spec_counts_positive(),
            explorer.spec_visited_wf(),
            spec_counts_sum(explorer.chunks@) == explorer.blocks@.len(),
            spec_explorer_run(states, starting_chunk_coords, ties_map.entries@, regions@),
            states.last() == spec_abs(explorer),
        decreases fuel,
    {
        let ghost prev = spec_abs(explorer);
        let ghost states_before = states;
        let step = match explorer.step() {
            Ok(v) => v,
            Err(e) => {
                return Err(e);
            },
        };
        match step {
            ExploreStep::Done => {
                proof {
                    assert(states.last().worklist.len() == 0);
                    assert(spec_find_blocks_ok(
                        starting_chunk_coords,
                        ties_map.entries@,
                        regions@,
                        explorer.blocks@,
                        explorer.chunks@,
                    ));
                }
                return Ok(explorer.finish());
            },
            ExploreStep::Skipped => {
                proof {
                    assert(spec_abs(explorer) == ExpState {
                        worklist: prev.worklist.drop_last(),
                        ..prev
                    });
                    assert(spec_run_skipped(prev, spec_abs(explorer)));
                    states = states.push(spec_abs(explorer));
                    lemma_run_extend(
                        states_before,
                        spec_abs(explorer),
                        starting_chunk_coords,
                        ties_map.entries@,
                        regions@,
                    );
                }
            },
            ExploreStep::Processed(c) => {
                proof {
                    assert(spec_run_processed(prev, spec_abs(explorer))) by {
                        let added = choose|added: Seq<Block>|
                            {
                                &&& explorer.blocks@ == prev.blocks + added
                                &&& explorer.worklist@ == prev.worklist.drop_last()
                                    + spec_more_chunks(added, prev.ties, added.len() as int)
                                &&& explorer.chunks@ == if added.len() > 0 {
                                    prev.chunks.push((c, added.len() as usize))
                                } else {
                                    prev.chunks
                                }
                                &&& #[trigger] added.len() >= 0
                                &&& (if spec_chunk_in_range(c) {
                                    match spec_region_index(
                                        prev.cache,
                                        spec_chunk_to_region(c),
                                    ) {
                                        Some(ix) => spec_chunk_blocks_ok(
                                            prev.cache[ix].data@,
                                            c,
                                            added,
                                        ),
                                        None => added.len() == 0,
                                    }
                                } else {
                                    added.len() == 0
                                })
                            };
                        assert(added.len() >= 0);
                    }
                    states = states.push(spec_abs(explorer));
                    lemma_run_extend(
                        states_before,
                        spec_abs(explorer),
                        starting_chunk_coords,
                        ties_map.entries@,
                        regions@,
                    );
                }
            },
            ExploreStep::NeedRegion(rc) => {
                proof {
                    assert(spec_abs(explorer) == prev);
                }
                let data = region_bytes_for(regions, rc);
                let ghost data_found = data is Some;
                explorer.provide_region(rc, data);
                proof {
                    crate::region_cache::lemma_region_index_valid(prev.cache, rc);
                    assert(spec_run_provided(prev, spec_abs(explorer), regions@)) by {
                        if data_found {
                            let reg = choose|reg: Region|
                                {
                                    &&& #[trigger] spec_cache_insertion(
                                        prev.cache,
                                        reg,
                                        explorer.cache.entries@,
                                    )
                                    &&& reg.coords == rc
                                    &&& reg.last_chunk_num as int == prev.chunk_num
                                };
                            assert(spec_cache_insertion(
                                prev.cache,
                                reg,
                                explorer.cache.entries@,
                            ));
                        }
                    }
                    states = states.push(spec_abs(explorer));
                    lemma_run_extend(
                        states_before,
                        spec_abs(explorer),
                        starting_chunk_coords,
                        ties_map.entries@,
                        regions@,
                    );
                }
            },
        }
        fuel = fuel - 1;
    }
    Err(Error::SearchLimitExceeded)
}

/// Appending one more transition keeps a run a run.
proof fn lemma_run_extend(
    states: Seq<ExpState>,
    next: ExpState,
    start: ChunkCoords,
    ties: Seq<(BlockCoords, Tie)>,
    regions: Seq<(RegionCoords, Vec<u8>)>,
)
    requires
        spec_explorer_run(states, start, ties, regions),
        spec_run_skipped(states.last(), next) || spec_run_processed(states.last(), next)
            || spec_run_provided(states.last(), next, regions),
    ensures
        spec_explorer_run(states.push(next), start, ties, regions),
        states.push(next).last() == next,
{
    let extended = states.push(next);
    assert(forall|t: int| 0 <= t < states.len() ==> extended[t] == #[trigger] states[t]);
    assert(extended[states.len() - 1] == states.last());
    assert(extended[states.len() as int] == next);
    assert forall|t: int|
        0 <= t < extended.len() - 1 implies spec_run_skipped(#[trigger] extended[t], extended[t + 1])
        || spec_run_processed(extended[t], extended[t + 1]) || spec_run_provided(
        extended[t],
        extended[t + 1],
        regions,
    ) by {
        if t < states.len() - 1 {
            assert(extended[t] == states[t]);
            assert(extended[t + 1] == states[t + 1]);
        }
    }
}

} // verus!
