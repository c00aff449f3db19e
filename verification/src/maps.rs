//! Maps keyed by block coordinates, backed by an entry list: a later insert
//! for the same coordinates overrides an earlier one.

use vstd::prelude::*;
use crate::blocks::{Block, Direction};
use crate::coords::BlockCoords;

verus! {

/// An explicit non-physical connectivity override: stepping off
/// `from` coordinates while travelling in `from_direction` jumps to
/// `to_coords`, continuing in `to_direction`.
#[derive(Debug, Clone, Copy)]
pub struct Tie {
    pub to_coords: BlockCoords,
    pub from_direction: Direction,
    pub to_direction: Direction,
}

/// A map from block coordinates to values, backed by an entry list.
pub struct CoordMap<V> {
    pub entries: Vec<(BlockCoords, V)>,
}

/// The value registered last under the given coordinates.
pub open spec fn spec_map_lookup<V>(s: Seq<(BlockCoords, V)>, c: BlockCoords) -> Option<V>
    decreases s.len(),
{
    if s.len() == 0 {
        None
    } else if s.last().0 == c {
        Some(s.last().1)
    } else {
        spec_map_lookup(s.drop_last(), c)
    }
}

impl<V> CoordMap<V> {
    /// Whether some value is registered under the given coordinates.
    pub open spec fn spec_has(self, c: BlockCoords) -> bool {
        spec_map_lookup(self.entries@, c) is Some
    }

    /// A fresh empty map.
    pub fn new() -> (r: CoordMap<V>)
        ensures
            r.entries@.len() == 0,
    {
        CoordMap { entries: Vec::new() }
    }

    /// Registers a value under coordinates, overriding an earlier one.
    pub fn insert(&mut self, c: BlockCoords, v: V)
        ensures
            final(self).entries@ == old(self).entries@.push((c, v)),
    {
        self.entries.push((c, v));
    }

    /// The number of entries registered (later overrides included).
    pub fn len(&self) -> (r: usize)
        ensures
            r == self.entries@.len(),
    {
        self.entries.len()
    }

    /// An entry-for-entry copy of the map.
    pub fn duplicate(&self) -> (r: CoordMap<V>) where V: Copy
        ensures
            r.entries@ == self.entries@,
    {
        let mut entries: Vec<(BlockCoords, V)> = Vec::new();
        let mut i: usize = 0;
        while i < self.entries.len()
            invariant
                i <= self.entries@.len(),
                entries@ == self.entries@.subrange(0, i as int),
            decreases self.entries@.len() - i,
        {
            entries.push(self.entries[i]);
            proof {
                assert(entries@ =~= self.entries@.subrange(0, i + 1));
            }
            i = i + 1;
        }
        proof {
            assert(self.entries@.subrange(0, self.entries@.len() as int) =~= self.entries@);
        }
        CoordMap { entries }
    }

    /// The value registered last under the given coordinates.
    pub fn get(&self, c: BlockCoords) -> (r: Option<&V>)
        ensures
            match r {
                Some(v) => spec_map_lookup(self.entries@, c) == Some(*v),
                None => spec_map_lookup(self.entries@, c) is None,
            },
    {
        let ghost s = self.entries@;
        let mut k: usize = self.entries.len();
        proof {
            assert(s.subrange(0, s.len() as int) =~= s);
        }
        while k > 0
            invariant
                k <= s.len(),
                s == self.entries@,
                spec_map_lookup(s, c) == spec_map_lookup(s.subrange(0, k as int), c),
            decreases k,
        {
            proof {
                let part = s.subrange(0, k as int);
                assert(part.last() == s[k - 1]);
                assert(part.drop_last() =~= s.subrange(0, k - 1));
            }
            k = k - 1;
            if self.entries[k].0 == c {
                return Some(&self.entries[k].1);
            }
        }
        proof {
            assert(s.subrange(0, 0) =~= Seq::<(BlockCoords, V)>::empty());
        }
        None
    }
}

/// The rail-map and sign-map entry lists of the first `k` blocks: each rail
/// block registered in the rail map and each sign block in the sign map,
/// keyed by coordinates and holding the block's position in the list.
pub open spec fn spec_block_maps(blocks: Seq<Block>, k: int) -> (Seq<(BlockCoords, usize)>, Seq<
    (BlockCoords, usize),
>)
    decreases k,
{
    if k <= 0 {
        (Seq::empty(), Seq::empty())
    } else {
        let (rails, signs) = spec_block_maps(blocks, k - 1);
        let b = blocks[k - 1];
        if crate::blocks::spec_is_rail_id(b.id) {
            (rails.push((b.coords, (k - 1) as usize)), signs)
        } else {
            (rails, signs.push((b.coords, (k - 1) as usize)))
        }
    }
}

/// Splits the blocks into the rail map and the sign map, each keyed by the
/// block's coordinates and holding the block's position in the list.
pub fn build_block_maps(blocks: &Vec<Block>) -> (r: (CoordMap<usize>, CoordMap<usize>))
    ensures
        spec_block_maps(blocks@, blocks@.len() as int) == (r.0.entries@, r.1.entries@),
{
    let mut rail_map: CoordMap<usize> = CoordMap::new();
    let mut sign_map: CoordMap<usize> = CoordMap::new();
    let mut i: usize = 0;
    while i < blocks.len()
        invariant
            i <= blocks@.len(),
            spec_block_maps(blocks@, i as int) == (rail_map.entries@, sign_map.entries@),
        decreases blocks@.len() - i,
    {
        let block = &blocks[i];
        if block.is_rail() {
            rail_map.insert(block.coords, i);
        } else {
            sign_map.insert(block.coords, i);
        }
        i = i + 1;
    }
    (rail_map, sign_map)
}

/// A rail-map entry list agrees with its block list: every registered index
/// names a rail block of the list at the entry's coordinates.
pub open spec fn spec_rail_map_ok(blocks: Seq<Block>, m: Seq<(BlockCoords, usize)>) -> bool {
    forall|i: int|
        0 <= i < m.len() ==> {
            &&& (#[trigger] m[i]).1 < blocks.len()
            &&& blocks[m[i].1 as int].coords == m[i].0
            &&& crate::blocks::spec_is_rail_id(blocks[m[i].1 as int].id)
        }
}

/// A sign-map entry list agrees with its block list: every registered index
/// names a sign block of the list at the entry's coordinates.
pub open spec fn spec_sign_map_ok(blocks: Seq<Block>, m: Seq<(BlockCoords, usize)>) -> bool {
    forall|i: int|
        0 <= i < m.len() ==> {
            &&& (#[trigger] m[i]).1 < blocks.len()
            &&& blocks[m[i].1 as int].coords == m[i].0
            &&& crate::blocks::spec_is_sign_id(blocks[m[i].1 as int].id)
        }
}

/// What `build_block_maps` builds agrees with its block list, and a lookup
/// in either map lands on a block with the looked-up coordinates.
pub proof fn lemma_block_maps_ok(blocks: Seq<Block>, k: int)
    requires
        0 <= k <= blocks.len(),
        blocks.len() <= usize::MAX,
    ensures
        spec_rail_map_ok(blocks, spec_block_maps(blocks, k).0),
        spec_sign_map_ok(blocks, spec_block_maps(blocks, k).1),
    decreases k,
{
    if k > 0 {
        lemma_block_maps_ok(blocks, k - 1);
        let rails0 = spec_block_maps(blocks, k - 1).0;
        let signs0 = spec_block_maps(blocks, k - 1).1;
        let rails = spec_block_maps(blocks, k).0;
        let signs = spec_block_maps(blocks, k).1;
        let b = blocks[k - 1];
        if crate::blocks::spec_is_rail_id(b.id) {
            assert(rails =~= rails0.push((b.coords, (k - 1) as usize)));
            assert(signs =~= signs0);
        } else {
            assert(rails =~= rails0);
            assert(signs =~= signs0.push((b.coords, (k - 1) as usize)));
        }
        assert forall|i: int| 0 <= i < rails.len() implies {
            &&& (#[trigger] rails[i]).1 < blocks.len()
            &&& blocks[rails[i].1 as int].coords == rails[i].0
            &&& crate::blocks::spec_is_rail_id(blocks[rails[i].1 as int].id)
        } by {
            if i < rails0.len() {
                assert(rails[i] == rails0[i]);
                assert((rails0[i]).1 < blocks.len() && blocks[rails0[i].1 as int].coords
                    == rails0[i].0 && crate::blocks::spec_is_rail_id(
                    blocks[rails0[i].1 as int].id,
                ));
            } else {
                assert(rails[i] == (b.coords, (k - 1) as usize));
            }
        }
        assert forall|i: int| 0 <= i < signs.len() implies {
            &&& (#[trigger] signs[i]).1 < blocks.len()
            &&& blocks[signs[i].1 as int].coords == signs[i].0
            &&& crate::blocks::spec_is_sign_id(blocks[signs[i].1 as int].id)
        } by {
            if i < signs0.len() {
                assert(signs[i] == signs0[i]);
                assert((signs0[i]).1 < blocks.len() && blocks[signs0[i].1 as int].coords
                    == signs0[i].0 && crate::blocks::spec_is_sign_id(
                    blocks[signs0[i].1 as int].id,
                ));
            } else {
                assert(signs[i] == (b.coords, (k - 1) as usize));
            }
        }
    }
}

/// A lookup result obeys the map's agreement with its block list.
pub proof fn lemma_map_lookup_ok(m: Seq<(BlockCoords, usize)>, c: BlockCoords)
    ensures
        match spec_map_lookup(m, c) {
            Some(v) => exists|i: int| 0 <= i < m.len() && m[i] == (c, v),
            None => true,
        },
    decreases m.len(),
{
    if m.len() > 0 {
        if m.last().0 == c {
            assert(m[m.len() - 1] == (c, m.last().1));
        } else {
            lemma_map_lookup_ok(m.drop_last(), c);
            if spec_map_lookup(m, c) is Some {
                let v = spec_map_lookup(m.drop_last(), c).unwrap();
                let i = choose|i: int|
                    0 <= i < m.drop_last().len() && m.drop_last()[i] == (c, v);
                assert(m[i] == (c, v));
            }
        }
    }
}

} // verus!
