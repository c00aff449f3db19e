//! Region Cache: a bounded set of decompressed region payloads. Touching an
//! entry refreshes its sequence number; when an insertion pushes the cache
//! over capacity, the entry that was touched longest ago is evicted.

use vstd::prelude::*;
use crate::coords::RegionCoords;
use crate::region::Region;

verus! {

/// The capacity of the region cache.
pub const MAX_CACHED_REGIONS: usize = 10;

/// A bounded cache of regions, evicted by least-recently-touched.
pub struct RegionCache {
    pub entries: Vec<Region>,
}

/// The first index holding the given region coordinates.
pub open spec fn spec_region_index(s: Seq<Region>, c: RegionCoords) -> Option<int>
    decreases s.len(),
{
    if s.len() == 0 {
        None
    } else if s[0].coords == c {
        Some(0int)
    } else {
        match spec_region_index(s.drop_first(), c) {
            Some(i) => Some(i + 1),
            None => None,
        }
    }
}

/// The index found by `spec_region_index` names the first matching entry.
pub proof fn lemma_region_index_valid(s: Seq<Region>, c: RegionCoords)
    ensures
        match spec_region_index(s, c) {
            Some(i) => 0 <= i < s.len() && s[i].coords == c && forall|j: int|
                0 <= j < i ==> (#[trigger] s[j]).coords != c,
            None => forall|i: int| 0 <= i < s.len() ==> s[i].coords != c,
        },
    decreases s.len(),
{
    if s.len() > 0 {
        lemma_region_index_valid(s.drop_first(), c);
        match spec_region_index(s, c) {
            Some(i) => {
                if i > 0 {
                    assert(s.drop_first()[i - 1] == s[i]);
                    assert(forall|j: int|
                        1 <= j < i ==> s.drop_first()[j - 1] == #[trigger] s[j]);
                }
            },
            None => {
                assert(forall|i: int|
                    1 <= i < s.len() ==> s.drop_first()[i - 1] == #[trigger] s[i]);
            },
        }
    }
}

impl RegionCache {
    /// Whether a region with the given coordinates is cached.
    pub open spec fn spec_has(self, c: RegionCoords) -> bool {
        spec_region_index(self.entries@, c) is Some
    }

    /// A fresh empty cache.
    pub fn new() -> (r: RegionCache)
        ensures
            r.entries@.len() == 0,
    {
        RegionCache { entries: Vec::new() }
    }

    /// The cached raw bytes of a region.
    pub fn get_data(&self, c: RegionCoords) -> (r: Option<&Vec<u8>>)
        ensures
            match r {
                Some(d) => {
                    &&& self.spec_has(c)
                    &&& d@ == self.entries@[spec_region_index(self.entries@, c).unwrap()].data@
                },
                None => !self.spec_has(c),
            },
    {
        proof {
            lemma_region_index_valid(self.entries@, c);
        }
        let mut i: usize = 0;
        while i < self.entries.len()
            invariant
                i <= self.entries@.len(),
                forall|j: int| 0 <= j < i ==> self.entries@[j].coords != c,
            decreases self.entries@.len() - i,
        {
            if self.entries[i].coords == c {
                proof {
                    lemma_region_index_first(self.entries@, c, i as int);
                }
                return Some(&self.entries[i].data);
            }
            i = i + 1;
        }
        None
    }
}

/// An index whose earlier entries all miss is the first index.
pub proof fn lemma_region_index_first(s: Seq<Region>, c: RegionCoords, i: int)
    requires
        0 <= i < s.len(),
        s[i].coords == c,
        forall|j: int| 0 <= j < i ==> s[j].coords != c,
    ensures
        spec_region_index(s, c) == Some(i),
    decreases s.len(),
{
    if i > 0 {
        assert(forall|j: int| 0 <= j < i - 1 ==> s.drop_first()[j] == #[trigger] s[j + 1]);
        lemma_region_index_first(s.drop_first(), c, i - 1);
    }
}

/// Refreshes the sequence number of an already cached region. Returns
/// whether the region was cached; a miss changes nothing, and the caller is
/// expected to read the region file and insert it. Touching a cached entry
/// never reads.
pub fn update_region_cache(
    region_coords: RegionCoords,
    chunk_num: u32,
    region_cache: &mut RegionCache,
) -> (hit: bool)
    ensures
        hit == old(region_cache).spec_has(region_coords),
        final(region_cache).entries@.len() == old(region_cache).entries@.len(),
        !hit ==> *final(region_cache) == *old(region_cache),
        hit ==> {
            let i = spec_region_index(old(region_cache).entries@, region_coords).unwrap();
            &&& final(region_cache).entries@ =~= old(region_cache).entries@.update(
                i,
                Region {
                    coords: old(region_cache).entries@[i].coords,
                    data: old(region_cache).entries@[i].data,
                    last_chunk_num: chunk_num,
                },
            )
        },
{
    proof {
        lemma_region_index_valid(old(region_cache).entries@, region_coords);
    }
    let n = region_cache.entries.len();
    let mut i: usize = 0;
    while i < n
        invariant
            i <= n,
            n == region_cache.entries@.len(),
            *region_cache == *old(region_cache),
            forall|j: int| 0 <= j < i ==> region_cache.entries@[j].coords != region_coords,
        decreases n - i,
    {
        if region_cache.entries[i].coords == region_coords {
            proof {
                lemma_region_index_first(region_cache.entries@, region_coords, i as int);
            }
            let mut entry = region_cache.entries.remove(i);
            entry.last_chunk_num = chunk_num;
            region_cache.entries.insert(i, entry);
            proof {
                let old_entries = old(region_cache).entries@;
                assert(region_cache.entries@ =~= old_entries.update(
                    i as int,
                    Region {
                        coords: old_entries[i as int].coords,
                        data: old_entries[i as int].data,
                        last_chunk_num: chunk_num,
                    },
                ));
            }
            return true;
        }
        i = i + 1;
    }
    false
}

/// The entry at `j` of `s` is the first least-recently-touched one, and
/// `r` is `s` with exactly that entry evicted.
pub open spec fn spec_evicted_oldest(s: Seq<Region>, j: int, r: Seq<Region>) -> bool {
    &&& 0 <= j < s.len()
    &&& (forall|i: int|
        0 <= i < s.len() ==> (#[trigger] s[i].last_chunk_num) >= s[j].last_chunk_num)
    &&& (forall|i: int| 0 <= i < j ==> (#[trigger] s[i].last_chunk_num) > s[j].last_chunk_num)
    &&& r =~= s.remove(j)
}

/// Evicts the least-recently-touched entry when the cache stands over
/// capacity; under or at capacity nothing changes. Of equally old entries
/// the first is evicted.
pub fn maybe_shrink_region_cache(region_cache: &mut RegionCache)
    ensures
        old(region_cache).entries@.len() <= MAX_CACHED_REGIONS ==> *final(region_cache) == *old(
            region_cache,
        ),
        old(region_cache).entries@.len() > MAX_CACHED_REGIONS ==> exists|j: int|
            spec_evicted_oldest(
                old(region_cache).entries@,
                j,
                final(region_cache).entries@,
            ),
{
    let n = region_cache.entries.len();
    if n <= MAX_CACHED_REGIONS {
        return ;
    }
    let mut oldest: usize = 0;
    let mut i: usize = 1;
    while i < n
        invariant
            n == region_cache.entries@.len(),
            *region_cache == *old(region_cache),
            oldest < i <= n,
            forall|k: int|
                0 <= k < i ==> (#[trigger] region_cache.entries@[k].last_chunk_num)
                    >= region_cache.entries@[oldest as int].last_chunk_num,
            forall|k: int|
                0 <= k < oldest ==> (#[trigger] region_cache.entries@[k].last_chunk_num)
                    > region_cache.entries@[oldest as int].last_chunk_num,
        decreases n - i,
    {
        if region_cache.entries[i].last_chunk_num
            < region_cache.entries[oldest].last_chunk_num {
            oldest = i;
        }
        i = i + 1;
    }
    region_cache.entries.remove(oldest);
    proof {
        assert(spec_evicted_oldest(
            old(region_cache).entries@,
            oldest as int,
            region_cache.entries@,
        ));
    }
}

/// Inserts a freshly read region, evicting the least-recently-touched entry
/// if the cache runs over capacity.
pub fn insert_region(region_cache: &mut RegionCache, region: Region)
    ensures
        ({
            let all = old(region_cache).entries@.push(region);
            if all.len() <= MAX_CACHED_REGIONS {
                final(region_cache).entries@ =~= all
            } else {
                exists|j: int| spec_evicted_oldest(all, j, final(region_cache).entries@)
            }
        }),
{
    region_cache.entries.push(region);
    maybe_shrink_region_cache(region_cache);
}

} // verus!
