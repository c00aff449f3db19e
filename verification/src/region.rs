//! Container Reader: locates one chunk's compressed payload inside a region
//! container and decompresses it. A region container starts with a 4096-byte
//! location table of 1024 four-byte entries, each a 3-byte big-endian sector
//! offset (in 4096-byte sectors) plus an ignored sector-count byte.

use vstd::prelude::*;
use crate::bytes::{spec_be3, spec_be4, read_three_byte_size, read_four_byte_size};
use crate::blocks::Block;
use crate::coords::{ChunkCoords, RegionCoords};
use crate::error::Error;
use crate::nbt::{NbtEntry, spec_chunk_parses};
use crate::nbt_blocks::{
    find_chunk_nbt_blocks,
    spec_blocks_match,
    spec_chunk_descs,
    spec_chunk_data_ok,
    spec_chunk_in_range,
};

verus! {

/// One cached region: its coordinates, the raw region file bytes, and the
/// sequence number of the chunk that last touched it.
pub struct Region {
    pub coords: RegionCoords,
    pub data: Vec<u8>,
    pub last_chunk_num: u32,
}

/// What `decode_zlib_bytes` returns for given compressed bytes: the inflated
/// payload, or nothing when the bytes are not a valid zlib stream. The
/// result depends on the compressed bytes alone.
pub uninterp spec fn zlib_inflate(data: Seq<u8>) -> Option<Seq<u8>>;

/// Relies on zune_inflate::DeflateDecoder::new and its decode_zlib: the
/// result depends on the compressed bytes alone, and decoding fails exactly
/// on inputs that are not a valid zlib stream.
#[verifier::external_body]
fn decode_zlib_bytes(data: &[u8]) -> (r: Option<Vec<u8>>)
    ensures
        match r {
            Some(v) => zlib_inflate(data@) == Some(v@),
            None => zlib_inflate(data@) is None,
        },
{
    let mut decoder = zune_inflate::DeflateDecoder::new(data);
    decoder.decode_zlib().ok()
}

/// The location-table offset of a chunk: four bytes per entry, indexed by
/// the chunk's position inside its 32x32-chunk region.
pub open spec fn spec_loc_offset(chunk_coords: ChunkCoords) -> int {
    4 * ((chunk_coords.x as int % 32) + 32 * (chunk_coords.z as int % 32))
}

/// The chunk was never generated: its location-table entry holds sector
/// offset zero.
pub open spec fn spec_chunk_absent(region: Seq<u8>, chunk_coords: ChunkCoords) -> bool {
    let loc = spec_loc_offset(chunk_coords);
    region.len() >= loc + 3 && spec_be3(region, loc) == 0
}

/// The compressed bytes of a chunk's payload: at the sector offset named by
/// the location table stands a 4-byte big-endian length, then one
/// compression-scheme byte, then `length - 1` compressed bytes.
pub open spec fn spec_chunk_compressed(region: Seq<u8>, chunk_coords: ChunkCoords) -> Option<
    Seq<u8>,
> {
    let loc = spec_loc_offset(chunk_coords);
    if region.len() >= loc + 3 {
        let off = 4096 * spec_be3(region, loc);
        if off == 0 {
            None
        } else if region.len() >= off + 4 {
            let l = spec_be4(region, off);
            if l >= 1 && off + 4 + l <= region.len() {
                Some(region.subrange(off + 5, off + 4 + l))
            } else {
                None
            }
        } else {
            None
        }
    } else {
        None
    }
}

/// Locates and decompresses one chunk's payload inside the raw bytes of its
/// region container. `Ok(None)` means the chunk was never generated.
pub fn extract_chunk_nbt(chunk_coords: ChunkCoords, region_data: &Vec<u8>) -> (r: Result<
    Option<Vec<u8>>,
    Error,
>)
    ensures
        match r {
            Ok(None) => spec_chunk_absent(region_data@, chunk_coords),
            Ok(Some(payload)) => {
                &&& spec_chunk_compressed(region_data@, chunk_coords) is Some
                &&& zlib_inflate(spec_chunk_compressed(region_data@, chunk_coords).unwrap())
                    == Some(payload@)
            },
            Err(e) => {
                &&& e == Error::MalformedInput
                &&& !spec_chunk_absent(region_data@, chunk_coords)
                &&& match spec_chunk_compressed(region_data@, chunk_coords) {
                    None => true,
                    Some(c) => zlib_inflate(c) is None,
                }
            },
        },
{
    let n = region_data.len();
    let cx = match chunk_coords.x.checked_rem_euclid(32) {
        Some(v) => v,
        None => {
            proof {
                assert(false);
            }
            0
        },
    };
    let cz = match chunk_coords.z.checked_rem_euclid(32) {
        Some(v) => v,
        None => {
            proof {
                assert(false);
            }
            0
        },
    };
    let loc_offset = 4 * ((cx as usize) + 32 * (cz as usize));
    if n < loc_offset + 3 {
        return Err(Error::MalformedInput);
    }
    let sector = read_three_byte_size(region_data, loc_offset);
    if sector == 0 {
        return Ok(None);
    }
    let off64 = 4096u64 * (sector as u64);
    if (n as u64) < off64 + 4 {
        return Err(Error::MalformedInput);
    }
    let chunk_offset = off64 as usize;
    let chunk_length = read_four_byte_size(region_data, chunk_offset);
    if chunk_length < 1 || chunk_length > n - (chunk_offset + 4) {
        return Err(Error::MalformedInput);
    }
    let start = chunk_offset + 5;
    let end = chunk_offset + 4 + chunk_length;
    let compressed = vstd::slice::slice_subrange(region_data.as_slice(), start, end);
    match decode_zlib_bytes(compressed) {
        Some(payload) => Ok(Some(payload)),
        None => Err(Error::MalformedInput),
    }
}

/// The block list is what decoding the chunk out of the given region bytes
/// gives: either the chunk was never generated and the list is empty, or
/// the chunk's payload decompresses, parses, and describes exactly these
/// blocks.
pub open spec fn spec_chunk_blocks_ok(
    region: Seq<u8>,
    chunk_coords: ChunkCoords,
    blocks: Seq<Block>,
) -> bool {
    ||| (spec_chunk_absent(region, chunk_coords) && blocks.len() == 0)
    ||| (exists|payload: Seq<u8>, root: Seq<NbtEntry>|
        {
            &&& spec_chunk_compressed(region, chunk_coords) is Some
            &&& zlib_inflate(spec_chunk_compressed(region, chunk_coords).unwrap()) == Some(payload)
            &&& #[trigger] spec_chunk_parses(payload, root)
            &&& spec_blocks_match(blocks, spec_chunk_descs(root, chunk_coords))
            &&& spec_chunk_data_ok(root, chunk_coords)
        })
}

/// The chunk cannot be decoded out of the given region bytes: it is not
/// marked absent, and its payload cannot be located, decompressed, parsed,
/// or holds a section with a short index array.
pub open spec fn spec_chunk_undecodable(region: Seq<u8>, chunk_coords: ChunkCoords) -> bool {
    &&& !spec_chunk_absent(region, chunk_coords)
    &&& match spec_chunk_compressed(region, chunk_coords) {
        None => true,
        Some(c) => match zlib_inflate(c) {
            None => true,
            Some(p) => (forall|root: Seq<NbtEntry>| !spec_chunk_parses(p, root)) || exists|
                root: Seq<NbtEntry>,
            |
                #[trigger] spec_chunk_parses(p, root) && !spec_chunk_data_ok(root, chunk_coords),
        },
    }
}

/// The blocks of one chunk, read from the raw bytes of its region
/// container: the chunk's payload is located, decompressed, decoded and
/// walked. A chunk that was never generated yields no blocks; decoding
/// fails exactly on undecodable bytes.
pub fn find_chunk_blocks(chunk_coords: ChunkCoords, region_data: &Vec<u8>) -> (r: Result<
    Vec<Block>,
    Error,
>)
    requires
        spec_chunk_in_range(chunk_coords),
    ensures
        match r {
            Ok(blocks) => spec_chunk_blocks_ok(region_data@, chunk_coords, blocks@),
            Err(e) => e == Error::MalformedInput && spec_chunk_undecodable(
                region_data@,
                chunk_coords,
            ),
        },
{
    match extract_chunk_nbt(chunk_coords, region_data)? {
        Some(chunk_nbt) => {
            let ghost payload = chunk_nbt@;
            let blocks = match find_chunk_nbt_blocks(chunk_coords, chunk_nbt) {
                Ok(v) => v,
                Err(e) => {
                    return Err(e);
                },
            };
            Ok(blocks)
        },
        None => Ok(Vec::new()),
    }
}

} // verus!
