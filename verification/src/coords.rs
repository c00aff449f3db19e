//! Coordinate spaces of the voxel world: blocks, 16x16 chunk columns, and
//! 32x32-chunk region containers, each tagged with the realm it lies in.

use vstd::prelude::*;

verus! {

/// The closed set of realms a coordinate can belong to.
#[derive(Debug, Eq, PartialEq, Hash, Clone, Copy, Structural)]
pub enum Realm {
    Overworld,
    Nether,
    End,
}

/// One voxel: x, y, z and the realm.
#[derive(Debug, Eq, PartialEq, Hash, Clone, Copy, Structural)]
pub struct BlockCoords {
    pub x: i32,
    pub y: i32,
    pub z: i32,
    pub realm: Realm,
}

/// One 16x16 column of voxels: chunk x, chunk z and the realm.
#[derive(Debug, Eq, PartialEq, Hash, Clone, Copy, Structural)]
pub struct ChunkCoords {
    pub x: i32,
    pub z: i32,
    pub realm: Realm,
}

/// One 32x32-chunk container: region x, region z and the realm.
#[derive(Debug, Eq, PartialEq, Hash, Clone, Copy, Structural)]
pub struct RegionCoords {
    pub x: i32,
    pub z: i32,
    pub realm: Realm,
}

/// Chunk coordinates of the chunk holding a block: floor division of x and z by 16.
pub open spec fn spec_block_to_chunk(block_coords: BlockCoords) -> ChunkCoords {
    ChunkCoords {
        x: (block_coords.x as int / 16) as i32,
        z: (block_coords.z as int / 16) as i32,
        realm: block_coords.realm,
    }
}

/// Region coordinates of the region holding a chunk: floor division of x and z by 32.
pub open spec fn spec_chunk_to_region(chunk_coords: ChunkCoords) -> RegionCoords {
    RegionCoords {
        x: (chunk_coords.x as int / 32) as i32,
        z: (chunk_coords.z as int / 32) as i32,
        realm: chunk_coords.realm,
    }
}

/// Floor division of an i32 by a small positive constant, which can never
/// leave the i32 range.
fn div_floor(x: i32, d: i32) -> (r: i32)
    requires
        2 <= d <= 512,
    ensures
        r == x as int / d as int,
{
    match x.checked_div_euclid(d) {
        Some(q) => q,
        None => {
            proof {
                assert(i32::MIN <= x as int / d as int <= i32::MAX) by (nonlinear_arith)
                    requires
                        2 <= d <= 512,
                        i32::MIN <= x <= i32::MAX,
                {}
            }
            0
        },
    }
}

/// Chunk coordinates of the chunk that holds the given block.
pub fn block_coords_to_chunk_coords(block_coords: BlockCoords) -> (r: ChunkCoords)
    ensures
        r == spec_block_to_chunk(block_coords),
{
    ChunkCoords {
        x: div_floor(block_coords.x, 16),
        z: div_floor(block_coords.z, 16),
        realm: block_coords.realm,
    }
}

/// Region coordinates of the region that holds the given chunk.
pub fn chunk_coords_to_region_coords(chunk_coords: ChunkCoords) -> (r: RegionCoords)
    ensures
        r == spec_chunk_to_region(chunk_coords),
{
    RegionCoords {
        x: div_floor(chunk_coords.x, 32),
        z: div_floor(chunk_coords.z, 32),
        realm: chunk_coords.realm,
    }
}


/// The realm's name as it appears in output file names: the overworld has
/// none.
pub fn realm_to_out_string(realm: Realm) -> (r: String)
    ensures
        realm == Realm::Overworld ==> r@ == ""@,
        realm == Realm::Nether ==> r@ == "nether"@,
        realm == Realm::End ==> r@ == "end"@,
{
    let s: &str = match realm {
        Realm::Overworld => "",
        Realm::Nether => "nether",
        Realm::End => "end",
    };
    s.to_owned()
}

/// The realm's name as commands address it.
pub fn realm_to_command_realm(realm: Realm) -> (r: String)
    ensures
        realm == Realm::Overworld ==> r@ == "overworld"@,
        realm == Realm::Nether ==> r@ == "the_nether"@,
        realm == Realm::End ==> r@ == "the_end"@,
{
    let s: &str = match realm {
        Realm::Overworld => "overworld",
        Realm::Nether => "the_nether",
        Realm::End => "the_end",
    };
    s.to_owned()
}

/// Dividing an i32 by 16 and then by 32 is dividing it by 512.
proof fn lemma_div16_div32(x: int)
    requires
        i32::MIN <= x <= i32::MAX,
    ensures
        (x / 16) / 32 == x / 512,
        -134217728 <= x / 16 <= 134217727,
        -4194304 <= x / 512 <= 4194303,
{
    vstd::arithmetic::div_mod::lemma_div_is_ordered(i32::MIN as int, x, 16);
    vstd::arithmetic::div_mod::lemma_div_is_ordered(x, i32::MAX as int, 16);
    vstd::arithmetic::div_mod::lemma_fundamental_div_mod_converse(
        i32::MIN as int,
        16,
        -134217728,
        0,
    );
    vstd::arithmetic::div_mod::lemma_fundamental_div_mod_converse(
        i32::MAX as int,
        16,
        134217727,
        15,
    );
    vstd::arithmetic::div_mod::lemma_div_is_ordered(i32::MIN as int, x, 512);
    vstd::arithmetic::div_mod::lemma_div_is_ordered(x, i32::MAX as int, 512);
    vstd::arithmetic::div_mod::lemma_fundamental_div_mod_converse(
        i32::MIN as int,
        512,
        -4194304,
        0,
    );
    vstd::arithmetic::div_mod::lemma_fundamental_div_mod_converse(
        i32::MAX as int,
        512,
        4194303,
        511,
    );
    let shifted = x + 2147483648;
    vstd::arithmetic::div_mod::lemma_div_denominator(shifted, 16, 32);
    assert(shifted / 16 == x / 16 + 134217728) by {
        vstd::arithmetic::div_mod::lemma_hoist_over_denominator(x, 134217728, 16nat);
    }
    assert((x / 16 + 134217728) / 32 == (x / 16) / 32 + 4194304) by {
        vstd::arithmetic::div_mod::lemma_hoist_over_denominator(x / 16, 4194304, 32nat);
    }
    assert(shifted / 512 == x / 512 + 4194304) by {
        vstd::arithmetic::div_mod::lemma_hoist_over_denominator(x, 4194304, 512nat);
    }
}

/// Converting a block to chunk coordinates and then to region coordinates
/// divides its x and z by 512: the composition is one flooring division by
/// the region size in blocks.
pub proof fn lemma_block_to_region_composed(b: BlockCoords)
    ensures
        spec_chunk_to_region(spec_block_to_chunk(b)) == (RegionCoords {
            x: (b.x as int / 512) as i32,
            z: (b.z as int / 512) as i32,
            realm: b.realm,
        }),
{
    lemma_div16_div32(b.x as int);
    lemma_div16_div32(b.z as int);
}

/// Two blocks of one chunk convert to one chunk, and hence to one region:
/// moving a block anywhere inside its chunk changes neither conversion.
pub proof fn lemma_same_chunk_same_region(a: BlockCoords, b: BlockCoords)
    requires
        spec_block_to_chunk(a) == spec_block_to_chunk(b),
    ensures
        spec_chunk_to_region(spec_block_to_chunk(a)) == spec_chunk_to_region(
            spec_block_to_chunk(b),
        ),
{
}

/// Translating a block by multiples of 16 in x and z shifts its chunk
/// coordinates by exactly those multiples.
pub proof fn lemma_chunk_coords_translate(b: BlockCoords, t: BlockCoords, kx: int, kz: int)
    requires
        t.x as int == b.x as int + 16 * kx,
        t.z as int == b.z as int + 16 * kz,
        t.realm == b.realm,
    ensures
        spec_block_to_chunk(t).x as int == spec_block_to_chunk(b).x as int + kx,
        spec_block_to_chunk(t).z as int == spec_block_to_chunk(b).z as int + kz,
        spec_block_to_chunk(t).realm == spec_block_to_chunk(b).realm,
{
    lemma_div16_div32(b.x as int);
    lemma_div16_div32(b.z as int);
    lemma_div16_div32(t.x as int);
    lemma_div16_div32(t.z as int);
    vstd::arithmetic::div_mod::lemma_hoist_over_denominator(b.x as int, kx, 16nat);
    vstd::arithmetic::div_mod::lemma_hoist_over_denominator(b.z as int, kz, 16nat);
}

/// Translating a block by any multiple of 16 in x and z that keeps it
/// inside its region leaves the block-to-chunk-to-region conversion
/// unchanged.
pub proof fn lemma_region_invariant_under_translation(b: BlockCoords, t: BlockCoords)
    requires
        t.x as int % 16 == b.x as int % 16,
        t.z as int % 16 == b.z as int % 16,
        t.x as int / 512 == b.x as int / 512,
        t.z as int / 512 == b.z as int / 512,
        t.realm == b.realm,
    ensures
        spec_chunk_to_region(spec_block_to_chunk(t)) == spec_chunk_to_region(
            spec_block_to_chunk(b),
        ),
{
    lemma_block_to_region_composed(b);
    lemma_block_to_region_composed(t);
}

/// Translating a block by multiples of 512 in x and z shifts its region
/// coordinates by exactly those multiples.
pub proof fn lemma_region_coords_translate(b: BlockCoords, t: BlockCoords, kx: int, kz: int)
    requires
        t.x as int == b.x as int + 512 * kx,
        t.z as int == b.z as int + 512 * kz,
        t.realm == b.realm,
    ensures
        spec_chunk_to_region(spec_block_to_chunk(t)).x as int == spec_chunk_to_region(
            spec_block_to_chunk(b),
        ).x as int + kx,
        spec_chunk_to_region(spec_block_to_chunk(t)).z as int == spec_chunk_to_region(
            spec_block_to_chunk(b),
        ).z as int + kz,
        spec_chunk_to_region(spec_block_to_chunk(t)).realm == spec_chunk_to_region(
            spec_block_to_chunk(b),
        ).realm,
{
    lemma_block_to_region_composed(b);
    lemma_block_to_region_composed(t);
    lemma_div16_div32(b.x as int);
    lemma_div16_div32(b.z as int);
    lemma_div16_div32(t.x as int);
    lemma_div16_div32(t.z as int);
    vstd::arithmetic::div_mod::lemma_hoist_over_denominator(b.x as int, kx, 512nat);
    vstd::arithmetic::div_mod::lemma_hoist_over_denominator(b.z as int, kz, 512nat);
}

} // verus!
