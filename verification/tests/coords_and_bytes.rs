use railscan::coords::{
    block_coords_to_chunk_coords, chunk_coords_to_region_coords, realm_to_command_realm,
    realm_to_out_string, BlockCoords, ChunkCoords, Realm,
};

fn block(x: i32, y: i32, z: i32) -> BlockCoords {
    BlockCoords {
        x,
        y,
        z,
        realm: Realm::Overworld,
    }
}

#[test]
fn chunk_of_block_floors_by_sixteen() {
    let c = block_coords_to_chunk_coords(block(17, 64, -1));
    assert_eq!(c.x, 1);
    assert_eq!(c.z, -1);
    assert_eq!(c.realm, Realm::Overworld);
}

#[test]
fn region_of_chunk_floors_by_thirty_two() {
    let r = chunk_coords_to_region_coords(ChunkCoords {
        x: 33,
        z: -33,
        realm: Realm::Nether,
    });
    assert_eq!(r.x, 1);
    assert_eq!(r.z, -2);
    assert_eq!(r.realm, Realm::Nether);
}

#[test]
fn region_invariant_under_small_translation_inside_chunk() {
    // two blocks of one chunk land in one chunk, and one region
    let a = block_coords_to_chunk_coords(block(32, 0, 32));
    let b = block_coords_to_chunk_coords(block(47, 99, 47));
    assert_eq!(a, b);
    let ra = chunk_coords_to_region_coords(a);
    let rb = chunk_coords_to_region_coords(b);
    assert_eq!(ra, rb);
}

#[test]
fn region_invariant_under_multiple_of_sixteen_inside_region() {
    // translating by 16 moves the chunk but keeps the region
    let a = block(0, 0, 0);
    let b = block(16, 0, 496);
    let ra = chunk_coords_to_region_coords(block_coords_to_chunk_coords(a));
    let rb = chunk_coords_to_region_coords(block_coords_to_chunk_coords(b));
    assert_eq!(ra, rb);
}

#[test]
fn region_shifts_under_multiple_of_512() {
    let a = block(3, 0, 3);
    let b = block(3 + 512, 0, 3 - 1024);
    let ra = chunk_coords_to_region_coords(block_coords_to_chunk_coords(a));
    let rb = chunk_coords_to_region_coords(block_coords_to_chunk_coords(b));
    assert_eq!(rb.x, ra.x + 1);
    assert_eq!(rb.z, ra.z - 2);
}

#[test]
fn realm_strings() {
    assert_eq!(realm_to_out_string(Realm::Overworld), "");
    assert_eq!(realm_to_out_string(Realm::Nether), "nether");
    assert_eq!(realm_to_out_string(Realm::End), "end");
    assert_eq!(realm_to_command_realm(Realm::Overworld), "overworld");
    assert_eq!(realm_to_command_realm(Realm::Nether), "the_nether");
    assert_eq!(realm_to_command_realm(Realm::End), "the_end");
}

#[test]
fn big_endian_fields() {
    let data = vec![0x01u8, 0x02, 0x03, 0x04, 0xFF];
    assert_eq!(railscan::bytes::read_two_byte_size(&data, 0), 0x0102);
    assert_eq!(railscan::bytes::read_three_byte_size(&data, 0), 0x010203);
    assert_eq!(railscan::bytes::read_four_byte_size(&data, 0), 0x01020304);
    assert_eq!(railscan::bytes::read_four_byte_size(&data, 1), 0x020304FF);
}

#[test]
fn signed_big_endian() {
    let data = vec![0xFFu8, 0xFF, 0xFF, 0xFE];
    assert_eq!(railscan::bytes::read_i32(&data), -2);
    let data2 = vec![0x00u8, 0x00, 0x01, 0x00];
    assert_eq!(railscan::bytes::read_i32(&data2), 256);
}
