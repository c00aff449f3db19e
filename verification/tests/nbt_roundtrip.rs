use railscan::blocks::{BlockID, RailData, SignData};
use railscan::coords::{ChunkCoords, Realm, RegionCoords};
use railscan::error::Error;
use railscan::explore::find_blocks;
use railscan::maps::CoordMap;
use railscan::nbt::{read_chunk_nbt, Nbt};
use railscan::nbt_blocks::{find_chunk_nbt_blocks, palette_index_width};
use railscan::region::{extract_chunk_nbt, find_chunk_blocks};

fn push_tag(out: &mut Vec<u8>, id: u8, name: &str) {
    out.push(id);
    let n = name.as_bytes();
    out.push((n.len() >> 8) as u8);
    out.push((n.len() & 0xFF) as u8);
    out.extend_from_slice(n);
}

fn nbt_byte(out: &mut Vec<u8>, name: &str, v: u8) {
    push_tag(out, 1, name);
    out.push(v);
}

fn nbt_int(out: &mut Vec<u8>, name: &str, v: i32) {
    push_tag(out, 3, name);
    out.extend_from_slice(&v.to_be_bytes());
}

fn string_payload(out: &mut Vec<u8>, v: &str) {
    let b = v.as_bytes();
    out.push((b.len() >> 8) as u8);
    out.push((b.len() & 0xFF) as u8);
    out.extend_from_slice(b);
}

fn nbt_string(out: &mut Vec<u8>, name: &str, v: &str) {
    push_tag(out, 8, name);
    string_payload(out, v);
}

fn nbt_long_array(out: &mut Vec<u8>, name: &str, longs: &[u64]) {
    push_tag(out, 12, name);
    out.extend_from_slice(&(longs.len() as u32).to_be_bytes());
    for l in longs {
        out.extend_from_slice(&l.to_be_bytes());
    }
}

/// A palette entry: a name and optional (property key, value) pairs.
fn palette_entry_payload(out: &mut Vec<u8>, name: &str, props: &[(&str, &str)]) {
    nbt_string(out, "Name", name);
    if !props.is_empty() {
        push_tag(out, 10, "Properties");
        for (k, v) in props {
            nbt_string(out, k, v);
        }
        out.push(0);
    }
    out.push(0);
}

/// Builds the chunk payload: one section holding a rail and a sign, plus a
/// sign block entity carrying the sign's text.
fn synthetic_chunk_payload() -> Vec<u8> {
    let mut root: Vec<u8> = Vec::new();
    push_tag(&mut root, 10, "");

    // sections: List of Compound
    push_tag(&mut root, 9, "sections");
    root.push(10);
    root.extend_from_slice(&1u32.to_be_bytes());
    {
        // one section compound payload
        nbt_byte(&mut root, "Y", 0);
        push_tag(&mut root, 10, "block_states");
        {
            push_tag(&mut root, 9, "palette");
            root.push(10);
            root.extend_from_slice(&3u32.to_be_bytes());
            palette_entry_payload(&mut root, "minecraft:stone", &[]);
            palette_entry_payload(&mut root, "minecraft:rail", &[("shape", "north_south")]);
            palette_entry_payload(&mut root, "minecraft:oak_wall_sign", &[("facing", "north")]);
            // packed indices: position 0 holds palette index 1 (the rail),
            // position 1 holds palette index 2 (the sign), all others 0
            let mut longs = [0u64; 256];
            longs[0] = 1 | (2 << 4);
            nbt_long_array(&mut root, "data", &longs);
            root.push(0);
        }
        root.push(0);
    }

    // block_entities: List of Compound with one sign entity at (1, 0, 0)
    push_tag(&mut root, 9, "block_entities");
    root.push(10);
    root.extend_from_slice(&1u32.to_be_bytes());
    {
        nbt_string(&mut root, "id", "minecraft:sign");
        nbt_int(&mut root, "x", 1);
        nbt_int(&mut root, "y", 0);
        nbt_int(&mut root, "z", 0);
        push_tag(&mut root, 10, "front_text");
        {
            push_tag(&mut root, 9, "messages");
            root.push(8);
            root.extend_from_slice(&4u32.to_be_bytes());
            string_payload(&mut root, "\"Alpha\"");
            string_payload(&mut root, "{\"text\":\"Station\"}");
            string_payload(&mut root, "\"\"");
            string_payload(&mut root, "\"  \"");
            root.push(0);
        }
        root.push(0);
    }

    root.push(0);
    root
}

fn adler32(data: &[u8]) -> u32 {
    let mut a: u32 = 1;
    let mut b: u32 = 0;
    for &byte in data {
        a = (a + byte as u32) % 65521;
        b = (b + a) % 65521;
    }
    (b << 16) | a
}

/// Wraps bytes in a zlib stream of stored deflate blocks.
fn zlib_stored(data: &[u8]) -> Vec<u8> {
    assert!(data.len() <= 0xFFFF);
    let mut out = vec![0x78u8, 0x01];
    out.push(0x01);
    let len = data.len() as u16;
    out.extend_from_slice(&len.to_le_bytes());
    out.extend_from_slice(&(!len).to_le_bytes());
    out.extend_from_slice(data);
    out.extend_from_slice(&adler32(data).to_be_bytes());
    out
}

/// Builds a region container holding one chunk at local position (0, 0).
fn synthetic_region(payload: &[u8]) -> Vec<u8> {
    let compressed = zlib_stored(payload);
    let mut region = vec![0u8; 4096];
    // location table entry 0: sector offset 1, sector count 1
    region[2] = 1;
    region[3] = 1;
    let length = (compressed.len() + 1) as u32;
    region.extend_from_slice(&length.to_be_bytes());
    region.push(2);
    region.extend_from_slice(&compressed);
    region
}

fn chunk_zero() -> ChunkCoords {
    ChunkCoords {
        x: 0,
        z: 0,
        realm: Realm::Overworld,
    }
}

#[test]
fn chunk_payload_decodes_to_tree() {
    let payload = synthetic_chunk_payload();
    let root = read_chunk_nbt(&payload).expect("the synthetic payload must parse");
    match root {
        Nbt::NbtCompound(entries) => {
            assert_eq!(entries.len(), 2);
            assert_eq!(entries[0].name, b"sections".to_vec());
            assert_eq!(entries[1].name, b"block_entities".to_vec());
        }
        _ => panic!("the root must be a compound"),
    }
}

#[test]
fn malformed_payload_is_rejected() {
    let garbage = vec![13u8, 1];
    assert_eq!(read_chunk_nbt(&garbage).err(), Some(Error::MalformedInput));
    let truncated = vec![10u8, 0, 0, 9];
    assert!(read_chunk_nbt(&truncated).is_err());
}

#[test]
fn chunk_blocks_round_trip() {
    let payload = synthetic_chunk_payload();
    let blocks = find_chunk_nbt_blocks(chunk_zero(), payload).expect("decoding must succeed");
    assert_eq!(blocks.len(), 2);
    let rail = &blocks[0];
    assert_eq!(rail.id, BlockID::UnpoweredRail);
    assert_eq!(rail.rail_data, RailData::NS);
    assert_eq!((rail.coords.x, rail.coords.y, rail.coords.z), (0, 0, 0));
    assert_eq!(rail.sign_text, "");
    let sign = &blocks[1];
    assert_eq!(sign.id, BlockID::OakWallSign);
    assert_eq!(sign.sign_data, SignData::N);
    assert_eq!((sign.coords.x, sign.coords.y, sign.coords.z), (1, 0, 0));
    assert_eq!(sign.sign_text, "Alpha Station");
}

#[test]
fn container_round_trip() {
    let payload = synthetic_chunk_payload();
    let region = synthetic_region(&payload);
    let extracted = extract_chunk_nbt(chunk_zero(), &region)
        .expect("the container must be readable")
        .expect("the chunk must be present");
    assert_eq!(extracted, payload);
    let blocks = find_chunk_blocks(chunk_zero(), &region).expect("decoding must succeed");
    assert_eq!(blocks.len(), 2);
    assert_eq!(blocks[0].id, BlockID::UnpoweredRail);
    assert_eq!(blocks[1].sign_text, "Alpha Station");
}

#[test]
fn absent_chunk_yields_no_blocks() {
    let region = vec![0u8; 4096];
    let extracted = extract_chunk_nbt(chunk_zero(), &region).expect("readable");
    assert!(extracted.is_none());
    let blocks = find_chunk_blocks(chunk_zero(), &region).expect("decodable");
    assert!(blocks.is_empty());
}

#[test]
fn exploration_round_trip() {
    let payload = synthetic_chunk_payload();
    let region = synthetic_region(&payload);
    let regions = vec![(
        RegionCoords {
            x: 0,
            z: 0,
            realm: Realm::Overworld,
        },
        region,
    )];
    let ties: CoordMap<railscan::maps::Tie> = CoordMap::new();
    let (blocks, chunks) = find_blocks(chunk_zero(), &regions, &ties).expect("exploring succeeds");
    assert_eq!(blocks.len(), 2);
    assert_eq!(chunks.len(), 1);
    assert_eq!(chunks[0].0, chunk_zero());
    assert_eq!(chunks[0].1, 2);
}

#[test]
fn short_index_array_is_rejected() {
    // the same chunk, but with a packed index array too short for all
    // 4096 positions
    let mut root: Vec<u8> = Vec::new();
    push_tag(&mut root, 10, "");
    push_tag(&mut root, 9, "sections");
    root.push(10);
    root.extend_from_slice(&1u32.to_be_bytes());
    nbt_byte(&mut root, "Y", 0);
    push_tag(&mut root, 10, "block_states");
    push_tag(&mut root, 9, "palette");
    root.push(10);
    root.extend_from_slice(&1u32.to_be_bytes());
    palette_entry_payload(&mut root, "minecraft:rail", &[("shape", "north_south")]);
    let longs = [0u64; 10];
    nbt_long_array(&mut root, "data", &longs);
    root.push(0);
    root.push(0);
    root.push(0);
    let result = find_chunk_nbt_blocks(chunk_zero(), root);
    assert_eq!(result.err(), Some(Error::MalformedInput));
}

#[test]
fn index_widths_for_palette_sizes() {
    assert_eq!(palette_index_width(1), 4);
    assert_eq!(palette_index_width(2), 4);
    assert_eq!(palette_index_width(17), 5);
    // indices per 64-bit word is the word size over the width
    assert_eq!(64usize / palette_index_width(1), 16);
    assert_eq!(64usize / palette_index_width(17), 12);
}
