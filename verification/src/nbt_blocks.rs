//! Chunk Block Extractor: walks a decoded chunk tree and its bit-packed
//! palette index arrays to materialize the typed `Block` records of one
//! chunk, and attaches sign text collected from the chunk's block entities.

use vstd::prelude::*;
use vstd::arithmetic::power2::{pow2, lemma_pow2_strictly_increases};
use vstd::utf8::{valid_utf8, decode_utf8};
use vstd::string::StringSliceAdditionalSpecFns;
use vstd::string::StringExecFns;

use crate::bytes::{spec_i32_be, read_i32};
use crate::blocks::{
    Block,
    BlockID,
    RailData,
    SignData,
    spec_is_rail_id,
    spec_is_sign_id,
    spec_block_name_to_id,
    spec_shape_to_rail_data,
    spec_facing_to_sign_data,
    block_name_to_id,
    shape_to_rail_data,
    facing_to_sign_data,
};
use crate::coords::{BlockCoords, ChunkCoords, Realm};
use crate::error::Error;
use crate::nbt::{Nbt, NbtEntry, read_chunk_nbt, nbt_lookup, spec_nbt_lookup, spec_chunk_parses};
use crate::strutil::{bytes_eq, bytes_to_str, trim_str, spec_trim};

verus! {

/// What `text_from_json` extracts from one sign message: the message is
/// either a bare JSON string, whose value is taken, or a JSON object whose
/// "text" field is taken; anything else, malformed JSON included, gives the
/// empty string. The result depends on the message bytes alone.
pub uninterp spec fn json_text_of(message: Seq<u8>) -> Seq<char>;

/// Relies on serde_json::from_slice and serde_json::Value: a bare JSON
/// string gives its value, a JSON object gives its "text" field when that is
/// a string, and anything else gives the empty string.
#[verifier::external_body]
fn text_from_json(message: &Vec<u8>) -> (r: String)
    ensures
        r@ == json_text_of(message@),
{
    match serde_json::from_slice::<serde_json::Value>(message.as_slice()) {
        Ok(serde_json::Value::String(text)) => text,
        Ok(serde_json::Value::Object(object)) => match object.get("text") {
            Some(serde_json::Value::String(text)) => text.clone(),
            _ => String::new(),
        },
        _ => String::new(),
    }
}

/// The sign text accumulated over the message list: each leaf message's
/// extracted text is trimmed, and non-empty pieces are joined with single
/// spaces onto `acc`.
pub open spec fn spec_sign_text_from(messages: Seq<Nbt>, acc: Seq<char>) -> Seq<char>
    decreases messages.len(),
{
    if messages.len() == 0 {
        acc
    } else {
        let acc2 = match messages[0] {
            Nbt::NbtData(d) => {
                let t = spec_trim(json_text_of(d@));
                if acc.len() > 0 && t.len() > 0 {
                    acc + " "@ + t
                } else {
                    acc + t
                }
            },
            _ => acc,
        };
        spec_sign_text_from(messages.drop_first(), acc2)
    }
}

/// The sign text of one block entity: the trimmed non-empty fragments of
/// its front text messages, joined with single spaces.
pub open spec fn spec_extract_sign_text(entries: Seq<NbtEntry>) -> Seq<char> {
    match spec_nbt_lookup(entries, "front_text".spec_bytes()) {
        Some(Nbt::NbtCompound(ft)) => match spec_nbt_lookup(ft@, "messages".spec_bytes()) {
            Some(Nbt::NbtList(ms)) => spec_sign_text_from(ms@, Seq::<char>::empty()),
            _ => Seq::<char>::empty(),
        },
        _ => Seq::<char>::empty(),
    }
}

/// Joins the trimmed non-empty front-text message fragments of a sign block
/// entity with single spaces.
pub fn extract_sign_text(block_entity: &Vec<NbtEntry>) -> (r: String)
    ensures
        r@ == spec_extract_sign_text(block_entity@),
{
    let mut sign_text = String::new();
    let messages: &Vec<Nbt> = match nbt_lookup(block_entity, "front_text".as_bytes()) {
        Some(Nbt::NbtCompound(ft)) => match nbt_lookup(ft, "messages".as_bytes()) {
            Some(Nbt::NbtList(ms)) => ms,
            _ => {
                return sign_text;
            },
        },
        _ => {
            return sign_text;
        },
    };
    let ghost all = messages@;
    let mut k: usize = 0;
    proof {
        assert(all.subrange(0, all.len() as int) =~= all);
    }
    while k < messages.len()
        invariant
            k <= all.len(),
            all == messages@,
            spec_sign_text_from(all.subrange(k as int, all.len() as int), sign_text@)
                == spec_sign_text_from(all, Seq::<char>::empty()),
        decreases all.len() - k,
    {
        proof {
            let tail = all.subrange(k as int, all.len() as int);
            assert(tail[0] == all[k as int]);
            assert(tail.drop_first() =~= all.subrange(k + 1, all.len() as int));
        }
        if let Nbt::NbtData(d) = &messages[k] {
            let piece = text_from_json(d);
            let next_text = trim_str(piece.as_str());
            if !sign_text.as_str().is_empty() && !next_text.as_str().is_empty() {
                sign_text.append(" ");
            }
            sign_text.append(next_text.as_str());
        }
        k = k + 1;
    }
    proof {
        assert(all.subrange(k as int, all.len() as int) =~= Seq::<Nbt>::empty());
    }
    sign_text
}

/// The coordinates and text of one sign block entity, if the entity is a
/// sign and carries integer x/y/z fields.
pub open spec fn spec_sign_entity(n: Nbt, realm: Realm) -> Option<(BlockCoords, Seq<char>)> {
    match n {
        Nbt::NbtCompound(be) => match spec_nbt_lookup(be@, "id".spec_bytes()) {
            Some(Nbt::NbtData(idb)) => if idb@ == "minecraft:sign".spec_bytes() {
                match (
                    spec_nbt_lookup(be@, "x".spec_bytes()),
                    spec_nbt_lookup(be@, "y".spec_bytes()),
                    spec_nbt_lookup(be@, "z".spec_bytes()),
                ) {
                    (Some(Nbt::NbtData(xb)), Some(Nbt::NbtData(yb)), Some(Nbt::NbtData(zb))) => {
                        if xb@.len() >= 4 && yb@.len() >= 4 && zb@.len() >= 4 {
                            let coords = BlockCoords {
                                x: spec_i32_be(xb@, 0) as i32,
                                y: spec_i32_be(yb@, 0) as i32,
                                z: spec_i32_be(zb@, 0) as i32,
                                realm: realm,
                            };
                            Some((coords, spec_extract_sign_text(be@)))
                        } else {
                            None
                        }
                    },
                    _ => None,
                }
            } else {
                None
            },
            _ => None,
        },
        _ => None,
    }
}

/// The sign entities of a chunk in list order: coordinates and sign text.
pub open spec fn spec_sign_entries(entities: Seq<Nbt>, realm: Realm) -> Seq<
    (BlockCoords, Seq<char>),
>
    decreases entities.len(),
{
    if entities.len() == 0 {
        Seq::empty()
    } else {
        let rest = spec_sign_entries(entities.drop_first(), realm);
        match spec_sign_entity(entities[0], realm) {
            None => rest,
            Some(p) => seq![p] + rest,
        }
    }
}

/// The view of a built sign text map: each entry's text as characters.
pub open spec fn spec_sign_map_view(m: Seq<(BlockCoords, String)>) -> Seq<
    (BlockCoords, Seq<char>),
> {
    m.map_values(|p: (BlockCoords, String)| (p.0, p.1@))
}

/// The text registered last for the given coordinates, scanning from the
/// end, so that a later entity overrides an earlier one at the same spot.
pub open spec fn spec_lookup_last(m: Seq<(BlockCoords, Seq<char>)>, c: BlockCoords) -> Option<
    Seq<char>,
>
    decreases m.len(),
{
    if m.len() == 0 {
        None
    } else if m.last().0 == c {
        Some(m.last().1)
    } else {
        spec_lookup_last(m.drop_last(), c)
    }
}

/// Collects the sign entities of the chunk: each sign's coordinates and its
/// joined front text.
pub fn make_sign_text_map(chunk_root: &Vec<NbtEntry>, chunk_coords: ChunkCoords) -> (r: Vec<
    (BlockCoords, String),
>)
    ensures
        spec_sign_map_view(r@) == spec_chunk_signs(chunk_root@, chunk_coords.realm),
{
    let mut out: Vec<(BlockCoords, String)> = Vec::new();
    let entities: &Vec<Nbt> = match nbt_lookup(chunk_root, "block_entities".as_bytes()) {
        Some(Nbt::NbtList(es)) => es,
        _ => {
            proof {
                assert(spec_sign_map_view(out@) =~= spec_chunk_signs(
                    chunk_root@,
                    chunk_coords.realm,
                ));
            }
            return out;
        },
    };
    let realm = chunk_coords.realm;
    let ghost all = entities@;
    let mut k: usize = 0;
    proof {
        assert(all.subrange(0, all.len() as int) =~= all);
    }
    while k < entities.len()
        invariant
            k <= all.len(),
            all == entities@,
            realm == chunk_coords.realm,
            spec_sign_entries(all, realm) =~= spec_sign_map_view(out@) + spec_sign_entries(
                all.subrange(k as int, all.len() as int),
                realm,
            ),
        decreases all.len() - k,
    {
        proof {
            let tail = all.subrange(k as int, all.len() as int);
            assert(tail[0] == all[k as int]);
            assert(tail.drop_first() =~= all.subrange(k + 1, all.len() as int));
        }
        if let Nbt::NbtCompound(be) = &entities[k] {
            let is_sign = match nbt_lookup(be, "id".as_bytes()) {
                Some(Nbt::NbtData(idb)) => bytes_eq(idb.as_slice(), "minecraft:sign".as_bytes()),
                _ => false,
            };
            if is_sign {
                let xo = match nbt_lookup(be, "x".as_bytes()) {
                    Some(Nbt::NbtData(xb)) => if xb.len() >= 4 {
                        Some(read_i32(xb))
                    } else {
                        None
                    },
                    _ => None,
                };
                let yo = match nbt_lookup(be, "y".as_bytes()) {
                    Some(Nbt::NbtData(yb)) => if yb.len() >= 4 {
                        Some(read_i32(yb))
                    } else {
                        None
                    },
                    _ => None,
                };
                let zo = match nbt_lookup(be, "z".as_bytes()) {
                    Some(Nbt::NbtData(zb)) => if zb.len() >= 4 {
                        Some(read_i32(zb))
                    } else {
                        None
                    },
                    _ => None,
                };
                if let (Some(x), Some(y), Some(z)) = (xo, yo, zo) {
                    let coords = BlockCoords { x, y, z, realm };
                    let text = extract_sign_text(be);
                    let ghost before = out@;
                    out.push((coords, text));
                    proof {
                        assert(spec_sign_map_view(out@) =~= spec_sign_map_view(before).push(
                            (coords, text@),
                        ));
                        assert(seq![(coords, text@)] + spec_sign_entries(
                            all.subrange(k + 1, all.len() as int),
                            realm,
                        ) =~= spec_sign_entries(all.subrange(k as int, all.len() as int), realm));
                    }
                }
            }
        }
        k = k + 1;
    }
    proof {
        assert(spec_sign_entries(all.subrange(k as int, all.len() as int), realm) =~= Seq::<
            (BlockCoords, Seq<char>),
        >::empty());
        assert(spec_sign_map_view(out@) =~= spec_sign_map_view(out@) + Seq::<
            (BlockCoords, Seq<char>),
        >::empty());
    }
    out
}

/// The sign entities of the chunk root, in list order.
pub open spec fn spec_chunk_signs(root: Seq<NbtEntry>, realm: Realm) -> Seq<
    (BlockCoords, Seq<char>),
> {
    match spec_nbt_lookup(root, "block_entities".spec_bytes()) {
        Some(Nbt::NbtList(es)) => spec_sign_entries(es@, realm),
        _ => Seq::empty(),
    }
}

/// Finds the text registered last for the given coordinates.
fn sign_text_for(m: &Vec<(BlockCoords, String)>, c: BlockCoords) -> (r: Option<String>)
    ensures
        match r {
            Some(s) => spec_lookup_last(spec_sign_map_view(m@), c) == Some(s@),
            None => spec_lookup_last(spec_sign_map_view(m@), c) is None,
        },
{
    let ghost view = spec_sign_map_view(m@);
    let mut k: usize = m.len();
    proof {
        assert(view.subrange(0, view.len() as int) =~= view);
    }
    while k > 0
        invariant
            k <= m@.len(),
            view == spec_sign_map_view(m@),
            spec_lookup_last(view, c) == spec_lookup_last(
                view.subrange(0, k as int),
                c,
            ),
        decreases k,
    {
        proof {
            let part = view.subrange(0, k as int);
            assert(part.last() == view[k - 1]);
            assert(part.drop_last() =~= view.subrange(0, k - 1));
        }
        k = k - 1;
        if m[k].0 == c {
            return Some(m[k].1.clone());
        }
    }
    proof {
        assert(view.subrange(0, 0) =~= Seq::<(BlockCoords, Seq<char>)>::empty());
    }
    None
}


/// A palette entry's template: its block id, rail orientation and sign
/// facing, if the entry names a recognized block and carries a property map.
pub open spec fn spec_palette_template(n: Nbt) -> Option<(BlockID, RailData, SignData)> {
    match n {
        Nbt::NbtCompound(pe) => match spec_nbt_lookup(pe@, "Name".spec_bytes()) {
            Some(Nbt::NbtData(nb)) => if valid_utf8(nb@) {
                match spec_block_name_to_id(decode_utf8(nb@)) {
                    Some(id) => match spec_nbt_lookup(pe@, "Properties".spec_bytes()) {
                        Some(Nbt::NbtCompound(props)) => {
                            let rd = if spec_is_rail_id(id) {
                                match spec_nbt_lookup(props@, "shape".spec_bytes()) {
                                    Some(Nbt::NbtData(sb)) => if valid_utf8(sb@) {
                                        match spec_shape_to_rail_data(decode_utf8(sb@)) {
                                            Some(v) => v,
                                            None => RailData::NS,
                                        }
                                    } else {
                                        RailData::NS
                                    },
                                    _ => RailData::NS,
                                }
                            } else {
                                RailData::NS
                            };
                            let sd = if spec_is_sign_id(id) {
                                match spec_nbt_lookup(props@, "facing".spec_bytes()) {
                                    Some(Nbt::NbtData(fb)) => if valid_utf8(fb@) {
                                        match spec_facing_to_sign_data(decode_utf8(fb@)) {
                                            Some(v) => v,
                                            None => SignData::N,
                                        }
                                    } else {
                                        SignData::N
                                    },
                                    _ => SignData::N,
                                }
                            } else {
                                SignData::N
                            };
                            Some((id, rd, sd))
                        },
                        _ => None,
                    },
                    None => None,
                }
            } else {
                None
            },
            _ => None,
        },
        _ => None,
    }
}

/// The templates of all palette entries, in palette order.
pub open spec fn spec_palette_templates(pal: Seq<Nbt>) -> Seq<
    Option<(BlockID, RailData, SignData)>,
> {
    pal.map_values(|n: Nbt| spec_palette_template(n))
}

/// Builds the template of each palette entry; unrecognized entries are left
/// out so that only track-relevant blocks are materialized.
pub fn make_palette_map(palette: &Vec<Nbt>) -> (r: Vec<Option<(BlockID, RailData, SignData)>>)
    ensures
        r@ == spec_palette_templates(palette@),
{
    let mut out: Vec<Option<(BlockID, RailData, SignData)>> = Vec::new();
    let mut i: usize = 0;
    while i < palette.len()
        invariant
            i <= palette@.len(),
            out@.len() == i,
            forall|j: int| 0 <= j < i ==> out@[j] == spec_palette_template(palette@[j]),
        decreases palette@.len() - i,
    {
        let template: Option<(BlockID, RailData, SignData)> = match &palette[i] {
            Nbt::NbtCompound(pe) => match nbt_lookup(pe, "Name".as_bytes()) {
                Some(Nbt::NbtData(nb)) => match bytes_to_str(nb.as_slice()) {
                    Some(name) => match block_name_to_id(name) {
                        Some(id) => match nbt_lookup(pe, "Properties".as_bytes()) {
                            Some(Nbt::NbtCompound(props)) => {
                                let mut rd = RailData::NS;
                                let mut sd = SignData::N;
                                if id.is_rail_id() {
                                    if let Some(Nbt::NbtData(sb)) = nbt_lookup(
                                        props,
                                        "shape".as_bytes(),
                                    ) {
                                        if let Some(shape) = bytes_to_str(sb.as_slice()) {
                                            if let Some(v) = shape_to_rail_data(shape) {
                                                rd = v;
                                            }
                                        }
                                    }
                                }
                                if id.is_sign_id() {
                                    if let Some(Nbt::NbtData(fb)) = nbt_lookup(
                                        props,
                                        "facing".as_bytes(),
                                    ) {
                                        if let Some(facing) = bytes_to_str(fb.as_slice()) {
                                            if let Some(v) = facing_to_sign_data(facing) {
                                                sd = v;
                                            }
                                        }
                                    }
                                }
                                Some((id, rd, sd))
                            },
                            _ => None,
                        },
                        None => None,
                    },
                    None => None,
                },
                _ => None,
            },
            _ => None,
        };
        out.push(template);
        i = i + 1;
    }
    proof {
        assert(out@ =~= spec_palette_templates(palette@));
    }
    out
}

/// The unsigned big-endian value of the eight bytes at `i`.
pub open spec fn spec_be8(data: Seq<u8>, i: int) -> int {
    72057594037927936 * (data[i] as int) + 281474976710656 * (data[i + 1] as int)
        + 1099511627776 * (data[i + 2] as int) + 4294967296 * (data[i + 3] as int) + 16777216 * (
    data[i + 4] as int) + 65536 * (data[i + 5] as int) + 256 * (data[i + 6] as int) + (data[i
        + 7] as int)
}

/// The packed palette index of position `bi`: bits are taken from the 64-bit
/// big-endian word holding the position, starting at bit
/// `width * (bi mod perWord)` from the least significant end.
pub open spec fn spec_palette_index(data: Seq<u8>, bi: int, width: int, per_word: int) -> int {
    let w = spec_be8(data, 8 * (bi / per_word));
    (w / pow2((width * (bi % per_word)) as nat) as int) % pow2(width as nat) as int
}

/// Extracts the packed palette index of position `block_index` from the raw
/// index array.
pub fn get_palette_index(
    block_index: usize,
    block_states_raw_data: &Vec<u8>,
    palette_index_width: usize,
    indices_per_data_element: usize,
) -> (r: Result<usize, Error>)
    requires
        4 <= palette_index_width <= 32,
        indices_per_data_element as int == 64int / palette_index_width as int,
        block_index < 4096,
    ensures
        match r {
            Ok(idx) => {
                &&& 8 * (block_index as int / indices_per_data_element as int) + 8
                    <= block_states_raw_data@.len()
                &&& idx == spec_palette_index(
                    block_states_raw_data@,
                    block_index as int,
                    palette_index_width as int,
                    indices_per_data_element as int,
                )
            },
            Err(e) => {
                &&& e == Error::MalformedInput
                &&& 8 * (block_index as int / indices_per_data_element as int) + 8
                    > block_states_raw_data@.len()
            },
        },
{
    let data = block_states_raw_data;
    let n = data.len();
    proof {
        vstd::arithmetic::div_mod::lemma_div_is_ordered_by_denominator(
            64,
            palette_index_width as int,
            32,
        );
        assert(indices_per_data_element >= 2);
    }
    let word_index = block_index / indices_per_data_element;
    if n < 8 * word_index + 8 {
        return Err(Error::MalformedInput);
    }
    let base = 8 * word_index;
    let w: u64 = 72057594037927936u64 * (data[base] as u64) + 281474976710656u64 * (data[base
        + 1] as u64) + 1099511627776u64 * (data[base + 2] as u64) + 4294967296u64 * (data[base
        + 3] as u64) + 16777216u64 * (data[base + 4] as u64) + 65536u64 * (data[base + 5] as u64)
        + 256u64 * (data[base + 6] as u64) + (data[base + 7] as u64);
    proof {
        let wd = palette_index_width as int;
        let pw = indices_per_data_element as int;
        vstd::arithmetic::div_mod::lemma_fundamental_div_mod(64, wd);
        assert(wd * pw <= 64);
        assert(block_index as int % pw < pw) by {
            vstd::arithmetic::div_mod::lemma_mod_division_less_than_divisor(block_index as int, pw);
        }
        assert(wd * ((block_index as int % pw) + 1) <= wd * pw) by {
            vstd::arithmetic::mul::lemma_mul_inequality((block_index as int % pw) + 1, pw, wd);
            vstd::arithmetic::mul::lemma_mul_is_commutative(wd, (block_index as int % pw) + 1);
            vstd::arithmetic::mul::lemma_mul_is_commutative(wd, pw);
        }
        vstd::arithmetic::mul::lemma_mul_is_distributive_add(wd, block_index as int % pw, 1);
        assert(wd * (block_index as int % pw) + wd <= 64);
    }
    let start = palette_index_width * (block_index % indices_per_data_element);
    proof {
        assert(start + palette_index_width <= 64);
    }
    let shifted = w >> (start as u64);
    let modulus: u64 = 1u64 << (palette_index_width as u64);
    proof {
        vstd::bits::lemma_u64_pow2_no_overflow(palette_index_width as nat);
        vstd::bits::lemma_u64_shl_is_mul(1u64, palette_index_width as u64);
        vstd::bits::lemma_u64_shr_is_div(w, start as u64);
        assert(modulus == pow2(palette_index_width as nat));
        vstd::arithmetic::power2::lemma_pow2_pos(palette_index_width as nat);
    }
    let idx64 = shifted % modulus;
    proof {
        assert(w as int == spec_be8(data@, 8 * (block_index as int / indices_per_data_element
            as int)));
        assert(idx64 < modulus);
        if palette_index_width < 32 {
            vstd::arithmetic::power2::lemma_pow2_strictly_increases(
                palette_index_width as nat,
                32,
            );
        }
        vstd::arithmetic::power2::lemma2_to64();
        assert(idx64 <= 0xFFFF_FFFFu64);
        assert(idx64 as int == spec_palette_index(
            data@,
            block_index as int,
            palette_index_width as int,
            indices_per_data_element as int,
        ));
    }
    Ok(idx64 as usize)
}

/// The least number of bits that can hold values up to `n`: the ceiling of
/// the base-2 logarithm.
pub open spec fn spec_clog2(n: int) -> int
    decreases n,
{
    if n <= 1 {
        0
    } else {
        1 + spec_clog2((n + 1) / 2)
    }
}

/// The packed index width for a palette of `n` entries: at least 4 bits.
pub open spec fn spec_index_width(n: int) -> int {
    if spec_clog2(n) < 4 {
        4
    } else {
        spec_clog2(n)
    }
}

/// The ceiling log is characterized by bracketing powers of two.
proof fn lemma_clog2_bounds(n: int)
    requires
        n >= 1,
    ensures
        spec_clog2(n) >= 0,
        pow2(spec_clog2(n) as nat) >= n,
        n >= 2 ==> pow2((spec_clog2(n) - 1) as nat) < n,
    decreases n,
{
    if n >= 2 {
        let m = (n + 1) / 2;
        lemma_clog2_bounds(m);
        let c = spec_clog2(m);
        vstd::arithmetic::power2::lemma2_to64();
        vstd::arithmetic::power2::lemma_pow2_adds(c as nat, 1);
        assert(pow2((c + 1) as nat) == pow2(c as nat) * 2);
        assert(2 * m >= n);
        if m >= 2 {
            assert(pow2((c - 1) as nat) < m);
            vstd::arithmetic::power2::lemma_pow2_adds((c - 1) as nat, 1);
            assert(pow2(c as nat) == pow2((c - 1) as nat) * 2);
            assert(pow2(c as nat) <= 2 * (m - 1));
            assert(2 * (m - 1) < n);
        } else {
            assert(m == 1);
            assert(c == 0);
            assert(n <= 2);
        }
    } else {
        vstd::arithmetic::power2::lemma2_to64();
    }
}

/// Computes the packed index width for a palette of the given size:
/// `max(4, ceil(log2(size)))`.
pub fn palette_index_width(palette_len: usize) -> (r: usize)
    requires
        1 <= palette_len,
        palette_len <= 0xFFFF_FFFF,
    ensures
        r == spec_index_width(palette_len as int),
        4 <= r <= 32,
{
    let len64 = palette_len as u64;
    let mut w: u64 = 0;
    let mut p: u64 = 1;
    proof {
        vstd::arithmetic::power2::lemma2_to64();
    }
    while p < len64
        invariant
            w <= 32,
            p == pow2(w as nat),
            len64 <= 0xFFFF_FFFF,
            w >= 1 ==> pow2((w - 1) as nat) < len64,
        decreases 64 - w,
    {
        proof {
            vstd::arithmetic::power2::lemma2_to64();
            vstd::arithmetic::power2::lemma2_to64_rest();
            if w == 32 {
                assert(p == pow2(32));
                assert(false);
            }
            vstd::arithmetic::power2::lemma_pow2_adds(w as nat, 1);
            assert(pow2((w + 1) as nat) == pow2(w as nat) * 2);
        }
        p = p * 2;
        w = w + 1;
    }
    proof {
        lemma_clog2_bounds(palette_len as int);
        let c = spec_clog2(palette_len as int);
        if c < w {
            if w >= 1 && c <= w - 1 {
                if c < w - 1 {
                    vstd::arithmetic::power2::lemma_pow2_strictly_increases(
                        c as nat,
                        (w - 1) as nat,
                    );
                }
                assert(pow2(c as nat) <= pow2((w - 1) as nat));
                assert(pow2((w - 1) as nat) < palette_len);
                assert(false);
            }
        }
        if w < c {
            if palette_len >= 2 {
                if w < c - 1 {
                    vstd::arithmetic::power2::lemma_pow2_strictly_increases(
                        w as nat,
                        (c - 1) as nat,
                    );
                }
                assert(pow2(w as nat) <= pow2((c - 1) as nat));
                assert(pow2((c - 1) as nat) < palette_len);
                assert(false);
            } else {
                assert(c == 0);
                assert(false);
            }
        }
        assert(w == c);
    }
    if w < 4 {
        4
    } else {
        w as usize
    }
}

/// The signed value of one byte read as a two's-complement octet.
pub open spec fn spec_i8(b: u8) -> int {
    if b < 128 {
        b as int
    } else {
        b as int - 256
    }
}

/// The world coordinates of position `bi` in a section: the position is
/// decomposed y-major, then z, then x, and offset by the chunk origin and
/// the section's vertical index.
pub open spec fn spec_block_index_to_coords(bi: int, chunk_coords: ChunkCoords, sy: int) -> BlockCoords {
    let y_off = bi / 256;
    let rem = bi % 256;
    let z_off = rem / 16;
    let x_off = rem % 16;
    BlockCoords {
        x: (x_off + 16 * chunk_coords.x) as i32,
        y: (y_off + 16 * sy) as i32,
        z: (z_off + 16 * chunk_coords.z) as i32,
        realm: chunk_coords.realm,
    }
}

/// Whether chunk coordinates are small enough that every block coordinate of
/// the chunk fits in an i32. Chunk coordinates derived from block
/// coordinates always are.
pub open spec fn spec_chunk_in_range(c: ChunkCoords) -> bool {
    -134217728 <= c.x <= 134217727 && -134217728 <= c.z <= 134217727
}

/// The world coordinates of position `block_index` of the section with
/// vertical index `section_y`.
pub fn block_index_to_block_coords(block_index: usize, chunk: ChunkCoords, sy: i32) -> (r: BlockCoords)
    requires
        block_index < 4096,
        spec_chunk_in_range(chunk),
        (-128) <= sy <= 127,
    ensures
        r == spec_block_index_to_coords(block_index as int, chunk, sy as int),
{
    let block_y_offset = (block_index / 256) as i32;
    let xz_rem = block_index % 256;
    let block_z_offset = (xz_rem / 16) as i32;
    let block_x_offset = (xz_rem % 16) as i32;
    BlockCoords {
        x: block_x_offset + 16 * chunk.x,
        y: block_y_offset + 16 * sy,
        z: block_z_offset + 16 * chunk.z,
        realm: chunk.realm,
    }
}


/// A described block: what one materialized `Block` must hold.
pub struct BlockDesc {
    pub coords: BlockCoords,
    pub id: BlockID,
    pub rail_data: RailData,
    pub sign_data: SignData,
    pub text: Seq<char>,
}

/// Everything one section's extraction depends on: the raw index bytes, the
/// index width and indices per word, the palette templates, the chunk
/// origin, the section's vertical index and the chunk's sign texts.
pub struct SectionCtx {
    pub data: Seq<u8>,
    pub width: int,
    pub per_word: int,
    pub templates: Seq<Option<(BlockID, RailData, SignData)>>,
    pub chunk: ChunkCoords,
    pub sy: int,
    pub signs: Seq<(BlockCoords, Seq<char>)>,
}

/// The block materialized at position `k` of a section, if its palette
/// entry is recognized.
pub open spec fn spec_position_desc(ctx: SectionCtx, k: int) -> Option<BlockDesc> {
    let idx = spec_palette_index(ctx.data, k, ctx.width, ctx.per_word);
    if 0 <= idx < ctx.templates.len() {
        match ctx.templates[idx] {
            Some((id, rd, sd)) => {
                let coords = spec_block_index_to_coords(k, ctx.chunk, ctx.sy);
                let text = match spec_lookup_last(ctx.signs, coords) {
                    Some(t) => t,
                    None => Seq::<char>::empty(),
                };
                Some(BlockDesc { coords, id, rail_data: rd, sign_data: sd, text })
            },
            None => None,
        }
    } else {
        None
    }
}

/// The blocks materialized at the first `k` positions of a section, in
/// position order.
pub open spec fn spec_section_upto(ctx: SectionCtx, k: int) -> Seq<BlockDesc>
    decreases k,
{
    if k <= 0 {
        Seq::empty()
    } else {
        spec_section_upto(ctx, k - 1) + match spec_position_desc(ctx, k - 1) {
            None => Seq::<BlockDesc>::empty(),
            Some(d) => seq![d],
        }
    }
}

/// The extraction context of one section sub-tree, if the section carries a
/// non-empty palette, a packed index array and a vertical index.
pub open spec fn spec_section_ctx(
    section: Nbt,
    chunk: ChunkCoords,
    signs: Seq<(BlockCoords, Seq<char>)>,
) -> Option<SectionCtx> {
    match section {
        Nbt::NbtCompound(se) => match spec_nbt_lookup(se@, "block_states".spec_bytes()) {
            Some(Nbt::NbtCompound(bs)) => match spec_nbt_lookup(bs@, "palette".spec_bytes()) {
                Some(Nbt::NbtList(pal)) => if 1 <= pal@.len() <= 0xFFFF_FFFF {
                    match spec_nbt_lookup(bs@, "data".spec_bytes()) {
                        Some(Nbt::NbtData(raw)) => match spec_nbt_lookup(se@, "Y".spec_bytes()) {
                            Some(Nbt::NbtData(yb)) => if yb@.len() >= 1 {
                                let width = spec_index_width(pal@.len() as int);
                                Some(
                                    SectionCtx {
                                        data: raw@,
                                        width: width,
                                        per_word: 64int / width,
                                        templates: spec_palette_templates(pal@),
                                        chunk: chunk,
                                        sy: spec_i8(yb@[0]),
                                        signs: signs,
                                    },
                                )
                            } else {
                                None
                            },
                            _ => None,
                        },
                        _ => None,
                    }
                } else {
                    None
                },
                _ => None,
            },
            _ => None,
        },
        _ => None,
    }
}

/// The blocks one section contributes, in position order; a section without
/// a usable context contributes none.
pub open spec fn spec_section_descs(
    section: Nbt,
    chunk: ChunkCoords,
    signs: Seq<(BlockCoords, Seq<char>)>,
) -> Seq<BlockDesc> {
    match spec_section_ctx(section, chunk, signs) {
        None => Seq::empty(),
        Some(c) => spec_section_upto(c, 4096),
    }
}

/// The section's packed index array is long enough for all 4096 positions.
pub open spec fn spec_section_data_ok(
    section: Nbt,
    chunk: ChunkCoords,
    signs: Seq<(BlockCoords, Seq<char>)>,
) -> bool {
    match spec_section_ctx(section, chunk, signs) {
        None => true,
        Some(c) => c.data.len() >= 8 * (4095int / c.per_word) + 8,
    }
}

/// The blocks the first `k` sections contribute, in section order.
pub open spec fn spec_sections_upto(
    ss: Seq<Nbt>,
    k: int,
    chunk: ChunkCoords,
    signs: Seq<(BlockCoords, Seq<char>)>,
) -> Seq<BlockDesc>
    decreases k,
{
    if k <= 0 {
        Seq::empty()
    } else {
        spec_sections_upto(ss, k - 1, chunk, signs) + spec_section_descs(ss[k - 1], chunk, signs)
    }
}

/// All the blocks a chunk's tree describes, in section and position order.
pub open spec fn spec_chunk_descs(root: Seq<NbtEntry>, chunk: ChunkCoords) -> Seq<BlockDesc> {
    let signs = spec_chunk_signs(root, chunk.realm);
    match spec_nbt_lookup(root, "sections".spec_bytes()) {
        Some(Nbt::NbtList(ss)) => spec_sections_upto(ss@, ss@.len() as int, chunk, signs),
        _ => Seq::empty(),
    }
}

/// Every section's packed index array is long enough.
pub open spec fn spec_chunk_data_ok(root: Seq<NbtEntry>, chunk: ChunkCoords) -> bool {
    let signs = spec_chunk_signs(root, chunk.realm);
    match spec_nbt_lookup(root, "sections".spec_bytes()) {
        Some(Nbt::NbtList(ss)) => forall|i: int|
            0 <= i < ss@.len() ==> spec_section_data_ok(#[trigger] ss@[i], chunk, signs),
        _ => true,
    }
}

/// The materialized block holds exactly what its description says.
pub open spec fn spec_block_matches(b: Block, d: BlockDesc) -> bool {
    &&& b.coords == d.coords
    &&& b.id == d.id
    &&& b.rail_data == d.rail_data
    &&& b.sign_data == d.sign_data
    &&& b.sign_text@ == d.text
}

/// The materialized blocks hold exactly what their descriptions say, in
/// order.
pub open spec fn spec_blocks_match(bs: Seq<Block>, ds: Seq<BlockDesc>) -> bool {
    bs.len() == ds.len() && forall|i: int| 0 <= i < ds.len() ==> spec_block_matches(#[trigger] bs[i], ds[i])
}

/// Matching concatenates.
proof fn lemma_blocks_match_concat(a1: Seq<Block>, d1: Seq<BlockDesc>, a2: Seq<Block>, d2: Seq<BlockDesc>)
    requires
        spec_blocks_match(a1, d1),
        spec_blocks_match(a2, d2),
    ensures
        spec_blocks_match(a1 + a2, d1 + d2),
{
    assert forall|i: int| 0 <= i < (d1 + d2).len() implies spec_block_matches(
        #[trigger] (a1 + a2)[i],
        (d1 + d2)[i],
    ) by {
        if i < d1.len() {
            assert((a1 + a2)[i] == a1[i]);
            assert((d1 + d2)[i] == d1[i]);
        } else {
            assert((a1 + a2)[i] == a2[i - a1.len()]);
            assert((d1 + d2)[i] == d2[i - d1.len()]);
        }
    }
}

/// Extracts the blocks one section sub-tree contributes and appends them to
/// `blocks`.
fn process_section(
    blocks: &mut Vec<Block>,
    section: &Nbt,
    chunk: ChunkCoords,
    sign_map: &Vec<(BlockCoords, String)>,
) -> (r: Result<(), Error>)
    requires
        spec_chunk_in_range(chunk),
    ensures
        match r {
            Ok(()) => {
                &&& old(blocks)@.len() <= final(blocks)@.len()
                &&& final(blocks)@.subrange(0, old(blocks)@.len() as int) == old(blocks)@
                &&& spec_blocks_match(
                    final(blocks)@.skip(old(blocks)@.len() as int),
                    spec_section_descs(*section, chunk, spec_sign_map_view(sign_map@)),
                )
                &&& spec_section_data_ok(*section, chunk, spec_sign_map_view(sign_map@))
            },
            Err(e) => e == Error::MalformedInput && !spec_section_data_ok(
                *section,
                chunk,
                spec_sign_map_view(sign_map@),
            ),
        },
{
    let ghost signs = spec_sign_map_view(sign_map@);
    let ghost old_len = old(blocks)@.len() as int;
    let (se, bs, pal, raw, yb): (
        &Vec<NbtEntry>,
        &Vec<NbtEntry>,
        &Vec<Nbt>,
        &Vec<u8>,
        &Vec<u8>,
    ) = match section {
        Nbt::NbtCompound(se) => match nbt_lookup(se, "block_states".as_bytes()) {
            Some(Nbt::NbtCompound(bs)) => match nbt_lookup(bs, "palette".as_bytes()) {
                Some(Nbt::NbtList(pal)) => if pal.len() >= 1 && pal.len() as u64 <= 0xFFFF_FFFFu64 {
                    match nbt_lookup(bs, "data".as_bytes()) {
                        Some(Nbt::NbtData(raw)) => match nbt_lookup(se, "Y".as_bytes()) {
                            Some(Nbt::NbtData(yb)) => if yb.len() >= 1 {
                                (se, bs, pal, raw, yb)
                            } else {
                                proof {
                                    assert(final(blocks)@.subrange(0, old_len) =~= old(blocks)@);
                                    assert(final(blocks)@.skip(old_len) =~= Seq::<Block>::empty());
                                }
                                return Ok(());
                            },
                            _ => {
                                proof {
                                    assert(final(blocks)@.subrange(0, old_len) =~= old(blocks)@);
                                    assert(final(blocks)@.skip(old_len) =~= Seq::<Block>::empty());
                                }
                                return Ok(());
                            },
                        },
                        _ => {
                            proof {
                                assert(final(blocks)@.subrange(0, old_len) =~= old(blocks)@);
                                assert(final(blocks)@.skip(old_len) =~= Seq::<Block>::empty());
                            }
                            return Ok(());
                        },
                    }
                } else {
                    proof {
                        assert(final(blocks)@.subrange(0, old_len) =~= old(blocks)@);
                        assert(final(blocks)@.skip(old_len) =~= Seq::<Block>::empty());
                    }
                    return Ok(());
                },
                _ => {
                    proof {
                        assert(final(blocks)@.subrange(0, old_len) =~= old(blocks)@);
                        assert(final(blocks)@.skip(old_len) =~= Seq::<Block>::empty());
                    }
                    return Ok(());
                },
            },
            _ => {
                proof {
                    assert(final(blocks)@.subrange(0, old_len) =~= old(blocks)@);
                    assert(final(blocks)@.skip(old_len) =~= Seq::<Block>::empty());
                }
                return Ok(());
            },
        },
        _ => {
            proof {
                assert(final(blocks)@.subrange(0, old_len) =~= old(blocks)@);
                assert(final(blocks)@.skip(old_len) =~= Seq::<Block>::empty());
            }
            return Ok(());
        },
    };
    let width = palette_index_width(pal.len());
    let per_word = 64 / width;
    let templates = make_palette_map(pal);
    let sy_byte = yb[0];
    let sy: i32 = if sy_byte >= 128 {
        (sy_byte as i32) - 256
    } else {
        sy_byte as i32
    };
    let ghost ctx = SectionCtx {
        data: raw@,
        width: width as int,
        per_word: per_word as int,
        templates: templates@,
        chunk: chunk,
        sy: sy as int,
        signs: signs,
    };
    proof {
        assert(spec_section_ctx(*section, chunk, signs) == Some(ctx));
    }
    let mut k: usize = 0;
    while k < 4096
        invariant
            k <= 4096,
            4 <= width <= 32,
            per_word == 64int / width as int,
            spec_chunk_in_range(chunk),
            (-128) <= sy <= 127,
            ctx == (SectionCtx {
                data: raw@,
                width: width as int,
                per_word: per_word as int,
                templates: templates@,
                chunk: chunk,
                sy: sy as int,
                signs: signs,
            }),
            spec_section_ctx(*section, chunk, signs) == Some(ctx),
            signs == spec_sign_map_view(sign_map@),
            old_len == old(blocks)@.len() as int,
            old_len <= blocks@.len(),
            blocks@.subrange(0, old_len) == old(blocks)@,
            spec_blocks_match(blocks@.skip(old_len), spec_section_upto(ctx, k as int)),
            k > 0 ==> 8 * ((k - 1) as int / ctx.per_word) + 8 <= ctx.data.len(),
        decreases 4096 - k,
    {
        let idx = match get_palette_index(k, raw, width, per_word) {
            Ok(v) => v,
            Err(e) => {
                proof {
                    vstd::arithmetic::div_mod::lemma_div_is_ordered_by_denominator(
                        64,
                        width as int,
                        32,
                    );
                    vstd::arithmetic::div_mod::lemma_fundamental_div_mod_converse(64, 32, 2, 0);
                    assert(ctx.per_word >= 2);
                    vstd::arithmetic::div_mod::lemma_div_is_ordered(
                        k as int,
                        4095int,
                        ctx.per_word,
                    );
                    assert(!spec_section_data_ok(*section, chunk, signs));
                }
                return Err(e);
            },
        };
        let ghost blocks_before = blocks@;
        if idx < templates.len() {
            if let Some((id, rd, sd)) = templates[idx] {
                let coords = block_index_to_block_coords(k, chunk, sy);
                let text: String = match sign_text_for(sign_map, coords) {
                    Some(s) => s,
                    None => String::new(),
                };
                let b = Block {
                    coords: coords,
                    id: id,
                    rail_data: rd,
                    sign_data: sd,
                    sign_text: text,
                };
                proof {
                    let d = spec_position_desc(ctx, k as int).unwrap();
                    assert(spec_block_matches(b, d));
                }
                blocks.push(b);
                proof {
                    let d = spec_position_desc(ctx, k as int).unwrap();
                    assert(blocks@.skip(old_len) =~= blocks_before.skip(old_len) + seq![b]);
                    assert(blocks@.subrange(0, old_len) =~= blocks_before.subrange(0, old_len));
                    lemma_blocks_match_concat(
                        blocks_before.skip(old_len),
                        spec_section_upto(ctx, k as int),
                        seq![b],
                        seq![d],
                    );
                }
            } else {
                proof {
                    assert(spec_position_desc(ctx, k as int) is None);
                    assert(spec_section_upto(ctx, k + 1) =~= spec_section_upto(ctx, k as int));
                }
            }
        } else {
            proof {
                assert(spec_position_desc(ctx, k as int) is None);
                assert(spec_section_upto(ctx, k + 1) =~= spec_section_upto(ctx, k as int));
            }
        }
        k = k + 1;
    }
    proof {
        assert(spec_section_data_ok(*section, chunk, signs));
    }
    Ok(())
}

/// Walks the decoded tree of one chunk and materializes its track-relevant
/// blocks, attaching sign text by exact coordinate match.
#[verifier::rlimit(60)]
pub fn find_chunk_nbt_blocks(chunk_coords: ChunkCoords, chunk_nbt: Vec<u8>) -> (r: Result<
    Vec<Block>,
    Error,
>)
    requires
        spec_chunk_in_range(chunk_coords),
    ensures
        match r {
            Ok(blocks) => exists|root: Seq<NbtEntry>|
                {
                    &&& #[trigger] spec_chunk_parses(chunk_nbt@, root)
                    &&& spec_blocks_match(blocks@, spec_chunk_descs(root, chunk_coords))
                    &&& spec_chunk_data_ok(root, chunk_coords)
                },
            Err(e) => e == Error::MalformedInput && ((forall|root: Seq<NbtEntry>|
                !spec_chunk_parses(chunk_nbt@, root)) || exists|root: Seq<NbtEntry>|
                #[trigger] spec_chunk_parses(chunk_nbt@, root) && !spec_chunk_data_ok(
                    root,
                    chunk_coords,
                )),
        },
{
    let root_nbt = read_chunk_nbt(&chunk_nbt)?;
    let chunk_root: &Vec<NbtEntry> = match &root_nbt {
        Nbt::NbtCompound(es) => es,
        _ => {
            proof {
                assert(false);
            }
            return Err(Error::MalformedInput);
        },
    };
    let ghost root = chunk_root@;
    let sign_map = make_sign_text_map(chunk_root, chunk_coords);
    let ghost signs = spec_sign_map_view(sign_map@);
    let mut blocks: Vec<Block> = Vec::new();
    match nbt_lookup(chunk_root, "sections".as_bytes()) {
        Some(Nbt::NbtList(sections)) => {
            let mut si: usize = 0;
            while si < sections.len()
                invariant
                    si <= sections@.len(),
                    spec_chunk_in_range(chunk_coords),
                    spec_chunk_parses(chunk_nbt@, root),
                    signs == spec_sign_map_view(sign_map@),
                    signs == spec_chunk_signs(root, chunk_coords.realm),
                    spec_nbt_lookup(root, "sections".spec_bytes()) == Some(
                        Nbt::NbtList(*sections),
                    ),
                    spec_blocks_match(
                        blocks@,
                        spec_sections_upto(sections@, si as int, chunk_coords, signs),
                    ),
                    forall|i: int|
                        0 <= i < si ==> spec_section_data_ok(
                            #[trigger] sections@[i],
                            chunk_coords,
                            signs,
                        ),
                decreases sections@.len() - si,
            {
                let ghost before = blocks@;
                match process_section(&mut blocks, &sections[si], chunk_coords, &sign_map) {
                    Ok(()) => {},
                    Err(e) => {
                        proof {
                            assert(!spec_section_data_ok(
                                sections@[si as int],
                                chunk_coords,
                                spec_chunk_signs(root, chunk_coords.realm),
                            ));
                            assert(!spec_chunk_data_ok(root, chunk_coords)) by {
                                if spec_chunk_data_ok(root, chunk_coords) {
                                    let looked = spec_nbt_lookup(root, "sections".spec_bytes());
                                    assert(looked == Some(Nbt::NbtList(*sections)));
                                    if let Some(Nbt::NbtList(ss)) = looked {
                                        assert(ss@ == sections@);
                                        assert(spec_section_data_ok(
                                            ss@[si as int],
                                            chunk_coords,
                                            spec_chunk_signs(root, chunk_coords.realm),
                                        ));
                                        assert(false);
                                    }
                                }
                            }
                            assert(spec_chunk_parses(chunk_nbt@, root));
                        }
                        return Err(e);
                    },
                }
                proof {
                    assert(blocks@ =~= blocks@.subrange(0, before.len() as int) + blocks@.skip(
                        before.len() as int,
                    ));
                    lemma_blocks_match_concat(
                        before,
                        spec_sections_upto(sections@, si as int, chunk_coords, signs),
                        blocks@.skip(before.len() as int),
                        spec_section_descs(sections@[si as int], chunk_coords, signs),
                    );
                }
                si = si + 1;
            }
            proof {
                assert(spec_blocks_match(blocks@, spec_chunk_descs(root, chunk_coords)));
                assert(spec_chunk_data_ok(root, chunk_coords));
                assert(spec_chunk_parses(chunk_nbt@, root));
            }
            Ok(blocks)
        },
        _ => {
            proof {
                assert(spec_chunk_descs(root, chunk_coords) =~= Seq::<BlockDesc>::empty());
                assert(spec_blocks_match(blocks@, spec_chunk_descs(root, chunk_coords)));
                assert(spec_chunk_parses(chunk_nbt@, root));
            }
            Ok(blocks)
        },
    }
}

} // verus!
