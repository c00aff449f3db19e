//! Builders for the externally supplied inputs: the tie overrides and the
//! extra arrival weights, both given as tab-separated lines.

use vstd::prelude::*;
use vstd::utf8::encode_utf8;
use crate::blocks::{Direction, spec_direction_of_bytes};
use crate::coords::BlockCoords;
use crate::error::Error;
use crate::maps::{CoordMap, Tie};
use crate::parse::{
    spec_parse_i32,
    spec_realm_of,
    spec_fields,
    parse_i32_bytes,
    realm_of_bytes,
    split_fields,
};

verus! {

/// The tie one line denotes: ten tab-separated fields giving the from
/// coordinates, realm and direction, then the to coordinates, realm and
/// direction.
pub open spec fn spec_parse_tie_line(b: Seq<u8>) -> Option<(BlockCoords, Tie)> {
    let fs = spec_fields(b, 9);
    if fs.len() != 10 {
        None
    } else {
        match (
            spec_parse_i32(fs[0]),
            spec_parse_i32(fs[1]),
            spec_parse_i32(fs[2]),
            spec_parse_i32(fs[5]),
            spec_parse_i32(fs[6]),
            spec_parse_i32(fs[7]),
            spec_direction_of_bytes(fs[4]),
            spec_direction_of_bytes(fs[9]),
        ) {
            (
                Some(fx),
                Some(fy),
                Some(fz),
                Some(tx),
                Some(ty),
                Some(tz),
                Some(fd),
                Some(td),
            ) => Some(
                (
                    BlockCoords {
                        x: fx as i32,
                        y: fy as i32,
                        z: fz as i32,
                        realm: spec_realm_of(fs[3]),
                    },
                    Tie {
                        to_coords: BlockCoords {
                            x: tx as i32,
                            y: ty as i32,
                            z: tz as i32,
                            realm: spec_realm_of(fs[8]),
                        },
                        from_direction: fd,
                        to_direction: td,
                    },
                ),
            ),
            _ => None,
        }
    }
}

/// The weight entry one line denotes: five tab-separated fields giving
/// coordinates, realm and an integer weight.
pub open spec fn spec_parse_weight_line(b: Seq<u8>) -> Option<(BlockCoords, i32)> {
    let fs = spec_fields(b, 9);
    if fs.len() != 5 {
        None
    } else {
        match (spec_parse_i32(fs[0]), spec_parse_i32(fs[1]), spec_parse_i32(fs[2]), spec_parse_i32(
            fs[4],
        )) {
            (Some(x), Some(y), Some(z), Some(w)) => Some(
                (
                    BlockCoords {
                        x: x as i32,
                        y: y as i32,
                        z: z as i32,
                        realm: spec_realm_of(fs[3]),
                    },
                    w as i32,
                ),
            ),
            _ => None,
        }
    }
}

/// Parses one line of the ties file.
fn parse_tie_line(line: &String) -> (r: Option<(BlockCoords, Tie)>)
    ensures
        r == spec_parse_tie_line(encode_utf8(line@)),
{
    let fs = split_fields(line.as_str().as_bytes(), 9);
    if fs.len() != 10 {
        return None;
    }
    let fx = parse_i32_bytes(fs[0].as_slice());
    let fy = parse_i32_bytes(fs[1].as_slice());
    let fz = parse_i32_bytes(fs[2].as_slice());
    let tx = parse_i32_bytes(fs[5].as_slice());
    let ty = parse_i32_bytes(fs[6].as_slice());
    let tz = parse_i32_bytes(fs[7].as_slice());
    let fd = Direction::direction_of_bytes(fs[4].as_slice());
    let td = Direction::direction_of_bytes(fs[9].as_slice());
    match (fx, fy, fz, tx, ty, tz, fd, td) {
        (
            Some(fxv),
            Some(fyv),
            Some(fzv),
            Some(txv),
            Some(tyv),
            Some(tzv),
            Some(fdv),
            Some(tdv),
        ) => {
            let from_realm = realm_of_bytes(fs[3].as_slice());
            let to_realm = realm_of_bytes(fs[8].as_slice());
            Some(
                (
                    BlockCoords { x: fxv, y: fyv, z: fzv, realm: from_realm },
                    Tie {
                        to_coords: BlockCoords { x: txv, y: tyv, z: tzv, realm: to_realm },
                        from_direction: fdv,
                        to_direction: tdv,
                    },
                ),
            )
        },
        _ => None,
    }
}

/// Parses one line of the weights file.
fn parse_weight_line(line: &String) -> (r: Option<(BlockCoords, i32)>)
    ensures
        r == spec_parse_weight_line(encode_utf8(line@)),
{
    let fs = split_fields(line.as_str().as_bytes(), 9);
    if fs.len() != 5 {
        return None;
    }
    let x = parse_i32_bytes(fs[0].as_slice());
    let y = parse_i32_bytes(fs[1].as_slice());
    let z = parse_i32_bytes(fs[2].as_slice());
    let w = parse_i32_bytes(fs[4].as_slice());
    match (x, y, z, w) {
        (Some(xv), Some(yv), Some(zv), Some(wv)) => {
            let realm = realm_of_bytes(fs[3].as_slice());
            Some((BlockCoords { x: xv, y: yv, z: zv, realm }, wv))
        },
        _ => None,
    }
}

/// Builds the tie override map from the lines of the ties file: every line
/// must parse, and a later line for the same coordinates overrides an
/// earlier one.
pub fn build_ties_map(lines: &Vec<String>) -> (r: Result<CoordMap<Tie>, Error>)
    ensures
        match r {
            Ok(m) => {
                &&& m.entries@.len() == lines@.len()
                &&& forall|i: int|
                    0 <= i < lines@.len() ==> spec_parse_tie_line(
                        encode_utf8((#[trigger] lines@[i])@),
                    ) == Some(m.entries@[i])
            },
            Err(e) => {
                &&& e == Error::MalformedInput
                &&& exists|i: int|
                    0 <= i < lines@.len() && spec_parse_tie_line(
                        encode_utf8((#[trigger] lines@[i])@),
                    ) is None
            },
        },
{
    let mut m: CoordMap<Tie> = CoordMap::new();
    let mut i: usize = 0;
    while i < lines.len()
        invariant
            i <= lines@.len(),
            m.entries@.len() == i,
            forall|j: int|
                0 <= j < i ==> spec_parse_tie_line(encode_utf8((#[trigger] lines@[j])@)) == Some(
                    m.entries@[j],
                ),
        decreases lines@.len() - i,
    {
        match parse_tie_line(&lines[i]) {
            Some((c, tie)) => {
                m.insert(c, tie);
            },
            None => {
                return Err(Error::MalformedInput);
            },
        }
        i = i + 1;
    }
    Ok(m)
}

/// Builds the weights map from the lines of the weights file: every line
/// must parse, and a later line for the same coordinates overrides an
/// earlier one.
pub fn build_weights_map(lines: &Vec<String>) -> (r: Result<CoordMap<i32>, Error>)
    ensures
        match r {
            Ok(m) => {
                &&& m.entries@.len() == lines@.len()
                &&& forall|i: int|
                    0 <= i < lines@.len() ==> spec_parse_weight_line(
                        encode_utf8((#[trigger] lines@[i])@),
                    ) == Some(m.entries@[i])
            },
            Err(e) => {
                &&& e == Error::MalformedInput
                &&& exists|i: int|
                    0 <= i < lines@.len() && spec_parse_weight_line(
                        encode_utf8((#[trigger] lines@[i])@),
                    ) is None
            },
        },
{
    let mut m: CoordMap<i32> = CoordMap::new();
    let mut i: usize = 0;
    while i < lines.len()
        invariant
            i <= lines@.len(),
            m.entries@.len() == i,
            forall|j: int|
                0 <= j < i ==> spec_parse_weight_line(encode_utf8((#[trigger] lines@[j])@))
                    == Some(m.entries@[j]),
        decreases lines@.len() - i,
    {
        match parse_weight_line(&lines[i]) {
            Some((c, w)) => {
                m.insert(c, w);
            },
            None => {
                return Err(Error::MalformedInput);
            },
        }
        i = i + 1;
    }
    Ok(m)
}

} // verus!
