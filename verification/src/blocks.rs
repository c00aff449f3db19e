//! Typed records for the track-relevant blocks of the world: rails and wall
//! signs, their orientations, and the stations and switches detected on them.

use vstd::prelude::*;
use crate::coords::BlockCoords;
use crate::strutil::{spec_lower_bytes, str_eq, bytes_eq};
use vstd::string::StringSliceAdditionalSpecFns;

verus! {

/// A cardinal travel or facing direction.
#[derive(Debug, PartialEq, Eq, Clone, Copy, Structural)]
pub enum Direction {
    N,
    S,
    W,
    E,
}

/// The index a direction occupies in switch exit numbering: N=0, S=1, W=2, E=3.
pub open spec fn spec_direction_index(d: Direction) -> int {
    match d {
        Direction::N => 0,
        Direction::S => 1,
        Direction::W => 2,
        Direction::E => 3,
    }
}

/// The direction with the given index.
pub open spec fn spec_direction_from_index(value: int) -> Direction {
    if value == 0 {
        Direction::N
    } else if value == 1 {
        Direction::S
    } else if value == 2 {
        Direction::W
    } else {
        Direction::E
    }
}

/// The direction of travel opposite to `d`.
pub open spec fn spec_opposite_direction(d: Direction) -> Direction {
    match d {
        Direction::N => Direction::S,
        Direction::S => Direction::N,
        Direction::W => Direction::E,
        Direction::E => Direction::W,
    }
}

/// The single lower-case letter naming a direction.
pub open spec fn spec_direction_str(d: Direction) -> Seq<char> {
    match d {
        Direction::N => "n"@,
        Direction::S => "s"@,
        Direction::W => "w"@,
        Direction::E => "e"@,
    }
}

/// The direction named by a byte string, compared case-insensitively on
/// its ASCII-lowered bytes.
pub open spec fn spec_direction_of_bytes(b: Seq<u8>) -> Option<Direction> {
    let l = spec_lower_bytes(b);
    if l == "n".spec_bytes() {
        Some(Direction::N)
    } else if l == "s".spec_bytes() {
        Some(Direction::S)
    } else if l == "w".spec_bytes() {
        Some(Direction::W)
    } else if l == "e".spec_bytes() {
        Some(Direction::E)
    } else {
        None
    }
}

/// The direction named by a string, compared case-insensitively on its
/// ASCII-lowered bytes.
pub open spec fn spec_direction_from_str(s: &str) -> Option<Direction> {
    spec_direction_of_bytes(s.spec_bytes())
}

impl Direction {
    /// The direction with the given exit index N=0, S=1, W=2, E=3.
    pub fn from_usize(value: usize) -> (r: Direction)
        requires
            value < 4,
        ensures
            r == spec_direction_from_index(value as int),
            spec_direction_index(r) == value as int,
    {
        match value {
            0 => Direction::N,
            1 => Direction::S,
            2 => Direction::W,
            _ => Direction::E,
        }
    }

    /// The exit index of this direction.
    pub fn to_index(&self) -> (r: usize)
        ensures
            r == spec_direction_index(*self),
    {
        match self {
            Direction::N => 0,
            Direction::S => 1,
            Direction::W => 2,
            Direction::E => 3,
        }
    }

    /// The direction of travel opposite to this one.
    pub fn opposite_direction(&self) -> (r: Direction)
        ensures
            r == spec_opposite_direction(*self),
    {
        match self {
            Direction::N => Direction::S,
            Direction::S => Direction::N,
            Direction::W => Direction::E,
            Direction::E => Direction::W,
        }
    }

    /// Parses a direction letter from raw bytes, ignoring ASCII case.
    pub fn direction_of_bytes(direction_bytes: &[u8]) -> (r: Option<Direction>)
        ensures
            r == spec_direction_of_bytes(direction_bytes@),
    {
        let lower = crate::strutil::lower_bytes(direction_bytes);
        if bytes_eq(lower.as_slice(), "n".as_bytes()) {
            Some(Direction::N)
        } else if bytes_eq(lower.as_slice(), "s".as_bytes()) {
            Some(Direction::S)
        } else if bytes_eq(lower.as_slice(), "w".as_bytes()) {
            Some(Direction::W)
        } else if bytes_eq(lower.as_slice(), "e".as_bytes()) {
            Some(Direction::E)
        } else {
            None
        }
    }

    /// Parses a direction letter, ignoring ASCII case.
    pub fn direction_from_str(direction_str: &str) -> (r: Option<Direction>)
        ensures
            r == spec_direction_from_str(direction_str),
    {
        Direction::direction_of_bytes(direction_str.as_bytes())
    }

    /// The single lower-case letter naming this direction.
    pub fn to_str(&self) -> (r: &str)
        ensures
            r@ == spec_direction_str(*self),
    {
        match self {
            Direction::N => "n",
            Direction::S => "s",
            Direction::W => "w",
            Direction::E => "e",
        }
    }
}

/// The closed set of block kinds the analysis cares about: three rail
/// variants and ten wall-sign colour variants.
#[derive(Debug, PartialEq, Eq, Clone, Copy, Structural)]
pub enum BlockID {
    UnpoweredRail,
    PoweredRail,
    DetectorRail,
    OakWallSign,
    SpruceWallSign,
    BirchWallSign,
    JungleWallSign,
    AcaciaWallSign,
    DarkOakWallSign,
    MangroveWallSign,
    BambooWallSign,
    CrimsonWallSign,
    WarpedWallSign,
}

/// Whether a block id is one of the rail variants.
pub open spec fn spec_is_rail_id(id: BlockID) -> bool {
    id == BlockID::UnpoweredRail || id == BlockID::PoweredRail || id == BlockID::DetectorRail
}

/// Whether a block id is one of the wall-sign variants.
pub open spec fn spec_is_sign_id(id: BlockID) -> bool {
    !spec_is_rail_id(id)
}

impl BlockID {
    /// Whether this id is one of the rail variants.
    pub fn is_rail_id(&self) -> (r: bool)
        ensures
            r == spec_is_rail_id(*self),
    {
        matches!(self, BlockID::UnpoweredRail | BlockID::PoweredRail | BlockID::DetectorRail)
    }

    /// Whether this id is one of the wall-sign variants.
    pub fn is_sign_id(&self) -> (r: bool)
        ensures
            r == spec_is_sign_id(*self),
    {
        !self.is_rail_id()
    }
}

/// The orientation of a rail block: two straight axes, four ascending
/// slopes, and four quarter-turn curves.
#[derive(Debug, PartialEq, Eq, Clone, Copy, Structural)]
pub enum RailData {
    NS,
    EW,
    AE,
    AW,
    AN,
    AS,
    SE,
    SW,
    NW,
    NE,
}

/// Whether an orientation is straight (axis-aligned or ascending).
pub open spec fn spec_is_straight(d: RailData) -> bool {
    d == RailData::NS || d == RailData::EW || d == RailData::AE || d == RailData::AW || d
        == RailData::AN || d == RailData::AS
}

/// Whether an orientation is one of the four quarter-turn curves.
pub open spec fn spec_is_curved(d: RailData) -> bool {
    d == RailData::SE || d == RailData::SW || d == RailData::NW || d == RailData::NE
}

/// Whether an orientation runs along the east-west axis.
pub open spec fn spec_is_east_west(d: RailData) -> bool {
    d == RailData::EW || d == RailData::AE || d == RailData::AW
}

/// Whether an orientation runs along the north-south axis.
pub open spec fn spec_is_north_south(d: RailData) -> bool {
    d == RailData::NS || d == RailData::AN || d == RailData::AS
}

/// The two-letter name of a rail orientation.
pub open spec fn spec_rail_data_str(d: RailData) -> Seq<char> {
    match d {
        RailData::NS => "ns"@,
        RailData::EW => "ew"@,
        RailData::AE => "ae"@,
        RailData::AW => "aw"@,
        RailData::AN => "an"@,
        RailData::AS => "as"@,
        RailData::SE => "se"@,
        RailData::SW => "sw"@,
        RailData::NW => "nw"@,
        RailData::NE => "ne"@,
    }
}

impl RailData {
    /// Whether this orientation is straight (axis-aligned or ascending).
    pub fn is_straight(&self) -> (r: bool)
        ensures
            r == spec_is_straight(*self),
    {
        matches!(
            self,
            RailData::NS | RailData::EW | RailData::AE | RailData::AW | RailData::AN | RailData::AS
        )
    }

    /// Whether this orientation is one of the four curves.
    pub fn is_curved(&self) -> (r: bool)
        ensures
            r == spec_is_curved(*self),
    {
        matches!(self, RailData::SE | RailData::SW | RailData::NW | RailData::NE)
    }

    /// Whether this orientation runs along the east-west axis.
    pub fn is_east_west(&self) -> (r: bool)
        ensures
            r == spec_is_east_west(*self),
    {
        matches!(self, RailData::EW | RailData::AE | RailData::AW)
    }

    /// Whether this orientation runs along the north-south axis.
    pub fn is_north_south(&self) -> (r: bool)
        ensures
            r == spec_is_north_south(*self),
    {
        matches!(self, RailData::NS | RailData::AN | RailData::AS)
    }

    /// The two-letter name of this orientation.
    pub fn to_str(&self) -> (r: &str)
        ensures
            r@ == spec_rail_data_str(*self),
    {
        match self {
            RailData::NS => "ns",
            RailData::EW => "ew",
            RailData::AE => "ae",
            RailData::AW => "aw",
            RailData::AN => "an",
            RailData::AS => "as",
            RailData::SE => "se",
            RailData::SW => "sw",
            RailData::NW => "nw",
            RailData::NE => "ne",
        }
    }
}

/// The facing of a wall sign: up, down, or one of the four cardinals.
#[derive(Debug, PartialEq, Eq, Clone, Copy, Structural)]
pub enum SignData {
    U,
    D,
    N,
    S,
    W,
    E,
}

/// The travel direction matching a cardinal sign facing.
pub open spec fn spec_sign_to_direction(s: SignData) -> Direction {
    match s {
        SignData::N => Direction::N,
        SignData::S => Direction::S,
        SignData::W => Direction::W,
        _ => Direction::E,
    }
}

impl SignData {
    /// The travel direction matching this facing; only the four cardinal
    /// facings correspond to one.
    pub fn to_direction(&self) -> (r: Direction)
        requires
            *self != SignData::U,
            *self != SignData::D,
        ensures
            r == spec_sign_to_direction(*self),
    {
        match self {
            SignData::N => Direction::N,
            SignData::S => Direction::S,
            SignData::W => Direction::W,
            _ => Direction::E,
        }
    }
}

/// One materialized track-relevant block. Rail orientation is meaningful
/// only for rails, sign facing and text only for signs.
#[derive(Debug, Clone)]
pub struct Block {
    pub coords: BlockCoords,
    pub id: BlockID,
    pub rail_data: RailData,
    pub sign_data: SignData,
    pub sign_text: String,
}

impl Block {
    /// Whether this block is a rail.
    pub fn is_rail(&self) -> (r: bool)
        ensures
            r == spec_is_rail_id(self.id),
    {
        (&self.id).is_rail_id()
    }

    /// Whether this block is a wall sign.
    pub fn is_sign(&self) -> (r: bool)
        ensures
            r == spec_is_sign_id(self.id),
    {
        (&self.id).is_sign_id()
    }

    /// Whether this block is a straight rail.
    pub fn is_straight_rail(&self) -> (r: bool)
        ensures
            r == spec_is_straight(self.rail_data),
    {
        (&self.rail_data).is_straight()
    }

    /// Whether this block is a curved rail.
    pub fn is_curved_rail(&self) -> (r: bool)
        ensures
            r == spec_is_curved(self.rail_data),
    {
        (&self.rail_data).is_curved()
    }

    /// Whether this block's rail orientation runs east-west.
    pub fn is_east_west_rail(&self) -> (r: bool)
        ensures
            r == spec_is_east_west(self.rail_data),
    {
        (&self.rail_data).is_east_west()
    }

    /// Whether this block's rail orientation runs north-south.
    pub fn is_north_south_rail(&self) -> (r: bool)
        ensures
            r == spec_is_north_south(self.rail_data),
    {
        (&self.rail_data).is_north_south()
    }
}

/// A detected station: the launch rail's coordinates, the display name from
/// the name sign, and the shared sign facing.
#[derive(Debug, Clone)]
pub struct Station {
    pub coords: BlockCoords,
    pub name: String,
    pub direction: Direction,
}

/// A detected switch: its centre curved rail and which cardinal exits are
/// physically present, indexed N=0, S=1, W=2, E=3.
#[derive(Debug, Clone)]
pub struct Switch {
    pub coords: BlockCoords,
    pub has_directions: [bool; 4],
}

/// The block id registered under a block-state name.
pub open spec fn spec_block_name_to_id(name: Seq<char>) -> Option<BlockID> {
    if name == "minecraft:rail"@ {
        Some(BlockID::UnpoweredRail)
    } else if name == "minecraft:powered_rail"@ {
        Some(BlockID::PoweredRail)
    } else if name == "minecraft:detector_rail"@ {
        Some(BlockID::DetectorRail)
    } else if name == "minecraft:oak_wall_sign"@ {
        Some(BlockID::OakWallSign)
    } else if name == "minecraft:spruce_wall_sign"@ {
        Some(BlockID::SpruceWallSign)
    } else if name == "minecraft:birch_wall_sign"@ {
        Some(BlockID::BirchWallSign)
    } else if name == "minecraft:jungle_wall_sign"@ {
        Some(BlockID::JungleWallSign)
    } else if name == "minecraft:acacia_wall_sign"@ {
        Some(BlockID::AcaciaWallSign)
    } else if name == "minecraft:dark_oak_wall_sign"@ {
        Some(BlockID::DarkOakWallSign)
    } else if name == "minecraft:mangrove_wall_sign"@ {
        Some(BlockID::MangroveWallSign)
    } else if name == "minecraft:bamboo_wall_sign"@ {
        Some(BlockID::BambooWallSign)
    } else if name == "minecraft:crimson_wall_sign"@ {
        Some(BlockID::CrimsonWallSign)
    } else if name == "minecraft:warped_wall_sign"@ {
        Some(BlockID::WarpedWallSign)
    } else {
        None
    }
}

/// Looks up the block id registered under a block-state name.
pub fn block_name_to_id(name: &str) -> (r: Option<BlockID>)
    ensures
        r == spec_block_name_to_id(name@),
{
    if str_eq(name, "minecraft:rail") {
        Some(BlockID::UnpoweredRail)
    } else if str_eq(name, "minecraft:powered_rail") {
        Some(BlockID::PoweredRail)
    } else if str_eq(name, "minecraft:detector_rail") {
        Some(BlockID::DetectorRail)
    } else if str_eq(name, "minecraft:oak_wall_sign") {
        Some(BlockID::OakWallSign)
    } else if str_eq(name, "minecraft:spruce_wall_sign") {
        Some(BlockID::SpruceWallSign)
    } else if str_eq(name, "minecraft:birch_wall_sign") {
        Some(BlockID::BirchWallSign)
    } else if str_eq(name, "minecraft:jungle_wall_sign") {
        Some(BlockID::JungleWallSign)
    } else if str_eq(name, "minecraft:acacia_wall_sign") {
        Some(BlockID::AcaciaWallSign)
    } else if str_eq(name, "minecraft:dark_oak_wall_sign") {
        Some(BlockID::DarkOakWallSign)
    } else if str_eq(name, "minecraft:mangrove_wall_sign") {
        Some(BlockID::MangroveWallSign)
    } else if str_eq(name, "minecraft:bamboo_wall_sign") {
        Some(BlockID::BambooWallSign)
    } else if str_eq(name, "minecraft:crimson_wall_sign") {
        Some(BlockID::CrimsonWallSign)
    } else if str_eq(name, "minecraft:warped_wall_sign") {
        Some(BlockID::WarpedWallSign)
    } else {
        None
    }
}

/// The rail orientation named by a "shape" property value.
pub open spec fn spec_shape_to_rail_data(shape: Seq<char>) -> Option<RailData> {
    if shape == "north_south"@ {
        Some(RailData::NS)
    } else if shape == "east_west"@ {
        Some(RailData::EW)
    } else if shape == "ascending_east"@ {
        Some(RailData::AE)
    } else if shape == "ascending_west"@ {
        Some(RailData::AW)
    } else if shape == "ascending_north"@ {
        Some(RailData::AN)
    } else if shape == "ascending_south"@ {
        Some(RailData::AS)
    } else if shape == "south_east"@ {
        Some(RailData::SE)
    } else if shape == "south_west"@ {
        Some(RailData::SW)
    } else if shape == "north_west"@ {
        Some(RailData::NW)
    } else if shape == "north_east"@ {
        Some(RailData::NE)
    } else {
        None
    }
}

/// Parses a "shape" property value into a rail orientation.
pub fn shape_to_rail_data(shape: &str) -> (r: Option<RailData>)
    ensures
        r == spec_shape_to_rail_data(shape@),
{
    if str_eq(shape, "north_south") {
        Some(RailData::NS)
    } else if str_eq(shape, "east_west") {
        Some(RailData::EW)
    } else if str_eq(shape, "ascending_east") {
        Some(RailData::AE)
    } else if str_eq(shape, "ascending_west") {
        Some(RailData::AW)
    } else if str_eq(shape, "ascending_north") {
        Some(RailData::AN)
    } else if str_eq(shape, "ascending_south") {
        Some(RailData::AS)
    } else if str_eq(shape, "south_east") {
        Some(RailData::SE)
    } else if str_eq(shape, "south_west") {
        Some(RailData::SW)
    } else if str_eq(shape, "north_west") {
        Some(RailData::NW)
    } else if str_eq(shape, "north_east") {
        Some(RailData::NE)
    } else {
        None
    }
}

/// The sign facing named by a "facing" property value.
pub open spec fn spec_facing_to_sign_data(facing: Seq<char>) -> Option<SignData> {
    if facing == "down"@ {
        Some(SignData::D)
    } else if facing == "up"@ {
        Some(SignData::U)
    } else if facing == "north"@ {
        Some(SignData::N)
    } else if facing == "south"@ {
        Some(SignData::S)
    } else if facing == "west"@ {
        Some(SignData::W)
    } else if facing == "east"@ {
        Some(SignData::E)
    } else {
        None
    }
}

/// Parses a "facing" property value into a sign facing.
pub fn facing_to_sign_data(facing: &str) -> (r: Option<SignData>)
    ensures
        r == spec_facing_to_sign_data(facing@),
{
    if str_eq(facing, "down") {
        Some(SignData::D)
    } else if str_eq(facing, "up") {
        Some(SignData::U)
    } else if str_eq(facing, "north") {
        Some(SignData::N)
    } else if str_eq(facing, "south") {
        Some(SignData::S)
    } else if str_eq(facing, "west") {
        Some(SignData::W)
    } else if str_eq(facing, "east") {
        Some(SignData::E)
    } else {
        None
    }
}

} // verus!
