//! Reconstructs a physical track network embedded in a voxel-world save,
//! starting from one seed location, and computes shortest routes between
//! all detected endpoints: region containers are located and decompressed,
//! their tagged binary trees decoded into typed block records, stations and
//! switches recognized from raw block adjacency, physical connectivity
//! resolved edge by edge by a track walker, and all-pairs shortest
//! distances solved over the resulting graph.

pub mod blocks;
pub mod bytes;
pub mod coords;
pub mod error;
pub mod explore;
pub mod graph;
pub mod in_files;
pub mod maps;
pub mod nbt;
pub mod nbt_blocks;
pub mod parse;
pub mod region;
pub mod region_cache;
pub mod stations;
pub mod strutil;
pub mod switches;
pub mod walker;
