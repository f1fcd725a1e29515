//! Compiles GTFS transit feeds into a flat, relational binary format and reads
//! that format back.

use vstd::prelude::*;

pub mod bits;
pub mod codec;
pub mod compiler;
pub mod consumer;
pub mod models;
pub mod order;
pub mod rt;
pub mod sorting;
pub mod text_map;

verus! {

/// Version number written into, and required of, every compiled file.
pub const GTFS_BIN_VERSION: u32 = 3;

/// Errors reported when a byte buffer is read as a compiled network.
#[derive(Debug, Clone, Copy, PartialEq, Eq, Structural)]
pub enum Error {
    /// The buffer is shorter than a header.
    FileTooSmall,
    /// A section of the header points outside the buffer.
    SectionOutOfBound,
    /// The buffer does not start with the magic bytes.
    InvalidMagic,
    /// The header names another format version.
    UnsupportedVersion { expected: u32, actual: u32 },
}

} // verus!
