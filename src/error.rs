//! Errors of the dump library.

use crate::format::ParseError;
use vstd::prelude::*;

verus! {

/// Everything that can stop an acquisition or a reassembly.
#[derive(Clone, Copy, Debug, PartialEq, Eq, Structural)]
pub enum DumpError {
    /// Area bytes could not be decoded.
    Parse(ParseError),
    /// A data record at `address` did not decompress to its stated length.
    DecodeMismatch { address: u32 },
    /// Compressing the chunk at `address` ran out of room.
    CompressionOverflow { address: u32 },
    /// The chunk at `address` did not decompress back to what was compressed.
    RoundTripMismatch { address: u32 },
    /// A read of the virtual core reached an address that nothing maps.
    AddressNotMapped(u32),
    /// A register that the dump did not capture.
    UnknownRegister(u16),
    /// The virtual core is a frozen snapshot.
    NotWritable,
    /// A RAM region would overlap one already present, or wrap the address space.
    RegionOverlap { address: u32 },
    /// The dump agent answered with an error code.
    Agent(u32),
    /// Reading the window at `offset` of area `index` failed with `code`.
    ReadFailed { index: u8, offset: u32, code: u32 },
    /// A program returned fewer results than the calls it made.
    MissingResult(usize),
    /// The options or the target's state do not allow what was asked.
    Config(ConfigError),
}

/// Conflicting options, or a request that the current state refuses.
#[derive(Clone, Copy, Debug, PartialEq, Eq, Structural)]
pub enum ConfigError {
    /// The dump agent's read size cannot hold a header and one record.
    ReadSizeTooSmall { rsize: usize, min: usize },
    /// The dump agent's read size holds fewer than the minimum of segment headers.
    ReadSizeTooFewSegments { rsize: usize, max_nsegments: usize },
    /// The interpreter's returned data cannot hold two `read_dump` replies.
    BatchTooSmall,
    /// No dump area matches the one asked for.
    NoSuchArea,
    /// There is already a dump in the areas, and nothing says to replace it.
    DumpInSitu,
    /// The task to dump is the one that is running.
    CannotDumpRunningTask,
    /// The dump agent can only be forced when attached through a debug probe.
    ForceAgentOverNetwork,
    /// Initializing the dump agent needs the dump agent to be forced.
    InitializeNeedsAgent,
    /// Two options that cannot be used together.
    Conflict,
    /// An option that needs another one, which is absent.
    Requires,
    /// A listed area has a contents tag that no listing knows.
    UnknownContents(u8),
}

} // verus!
