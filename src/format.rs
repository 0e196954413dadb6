//! The dump-area format: area headers, segment headers and the self-describing
//! records (task markers, registers, compressed data) that follow them.

use vstd::prelude::*;

verus! {

/// Magic number at the start of every valid dump area (little-endian).
pub const DUMP_MAGIC: u32 = 0x01de_de01;

/// Dumper value of an area that holds nothing.
pub const DUMPER_NONE: u8 = 0;
/// Dumper value of an area written by the host emulating the dumper.
pub const DUMPER_EMULATED: u8 = 1;
/// Dumper value of an area written by the dump agent on the device.
pub const DUMPER_AGENT: u8 = 2;
/// Dumper value of an area written by the device's own fault handler.
pub const DUMPER_JEFE: u8 = 3;

/// Contents tag: the area holds (part of) a dump of the whole system.
pub const DUMP_CONTENTS_WHOLESYSTEM: u8 = 0;
/// Contents tag: the area holds (part of) a dump of a single task.
pub const DUMP_CONTENTS_SINGLETASK: u8 = 1;
/// Contents tag: the area holds (part of) a dump of a region of a task.
pub const DUMP_CONTENTS_TASKREGION: u8 = 2;

/// Size in bytes of an encoded area header.
pub const AREA_HEADER_SIZE: usize = 20;
/// Size in bytes of an encoded segment header.
pub const SEGMENT_HEADER_SIZE: usize = 8;
/// Size in bytes of an encoded task marker.
pub const TASK_RECORD_SIZE: usize = 16;
/// Size in bytes of an encoded register record.
pub const REGISTER_RECORD_SIZE: usize = 8;
/// Size in bytes of the fixed part of a data record.
pub const DATA_RECORD_SIZE: usize = 12;
/// Size in bytes of the largest fixed-size record.
pub const MAX_RECORD_SIZE: usize = 16;

/// Signature of a task marker.
pub const TASK_SIGNATURE: u16 = 0x7a5c;
/// Signature of a register record.
pub const REGISTER_SIGNATURE: u16 = 0x7e91;
/// Signature of a data record.
pub const DATA_SIGNATURE: u16 = 0xda7a;
/// Byte that pads a data record's payload up to the next record.
pub const DUMP_PAD: u8 = 0x55;

/// The header at the start of every dump area.
#[derive(Clone, Copy, Debug, PartialEq, Eq, Structural)]
pub struct AreaHeader {
    /// Base address of the area on the device.
    pub address: u32,
    /// Number of segment headers that follow this header.
    pub nsegments: u8,
    /// Who wrote the area (`DUMPER_NONE` if nobody did).
    pub dumper: u8,
    /// What the area holds (one of the `DUMP_CONTENTS_*` tags).
    pub contents: u8,
    /// Capacity of the area in bytes.
    pub length: u32,
    /// Bytes of the area that are written.
    pub written: u32,
}

/// One RAM region that a whole-system dump is to capture.
#[derive(Clone, Copy, Debug, PartialEq, Eq, Structural)]
pub struct SegmentHeader {
    pub address: u32,
    pub length: u32,
}

/// The task whose state a task dump holds, and when it was taken.
#[derive(Clone, Copy, Debug, PartialEq, Eq, Structural)]
pub struct DumpTask {
    pub id: u16,
    pub time: u64,
}

/// One self-describing record after the segment-header table.
#[derive(Clone, Copy, Debug, PartialEq, Eq, Structural)]
pub enum Segment {
    /// Start of one task's data.
    Task(DumpTask),
    /// One captured CPU register.
    Register { register: u16, value: u32 },
    /// Compressed memory covering `[address, address + uncompressed_length)`;
    /// its `compressed_length` bytes start at byte `offset` of the area's bytes.
    Data { address: u32, uncompressed_length: u16, compressed_length: u16, offset: usize },
}

/// Why bytes could not be decoded.
#[derive(Clone, Copy, Debug, PartialEq, Eq, Structural)]
pub enum ParseError {
    /// The area does not start with `DUMP_MAGIC`.
    MagicMismatch,
    /// The bytes end in the middle of a header or record.
    ShortRead,
    /// A record starts with an unknown signature.
    UnknownSignature(u16),
}

pub open spec fn le16(b: Seq<u8>, i: int) -> int {
    b[i] as int + 256 * b[i + 1] as int
}

pub open spec fn le32(b: Seq<u8>, i: int) -> int {
    le16(b, i) + 65536 * le16(b, i + 2)
}

pub open spec fn le64(b: Seq<u8>, i: int) -> int {
    le32(b, i) + 4294967296 * le32(b, i + 4)
}

pub(crate) fn read_u16(b: &[u8], i: usize) -> (r: u16)
    requires
        i + 2 <= b.len(),
    ensures
        r as int == le16(b@, i as int),
{
    b[i] as u16 + (b[i + 1] as u16) * 256
}

pub(crate) fn read_u32(b: &[u8], i: usize) -> (r: u32)
    requires
        i + 4 <= b.len(),
    ensures
        r as int == le32(b@, i as int),
{
    let lo = read_u16(b, i);
    let hi = read_u16(b, i + 2);
    lo as u32 + (hi as u32) * 65536
}

pub(crate) fn read_u64(b: &[u8], i: usize) -> (r: u64)
    requires
        i + 8 <= b.len(),
    ensures
        r as int == le64(b@, i as int),
{
    let lo = read_u32(b, i);
    let hi = read_u32(b, i + 4);
    lo as u64 + (hi as u64) * 4294967296
}

/// The header that the first `AREA_HEADER_SIZE` bytes of `b` encode.
pub open spec fn header_of(b: Seq<u8>) -> AreaHeader {
    AreaHeader {
        address: le32(b, 4) as u32,
        nsegments: b[8],
        dumper: b[9],
        contents: b[10],
        length: le32(b, 12) as u32,
        written: le32(b, 16) as u32,
    }
}

pub open spec fn area_header_spec(b: Seq<u8>) -> Result<AreaHeader, ParseError> {
    if b.len() < AREA_HEADER_SIZE {
        Err(ParseError::ShortRead)
    } else if le32(b, 0) != DUMP_MAGIC {
        Err(ParseError::MagicMismatch)
    } else {
        Ok(header_of(b))
    }
}

/// Decodes the area header at the start of `b`.
pub fn parse_area_header(b: &[u8]) -> (r: Result<AreaHeader, ParseError>)
    ensures
        r == area_header_spec(b@),
{
    if b.len() < AREA_HEADER_SIZE {
        return Err(ParseError::ShortRead);
    }
    if read_u32(b, 0) != DUMP_MAGIC {
        return Err(ParseError::MagicMismatch);
    }
    Ok(AreaHeader {
        address: read_u32(b, 4),
        nsegments: b[8],
        dumper: b[9],
        contents: b[10],
        length: read_u32(b, 12),
        written: read_u32(b, 16),
    })
}


/// The records that start at byte `pos` of `b`; `after_data` says that a data
/// record's payload ends at `pos`, so that padding may follow.
pub open spec fn records_from(b: Seq<u8>, pos: int, after_data: bool) -> Result<Seq<Segment>, ParseError>
    decreases b.len() - pos,
{
    if pos < 0 || pos >= b.len() {
        Ok(seq![])
    } else if after_data && b[pos] == DUMP_PAD {
        records_from(b, pos + 1, true)
    } else if pos + 2 > b.len() {
        Err(ParseError::ShortRead)
    } else if le16(b, pos) == TASK_SIGNATURE {
        if pos + TASK_RECORD_SIZE > b.len() {
            Err(ParseError::ShortRead)
        } else {
            let task = DumpTask { id: le16(b, pos + 2) as u16, time: le64(b, pos + 8) as u64 };
            cons(Segment::Task(task), records_from(b, pos + TASK_RECORD_SIZE, false))
        }
    } else if le16(b, pos) == REGISTER_SIGNATURE {
        if pos + REGISTER_RECORD_SIZE > b.len() {
            Err(ParseError::ShortRead)
        } else {
            let seg = Segment::Register {
                register: le16(b, pos + 2) as u16,
                value: le32(b, pos + 4) as u32,
            };
            cons(seg, records_from(b, pos + REGISTER_RECORD_SIZE, false))
        }
    } else if le16(b, pos) == DATA_SIGNATURE {
        if pos + DATA_RECORD_SIZE > b.len() {
            Err(ParseError::ShortRead)
        } else if pos + DATA_RECORD_SIZE + le16(b, pos + 4) > b.len() {
            Err(ParseError::ShortRead)
        } else {
            let seg = Segment::Data {
                address: le32(b, pos + 8) as u32,
                uncompressed_length: le16(b, pos + 2) as u16,
                compressed_length: le16(b, pos + 4) as u16,
                offset: (pos + DATA_RECORD_SIZE) as usize,
            };
            cons(seg, records_from(b, pos + DATA_RECORD_SIZE + le16(b, pos + 4), true))
        }
    } else {
        Err(ParseError::UnknownSignature(le16(b, pos) as u16))
    }
}

pub open spec fn cons(s: Segment, rest: Result<Seq<Segment>, ParseError>) -> Result<Seq<Segment>, ParseError> {
    match rest {
        Ok(t) => Ok(seq![s] + t),
        Err(e) => Err(e),
    }
}

pub open spec fn prefixed(p: Seq<Segment>, rest: Result<Seq<Segment>, ParseError>) -> Result<Seq<Segment>, ParseError> {
    match rest {
        Ok(t) => Ok(p + t),
        Err(e) => Err(e),
    }
}

/// Offset of the first record: past the area header and the segment-header table.
pub open spec fn records_start(nsegments: nat, header_size: nat) -> int {
    header_size + nsegments * SEGMENT_HEADER_SIZE
}

pub open spec fn segments_spec(b: Seq<u8>, nsegments: nat, header_size: nat) -> Result<Seq<Segment>, ParseError> {
    if records_start(nsegments, header_size) > b.len() {
        Err(ParseError::ShortRead)
    } else {
        records_from(b, records_start(nsegments, header_size), false)
    }
}

proof fn lemma_prefixed_cons(p: Seq<Segment>, s: Segment, rest: Result<Seq<Segment>, ParseError>)
    ensures
        prefixed(p, cons(s, rest)) == prefixed(p.push(s), rest),
{
    if let Ok(t) = rest {
        assert(p + (seq![s] + t) =~= p.push(s) + t);
    }
}

/// Decodes the records of an area: skips `header_size` bytes and the table of
/// `nsegments` segment headers, then reads task markers, registers and data
/// records to the end of `b`, skipping the padding after each data payload.
pub fn parse_segments(b: &[u8], nsegments: usize, header_size: usize) -> (r: Result<Vec<Segment>, ParseError>)
    ensures
        match r {
            Ok(v) => segments_spec(b@, nsegments as nat, header_size as nat) == Ok::<Seq<Segment>, ParseError>(v@),
            Err(e) => segments_spec(b@, nsegments as nat, header_size as nat) == Err::<Seq<Segment>, ParseError>(e),
        },
{
    if nsegments > b.len() / SEGMENT_HEADER_SIZE || header_size > b.len() - nsegments * SEGMENT_HEADER_SIZE {
        return Err(ParseError::ShortRead);
    }
    let start = header_size + nsegments * SEGMENT_HEADER_SIZE;
    let mut pos: usize = start;
    let mut after_data = false;
    let mut out: Vec<Segment> = Vec::new();
    while pos < b.len()
        invariant
            start <= b.len(),
            start as int == records_start(nsegments as nat, header_size as nat),
            pos <= b.len(),
            records_from(b@, start as int, false) == prefixed(out@, records_from(b@, pos as int, after_data)),
        decreases b.len() - pos,
    {
        let ghost old_out = out@;
        if after_data && b[pos] == DUMP_PAD {
            pos = pos + 1;
        } else {
            if b.len() - pos < 2 {
                return Err(ParseError::ShortRead);
            }
            let sig = read_u16(b, pos);
            let seg;
            let next;
            if sig == TASK_SIGNATURE {
                if b.len() - pos < TASK_RECORD_SIZE {
                    return Err(ParseError::ShortRead);
                }
                seg = Segment::Task(DumpTask { id: read_u16(b, pos + 2), time: read_u64(b, pos + 8) });
                next = pos + TASK_RECORD_SIZE;
                after_data = false;
            } else if sig == REGISTER_SIGNATURE {
                if b.len() - pos < REGISTER_RECORD_SIZE {
                    return Err(ParseError::ShortRead);
                }
                seg = Segment::Register { register: read_u16(b, pos + 2), value: read_u32(b, pos + 4) };
                next = pos + REGISTER_RECORD_SIZE;
                after_data = false;
            } else if sig == DATA_SIGNATURE {
                if b.len() - pos < DATA_RECORD_SIZE {
                    return Err(ParseError::ShortRead);
                }
                let clen = read_u16(b, pos + 4);
                if b.len() - pos - DATA_RECORD_SIZE < clen as usize {
                    return Err(ParseError::ShortRead);
                }
                seg = Segment::Data {
                    address: read_u32(b, pos + 8),
                    uncompressed_length: read_u16(b, pos + 2),
                    compressed_length: clen,
                    offset: pos + DATA_RECORD_SIZE,
                };
                next = pos + DATA_RECORD_SIZE + clen as usize;
                after_data = true;
            } else {
                return Err(ParseError::UnknownSignature(sig));
            }
            proof {
                lemma_prefixed_cons(old_out, seg, records_from(b@, next as int, after_data));
            }
            out.push(seg);
            pos = next;
        }
    }
    proof {
        assert(out@ + seq![] =~= out@);
    }
    Ok(out)
}

} // verus!
