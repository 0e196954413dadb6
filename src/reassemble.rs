//! Reassembly of a logical dump: decoding the bytes of its areas into a
//! virtual core.

use crate::compression::{decompress_exact, lzss_expand};
use crate::error::DumpError;
use crate::format::{
    area_header_spec, parse_area_header, parse_segments, records_from, records_start, segments_spec, le16,
    DumpTask, ParseError, Segment, AREA_HEADER_SIZE, DATA_RECORD_SIZE, DUMP_PAD, REGISTER_RECORD_SIZE,
    REGISTER_SIGNATURE, TASK_RECORD_SIZE, TASK_SIGNATURE, DATA_SIGNATURE,
};
use crate::vcore::{ram_byte, VirtualCore};
use vstd::prelude::*;

verus! {

/// The compressed bytes of a data record, within the area bytes `b`.
pub open spec fn payload(b: Seq<u8>, seg: Segment) -> Seq<u8> {
    match seg {
        Segment::Data { compressed_length, offset, .. } => b.subrange(offset as int, offset + compressed_length),
        _ => seq![],
    }
}

/// Whether a data record decompresses to exactly its stated length.
pub open spec fn data_ok(b: Seq<u8>, seg: Segment) -> bool {
    match seg {
        Segment::Data { uncompressed_length, .. } => lzss_expand(payload(b, seg)).len() == uncompressed_length,
        _ => true,
    }
}

/// Whether a data record covers address `a`.
pub open spec fn covers(seg: Segment, a: int) -> bool {
    match seg {
        Segment::Data { address, uncompressed_length, .. } => address <= a < address + uncompressed_length,
        _ => false,
    }
}

/// The byte that a data record gives address `a`.
pub open spec fn data_byte(b: Seq<u8>, seg: Segment, a: int) -> u8 {
    match seg {
        Segment::Data { address, .. } => lzss_expand(payload(b, seg))[a - address],
        _ => 0,
    }
}

/// The value of register `id` in the last register record of `segs` for it.
pub open spec fn last_register(segs: Seq<Segment>, id: u16) -> Option<u32>
    decreases segs.len(),
{
    if segs.len() == 0 {
        None
    } else {
        match segs.last() {
            Segment::Register { register, value } if register == id => Some(value),
            _ => last_register(segs.drop_last(), id),
        }
    }
}

/// The task of the first task marker in `segs`.
pub open spec fn first_task(segs: Seq<Segment>) -> Option<DumpTask>
    decreases segs.len(),
{
    if segs.len() == 0 {
        None
    } else {
        match first_task(segs.drop_last()) {
            Some(t) => Some(t),
            None => match segs.last() {
                Segment::Task(t) => Some(t),
                _ => None,
            },
        }
    }
}

/// Whether the data records of `segs` can all be placed: each decompresses to
/// its stated length, stays in the address space, overlaps no other and no
/// RAM present in `ram`.
pub open spec fn placeable(b: Seq<u8>, segs: Seq<Segment>, ram: Seq<crate::vcore::RamRegion>) -> bool {
    &&& forall|k: int| 0 <= k < segs.len() ==> data_ok(b, #[trigger] segs[k])
    &&& forall|k: int| 0 <= k < segs.len() ==> match #[trigger] segs[k] {
        Segment::Data { address, uncompressed_length, .. } => address + uncompressed_length <= crate::vcore::ADDRESS_SPACE,
        _ => true,
    }
    &&& forall|j: int, k: int, a: int| 0 <= j < k < segs.len() && #[trigger] covers(segs[j], a) ==> !#[trigger] covers(segs[k], a)
    &&& forall|k: int, a: int| 0 <= k < segs.len() && #[trigger] covers(segs[k], a) ==> ram_byte(ram, a) is None
}

/// The records of a logical dump: its area header, then everything after the
/// segment-header table.
pub open spec fn dump_records(b: Seq<u8>) -> Result<Seq<Segment>, ParseError> {
    match area_header_spec(b) {
        Err(e) => Err(e),
        Ok(h) => segments_spec(b, h.nsegments as nat, AREA_HEADER_SIZE as nat),
    }
}

proof fn lemma_records_in_bounds(b: Seq<u8>, pos: int, after_data: bool)
    ensures
        records_from(b, pos, after_data) is Ok ==> forall|k: int| 0 <= k < records_from(b, pos, after_data)->Ok_0.len() ==>
            match #[trigger] records_from(b, pos, after_data)->Ok_0[k] {
                Segment::Data { compressed_length, offset, .. } => offset + compressed_length <= b.len(),
                _ => true,
            },
    decreases b.len() - pos,
{
    if pos < 0 || pos >= b.len() {
    } else if after_data && b[pos] == DUMP_PAD {
        lemma_records_in_bounds(b, pos + 1, true);
    } else if pos + 2 > b.len() {
    } else if le16(b, pos) == TASK_SIGNATURE {
        if pos + TASK_RECORD_SIZE <= b.len() {
            lemma_records_in_bounds(b, pos + TASK_RECORD_SIZE, false);
        }
    } else if le16(b, pos) == REGISTER_SIGNATURE {
        if pos + REGISTER_RECORD_SIZE <= b.len() {
            lemma_records_in_bounds(b, pos + REGISTER_RECORD_SIZE, false);
        }
    } else if le16(b, pos) == DATA_SIGNATURE && pos + DATA_RECORD_SIZE + le16(b, pos + 4) <= b.len() {
        lemma_records_in_bounds(b, pos + DATA_RECORD_SIZE + le16(b, pos + 4), true);
    }
}

/// Decodes the bytes of a logical dump (its areas' bytes, concatenated) into
/// `core`: each register record sets a register, each data record is
/// decompressed into a RAM region. Returns the task of the first task marker,
/// if any. A data record that does not decompress to its stated length fails
/// with `DecodeMismatch`, one whose region overlaps RAM already present with
/// `RegionOverlap`.
pub fn load_dump(core: &mut VirtualCore, b: &[u8]) -> (r: Result<Option<DumpTask>, DumpError>)
    requires
        old(core).wf(),
    ensures
        final(core).wf(),
        final(core).flash_regions() == old(core).flash_regions(),
        final(core).flash_blob() == old(core).flash_blob(),
        match dump_records(b@) {
            Err(e) => r == Err::<Option<DumpTask>, DumpError>(DumpError::Parse(e)) && *final(core) == *old(core),
            Ok(segs) => match r {
                Ok(t) => {
                    &&& t == first_task(segs)
                    &&& forall|k: int| 0 <= k < segs.len() ==> data_ok(b@, #[trigger] segs[k])
                    &&& forall|k: int, a: int| 0 <= k < segs.len() && #[trigger] covers(segs[k], a)
                        ==> #[trigger] ram_byte(final(core).ram_regions(), a) == Some(data_byte(b@, segs[k], a))
                    &&& forall|a: int| (forall|k: int| 0 <= k < segs.len() ==> !#[trigger] covers(segs[k], a))
                        ==> #[trigger] ram_byte(final(core).ram_regions(), a) == ram_byte(old(core).ram_regions(), a)
                    &&& forall|id: u16| #[trigger] final(core).register(id) == match last_register(segs, id) {
                        Some(v) => Some(v),
                        None => old(core).register(id),
                    }
                },
                Err(e) => !placeable(b@, segs, old(core).ram_regions()) && exists|k: int| 0 <= k < segs.len() && match #[trigger] segs[k] {
                    Segment::Data { address, .. } => (e == DumpError::DecodeMismatch { address } && !data_ok(b@, segs[k]))
                        || e == (DumpError::RegionOverlap { address }),
                    _ => false,
                },
            },
        },
{
    let header = match parse_area_header(b) {
        Ok(h) => h,
        Err(e) => return Err(DumpError::Parse(e)),
    };
    let segs = match parse_segments(b, header.nsegments as usize, AREA_HEADER_SIZE) {
        Ok(s) => s,
        Err(e) => return Err(DumpError::Parse(e)),
    };
    let ghost sv = segs@;
    proof {
        lemma_records_in_bounds(b@, records_start(header.nsegments as nat, AREA_HEADER_SIZE as nat), false);
    }
    let mut task: Option<DumpTask> = None;
    let mut i: usize = 0;
    while i < segs.len()
        invariant
            dump_records(b@) == Ok::<Seq<Segment>, ParseError>(sv),
            sv == segs@,
            i <= sv.len(),
            forall|k: int| 0 <= k < sv.len() ==> match #[trigger] sv[k] {
                Segment::Data { compressed_length, offset, .. } => offset + compressed_length <= b@.len(),
                _ => true,
            },
            core.wf(),
            core.flash_regions() == old(core).flash_regions(),
            core.flash_blob() == old(core).flash_blob(),
            task == first_task(sv.subrange(0, i as int)),
            forall|k: int| 0 <= k < i ==> data_ok(b@, #[trigger] sv[k]),
            forall|k: int, a: int| 0 <= k < i && #[trigger] covers(sv[k], a)
                ==> #[trigger] ram_byte(core.ram_regions(), a) == Some(data_byte(b@, sv[k], a)),
            forall|a: int| (forall|k: int| 0 <= k < i ==> !#[trigger] covers(sv[k], a))
                ==> #[trigger] ram_byte(core.ram_regions(), a) == ram_byte(old(core).ram_regions(), a),
            forall|id: u16| #[trigger] core.register(id) == match last_register(sv.subrange(0, i as int), id) {
                Some(v) => Some(v),
                None => old(core).register(id),
            },
        decreases sv.len() - i,
    {
        let seg = segs[i];
        let ghost c0 = *core;
        proof {
            let s1 = sv.subrange(0, i + 1);
            assert(s1.drop_last() =~= sv.subrange(0, i as int));
            assert(s1.last() == seg);
        }
        match seg {
            Segment::Task(t) => {
                if task.is_none() {
                    task = Some(t);
                }
            },
            Segment::Register { register, value } => {
                core.add_register(register, value);
            },
            Segment::Data { address, uncompressed_length, compressed_length, offset } => {
                let ghost before = core.ram_regions();
                proof {
                    assert(sv[i as int] == seg);
                    assert(offset + compressed_length <= b@.len());
                    assert(b@.len() == b.len());
                }
                let input = &b[offset..offset + compressed_length as usize];
                proof {
                    assert(input@ == payload(b@, seg));
                }
                match decompress_exact(input, uncompressed_length as usize) {
                    None => {
                        return Err(DumpError::DecodeMismatch { address });
                    },
                    Some(bytes) => {
                        let ghost dec = bytes@;
                        proof {
                            if placeable(b@, sv, old(core).ram_regions()) && dec.len() > 0 {
                                assert(sv[i as int] == seg);
                                assert(address + dec.len() <= crate::vcore::ADDRESS_SPACE);
                                assert forall|j: int| 0 <= j < before.len() implies
                                    crate::vcore::ram_end(#[trigger] before[j]) <= address || address + dec.len() <= before[j].base by {
                                    if !(crate::vcore::ram_end(before[j]) <= address || address + dec.len() <= before[j].base) {
                                        let a = if before[j].base > address { before[j].base as int } else { address as int };
                                        assert(crate::vcore::ram_holds(before[j], a));
                                        assert(covers(sv[i as int], a));
                                        assert(ram_byte(before, a) is Some);
                                        if forall|k: int| 0 <= k < i ==> !#[trigger] covers(sv[k], a) {
                                            assert(ram_byte(old(core).ram_regions(), a) is None);
                                        } else {
                                            let k = choose|k: int| 0 <= k < i && #[trigger] covers(sv[k], a);
                                            assert(!covers(sv[i as int], a));
                                        }
                                    }
                                }
                                assert(core.ram_fits(address as int, dec.len() as int));
                            }
                        }
                        match core.add_ram_region(address, bytes) {
                            Err(e) => {
                                return Err(e);
                            },
                            Ok(()) => {
                                proof {
                                    assert forall|a: int| (forall|k: int| 0 <= k < i + 1 ==> !#[trigger] covers(sv[k], a))
                                        implies #[trigger] ram_byte(core.ram_regions(), a) == ram_byte(old(core).ram_regions(), a) by {
                                        assert(!covers(sv[i as int], a));
                                        assert(forall|k: int| 0 <= k < i ==> !#[trigger] covers(sv[k], a));
                                    }
                                    assert forall|k: int, a: int| 0 <= k < i + 1 && #[trigger] covers(sv[k], a)
                                        implies #[trigger] ram_byte(core.ram_regions(), a) == Some(data_byte(b@, sv[k], a)) by {
                                        if k < i && dec.len() > 0 {
                                            assert(ram_byte(before, a) is Some);
                                            let j = choose|j: int| 0 <= j < before.len()
                                                && crate::vcore::ram_holds(#[trigger] before[j], a);
                                            assert(crate::vcore::ram_end(before[j]) <= address
                                                || address + dec.len() <= before[j].base);
                                        }
                                    }
                                }
                            },
                        }
                    },
                }
            },
        }
        proof {
            let s0 = sv.subrange(0, i as int);
            let s1 = sv.subrange(0, i + 1);
            assert(s1.drop_last() =~= s0);
            assert forall|id: u16| #[trigger] core.register(id) == match last_register(s1, id) {
                Some(v) => Some(v),
                None => old(core).register(id),
            } by {
                assert(last_register(s1, id) == match s1.last() {
                    Segment::Register { register, value } if register == id => Some(value),
                    _ => last_register(s0, id),
                });
                assert(c0.register(id) == match last_register(s0, id) {
                    Some(v) => Some(v),
                    None => old(core).register(id),
                });
                match seg {
                    Segment::Register { register, value } => {
                        if register != id {
                            assert(core.register(id) == c0.register(id));
                        }
                    },
                    _ => {
                        assert(core.register_list() == c0.register_list());
                    },
                }
            }
        }
        i = i + 1;
    }
    proof {
        assert(sv.subrange(0, sv.len() as int) =~= sv);
    }
    Ok(task)
}

} // verus!
