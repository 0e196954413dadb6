//! How records are laid out in an area, stated as an encoder, with the proof
//! that the decoder reads back exactly what the encoder wrote.

use crate::compression::lzss_expand;
use crate::format::{
    le16, le32, le64, records_from, segments_spec, records_start, DumpTask, ParseError, Segment,
    DATA_RECORD_SIZE, DATA_SIGNATURE, DUMP_PAD, REGISTER_RECORD_SIZE, REGISTER_SIGNATURE,
    TASK_RECORD_SIZE, TASK_SIGNATURE,
};
use crate::reassemble::{covers, data_byte, data_ok, payload};
use vstd::prelude::*;

verus! {

/// A record as a dumper writes it: a data record carries its compressed
/// payload and the number of padding bytes that follow it.
pub enum AreaRecord {
    Task(DumpTask),
    Register { register: u16, value: u32 },
    Data { address: u32, uncompressed_length: u16, payload: Seq<u8>, pad: nat },
}

pub open spec fn enc16(v: int) -> Seq<u8> {
    seq![(v % 256) as u8, ((v / 256) % 256) as u8]
}

pub open spec fn enc32(v: int) -> Seq<u8> {
    enc16(v % 65536) + enc16(v / 65536)
}

pub open spec fn enc64(v: int) -> Seq<u8> {
    enc32(v % 0x1_0000_0000) + enc32(v / 0x1_0000_0000)
}

/// The bytes of one record.
pub open spec fn encode_record(r: AreaRecord) -> Seq<u8> {
    match r {
        AreaRecord::Task(t) => enc16(TASK_SIGNATURE as int) + enc16(t.id as int) + seq![0u8, 0u8, 0u8, 0u8] + enc64(t.time as int),
        AreaRecord::Register { register, value } => enc16(REGISTER_SIGNATURE as int) + enc16(register as int) + enc32(value as int),
        AreaRecord::Data { address, uncompressed_length, payload, pad } => enc16(DATA_SIGNATURE as int)
            + enc16(uncompressed_length as int) + enc16(payload.len() as int) + seq![0u8, 0u8] + enc32(address as int)
            + payload + Seq::new(pad, |i: int| DUMP_PAD),
    }
}

/// The bytes of a sequence of records, one after another.
pub open spec fn encode_records(rs: Seq<AreaRecord>) -> Seq<u8>
    decreases rs.len(),
{
    if rs.len() == 0 {
        seq![]
    } else {
        encode_record(rs[0]) + encode_records(rs.drop_first())
    }
}

pub open spec fn record_ok(r: AreaRecord) -> bool {
    match r {
        AreaRecord::Data { payload, .. } => payload.len() < 65536,
        _ => true,
    }
}

/// What the decoder reads for a record encoded at `pos`.
pub open spec fn decoded(r: AreaRecord, pos: int) -> Segment {
    match r {
        AreaRecord::Task(t) => Segment::Task(t),
        AreaRecord::Register { register, value } => Segment::Register { register, value },
        AreaRecord::Data { address, uncompressed_length, payload, .. } => Segment::Data {
            address,
            uncompressed_length,
            compressed_length: payload.len() as u16,
            offset: (pos + DATA_RECORD_SIZE) as usize,
        },
    }
}

/// What the decoder reads for records encoded from `pos` on.
pub open spec fn decoded_all(rs: Seq<AreaRecord>, pos: int) -> Seq<Segment>
    decreases rs.len(),
{
    if rs.len() == 0 {
        seq![]
    } else {
        seq![decoded(rs[0], pos)] + decoded_all(rs.drop_first(), pos + encode_record(rs[0]).len())
    }
}

/// Where the `k`th of the records encoded from `pos` on starts.
pub open spec fn record_pos(rs: Seq<AreaRecord>, pos: int, k: int) -> int
    decreases k,
{
    if k <= 0 || rs.len() == 0 {
        pos
    } else {
        record_pos(rs.drop_first(), pos + encode_record(rs[0]).len(), k - 1)
    }
}

proof fn lemma_enc16(b: Seq<u8>, i: int, v: int)
    requires
        0 <= v < 65536,
        0 <= i,
        i + 2 <= b.len(),
        b.subrange(i, i + 2) == enc16(v),
    ensures
        le16(b, i) == v,
{
    assert(b[i] == b.subrange(i, i + 2)[0]);
    assert(b[i + 1] == b.subrange(i, i + 2)[1]);
    assert((v % 256) + 256 * ((v / 256) % 256) == v);
}

proof fn lemma_enc32(b: Seq<u8>, i: int, v: int)
    requires
        0 <= v < 0x1_0000_0000,
        0 <= i,
        i + 4 <= b.len(),
        b.subrange(i, i + 4) == enc32(v),
    ensures
        le32(b, i) == v,
{
    assert(b.subrange(i, i + 2) =~= b.subrange(i, i + 4).subrange(0, 2));
    assert(b.subrange(i + 2, i + 4) =~= b.subrange(i, i + 4).subrange(2, 4));
    assert(enc32(v).subrange(0, 2) =~= enc16(v % 65536));
    assert(enc32(v).subrange(2, 4) =~= enc16(v / 65536));
    lemma_enc16(b, i, v % 65536);
    lemma_enc16(b, i + 2, v / 65536);
}

proof fn lemma_enc64(b: Seq<u8>, i: int, v: int)
    requires
        0 <= v < 0x1_0000_0000_0000_0000,
        0 <= i,
        i + 8 <= b.len(),
        b.subrange(i, i + 8) == enc64(v),
    ensures
        le64(b, i) == v,
{
    assert(b.subrange(i, i + 4) =~= b.subrange(i, i + 8).subrange(0, 4));
    assert(b.subrange(i + 4, i + 8) =~= b.subrange(i, i + 8).subrange(4, 8));
    assert(enc64(v).subrange(0, 4) =~= enc32(v % 0x1_0000_0000));
    assert(enc64(v).subrange(4, 8) =~= enc32(v / 0x1_0000_0000));
    lemma_enc32(b, i, v % 0x1_0000_0000);
    lemma_enc32(b, i + 4, v / 0x1_0000_0000);
}

proof fn lemma_skip_pad(b: Seq<u8>, q: int, k: nat)
    requires
        0 <= q,
        q + k <= b.len(),
        forall|j: int| q <= j < q + k ==> b[j] == DUMP_PAD,
    ensures
        records_from(b, q, true) == records_from(b, q + k, true),
    decreases k,
{
    if k > 0 {
        lemma_skip_pad(b, q + 1, (k - 1) as nat);
    }
}

proof fn lemma_bytes_at(b: Seq<u8>, pos: int, e: Seq<u8>, i: int, j: int)
    requires
        0 <= pos,
        pos + e.len() <= b.len(),
        b.subrange(pos, pos + e.len()) == e,
        0 <= i <= j <= e.len(),
    ensures
        b.subrange(pos + i, pos + j) == e.subrange(i, j),
{
    assert forall|k: int| 0 <= k < j - i implies b.subrange(pos + i, pos + j)[k] == e.subrange(i, j)[k] by {
        assert(b.subrange(pos, pos + e.len())[i + k] == b[pos + i + k]);
    }
    assert(b.subrange(pos + i, pos + j) =~= e.subrange(i, j));
}

proof fn lemma_head_task(b: Seq<u8>, pos: int, after_data: bool, t: DumpTask)
    requires
        0 <= pos,
        pos + TASK_RECORD_SIZE <= b.len(),
        b.subrange(pos, pos + TASK_RECORD_SIZE) == encode_record(AreaRecord::Task(t)),
    ensures
        records_from(b, pos, after_data) == crate::format::cons(Segment::Task(t), records_from(b, pos + TASK_RECORD_SIZE, false)),
{
    let e = encode_record(AreaRecord::Task(t));
    assert(e.len() == TASK_RECORD_SIZE);
    lemma_bytes_at(b, pos, e, 0, 2);
    assert(e.subrange(0, 2) =~= enc16(TASK_SIGNATURE as int));
    lemma_enc16(b, pos, TASK_SIGNATURE as int);
    lemma_bytes_at(b, pos, e, 2, 4);
    assert(e.subrange(2, 4) =~= enc16(t.id as int));
    lemma_enc16(b, pos + 2, t.id as int);
    lemma_bytes_at(b, pos, e, 8, 16);
    assert(e.subrange(8, 16) =~= enc64(t.time as int));
    lemma_enc64(b, pos + 8, t.time as int);
    assert(b[pos] == e[0]);
}

proof fn lemma_head_register(b: Seq<u8>, pos: int, after_data: bool, register: u16, value: u32)
    requires
        0 <= pos,
        pos + REGISTER_RECORD_SIZE <= b.len(),
        b.subrange(pos, pos + REGISTER_RECORD_SIZE) == encode_record(AreaRecord::Register { register, value }),
    ensures
        records_from(b, pos, after_data) == crate::format::cons(
            Segment::Register { register, value }, records_from(b, pos + REGISTER_RECORD_SIZE, false)),
{
    let e = encode_record(AreaRecord::Register { register, value });
    assert(e.len() == REGISTER_RECORD_SIZE);
    lemma_bytes_at(b, pos, e, 0, 2);
    assert(e.subrange(0, 2) =~= enc16(REGISTER_SIGNATURE as int));
    lemma_enc16(b, pos, REGISTER_SIGNATURE as int);
    lemma_bytes_at(b, pos, e, 2, 4);
    assert(e.subrange(2, 4) =~= enc16(register as int));
    lemma_enc16(b, pos + 2, register as int);
    lemma_bytes_at(b, pos, e, 4, 8);
    assert(e.subrange(4, 8) =~= enc32(value as int));
    lemma_enc32(b, pos + 4, value as int);
    assert(b[pos] == e[0]);
}

proof fn lemma_head_data(b: Seq<u8>, pos: int, after_data: bool, r: AreaRecord)
    requires
        0 <= pos,
        r is Data,
        record_ok(r),
        pos + encode_record(r).len() <= b.len(),
        b.subrange(pos, pos + encode_record(r).len()) == encode_record(r),
    ensures
        records_from(b, pos, after_data) == crate::format::cons(
            decoded(r, pos), records_from(b, pos + encode_record(r).len(), true)),
{
    if let AreaRecord::Data { address, uncompressed_length, payload: p, pad } = r {
        let e = encode_record(r);
        lemma_bytes_at(b, pos, e, 0, 2);
        assert(e.subrange(0, 2) =~= enc16(DATA_SIGNATURE as int));
        lemma_enc16(b, pos, DATA_SIGNATURE as int);
        lemma_bytes_at(b, pos, e, 2, 4);
        assert(e.subrange(2, 4) =~= enc16(uncompressed_length as int));
        lemma_enc16(b, pos + 2, uncompressed_length as int);
        lemma_bytes_at(b, pos, e, 4, 6);
        assert(e.subrange(4, 6) =~= enc16(p.len() as int));
        lemma_enc16(b, pos + 4, p.len() as int);
        lemma_bytes_at(b, pos, e, 8, 12);
        assert(e.subrange(8, 12) =~= enc32(address as int));
        lemma_enc32(b, pos + 8, address as int);
        assert(b[pos] == e[0]);
        let q = pos + DATA_RECORD_SIZE + p.len();
        assert forall|j: int| q <= j < q + pad implies b[j] == DUMP_PAD by {
            assert(b[j] == b.subrange(pos, pos + e.len())[j - pos]);
            assert(e[j - pos] == Seq::new(pad, |i: int| DUMP_PAD)[j - q]);
        }
        lemma_skip_pad(b, q, pad);
    }
}

proof fn lemma_split(b: Seq<u8>, pos: int, rs: Seq<AreaRecord>)
    requires
        0 <= pos <= b.len(),
        rs.len() > 0,
        b.subrange(pos, b.len() as int) == encode_records(rs),
    ensures
        pos + encode_record(rs[0]).len() <= b.len(),
        b.subrange(pos, pos + encode_record(rs[0]).len()) == encode_record(rs[0]),
        b.subrange(pos + encode_record(rs[0]).len(), b.len() as int) == encode_records(rs.drop_first()),
{
    let e = encode_record(rs[0]);
    let rest = encode_records(rs.drop_first());
    let tail = b.subrange(pos, b.len() as int);
    assert(tail == e + rest);
    assert forall|j: int| 0 <= j < e.len() implies b.subrange(pos, pos + e.len())[j] == e[j] by {
        assert(tail[j] == b[pos + j]);
        assert(tail[j] == (e + rest)[j]);
    }
    assert(b.subrange(pos, pos + e.len()) =~= e);
    assert forall|j: int| 0 <= j < rest.len() implies b.subrange(pos + e.len(), b.len() as int)[j] == rest[j] by {
        assert(tail[e.len() + j] == b[pos + e.len() + j]);
        assert(tail[e.len() + j] == (e + rest)[e.len() + j]);
    }
    assert(b.subrange(pos + e.len(), b.len() as int) =~= rest);
}

/// Decoding bytes that hold encoded records from `pos` to their end gives
/// those records back.
proof fn lemma_decode_records(b: Seq<u8>, pos: int, after_data: bool, rs: Seq<AreaRecord>)
    requires
        0 <= pos <= b.len(),
        b.subrange(pos, b.len() as int) == encode_records(rs),
        forall|k: int| 0 <= k < rs.len() ==> record_ok(#[trigger] rs[k]),
    ensures
        records_from(b, pos, after_data) == Ok::<Seq<Segment>, ParseError>(decoded_all(rs, pos)),
    decreases rs.len(),
{
    if rs.len() == 0 {
        assert(b.subrange(pos, b.len() as int).len() == 0);
    } else {
        let r = rs[0];
        let rest = rs.drop_first();
        let next = pos + encode_record(r).len();
        assert(record_ok(rs[0]));
        assert forall|k: int| 0 <= k < rest.len() implies record_ok(#[trigger] rest[k]) by {
            assert(rest[k] == rs[k + 1]);
        }
        lemma_split(b, pos, rs);
        match r {
            AreaRecord::Task(t) => {
                lemma_head_task(b, pos, after_data, t);
                lemma_decode_records(b, next, false, rest);
            },
            AreaRecord::Register { register, value } => {
                lemma_head_register(b, pos, after_data, register, value);
                lemma_decode_records(b, next, false, rest);
            },
            AreaRecord::Data { .. } => {
                lemma_head_data(b, pos, after_data, r);
                lemma_decode_records(b, next, true, rest);
            },
        }
    }
}

/// A data record's decoded offset points at its payload within `b`.
proof fn lemma_payloads(b: Seq<u8>, pos: int, rs: Seq<AreaRecord>)
    requires
        0 <= pos <= b.len(),
        b.len() <= usize::MAX,
        b.subrange(pos, b.len() as int) == encode_records(rs),
        forall|k: int| 0 <= k < rs.len() ==> record_ok(#[trigger] rs[k]),
    ensures
        decoded_all(rs, pos).len() == rs.len(),
        forall|k: int| 0 <= k < rs.len() ==> #[trigger] decoded_all(rs, pos)[k] == decoded(rs[k], record_pos(rs, pos, k)),
        forall|k: int| 0 <= k < rs.len() ==> match #[trigger] rs[k] {
            AreaRecord::Data { payload: p, .. } => payload(b, decoded_all(rs, pos)[k]) == p,
            _ => true,
        },
    decreases rs.len(),
{
    if rs.len() > 0 {
        let e = encode_record(rs[0]);
        let rest = rs.drop_first();
        let tail = b.subrange(pos, b.len() as int);
        assert(tail == e + encode_records(rest));
        assert(record_ok(rs[0]));
        assert forall|k: int| 0 <= k < rest.len() implies record_ok(#[trigger] rest[k]) by {
            assert(rest[k] == rs[k + 1]);
        }
        assert(b.subrange(pos + e.len(), b.len() as int) =~= encode_records(rest)) by {
            assert forall|j: int| 0 <= j < encode_records(rest).len()
                implies b.subrange(pos + e.len(), b.len() as int)[j] == encode_records(rest)[j] by {
                assert(tail[e.len() + j] == b[pos + e.len() + j]);
                assert(tail[e.len() + j] == (e + encode_records(rest))[e.len() + j]);
            }
        }
        lemma_payloads(b, pos + e.len(), rest);
        assert forall|k: int| 0 <= k < rs.len() implies #[trigger] decoded_all(rs, pos)[k] == decoded(rs[k], record_pos(rs, pos, k)) by {
            if k == 0 {
                assert(decoded_all(rs, pos)[0] == decoded(rs[0], pos));
            } else {
                assert(rs[k] == rest[k - 1]);
                assert(decoded_all(rs, pos)[k] == decoded_all(rest, pos + e.len())[k - 1]);
                assert(record_pos(rs, pos, k) == record_pos(rest, pos + e.len(), k - 1));
            }
        }
        assert forall|k: int| 0 <= k < rs.len() implies match #[trigger] rs[k] {
            AreaRecord::Data { payload: p, .. } => payload(b, decoded_all(rs, pos)[k]) == p,
            _ => true,
        } by {
            if k == 0 {
                if let AreaRecord::Data { payload: p, .. } = rs[0] {
                    let o = pos + DATA_RECORD_SIZE;
                    assert(payload(b, decoded_all(rs, pos)[0]) =~= p) by {
                        assert forall|j: int| 0 <= j < p.len() implies b.subrange(o, o + p.len())[j] == p[j] by {
                            assert(tail[DATA_RECORD_SIZE + j] == b[o + j]);
                            assert(tail[DATA_RECORD_SIZE + j] == e[DATA_RECORD_SIZE + j]);
                        }
                    }
                }
            } else {
                assert(rs[k] == rest[k - 1]);
                assert(decoded_all(rs, pos)[k] == decoded_all(rest, pos + e.len())[k - 1]);
            }
        }
    }
}

/// The layout round trip: area bytes made of a header and segment-header
/// table of `nsegments` entries followed by encoded records decode to those
/// records, each data record's payload found where it was written; so a data
/// record whose payload decompresses to exactly its length gives, for every
/// address it covers, the decompressed byte.
pub proof fn lemma_encoded_area_decodes(prefix: Seq<u8>, nsegments: nat, header_size: nat, rs: Seq<AreaRecord>)
    requires
        prefix.len() == records_start(nsegments, header_size),
        prefix.len() + encode_records(rs).len() <= usize::MAX,
        forall|k: int| 0 <= k < rs.len() ==> record_ok(#[trigger] rs[k]),
    ensures
        segments_spec(prefix + encode_records(rs), nsegments, header_size)
            == Ok::<Seq<Segment>, ParseError>(decoded_all(rs, prefix.len() as int)),
        forall|k: int| 0 <= k < rs.len() ==> match #[trigger] rs[k] {
            AreaRecord::Data { uncompressed_length, payload: p, address, .. } => {
                let seg = decoded_all(rs, prefix.len() as int)[k];
                &&& payload(prefix + encode_records(rs), seg) == p
                &&& lzss_expand(p).len() == uncompressed_length ==> data_ok(prefix + encode_records(rs), seg)
                    && forall|a: int| #[trigger] covers(seg, a) ==> data_byte(prefix + encode_records(rs), seg, a) == lzss_expand(p)[a - address]
            },
            _ => true,
        },
{
    let b = prefix + encode_records(rs);
    let pos = prefix.len() as int;
    assert(b.subrange(pos, b.len() as int) =~= encode_records(rs));
    lemma_decode_records(b, pos, false, rs);
    lemma_payloads(b, pos, rs);
    assert forall|k: int| 0 <= k < rs.len() implies match #[trigger] rs[k] {
        AreaRecord::Data { uncompressed_length, payload: p, address, .. } => {
            let seg = decoded_all(rs, prefix.len() as int)[k];
            &&& payload(b, seg) == p
            &&& lzss_expand(p).len() == uncompressed_length ==> data_ok(b, seg)
                && forall|a: int| #[trigger] covers(seg, a) ==> data_byte(b, seg, a) == lzss_expand(p)[a - address]
        },
        _ => true,
    } by {
        assert(decoded_all(rs, pos)[k] == decoded(rs[k], record_pos(rs, pos, k)));
    }
}

} // verus!
