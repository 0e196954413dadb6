use humility_dump::compression::{compress_checked, decompress_exact, CHUNK_SIZE};
use humility_dump::error::DumpError;
use humility_dump::format::{
    parse_area_header, parse_segments, DumpTask, ParseError, Segment, AREA_HEADER_SIZE,
    DATA_SIGNATURE, DUMPER_EMULATED, DUMP_CONTENTS_SINGLETASK, DUMP_MAGIC, DUMP_PAD,
    REGISTER_SIGNATURE, TASK_SIGNATURE,
};

fn header_bytes(address: u32, nsegments: u8, dumper: u8, contents: u8, length: u32, written: u32) -> Vec<u8> {
    let mut b = Vec::new();
    b.extend_from_slice(&DUMP_MAGIC.to_le_bytes());
    b.extend_from_slice(&address.to_le_bytes());
    b.push(nsegments);
    b.push(dumper);
    b.push(contents);
    b.push(0);
    b.extend_from_slice(&length.to_le_bytes());
    b.extend_from_slice(&written.to_le_bytes());
    b
}

#[test]
fn area_header_decodes_every_field() {
    let b = header_bytes(0x2400_0000, 3, DUMPER_EMULATED, DUMP_CONTENTS_SINGLETASK, 0x1_0000, 1200);
    assert_eq!(b.len(), AREA_HEADER_SIZE);
    let h = parse_area_header(&b).unwrap();
    assert_eq!(h.address, 0x2400_0000);
    assert_eq!(h.nsegments, 3);
    assert_eq!(h.dumper, DUMPER_EMULATED);
    assert_eq!(h.contents, DUMP_CONTENTS_SINGLETASK);
    assert_eq!(h.length, 0x1_0000);
    assert_eq!(h.written, 1200);
}

#[test]
fn area_header_bad_magic() {
    let mut b = header_bytes(0, 0, 0, 0, 0, 0);
    b[0] ^= 0xff;
    assert_eq!(parse_area_header(&b), Err(ParseError::MagicMismatch));
}

#[test]
fn area_header_short() {
    let b = header_bytes(0, 0, 0, 0, 0, 0);
    assert_eq!(parse_area_header(&b[..AREA_HEADER_SIZE - 1]), Err(ParseError::ShortRead));
}

#[test]
fn segments_task_register_data_and_padding() {
    let mut b = header_bytes(0x1000, 1, DUMPER_EMULATED, DUMP_CONTENTS_SINGLETASK, 4096, 0);
    b.extend_from_slice(&0x2000_0000u32.to_le_bytes());
    b.extend_from_slice(&512u32.to_le_bytes());
    b.extend_from_slice(&TASK_SIGNATURE.to_le_bytes());
    b.extend_from_slice(&7u16.to_le_bytes());
    b.extend_from_slice(&[0; 4]);
    b.extend_from_slice(&94529u64.to_le_bytes());
    b.extend_from_slice(&REGISTER_SIGNATURE.to_le_bytes());
    b.extend_from_slice(&13u16.to_le_bytes());
    b.extend_from_slice(&0xdead_beefu32.to_le_bytes());
    b.extend_from_slice(&DATA_SIGNATURE.to_le_bytes());
    b.extend_from_slice(&16u16.to_le_bytes());
    b.extend_from_slice(&3u16.to_le_bytes());
    b.extend_from_slice(&[0; 2]);
    b.extend_from_slice(&0x2000_0100u32.to_le_bytes());
    let payload_at = b.len();
    b.extend_from_slice(&[1, 2, 3]);
    b.extend_from_slice(&[DUMP_PAD; 3]);
    b.extend_from_slice(&REGISTER_SIGNATURE.to_le_bytes());
    b.extend_from_slice(&15u16.to_le_bytes());
    b.extend_from_slice(&0x0800_0001u32.to_le_bytes());
    let segs = parse_segments(&b, 1, AREA_HEADER_SIZE).unwrap();
    assert_eq!(
        segs,
        vec![
            Segment::Task(DumpTask { id: 7, time: 94529 }),
            Segment::Register { register: 13, value: 0xdead_beef },
            Segment::Data { address: 0x2000_0100, uncompressed_length: 16, compressed_length: 3, offset: payload_at },
            Segment::Register { register: 15, value: 0x0800_0001 },
        ]
    );
}

#[test]
fn segments_unknown_signature() {
    let mut b = header_bytes(0, 0, DUMPER_EMULATED, 0, 0, 0);
    b.extend_from_slice(&0x1234u16.to_le_bytes());
    b.extend_from_slice(&[0; 6]);
    assert_eq!(parse_segments(&b, 0, AREA_HEADER_SIZE), Err(ParseError::UnknownSignature(0x1234)));
}

#[test]
fn segments_short_record() {
    let mut b = header_bytes(0, 0, DUMPER_EMULATED, 0, 0, 0);
    b.extend_from_slice(&REGISTER_SIGNATURE.to_le_bytes());
    b.extend_from_slice(&[0; 3]);
    assert_eq!(parse_segments(&b, 0, AREA_HEADER_SIZE), Err(ParseError::ShortRead));
}

#[test]
fn segments_table_past_end() {
    let b = header_bytes(0, 4, DUMPER_EMULATED, 0, 0, 0);
    assert_eq!(parse_segments(&b, 4, AREA_HEADER_SIZE), Err(ParseError::ShortRead));
}

#[test]
fn lzss_round_trip_of_pattern_kibibyte() {
    let data: Vec<u8> = (0..1024usize).map(|i| (i & 0xff) as u8).collect();
    let mut total = 0;
    for (n, chunk) in data.chunks(CHUNK_SIZE).enumerate() {
        let packed = compress_checked(chunk, 0x2000_0000 + (n * CHUNK_SIZE) as u32).unwrap();
        assert_ne!(packed, chunk.to_vec());
        let back = decompress_exact(&packed, chunk.len()).unwrap();
        assert_eq!(back, chunk.to_vec());
        total += chunk.len();
    }
    assert_eq!(total, 1024);
}

#[test]
fn decompress_wrong_length_is_refused() {
    let chunk = vec![0x41u8; 200];
    let packed = compress_checked(&chunk, 0).unwrap();
    assert!(packed.len() < chunk.len());
    assert_eq!(decompress_exact(&packed, 199), None);
    assert_eq!(decompress_exact(&packed, 201), None);
    assert_eq!(decompress_exact(&packed, 200), Some(chunk));
}

#[test]
fn round_trip_error_variants_exist() {
    let e = DumpError::CompressionOverflow { address: 0x2000_0000 };
    assert_ne!(e, DumpError::RoundTripMismatch { address: 0x2000_0000 });
}
