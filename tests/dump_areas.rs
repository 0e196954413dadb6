use humility_dump::areas::{read_area_entry, task_areas, HeaderEntry, HeaderScan};
use humility_dump::compression::compress_checked;
use humility_dump::error::{ConfigError, DumpError};
use humility_dump::format::{
    AreaHeader, DumpTask, DATA_SIGNATURE, DUMPER_AGENT, DUMPER_EMULATED, DUMPER_NONE,
    DUMP_CONTENTS_SINGLETASK, DUMP_CONTENTS_WHOLESYSTEM, DUMP_MAGIC, DUMP_PAD, REGISTER_SIGNATURE,
    TASK_SIGNATURE,
};
use humility_dump::orchestrate::{list_rows, ListRow};
use humility_dump::reader::{append_window, area_reads, select_areas, DumpArea};
use humility_dump::reassemble::load_dump;
use humility_dump::vcore::VirtualCore;

fn header_bytes(address: u32, nsegments: u8, dumper: u8, contents: u8, length: u32, written: u32) -> Vec<u8> {
    let mut b = Vec::new();
    b.extend_from_slice(&DUMP_MAGIC.to_le_bytes());
    b.extend_from_slice(&address.to_le_bytes());
    b.push(nsegments);
    b.push(dumper);
    b.push(contents);
    b.push(0);
    b.extend_from_slice(&length.to_le_bytes());
    b.extend_from_slice(&written.to_le_bytes());
    b
}

fn task_record(id: u16, time: u64) -> Vec<u8> {
    let mut b = Vec::new();
    b.extend_from_slice(&TASK_SIGNATURE.to_le_bytes());
    b.extend_from_slice(&id.to_le_bytes());
    b.extend_from_slice(&[0; 4]);
    b.extend_from_slice(&time.to_le_bytes());
    b
}

fn data_record(address: u32, data: &[u8]) -> Vec<u8> {
    let packed = compress_checked(data, address).unwrap();
    let mut b = Vec::new();
    b.extend_from_slice(&DATA_SIGNATURE.to_le_bytes());
    b.extend_from_slice(&(data.len() as u16).to_le_bytes());
    b.extend_from_slice(&(packed.len() as u16).to_le_bytes());
    b.extend_from_slice(&[0; 2]);
    b.extend_from_slice(&address.to_le_bytes());
    b.extend_from_slice(&packed);
    while b.len() % 4 != 0 {
        b.push(DUMP_PAD);
    }
    b
}

fn hdr(address: u32, dumper: u8, contents: u8, written: u32) -> AreaHeader {
    AreaHeader { address, nsegments: 0, dumper, contents, length: 0x2000, written }
}

#[test]
fn entry_carries_task_marker() {
    let mut b = header_bytes(0x3000_0000, 1, DUMPER_AGENT, DUMP_CONTENTS_SINGLETASK, 0x2000, 4096);
    b.extend_from_slice(&[0; 8]);
    b.extend_from_slice(&task_record(7, 94529));
    let (h, t) = read_area_entry(&b).unwrap();
    assert_eq!(h.written, 4096);
    assert_eq!(t, Some(DumpTask { id: 7, time: 94529 }));
}

#[test]
fn entry_of_whole_system_area_has_no_task() {
    let mut b = header_bytes(0x3000_0000, 0, DUMPER_AGENT, DUMP_CONTENTS_WHOLESYSTEM, 0x2000, 4096);
    b.extend_from_slice(&task_record(7, 94529));
    assert_eq!(read_area_entry(&b).unwrap().1, None);
}

#[test]
fn header_walk_stops_at_first_unused_area() {
    let windows = vec![
        header_bytes(0x100, 0, DUMPER_AGENT, DUMP_CONTENTS_WHOLESYSTEM, 0x100, 0x80),
        header_bytes(0x200, 0, DUMPER_AGENT, DUMP_CONTENTS_WHOLESYSTEM, 0x100, 0x80),
        header_bytes(0x300, 0, DUMPER_NONE, DUMP_CONTENTS_WHOLESYSTEM, 0x100, 0),
        header_bytes(0x400, 0, DUMPER_AGENT, DUMP_CONTENTS_WHOLESYSTEM, 0x100, 0x80),
    ];
    let mut scan = HeaderScan::new(false);
    let mut n = 0;
    for w in &windows {
        n += 1;
        if !scan.accept(w).unwrap() {
            break;
        }
    }
    assert_eq!(n, 3);
    assert!(scan.is_done());
    let entries = scan.into_entries();
    assert_eq!(entries.iter().map(|e| e.0.address).collect::<Vec<_>>(), vec![0x100, 0x200, 0x300]);

    let mut raw = HeaderScan::new(true);
    for w in &windows {
        assert!(raw.accept(w).unwrap());
    }
    assert_eq!(raw.into_entries().len(), 4);
}

#[test]
fn header_walk_refuses_bad_magic() {
    let mut w = header_bytes(0x100, 0, DUMPER_AGENT, 0, 0x100, 0x80);
    w[1] = 0;
    let mut scan = HeaderScan::new(false);
    assert!(matches!(scan.accept(&w), Err(DumpError::Parse(_))));
    assert_eq!(scan.into_entries().len(), 0);
}

#[test]
fn empty_ring_status_shows_the_one_raw_header() {
    let mut raw = HeaderScan::new(true);
    assert!(raw.accept(&header_bytes(0x100, 0, DUMPER_NONE, 0, 0x100, 0)).unwrap());
    let entries = raw.into_entries();
    assert_eq!(entries.len(), 1);
    assert_eq!(entries[0].0.dumper, DUMPER_NONE);
}

#[test]
fn whole_system_dump_without_prior_state() {
    // 512 bytes whose compressed form is 96 bytes: a prefix of distinct bytes
    // (literals), then spaces (long matches); the prefix length sets the size.
    let compress = |ram: &Vec<u8>| {
        lzss::Lzss::<6, 4, 0x20, 64, 128>::compress_stack(
            lzss::SliceReader::new(ram),
            lzss::VecWriter::with_capacity(1024),
        )
        .ok()
        .unwrap()
    };
    let (ram, packed) = (0..200usize)
        .map(|k| {
            let ram: Vec<u8> = (0..512usize).map(|i| if i < k { 0x80 | (i % 64) as u8 } else { 0x20 }).collect();
            let packed = compress(&ram);
            (ram, packed)
        })
        .find(|(_, p)| p.len() == 96)
        .unwrap();
    assert_eq!(packed.len(), 96);
    let mut area = header_bytes(0x3000_0000, 3, DUMPER_EMULATED, DUMP_CONTENTS_WHOLESYSTEM, 0x2000, 1200);
    for i in 0..3u32 {
        area.extend_from_slice(&(0x2000_0000 + 0x1000 * i).to_le_bytes());
        area.extend_from_slice(&512u32.to_le_bytes());
    }
    area.extend_from_slice(&DATA_SIGNATURE.to_le_bytes());
    area.extend_from_slice(&512u16.to_le_bytes());
    area.extend_from_slice(&(packed.len() as u16).to_le_bytes());
    area.extend_from_slice(&[0; 2]);
    area.extend_from_slice(&0x2000_0000u32.to_le_bytes());
    area.extend_from_slice(&packed);
    area.resize(1200, DUMP_PAD);
    let unused = header_bytes(0x3000_2000, 0, DUMPER_NONE, 0, 0x2000, 0);

    let mut scan = HeaderScan::new(false);
    assert!(scan.accept(&area).unwrap());
    assert!(!scan.accept(&unused).unwrap());
    let entries = scan.into_entries();
    assert_eq!(list_rows(&entries).unwrap(), vec![ListRow { area: 0, task: None, region: false, size: 1200 }]);

    let (first, hs, task) = select_areas(&entries, None).unwrap();
    assert_eq!((first, hs.len(), task), (0, 1, None));
    let mut bytes = Vec::new();
    for (_, off) in area_reads(0, hs[0].written, 512) {
        let end = std::cmp::min(off as usize + 512, area.len());
        append_window(&mut bytes, &area[off as usize..end], off, &hs[0], true);
    }
    let mut core = VirtualCore::new(vec![], vec![]).unwrap();
    assert_eq!(load_dump(&mut core, &bytes), Ok(None));
    assert_eq!(core.read(0x2000_0000, 512).unwrap(), ram);
    assert_eq!(core.read(0x2000_0fff, 1), Err(DumpError::AddressNotMapped(0x2000_0fff)));
}

#[test]
fn empty_ring_lists_nothing() {
    let mut scan = HeaderScan::new(false);
    assert!(!scan.accept(&header_bytes(0x100, 0, DUMPER_NONE, 0, 0x100, 0)).unwrap());
    let entries = scan.into_entries();
    assert_eq!(entries.len(), 1);
    assert_eq!(list_rows(&entries).unwrap(), vec![]);
    assert_eq!(task_areas(&entries).len(), 0);
}

fn two_area_task() -> Vec<HeaderEntry> {
    vec![
        (hdr(0x3000_0000, DUMPER_AGENT, DUMP_CONTENTS_SINGLETASK, 4096), Some(DumpTask { id: 7, time: 94529 })),
        (hdr(0x3000_2000, DUMPER_AGENT, DUMP_CONTENTS_SINGLETASK, 3000), None),
        (hdr(0x3000_4000, DUMPER_NONE, DUMP_CONTENTS_WHOLESYSTEM, 0), None),
    ]
}

#[test]
fn task_dump_spanning_two_areas_groups_and_lists() {
    let entries = two_area_task();
    let groups = task_areas(&entries);
    assert_eq!(groups.len(), 1);
    assert_eq!(groups[0].first, 0);
    assert_eq!(groups[0].task, DumpTask { id: 7, time: 94529 });
    assert_eq!(groups[0].headers.len(), 2);
    assert_eq!(
        list_rows(&entries).unwrap(),
        vec![ListRow { area: 0, task: Some(DumpTask { id: 7, time: 94529 }), region: false, size: 7096 }]
    );
}

#[test]
fn grouping_opens_a_group_per_task_marker() {
    let t1 = DumpTask { id: 1, time: 10 };
    let t2 = DumpTask { id: 2, time: 20 };
    let entries = vec![
        (hdr(0x0, DUMPER_AGENT, DUMP_CONTENTS_SINGLETASK, 10), None),
        (hdr(0x100, DUMPER_AGENT, DUMP_CONTENTS_SINGLETASK, 20), Some(t1)),
        (hdr(0x200, DUMPER_AGENT, DUMP_CONTENTS_SINGLETASK, 30), Some(t2)),
        (hdr(0x300, DUMPER_AGENT, DUMP_CONTENTS_SINGLETASK, 40), None),
        (hdr(0x400, DUMPER_NONE, 0, 0), Some(t1)),
        (hdr(0x500, DUMPER_AGENT, DUMP_CONTENTS_SINGLETASK, 50), None),
    ];
    let groups = task_areas(&entries);
    assert_eq!(groups.len(), 2);
    assert_eq!((groups[0].first, groups[0].task, groups[0].headers.len()), (1, t1, 1));
    assert_eq!((groups[1].first, groups[1].task, groups[1].headers.len()), (2, t2, 2));
}

#[test]
fn whole_system_listing_sums_areas_in_use() {
    let entries = vec![
        (hdr(0x0, DUMPER_EMULATED, DUMP_CONTENTS_WHOLESYSTEM, 1200), None),
        (hdr(0x100, DUMPER_EMULATED, DUMP_CONTENTS_WHOLESYSTEM, 800), None),
        (hdr(0x200, DUMPER_NONE, 0, 77), None),
    ];
    assert_eq!(list_rows(&entries).unwrap(), vec![ListRow { area: 0, task: None, region: false, size: 2000 }]);
}

#[test]
fn listing_names_first_unknown_contents() {
    let entries = vec![
        (hdr(0x0, DUMPER_AGENT, DUMP_CONTENTS_SINGLETASK, 10), Some(DumpTask { id: 1, time: 1 })),
        (hdr(0x100, DUMPER_AGENT, 9, 10), Some(DumpTask { id: 2, time: 2 })),
        (hdr(0x200, DUMPER_AGENT, 8, 10), Some(DumpTask { id: 3, time: 3 })),
    ];
    assert_eq!(list_rows(&entries), Err(DumpError::Config(ConfigError::UnknownContents(9))));
}

#[test]
fn listing_refuses_unknown_contents() {
    let entries = vec![(hdr(0x0, DUMPER_AGENT, 9, 10), Some(DumpTask { id: 1, time: 1 }))];
    assert_eq!(list_rows(&entries), Err(DumpError::Config(ConfigError::UnknownContents(9))));
}

#[test]
fn select_by_index_and_address() {
    let entries = two_area_task();
    let (first, hs, task) = select_areas(&entries, Some(DumpArea::ByIndex(0))).unwrap();
    assert_eq!((first, hs.len(), task), (0, 2, Some(DumpTask { id: 7, time: 94529 })));
    let (first, hs, _) = select_areas(&entries, Some(DumpArea::ByAddress(0x3000_0000))).unwrap();
    assert_eq!((first, hs.len()), (0, 2));
    assert_eq!(select_areas(&entries, Some(DumpArea::ByIndex(1))), Err(DumpError::Config(ConfigError::NoSuchArea)));
    let (first, hs, task) = select_areas(&entries, None).unwrap();
    assert_eq!((first, hs.len(), task), (0, 2, None));
}

#[test]
fn window_reads_cover_written_bytes() {
    assert_eq!(area_reads(3, 1000, 400), vec![(3, 0), (3, 400), (3, 800)]);
    assert_eq!(area_reads(3, 800, 400), vec![(3, 0), (3, 400)]);
    assert_eq!(area_reads(3, 0, 400), vec![]);
}

#[test]
fn whole_system_dump_reassembles() {
    let ram: Vec<u8> = (0..512usize).map(|i| (i * 7 % 251) as u8).collect();
    let mut body = Vec::new();
    for (n, chunk) in ram.chunks(128).enumerate() {
        body.extend_from_slice(&data_record(0x2000_0000 + 128 * n as u32, chunk));
    }
    let mut reg = Vec::new();
    reg.extend_from_slice(&REGISTER_SIGNATURE.to_le_bytes());
    reg.extend_from_slice(&15u16.to_le_bytes());
    reg.extend_from_slice(&0x0800_1234u32.to_le_bytes());
    let nseg = 3u8;
    let written = (20 + 8 * nseg as usize + reg.len() + body.len()) as u32;
    let mut area = header_bytes(0x3000_0000, nseg, DUMPER_EMULATED, DUMP_CONTENTS_WHOLESYSTEM, 0x2000, written);
    for _ in 0..nseg {
        area.extend_from_slice(&0x2000_0000u32.to_le_bytes());
        area.extend_from_slice(&512u32.to_le_bytes());
    }
    area.extend_from_slice(&reg);
    area.extend_from_slice(&body);
    area.extend_from_slice(&[0xee; 100]);

    let mut bytes = Vec::new();
    let h = hdr(0x3000_0000, DUMPER_EMULATED, DUMP_CONTENTS_WHOLESYSTEM, written);
    for (_, off) in area_reads(0, written, 256) {
        let end = std::cmp::min(off as usize + 256, area.len());
        append_window(&mut bytes, &area[off as usize..end], off, &h, true);
    }
    assert_eq!(bytes.len(), written as usize);

    let mut core = VirtualCore::new(vec![], vec![]).unwrap();
    assert_eq!(load_dump(&mut core, &bytes), Ok(None));
    assert_eq!(core.read(0x2000_0000, 512).unwrap(), ram);
    assert_eq!(core.read_reg(15), Ok(0x0800_1234));
    assert_eq!(core.read(0x2000_0fff, 1), Err(DumpError::AddressNotMapped(0x2000_0fff)));
}

#[test]
fn task_dump_joins_spill_area_before_decoding() {
    let ram: Vec<u8> = (0..300usize).map(|i| (i % 13) as u8).collect();
    let mut first = header_bytes(0x3000_0000, 0, DUMPER_AGENT, DUMP_CONTENTS_SINGLETASK, 0x2000, 0);
    first.extend_from_slice(&task_record(7, 94529));
    let rec = data_record(0x2400_0000, &ram);
    let split = 10;
    first.extend_from_slice(&rec[..split]);
    let w0 = first.len() as u32;
    let mut spill = header_bytes(0x3000_2000, 0, DUMPER_AGENT, DUMP_CONTENTS_SINGLETASK, 0x2000, 0);
    spill.extend_from_slice(&rec[split..]);
    let w1 = spill.len() as u32;

    let h0 = hdr(0x3000_0000, DUMPER_AGENT, DUMP_CONTENTS_SINGLETASK, w0);
    let h1 = hdr(0x3000_2000, DUMPER_AGENT, DUMP_CONTENTS_SINGLETASK, w1);
    let mut bytes = Vec::new();
    append_window(&mut bytes, &first, 0, &h0, true);
    append_window(&mut bytes, &spill, 0, &h1, false);
    assert_eq!(bytes.len(), first.len() + rec.len() - split);

    let mut core = VirtualCore::new(vec![], vec![]).unwrap();
    assert_eq!(load_dump(&mut core, &bytes), Ok(Some(DumpTask { id: 7, time: 94529 })));
    assert_eq!(core.read(0x2400_0000, 300).unwrap(), ram);
}

#[test]
fn data_record_with_wrong_length_fails() {
    let ram = vec![5u8; 64];
    let mut rec = data_record(0x2000_0000, &ram);
    rec[2] = 63;
    let mut area = header_bytes(0x3000_0000, 0, DUMPER_EMULATED, DUMP_CONTENTS_WHOLESYSTEM, 0x2000, 0);
    area.extend_from_slice(&rec);
    let mut core = VirtualCore::new(vec![], vec![]).unwrap();
    assert_eq!(load_dump(&mut core, &area), Err(DumpError::DecodeMismatch { address: 0x2000_0000 }));
}

#[test]
fn overlapping_data_records_fail() {
    let mut area = header_bytes(0x3000_0000, 0, DUMPER_EMULATED, DUMP_CONTENTS_WHOLESYSTEM, 0x2000, 0);
    area.extend_from_slice(&data_record(0x2000_0000, &[1u8; 32]));
    area.extend_from_slice(&data_record(0x2000_0010, &[2u8; 32]));
    let mut core = VirtualCore::new(vec![], vec![]).unwrap();
    assert_eq!(load_dump(&mut core, &area), Err(DumpError::RegionOverlap { address: 0x2000_0010 }));
}
