use humility_dump::error::DumpError;
use humility_dump::vcore::{FlashRegion, VirtualCore};

fn empty_core() -> VirtualCore {
    VirtualCore::new(vec![], vec![]).unwrap()
}

#[test]
fn read_inside_one_ram_region() {
    let mut c = empty_core();
    let bytes: Vec<u8> = (0..64u8).collect();
    c.add_ram_region(0x2000_0000, bytes.clone()).unwrap();
    assert_eq!(c.read(0x2000_0010, 8).unwrap(), bytes[0x10..0x18].to_vec());
}

#[test]
fn read_across_ram_boundary_concatenates() {
    let mut c = empty_core();
    c.add_ram_region(0x2000_0010, vec![0xbb; 16]).unwrap();
    c.add_ram_region(0x2000_0000, vec![0xaa; 16]).unwrap();
    let v = c.read(0x2000_000c, 8).unwrap();
    assert_eq!(v, vec![0xaa, 0xaa, 0xaa, 0xaa, 0xbb, 0xbb, 0xbb, 0xbb]);
}

#[test]
fn ram_shadows_flash() {
    let blob: Vec<u8> = vec![0x11; 256];
    let mut c = VirtualCore::new(vec![FlashRegion { base: 0x2000_0000, length: 256, offset: 0 }], blob).unwrap();
    c.add_ram_region(0x2000_0080, vec![0x22; 4]).unwrap();
    assert_eq!(c.read(0x2000_0080, 1).unwrap(), vec![0x22]);
    assert_eq!(c.read(0x2000_007e, 8).unwrap(), vec![0x11, 0x11, 0x22, 0x22, 0x22, 0x22, 0x11, 0x11]);
}

#[test]
fn flash_read_uses_blob_offset() {
    let blob: Vec<u8> = (0..32u8).collect();
    let c = VirtualCore::new(
        vec![
            FlashRegion { base: 0x0800_0000, length: 8, offset: 16 },
            FlashRegion { base: 0x0800_0008, length: 8, offset: 0 },
        ],
        blob,
    )
    .unwrap();
    assert_eq!(c.read(0x0800_0006, 4).unwrap(), vec![22, 23, 0, 1]);
}

#[test]
fn unmapped_address_is_reported() {
    let mut c = empty_core();
    c.add_ram_region(0x2000_0000, vec![0; 512]).unwrap();
    assert_eq!(c.read(0x2000_0fff, 1), Err(DumpError::AddressNotMapped(0x2000_0fff)));
    assert_eq!(c.read(0x2000_01fe, 4), Err(DumpError::AddressNotMapped(0x2000_0200)));
}

#[test]
fn overlapping_ram_region_is_refused() {
    let mut c = empty_core();
    c.add_ram_region(0x2000_0000, vec![1; 16]).unwrap();
    assert_eq!(c.add_ram_region(0x2000_000f, vec![2; 4]), Err(DumpError::RegionOverlap { address: 0x2000_000f }));
    assert_eq!(c.add_ram_region(0xffff_fff0, vec![2; 32]), Err(DumpError::RegionOverlap { address: 0xffff_fff0 }));
    assert_eq!(c.read(0x2000_000f, 1).unwrap(), vec![1]);
}

#[test]
fn bad_flash_map_is_refused() {
    let r = VirtualCore::new(
        vec![
            FlashRegion { base: 0x0800_0000, length: 16, offset: 0 },
            FlashRegion { base: 0x0800_0008, length: 16, offset: 0 },
        ],
        vec![0; 64],
    );
    assert!(matches!(r, Err(DumpError::RegionOverlap { address: 0x0800_0008 })));
    let r = VirtualCore::new(vec![FlashRegion { base: 0, length: 16, offset: 60 }], vec![0; 64]);
    assert!(matches!(r, Err(DumpError::RegionOverlap { address: 0 })));
}

#[test]
fn registers_read_back_last_value() {
    let mut c = empty_core();
    assert_eq!(c.read_reg(15), Err(DumpError::UnknownRegister(15)));
    c.add_register(15, 1);
    c.add_register(13, 2);
    c.add_register(15, 3);
    assert_eq!(c.read_reg(15), Ok(3));
    assert_eq!(c.read_reg(13), Ok(2));
}

#[test]
fn writes_are_refused() {
    let mut c = empty_core();
    assert_eq!(c.write_8(0x2000_0000, &[1, 2]), Err(DumpError::NotWritable));
}
