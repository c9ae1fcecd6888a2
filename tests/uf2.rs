use dfu::uf2::{
    is_uf2_block, is_uf2_payload, UF2BlockData, UF2Flags, DEVICE_EXTENSION_TAG,
    REBOOT_EXTENSION_TAG, UF2_BLOCK_SIZE, VERSION_EXTENSION_TAG,
};
use dfu::uf2_ranges::{UF2AddressRange, UF2RangeIterator};

fn put_u32(b: &mut [u8], off: usize, v: u32) {
    b[off..off + 4].copy_from_slice(&v.to_le_bytes());
}

fn block(flags: u32, addr: u32, payload: &[u8], ext: &[u8]) -> Vec<u8> {
    let mut b = vec![0u8; UF2_BLOCK_SIZE];
    put_u32(&mut b, 0, 0x0A324655);
    put_u32(&mut b, 4, 0x9E5D5157);
    put_u32(&mut b, 8, flags);
    put_u32(&mut b, 12, addr);
    put_u32(&mut b, 16, payload.len() as u32);
    put_u32(&mut b, 20, 7);
    put_u32(&mut b, 24, 9);
    put_u32(&mut b, 28, 0x1234);
    b[32..32 + payload.len()].copy_from_slice(payload);
    let e = 32 + payload.len();
    b[e..e + ext.len()].copy_from_slice(ext);
    put_u32(&mut b, 508, 0x0AB16F30);
    b
}

fn reboot_ext(addr: u32) -> Vec<u8> {
    let mut e = (8u32 | (REBOOT_EXTENSION_TAG << 8)).to_le_bytes().to_vec();
    e.extend_from_slice(&addr.to_le_bytes());
    e
}

fn collect(it: &mut UF2RangeIterator) -> Vec<UF2AddressRange> {
    let mut out = Vec::new();
    while let Some(r) = it.next() {
        out.push(r);
    }
    out
}

#[test]
fn block_magics_in_place() {
    let b = block(0, 0x08000000, &[1, 2, 3], &[]);
    assert_eq!(&b[0..4], &[0x55, 0x46, 0x32, 0x0A]);
    assert_eq!(&b[4..8], &[0x57, 0x51, 0x5D, 0x9E]);
    assert_eq!(&b[508..512], &[0x30, 0x6F, 0xB1, 0x0A]);
    assert!(is_uf2_block(&b));
    assert!(is_uf2_payload(&b));
}

#[test]
fn magic_mismatch_and_truncation() {
    let mut b = block(0, 0, &[], &[]);
    b[508] = 0;
    assert!(!is_uf2_block(&b));
    assert!(is_uf2_payload(&b));
    let err = UF2BlockData::decode(&b).err().unwrap();
    assert_eq!(err.err, "magic values check failed");
    let short = block(0, 0, &[], &[]);
    assert!(!is_uf2_block(&short[..511]));
    assert!(is_uf2_payload(&short[..4]));
    assert!(!is_uf2_payload(&short[..3]));
    assert!(!is_uf2_payload(&[0x55, 0x46, 0x32, 0x0B]));
}

#[test]
fn payload_size_too_big() {
    let mut b = block(0, 0, &[], &[]);
    put_u32(&mut b, 16, 477);
    let err = UF2BlockData::decode(&b).err().unwrap();
    assert_eq!(err.err, "payload size too big");
    put_u32(&mut b, 16, 476);
    assert_eq!(UF2BlockData::decode(&b).ok().unwrap().payload.len(), 476);
}

#[test]
fn decode_header_fields() {
    let b = block(UF2Flags::FAMILY_ID_PRESENT, 0x08004000, &[9; 256], &[]);
    let d = UF2BlockData::decode(&b).ok().unwrap();
    assert_eq!(d.flash_address, 0x08004000);
    assert_eq!((d.block_nr, d.total_blocks), (7, 9));
    assert_eq!(d.payload, vec![9u8; 256]);
    assert_eq!(d.family_id(), Some(0x1234));
    assert_eq!(d.file_size(), None);
    assert!(d.extensions.is_empty());
    let d = UF2BlockData::decode(&block(0, 0, &[], &[])).ok().unwrap();
    assert_eq!(d.file_size(), Some(0x1234));
    assert_eq!(d.family_id(), None);
}

#[test]
fn flags_bits() {
    let f = UF2Flags(0x0001 | 0x1000 | 0x4000);
    assert!(!f.is_main_flash());
    assert!(f.file_container());
    assert!(!f.family_id_present());
    assert!(f.md5_checksum_present());
    assert!(!f.extension_tags_present());
    let f = UF2Flags(0x2000 | 0x8000);
    assert!(f.is_main_flash());
    assert!(f.family_id_present());
    assert!(f.extension_tags_present());
}

#[test]
fn extension_decode() {
    let mut ext = 0x650D9D07u32.to_le_bytes().to_vec();
    ext.extend_from_slice(b"X1\0\0");
    ext.extend_from_slice(&(12u32 | (VERSION_EXTENSION_TAG << 8)).to_le_bytes());
    ext.extend_from_slice(b"v2.1.0\xff\0");
    let b = block(UF2Flags::EXTENSION_TAGS_PRESENT, 0, &[1; 10], &ext);
    let d = UF2BlockData::decode(&b).ok().unwrap();
    assert_eq!(d.extensions.len(), 2);
    assert_eq!(d.extensions[0].tag, DEVICE_EXTENSION_TAG);
    assert_eq!(d.extensions[0].payload, b"X1\0".to_vec());
    assert_eq!(d.extensions[1].tag, VERSION_EXTENSION_TAG);
    assert_eq!(d.extensions[1].payload, b"v2.1.0\xff\0".to_vec()[..8].to_vec());
    assert_eq!(d.get_device_description(), Some("X1\0".to_string()));
    assert_eq!(d.get_version_description(), None);
}

#[test]
fn extensions_ignored_without_flag() {
    let ext = 0x650D9D07u32.to_le_bytes().to_vec();
    let d = UF2BlockData::decode(&block(0, 0, &[], &ext)).ok().unwrap();
    assert!(d.extensions.is_empty());
    assert_eq!(d.get_device_description(), None);
}

#[test]
fn reboot_block_and_address() {
    let b = block(UF2Flags::NOT_MAIN_FLASH | UF2Flags::EXTENSION_TAGS_PRESENT, 0x08000000, &[], &reboot_ext(0x0800_8000));
    let d = UF2BlockData::decode(&b).ok().unwrap();
    assert!(d.is_reboot_block());
    assert_eq!(d.get_reboot_address(), Some(0x0800_8000));
    let b = block(UF2Flags::EXTENSION_TAGS_PRESENT, 0x08000000, &[], &reboot_ext(0x0800_8000));
    let d = UF2BlockData::decode(&b).ok().unwrap();
    assert!(!d.is_reboot_block());
    let mut ext = (5u32 | (REBOOT_EXTENSION_TAG << 8)).to_le_bytes().to_vec();
    ext.push(1);
    let b = block(UF2Flags::NOT_MAIN_FLASH | UF2Flags::EXTENSION_TAGS_PRESENT, 0, &[], &ext);
    let d = UF2BlockData::decode(&b).ok().unwrap();
    assert!(d.is_reboot_block());
    assert_eq!(d.get_reboot_address(), None);
}

#[test]
fn consecutive_blocks_one_range() {
    let mut data = block(0, 0x08000000, &[1; 256], &[]);
    data.extend(block(0, 0x08000100, &[2; 256], &[]));
    let mut it = UF2RangeIterator::new(&data).ok().unwrap();
    let ranges = collect(&mut it);
    assert_eq!(ranges.len(), 1);
    assert_eq!(ranges[0].start_address, 0x08000000);
    assert_eq!(ranges[0].payload.len(), 512);
    assert_eq!(ranges[0].reboot_address, None);
    assert!(it.next().is_none());
}

#[test]
fn gap_gives_two_ranges() {
    let mut data = block(0, 0x08000000, &[1; 256], &[]);
    data.extend(block(0, 0x08000200, &[2; 256], &[]));
    let mut it = UF2RangeIterator::new(&data).ok().unwrap();
    let ranges = collect(&mut it);
    assert_eq!(ranges.len(), 2);
    assert_eq!(ranges[0].start_address, 0x08000000);
    assert_eq!(ranges[1].start_address, 0x08000200);
    assert_eq!(ranges[1].payload, vec![2u8; 256]);
}

#[test]
fn payloads_are_kept_in_order() {
    let specs: [(u32, u8, usize); 5] = [
        (0x1000, 1, 100),
        (0x1064, 2, 50),
        (0x2000, 3, 7),
        (0x3000, 4, 256),
        (0x3100, 5, 0),
    ];
    let mut data = Vec::new();
    let mut expected = Vec::new();
    for (addr, v, n) in specs {
        data.extend(block(0, addr, &vec![v; n], &[]));
        expected.extend(vec![v; n]);
    }
    let mut it = UF2RangeIterator::new(&data).ok().unwrap();
    let ranges = collect(&mut it);
    assert_eq!(ranges.len(), 3);
    let joined: Vec<u8> = ranges.iter().flat_map(|r| r.payload.clone()).collect();
    assert_eq!(joined, expected);
}

#[test]
fn reboot_block_marks_its_range() {
    let mut data = block(0, 0x08000000, &[1; 16], &[]);
    data.extend(block(
        UF2Flags::NOT_MAIN_FLASH | UF2Flags::EXTENSION_TAGS_PRESENT,
        0x20000000,
        &[7; 4],
        &reboot_ext(0x08000000),
    ));
    data.extend(block(0, 0x08000010, &[2; 16], &[]));
    let mut it = UF2RangeIterator::new(&data).ok().unwrap();
    let ranges = collect(&mut it);
    assert_eq!(ranges.len(), 3);
    assert_eq!(ranges[0].reboot_address, None);
    assert_eq!(ranges[1].start_address, 0x20000000);
    assert_eq!(ranges[1].reboot_address, Some(0x08000000));
    let mut addr = 0u32;
    assert!(ranges[1].reboot_address(&mut addr));
    assert_eq!(addr, 0x08000000);
    assert!(!ranges[2].reboot_address(&mut addr));
    assert_eq!(ranges[2].start_address(), 0x08000010);
    assert_eq!(ranges[2].payload(), &[2u8; 16][..]);
}

#[test]
fn empty_payloads_give_no_range() {
    let data = block(0, 0x08000000, &[], &[]);
    let mut it = UF2RangeIterator::new(&data).ok().unwrap();
    assert!(it.next().is_none());
}

#[test]
fn iterator_rejects_bad_streams() {
    assert!(UF2RangeIterator::new(&[]).is_err());
    let mut data = block(0, 0, &[1], &[]);
    data.push(0);
    assert!(UF2RangeIterator::new(&data).is_err());
    let mut data = block(0, 0, &[1], &[]);
    let mut bad = block(0, 1, &[], &[]);
    bad[4] = 0;
    data.extend(bad);
    let err = UF2RangeIterator::new(&data).err().unwrap();
    assert_eq!(err.err, "magic values check failed");
    let mut first = block(0, 0, &[], &[]);
    put_u32(&mut first, 16, 500);
    let err = UF2RangeIterator::new(&first).err().unwrap();
    assert_eq!(err.err, "payload size too big");
}

#[test]
fn iteration_stops_at_oversize_block() {
    let mut data = block(0, 0x1000, &[1; 16], &[]);
    data.extend(block(0, 0x2000, &[2; 16], &[]));
    let mut bad = block(0, 0x2010, &[], &[]);
    put_u32(&mut bad, 16, 500);
    data.extend(bad);
    data.extend(block(0, 0x3000, &[3; 16], &[]));
    let mut it = UF2RangeIterator::new(&data).ok().unwrap();
    let ranges = collect(&mut it);
    assert_eq!(ranges.len(), 1);
    assert_eq!(ranges[0].start_address, 0x1000);
    assert_eq!(ranges[0].payload, vec![1u8; 16]);
    assert!(it.next().is_none());
}

#[test]
fn empty_address_range() {
    let r = UF2AddressRange::new_empty();
    assert_eq!(r.start_address(), 0);
    assert!(r.payload().is_empty());
    let mut a = 5u32;
    assert!(!r.reboot_address(&mut a));
    assert_eq!(a, 5);
}
