use dfu::connection::DfuError;
use dfu::device::{
    default_start_address, download_chunks, id_matches, is_dfu_interface, plan_download,
    plan_upload, select_interface_segments, DfuDeviceFilter, DfuInterface,
};

const FLASH: &str = "@Internal Flash  /0x08000000/04*016Kg,01*064Kg,07*128Kg";
const OPTION: &str = "@Option Bytes   /0x1FFF7800/01*040 e";

fn interfaces() -> Vec<DfuInterface> {
    vec![
        DfuInterface::new(1, 0, 0, FLASH).unwrap(),
        DfuInterface::new(1, 0, 1, OPTION).unwrap(),
    ]
}

#[test]
fn interface_from_string() {
    let intf = DfuInterface::new(1, 2, 3, FLASH).unwrap();
    assert_eq!((intf.config(), intf.interface(), intf.alt_setting()), (1, 2, 3));
    assert_eq!(intf.layout().name, "Internal Flash");
    assert_eq!(intf.find_segments(0x08000000, 0x08000010).len(), 1);
    assert_eq!(intf.get_erase_pages(0x08000000, 0x08000010), vec![0x08000000]);
    assert!(DfuInterface::new(1, 2, 3, "not a layout").is_none());
}

#[test]
fn dfu_class_filter() {
    assert!(is_dfu_interface(0xFE, 0x01));
    assert!(!is_dfu_interface(0xFE, 0x02));
    assert!(!is_dfu_interface(0x08, 0x01));
}

#[test]
fn selects_first_serving_interface() {
    let ifs = interfaces();
    let found = select_interface_segments(&ifs, 0x08000000, 0x0801FFFF).ok().unwrap();
    assert_eq!((found.interface(), found.alt_setting()), (0, 0));
    assert_eq!(found.segments().len(), 2);
    assert_eq!(found.segments().head.start_addr(), 0x08000000);
    let found = select_interface_segments(&ifs, 0x1FFF7800, 0x1FFF7827).ok().unwrap();
    assert_eq!(found.alt_setting(), 1);
    assert_eq!(found.segments().len(), 1);
}

#[test]
fn out_of_range_has_no_segments() {
    let ifs = interfaces();
    assert!(matches!(
        select_interface_segments(&ifs, 0x07000000, 0x07000010),
        Err(DfuError::NoMemorySegments)
    ));
    assert!(matches!(
        select_interface_segments(&ifs, 0x080F0000, 0x08200000),
        Err(DfuError::NoMemorySegments)
    ));
}

#[test]
fn range_past_the_memory_end_is_refused() {
    let ifs = interfaces();
    assert!(matches!(
        select_interface_segments(&ifs, 0x08100000, 0x08100000),
        Err(DfuError::NoMemorySegments)
    ));
    assert!(matches!(
        select_interface_segments(&ifs, 0x080FFFF0, 0x08100000),
        Err(DfuError::NoMemorySegments)
    ));
    assert!(matches!(plan_download(&ifs, Some(0x08100000), 1), Err(DfuError::NoMemorySegments)));
    assert!(matches!(plan_upload(&ifs, Some(0x08100000), Some(1)), Err(DfuError::NoMemorySegments)));
    let found = select_interface_segments(&ifs, 0x080FFFF0, 0x080FFFFF).ok().unwrap();
    assert_eq!(found.segments().len(), 1);
}

#[test]
fn default_start() {
    assert_eq!(default_start_address(&interfaces()), 0x08000000);
}

#[test]
fn upload_plans() {
    let ifs = interfaces();
    let p = plan_upload(&ifs, None, Some(0x100)).ok().unwrap();
    assert_eq!((p.start_address, p.end_address, p.length), (0x08000000, 0x080000FF, 0x100));
    let p = plan_upload(&ifs, Some(0x08010000), None).ok().unwrap();
    assert_eq!((p.end_address, p.length), (0x080FFFFF, 0xF0000));
    let p = plan_upload(&ifs, None, None).ok().unwrap();
    assert_eq!((p.start_address, p.end_address, p.length), (0x08000000, 0x080FFFFF, 0x100000));
    let p = plan_upload(&ifs, Some(0x1FFF7800), None).ok().unwrap();
    assert_eq!((p.alt_setting, p.length), (1, 40));
    assert!(matches!(plan_upload(&ifs, None, Some(0)), Err(DfuError::NoMemorySegments)));
    assert!(matches!(
        plan_upload(&ifs, Some(0xFFFFFFF0), Some(0x20)),
        Err(DfuError::NoMemorySegments)
    ));
    assert!(matches!(plan_upload(&ifs, Some(0x08100000), None), Err(DfuError::NoMemorySegments)));
}

#[test]
fn download_plans() {
    let ifs = interfaces();
    let p = plan_download(&ifs, Some(0x08000000), 0x8000).ok().unwrap();
    assert_eq!((p.interface, p.alt_setting), (0, 0));
    assert_eq!(p.erase_pages, vec![0x08000000, 0x08004000]);
    let p = plan_download(&ifs, None, 0x14000).ok().unwrap();
    assert_eq!(p.erase_pages, vec![0x08000000, 0x08004000, 0x08008000, 0x0800C000, 0x08010000]);
    assert!(matches!(plan_download(&ifs, None, 0), Err(DfuError::NoMemorySegments)));
    assert!(matches!(plan_download(&ifs, Some(0x30000000), 4), Err(DfuError::NoMemorySegments)));
}

#[test]
fn chunks_of_a_download() {
    assert_eq!(
        download_chunks(0x08000000, 5000, 2048),
        vec![(0x08000000, 0, 2048), (0x08000800, 2048, 4096), (0x08001000, 4096, 5000)]
    );
    assert_eq!(download_chunks(0x100, 4096, 2048).len(), 2);
    assert!(download_chunks(0x100, 0, 2048).is_empty());
}

#[test]
fn device_filter() {
    let mut f = DfuDeviceFilter::empty_filter();
    assert!(f.matches(0x0483, 0xDF11));
    f.with_vendor_id(0x0483);
    assert!(f.matches(0x0483, 0xDF11));
    assert!(!f.matches(0x1234, 0xDF11));
    f.with_product_id(0xDF11);
    assert_eq!((f.vendor_id(), f.product_id()), (Some(0x0483), Some(0xDF11)));
    assert!(!f.matches(0x0483, 0x0001));
    assert!(id_matches(None, 7));
    assert!(!id_matches(Some(6), 7));
}
