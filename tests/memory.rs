use dfu::memory::{parse_memory_layout, DfuMemSegment, DfuMemory, MemorySegment};
use nonempty::NonEmpty;

const FLASH_LAYOUT: &str = "@Internal Flash  /0x08000000/04*016Kg,01*064Kg,07*128Kg";

fn segment(start_addr: u32, end_addr: u32, page_size: u32, mem_type: u8) -> DfuMemSegment {
    DfuMemSegment { start_addr, end_addr, page_size, mem_type }
}

#[test]
fn test_memory_layout() {
    let layout = parse_memory_layout("@Option Bytes   /0x5200201C/01*128 e");
    assert_eq!(
        layout,
        Some(DfuMemory {
            name: "Option Bytes".into(),
            segments: NonEmpty::new(segment(0x5200201C, 0x5200201C + 128, 128, b'e' & 7)),
        })
    );

    let layout = parse_memory_layout("@Internal Flash   /0x08000000/8*08Kg");
    assert_eq!(
        layout,
        Some(DfuMemory {
            name: "Internal Flash".into(),
            segments: NonEmpty::new(segment(
                0x08000000,
                0x08000000 + 64 * 1024,
                8 * 1024,
                b'g' & 7
            )),
        })
    );
}

#[test]
fn option_bytes_permissions() {
    let layout = parse_memory_layout("@Option Bytes   /0x5200201C/01*128 e").unwrap();
    let seg = &layout.segments.head;
    assert_eq!(seg.end_addr(), 0x5200209C);
    assert_eq!(seg.mem_type(), 5);
    assert!(seg.readable());
    assert!(seg.writable());
    assert!(!seg.erasable());
    assert_eq!(seg.pages(), 1);
}

#[test]
fn internal_flash_all_permissions() {
    let layout = parse_memory_layout("@Internal Flash   /0x08000000/8*08Kg").unwrap();
    let seg = &layout.segments.head;
    assert_eq!(seg.mem_type(), 7);
    assert!(seg.readable() && seg.writable() && seg.erasable());
    assert_eq!(seg.pages(), 8);
    assert_eq!(seg.pages() * seg.page_size(), seg.end_addr() - seg.start_addr());
}

#[test]
fn permission_bits_of_each_letter() {
    for (c, r, e, w) in [
        ('a', true, false, false),
        ('b', false, true, false),
        ('c', true, true, false),
        ('d', false, false, true),
        ('e', true, false, true),
        ('f', false, true, true),
        ('g', true, true, true),
    ] {
        let text = format!("@M/0x0/1*1K{c}");
        let layout = parse_memory_layout(&text).unwrap();
        let seg = &layout.segments.head;
        assert_eq!(seg.mem_type(), (c as u8 - 0x60) & 7);
        assert_eq!((seg.readable(), seg.erasable(), seg.writable()), (r, e, w));
    }
}

#[test]
fn three_segments_are_contiguous() {
    let layout = parse_memory_layout(FLASH_LAYOUT).unwrap();
    assert_eq!(layout.name, "Internal Flash");
    let segs: Vec<&DfuMemSegment> = layout.segments.iter().collect();
    assert_eq!(segs.len(), 3);
    assert_eq!(*segs[0], segment(0x08000000, 0x08010000, 16 * 1024, 7));
    assert_eq!(*segs[1], segment(0x08010000, 0x08020000, 64 * 1024, 7));
    assert_eq!(*segs[2], segment(0x08020000, 0x08100000, 128 * 1024, 7));
    for i in 1..segs.len() {
        assert_eq!(segs[i - 1].end_addr(), segs[i].start_addr());
    }
    for s in segs {
        assert_eq!((s.end_addr() - s.start_addr()) % s.page_size(), 0);
        assert_eq!(s.pages() * s.page_size(), s.end_addr() - s.start_addr());
    }
}

#[test]
fn find_segments_counts() {
    let layout = parse_memory_layout(FLASH_LAYOUT).unwrap();
    let all = layout.find_segments(0x08000000, 0x08020000);
    assert_eq!(all.len(), 3);
    let one = layout.find_segments(0x08001000, 0x0800E9A0);
    assert_eq!(one, vec![segment(0x08000000, 0x08010000, 16 * 1024, 7)]);
}

#[test]
fn find_segments_overlapping_and_ordered() {
    let layout = parse_memory_layout(FLASH_LAYOUT).unwrap();
    let (a, b) = (0x0800F000, 0x08030000);
    let found = layout.find_segments(a, b);
    assert_eq!(found.len(), 3);
    for s in &found {
        assert!(s.contains(a) || s.contains(b) || s.is_contained_in(a, b));
    }
    for w in found.windows(2) {
        assert!(w[0].end_addr() <= w[1].start_addr());
    }
    assert!(layout.find_segments(0x09000000, 0x09001000).is_empty());
}

#[test]
fn segments_are_half_open() {
    let layout = parse_memory_layout("@M/0x0/1*8Ba,1*8Bb").unwrap();
    assert_eq!(layout.find_segments(8, 10), vec![segment(8, 16, 8, 2)]);
    assert_eq!(layout.find_segments(0, 7), vec![segment(0, 8, 8, 1)]);
    assert_eq!(layout.find_segments(7, 8).len(), 2);
    assert!(layout.find_segments(16, 20).is_empty());
    assert_eq!(layout.get_erase_pages(8, 10), vec![8]);
}

#[test]
fn erase_pages_two_8k_pages() {
    let layout = parse_memory_layout("@Internal Flash   /0x08000000/8*08Kg").unwrap();
    assert_eq!(layout.get_erase_pages(0x08000000, 0x0800_3FFF), vec![0x08000000, 0x08002000]);
}

#[test]
fn erase_pages_across_segments() {
    let layout = parse_memory_layout(FLASH_LAYOUT).unwrap();
    let pages = layout.get_erase_pages(0x0800C000, 0x08020010);
    assert_eq!(pages, vec![0x0800C000, 0x08010000, 0x08020000]);
    for w in pages.windows(2) {
        assert!(w[0] < w[1]);
    }
}

#[test]
fn erase_pages_round_down_to_boundary() {
    let layout = parse_memory_layout("@Internal Flash   /0x08000000/8*08Kg").unwrap();
    let pages = layout.get_erase_pages(0x08001000, 0x08004000);
    assert_eq!(pages, vec![0x08000000, 0x08002000]);
    for p in pages {
        assert_eq!((p - 0x08000000) % 0x2000, 0);
    }
}

#[test]
fn segment_erase_pages_clip() {
    let seg = segment(0x08000000, 0x08010000, 0x2000, 7);
    assert_eq!(seg.get_erase_pages(0x07000000, 0x08003000), (0x08000000, 2));
    assert_eq!(seg.get_erase_pages(0x08001000, 0x09000000), (0x08001000, 8));
}

#[test]
fn parse_accepts_variants() {
    let layout = parse_memory_layout("Flash/0x08000000U/2*1Mb").unwrap();
    assert_eq!(layout.name, "Flash");
    assert_eq!(layout.segments.head, segment(0x08000000, 0x08200000, 1024 * 1024, 2));
    let layout = parse_memory_layout("@ Bytes \t/0x10/3*4Ba").unwrap();
    assert_eq!(layout.name, " Bytes");
    assert_eq!(layout.segments.head, segment(0x10, 0x1C, 4, 1));
}

#[test]
fn parse_rejects_malformed() {
    for text in [
        "",
        "@Internal Flash",
        "@Internal Flash  /0x08000000/",
        "@Internal Flash  /08000000/8*08Kg",
        "@Internal Flash  /0x/8*08Kg",
        "@Internal Flash  /0x08000000/8*08Kh",
        "@Internal Flash  /0x08000000/8*08Xg",
        "@Internal Flash  /0x08000000/8*08Kg,",
        "@Internal Flash  /0x08000000/8*08Kg;",
        "@Internal Flash  /0x08000000/*08Kg",
        "@Internal Flash  /0x08000000/8*0Kg",
        "@Internal Flash  /0x108000000/8*08Kg",
        "@Internal Flash  /0xFFFF0000/2*64Kg",
    ] {
        assert_eq!(parse_memory_layout(text), None, "{text:?}");
    }
}

#[test]
fn summary_of_segment() {
    let seg = segment(0x08000000, 0x08010000, 0x2000, 5);
    let m = MemorySegment::from_dfu_segment(&seg);
    assert_eq!((m.start_addr, m.end_addr, m.page_size), (0x08000000, 0x08010000, 0x2000));
    assert_eq!((m.readable, m.writable, m.erasable), (true, true, false));
}
