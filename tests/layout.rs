use flash_layout::{FlashLayout, InvalidLayout, Range, Region};

const SINGLE: [Region; 1] = [Region { addr: 100, eb_bytes: 4, eb_count: 4 }];

const GAPPED: [Region; 2] = [
    Region { addr: 0, eb_bytes: 256, eb_count: 4 },
    Region { addr: 2048, eb_bytes: 1024, eb_count: 2 },
];

#[test]
fn region_derived_values() {
    let r = Region { addr: 2048, eb_bytes: 1024, eb_count: 2 };
    assert_eq!(r.addr_start(), 2048);
    assert_eq!(r.len(), 2048);
    assert_eq!(r.addr_end(), 4096);
    assert!(r.contains_addr(2048));
    assert!(r.contains_addr(4095));
    assert!(!r.contains_addr(4096));
    assert!(!r.contains_addr(2047));
}

#[test]
fn region_len_uses_full_width() {
    let r = Region { addr: 0, eb_bytes: u32::MAX, eb_count: 2 };
    assert_eq!(r.len(), 2 * u32::MAX as u64);
}

#[test]
fn construction_accepts_ordered_tables() {
    let regions = [
        Region { addr: 0, eb_bytes: 16, eb_count: 4 },
        Region { addr: 64, eb_bytes: 64, eb_count: 1 },
        Region { addr: 1000, eb_bytes: 8, eb_count: 3 },
    ];
    let layout = FlashLayout::new(&regions).unwrap();
    assert_eq!(layout.addr_start(), 0);
    assert_eq!(layout.addr_end(), 1024);
    assert_eq!(layout.regions.len(), 3);
}

#[test]
fn construction_rejects_empty_table() {
    let regions: [Region; 0] = [];
    assert_eq!(FlashLayout::new(&regions).unwrap_err(), InvalidLayout);
}

#[test]
fn construction_rejects_overlap() {
    let regions = [
        Region { addr: 0, eb_bytes: 16, eb_count: 4 },
        Region { addr: 63, eb_bytes: 16, eb_count: 4 },
    ];
    assert_eq!(FlashLayout::new(&regions).unwrap_err(), InvalidLayout);
}

#[test]
fn construction_rejects_misordered_table() {
    let regions = [
        Region { addr: 2048, eb_bytes: 1024, eb_count: 2 },
        Region { addr: 0, eb_bytes: 256, eb_count: 4 },
    ];
    assert!(FlashLayout::new(&regions).is_err());
}

#[test]
fn construction_rejects_late_overlap() {
    let regions = [
        Region { addr: 0, eb_bytes: 16, eb_count: 4 },
        Region { addr: 64, eb_bytes: 16, eb_count: 4 },
        Region { addr: 100, eb_bytes: 16, eb_count: 4 },
    ];
    assert!(FlashLayout::new(&regions).is_err());
}

#[test]
fn single_region_example() {
    let layout = FlashLayout::new(&SINGLE).unwrap();
    assert_eq!(layout.addr_start(), 100);
    assert_eq!(layout.addr_end(), 116);
    assert_eq!(layout.len(), 16);
    let (eb, rem) = layout.find_eb_by_addr(105).unwrap();
    assert_eq!(eb.eb_offs_in_region(), 1);
    assert_eq!(eb.addr_start(), 104);
    assert_eq!(eb.addr_end(), 108);
    assert_eq!(eb.len(), 4);
    assert_eq!(rem, 1);
    assert_eq!(*eb.region(), SINGLE[0]);
}

#[test]
fn gapped_example() {
    let layout = FlashLayout::new(&GAPPED).unwrap();
    assert!(layout.find_eb_by_addr(1500).is_none());
    let eb = layout.find_eb_by_eb_num(4).unwrap();
    assert_eq!(eb.addr_start(), 2048);
    assert_eq!(eb.eb_offs_in_region(), 0);
    assert_eq!(*eb.region(), GAPPED[1]);
    assert_eq!(layout.len(), 4 * 256 + 2 * 1024);
    assert_eq!(layout.len(), 3072);
    assert_eq!(layout.addr_end() - layout.addr_start(), 4096);
}

#[test]
fn len_without_gaps_equals_span() {
    let regions = [
        Region { addr: 0, eb_bytes: 256, eb_count: 4 },
        Region { addr: 1024, eb_bytes: 1024, eb_count: 2 },
    ];
    let layout = FlashLayout::new(&regions).unwrap();
    assert_eq!(layout.len(), 3072);
    assert_eq!(layout.addr_end() - layout.addr_start(), 3072);
}

#[test]
fn find_by_addr_in_each_region() {
    let layout = FlashLayout::new(&GAPPED).unwrap();
    for a in [0u64, 1, 255, 256, 700, 1023, 2048, 2049, 3071, 3072, 4095] {
        let (eb, rem) = layout.find_eb_by_addr(a).unwrap();
        assert!(eb.addr_start() <= a && a < eb.addr_end());
        assert_eq!(rem as u64, a - eb.addr_start());
    }
    let (eb, rem) = layout.find_eb_by_addr(3100).unwrap();
    assert_eq!(*eb.region(), GAPPED[1]);
    assert_eq!(eb.eb_offs_in_region(), 1);
    assert_eq!(rem, 28);
}

#[test]
fn find_by_addr_outside_coverage() {
    let layout = FlashLayout::new(&SINGLE).unwrap();
    assert!(layout.find_eb_by_addr(0).is_none());
    assert!(layout.find_eb_by_addr(99).is_none());
    assert!(layout.find_eb_by_addr(116).is_none());
    assert!(layout.find_eb_by_addr(u64::MAX).is_none());
    let gapped = FlashLayout::new(&GAPPED).unwrap();
    assert!(gapped.find_eb_by_addr(1024).is_none());
    assert!(gapped.find_eb_by_addr(2047).is_none());
    assert!(gapped.find_eb_by_addr(4096).is_none());
}

#[test]
fn find_by_eb_num_numbers_across_regions() {
    let layout = FlashLayout::new(&GAPPED).unwrap();
    let starts = [0u64, 256, 512, 768, 2048, 3072];
    for (n, start) in starts.iter().enumerate() {
        let eb = layout.find_eb_by_eb_num(n as u32).unwrap();
        assert_eq!(eb.addr_start(), *start);
    }
    assert_eq!(layout.find_eb_by_eb_num(3).unwrap().eb_offs_in_region(), 3);
    assert_eq!(layout.find_eb_by_eb_num(5).unwrap().eb_offs_in_region(), 1);
    assert!(layout.find_eb_by_eb_num(6).is_none());
    assert!(layout.find_eb_by_eb_num(u32::MAX).is_none());
}

#[test]
fn find_by_eb_num_with_large_counts() {
    let regions = [
        Region { addr: 0, eb_bytes: 1, eb_count: u32::MAX },
        Region { addr: 1 << 33, eb_bytes: 1, eb_count: u32::MAX },
    ];
    let layout = FlashLayout::new(&regions).unwrap();
    let eb = layout.find_eb_by_eb_num(u32::MAX).unwrap();
    assert_eq!(eb.addr_start(), 1 << 33);
    assert_eq!(layout.len(), 2 * u32::MAX as u64);
}

#[test]
fn block_start_round_trip() {
    let layout = FlashLayout::new(&GAPPED).unwrap();
    for n in 0..6u32 {
        let eb = layout.find_eb_by_eb_num(n).unwrap();
        let (found, rem) = layout.find_eb_by_addr(eb.addr_start()).unwrap();
        assert_eq!(rem, 0);
        assert_eq!(found.eb_offs_in_region(), eb.eb_offs_in_region());
        assert_eq!(*found.region(), *eb.region());
    }
}

#[test]
fn range_over_single_region() {
    let layout = FlashLayout::new(&SINGLE).unwrap();
    let first = layout.find_eb_by_addr(100).unwrap().0;
    let mut range = Range::new(first, 116);
    assert_eq!(range.addr_start(), 100);
    assert_eq!(range.addr_end(), 116);
    let mut offsets = Vec::new();
    while let Some(eb) = range.next() {
        offsets.push(eb.eb_offs_in_region());
    }
    assert_eq!(offsets, vec![1, 2, 3]);
    assert!(range.next().is_none());
    assert_eq!(range.addr_start(), 112);
}

#[test]
fn range_stops_before_end_address() {
    let layout = FlashLayout::new(&SINGLE).unwrap();
    let first = layout.find_eb_by_addr(100).unwrap().0;
    let mut range = Range::new(first, 109);
    assert_eq!(range.next().unwrap().addr_start(), 104);
    assert_eq!(range.next().unwrap().addr_start(), 108);
    assert!(range.next().is_none());
}

#[test]
fn range_crosses_into_next_region() {
    let layout = FlashLayout::new(&GAPPED).unwrap();
    let first = layout.find_eb_by_eb_num(2).unwrap();
    let mut range = Range::new(first, u64::MAX);
    let mut starts = Vec::new();
    while let Some(eb) = range.next() {
        starts.push(eb.addr_start());
    }
    assert_eq!(starts, vec![768, 2048, 3072]);
}

#[test]
fn range_crossing_resets_offset() {
    let layout = FlashLayout::new(&GAPPED).unwrap();
    let first = layout.find_eb_by_eb_num(3).unwrap();
    let mut range = Range::new(first, 4096);
    let eb = range.next().unwrap();
    assert_eq!(eb.eb_offs_in_region(), 0);
    assert_eq!(*eb.region(), GAPPED[1]);
    assert_eq!(eb.len(), 1024);
    assert_eq!(range.next().unwrap().eb_offs_in_region(), 1);
    assert!(range.next().is_none());
}

#[test]
fn range_end_in_gap_stops_at_region_boundary() {
    let layout = FlashLayout::new(&GAPPED).unwrap();
    let first = layout.find_eb_by_eb_num(0).unwrap();
    let mut range = Range::new(first, 1500);
    let mut count = 0;
    while range.next().is_some() {
        count += 1;
    }
    assert_eq!(count, 3);
}
