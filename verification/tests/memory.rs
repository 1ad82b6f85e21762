use std::collections::HashMap;

use punkos::memory::{
    table_index, virt_to_phys, BootInfoFrameAllocator, MemoryRegion, MemoryRegionKind,
};

fn region(start: u64, end: u64, kind: MemoryRegionKind) -> MemoryRegion {
    MemoryRegion { start, end, kind }
}

fn memory_map() -> Vec<MemoryRegion> {
    vec![
        region(0x0, 0x1000, MemoryRegionKind::Bootloader),
        region(0x1000, 0x5000, MemoryRegionKind::Usable),
        region(0x5000, 0x6000, MemoryRegionKind::UnknownBios(1)),
        region(0x10800, 0x12000, MemoryRegionKind::Usable),
        region(0x20000, 0x20000, MemoryRegionKind::Usable),
        region(0x30000, 0x40000, MemoryRegionKind::UnknownUefi(7)),
    ]
}

#[test]
fn usable_frames_in_map_order() {
    let a = BootInfoFrameAllocator::init(memory_map());
    assert_eq!(a.usable_frame(0), Some(0x1000));
    assert_eq!(a.usable_frame(3), Some(0x4000));
    // an unaligned region start yields the frames containing each step
    assert_eq!(a.usable_frame(4), Some(0x10000));
    assert_eq!(a.usable_frame(5), Some(0x11000));
    assert_eq!(a.usable_frame(6), None);
    assert_eq!(a.usable_frame(usize::MAX), None);
}

#[test]
fn allocation_walks_the_frames() {
    let mut a = BootInfoFrameAllocator::init(memory_map());
    let got: Vec<Option<u64>> = (0..7).map(|_| a.allocate_frame()).collect();
    assert_eq!(
        got,
        vec![Some(0x1000), Some(0x2000), Some(0x3000), Some(0x4000), Some(0x10000), Some(0x11000), None]
    );
}

#[test]
fn skip_below_starts_at_the_first_frame_at_or_above() {
    let mut a = BootInfoFrameAllocator::init(memory_map());
    a.skip_below(0x3000);
    assert_eq!(a.allocate_frame(), Some(0x3000));
    let mut b = BootInfoFrameAllocator::init(memory_map());
    b.skip_below(0x10500);
    assert_eq!(b.allocate_frame(), Some(0x11000));
    let mut c = BootInfoFrameAllocator::init(memory_map());
    c.skip_below(0x10_0000);
    assert_eq!(c.allocate_frame(), None);
    let mut d = BootInfoFrameAllocator::init(memory_map());
    d.skip_below(0);
    assert_eq!(d.allocate_frame(), Some(0x1000));
}

#[test]
fn empty_map_has_no_frames() {
    let mut a = BootInfoFrameAllocator::init(Vec::new());
    a.skip_below(0x20_0000);
    assert_eq!(a.allocate_frame(), None);
}

const VIRT: u64 = 0x0000_7F12_3456_7ABC;

/// Page tables at 0x1000 (PML4), 0x2000 (PDPT), 0x3000 (PD), 0x4000 (PT).
fn tables() -> HashMap<u64, u64> {
    let mut m = HashMap::new();
    m.insert(0x1000 + 0xFE * 8, 0x2000 | 0x3);
    m.insert(0x2000 + 0x48 * 8, 0x3000 | 0x3);
    m.insert(0x3000 + 0x1A2 * 8, 0x4000 | 0x3);
    m.insert(0x4000 + 0x167 * 8, 0x8000_0000_ABCD_E003);
    m
}

fn walk(m: &HashMap<u64, u64>, virt: u64) -> Option<u64> {
    let read = |a: u64| *m.get(&a).unwrap_or(&0);
    virt_to_phys(virt, 0x1000, &read)
}

#[test]
fn table_indices() {
    assert_eq!(table_index(VIRT, 4), 0xFE);
    assert_eq!(table_index(VIRT, 3), 0x48);
    assert_eq!(table_index(VIRT, 2), 0x1A2);
    assert_eq!(table_index(VIRT, 1), 0x167);
}

#[test]
fn four_kib_mapping() {
    let m = tables();
    assert_eq!(walk(&m, VIRT), Some(0xABCD_EABC));
    assert_eq!(walk(&m, VIRT & !0xFFF), Some(0xABCD_E000));
}

#[test]
fn two_mib_and_one_gib_pages() {
    let mut m = tables();
    m.insert(0x3000 + 0x1A2 * 8, 0x4020_0000 | 0x83);
    assert_eq!(walk(&m, VIRT), Some(0x4036_7ABC));
    m.insert(0x2000 + 0x48 * 8, 0x8000_0000 | 0x83);
    assert_eq!(walk(&m, VIRT), Some(0xB456_7ABC));
}

#[test]
fn missing_or_invalid_entries_fault() {
    let m = tables();
    assert_eq!(walk(&m, 0x0000_0000_0040_0000), None);
    let mut n = tables();
    n.insert(0x4000 + 0x167 * 8, 0xABCD_E002);
    assert_eq!(walk(&n, VIRT), None);
    let mut h = tables();
    h.insert(0x1000 + 0xFE * 8, 0x2000 | 0x83);
    assert_eq!(walk(&h, VIRT), None);
}

#[test]
fn translation_keeps_the_page_offset() {
    let m = tables();
    for off in [0u64, 1, 0x7FF, 0xFFF] {
        let v = (VIRT & !0xFFF) | off;
        assert_eq!(walk(&m, v).unwrap() % 4096, off);
    }
}

#[test]
fn allocations_after_skip_are_in_map_order_without_repeats() {
    let mut a = BootInfoFrameAllocator::init(memory_map());
    a.skip_below(0x2800);
    let got: Vec<Option<u64>> = (0..6).map(|_| a.allocate_frame()).collect();
    assert_eq!(got, vec![Some(0x3000), Some(0x4000), Some(0x10000), Some(0x11000), None, None]);
}
