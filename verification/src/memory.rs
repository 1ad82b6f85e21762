//! Physical frame allocation from the boot memory map, and translation of
//! virtual addresses by walking the 4-level page tables.
//!
//! The bootloader maps all physical memory at a fixed virtual offset; the
//! caller reads page-table entries through that mapping and hands the reader
//! to `virt_to_phys`. Contracts speak of physical memory as
//! `mem: spec_fn(u64) -> u64`, the 64-bit word at each physical address.
use vstd::prelude::*;
use x86_64::structures::paging::{PhysFrame, Size4KiB};
use x86_64::PhysAddr;

verus! {

/// Size of a small page frame.
pub const FRAME_SIZE: u64 = 4096;

/// Physical addresses are below 2^52.
pub const PHYS_ADDR_LIMIT: u64 = 0x10_0000_0000_0000;

/// `PhysFrame::<Size4KiB>::containing_address(PhysAddr::new(addr))`: the start
/// of the 4 KiB frame that holds `addr` (`PhysAddr::new` panics at or above
/// 2^52, so callers stay below).
#[verifier::external_body]
fn containing_frame(addr: u64) -> (start: u64)
    requires
        addr < PHYS_ADDR_LIMIT,
    ensures
        start == addr - addr % 4096,
{
    PhysFrame::<Size4KiB>::containing_address(PhysAddr::new(addr)).start_address().as_u64()
}

/// The memory type of a memory region.
#[derive(Clone, Copy, Debug, PartialEq, Eq, Structural)]
pub enum MemoryRegionKind {
    /// Unused conventional memory, can be used by the kernel.
    Usable,
    /// Memory mappings created by the bootloader.
    Bootloader,
    /// An unknown memory region reported by the UEFI firmware.
    UnknownUefi(u32),
    /// An unknown memory region reported by the BIOS firmware.
    UnknownBios(u32),
}

/// A physical memory region `[start, end)` of the boot memory map.
#[derive(Clone, Copy, Debug, PartialEq, Eq, Structural)]
pub struct MemoryRegion {
    pub start: u64,
    pub end: u64,
    pub kind: MemoryRegionKind,
}

/// Number of 4 KiB steps from `start` that stay below `end`.
pub open spec fn step_count(r: MemoryRegion) -> nat {
    if r.end > r.start {
        ((r.end - r.start + 4095) / 4096) as nat
    } else {
        0
    }
}

/// The frames of a usable region: the frame containing each address
/// `start, start + 4096, ...` below `end`.
pub open spec fn region_frames(r: MemoryRegion) -> Seq<u64> {
    if r.kind == MemoryRegionKind::Usable {
        Seq::new(
            step_count(r),
            |k: int| ((r.start + 4096 * k) - (r.start + 4096 * k) % 4096) as u64,
        )
    } else {
        Seq::empty()
    }
}

/// The frames the allocator hands out, in order: those of every usable
/// region, region by region.
pub open spec fn usable_frames(regions: Seq<MemoryRegion>) -> Seq<u64>
    decreases regions.len(),
{
    if regions.len() == 0 {
        Seq::empty()
    } else {
        usable_frames(regions.drop_last()) + region_frames(regions.last())
    }
}

/// Every usable region lies below the physical address limit.
pub open spec fn regions_addressable(regions: Seq<MemoryRegion>) -> bool {
    forall|i: int|
        0 <= i < regions.len() && (#[trigger] regions[i]).kind == MemoryRegionKind::Usable
            ==> regions[i].end <= PHYS_ADDR_LIMIT
}

/// `k` is the number of leading frames below `min_addr`: every frame before
/// index `k` lies below it, and the frame at `k` (if any) does not.
pub open spec fn first_at_or_above(frames: Seq<u64>, min_addr: u64, k: nat) -> bool {
    &&& k <= frames.len()
    &&& forall|j: int| 0 <= j < k ==> #[trigger] frames[j] < min_addr
    &&& k < frames.len() ==> frames[k as int] >= min_addr
}

/// The frame handed out at index `i` of `frames`: `None` past the end.
pub open spec fn frame_at(frames: Seq<u64>, i: nat) -> Option<u64> {
    if i < frames.len() {
        Some(frames[i as int])
    } else {
        None
    }
}

/// Hands out usable 4 KiB frames straight from the boot memory map.
pub struct BootInfoFrameAllocator {
    memory_regions: Vec<MemoryRegion>,
    next: usize,
}

impl BootInfoFrameAllocator {
    /// The memory map the allocator draws from.
    pub closed spec fn regions(&self) -> Seq<MemoryRegion> {
        self.memory_regions@
    }

    /// Index of the next frame to hand out.
    pub closed spec fn next_index(&self) -> nat {
        self.next as nat
    }

    /// Index of the next frame to hand out.
    pub fn next_frame_index(&self) -> (n: usize)
        ensures
            n == self.next_index(),
    {
        self.next
    }

    /// Start from the first usable frame of `memory_regions`, whose usable
    /// frames must really be unused.
    pub fn init(memory_regions: Vec<MemoryRegion>) -> (a: Self)
        ensures
            a.regions() == memory_regions@,
            a.next_index() == 0,
    {
        Self { memory_regions, next: 0 }
    }

    /// The `n`-th usable frame, or `None` past the last.
    pub fn usable_frame(&self, n: usize) -> (f: Option<u64>)
        requires
            regions_addressable(self.regions()),
        ensures
            n < usable_frames(self.regions()).len() ==> f == Some(usable_frames(self.regions())[n as int]),
            n >= usable_frames(self.regions()).len() ==> f == None::<u64>,
    {
        let ghost regions = self.memory_regions@;
        let mut rest: usize = n;
        let mut i: usize = 0;
        while i < self.memory_regions.len()
            invariant
                regions == self.memory_regions@,
                regions_addressable(regions),
                i <= regions.len(),
                rest + usable_frames(regions.subrange(0, i as int)).len() == n,
            decreases regions.len() - i,
        {
            let r = self.memory_regions[i];
            proof {
                assert(regions.subrange(0, i as int + 1).drop_last() =~= regions.subrange(0, i as int));
            }
            if r.kind == MemoryRegionKind::Usable && r.end > r.start {
                let count = (r.end - r.start) / 4096 + if (r.end - r.start) % 4096 == 0 { 0 } else { 1 };
                assert(count == step_count(r)) by {
                    vstd::arithmetic::div_mod::lemma_fundamental_div_mod((r.end - r.start) as int, 4096);
                    vstd::arithmetic::div_mod::lemma_fundamental_div_mod((r.end - r.start + 4095) as int, 4096);
                }
                if (rest as u64) < count {
                    let addr = r.start + rest as u64 * 4096;
                    assert(addr < r.end) by {
                        vstd::arithmetic::div_mod::lemma_fundamental_div_mod((r.end - r.start + 4095) as int, 4096);
                    }
                    let f = containing_frame(addr);
                    proof {
                        let prefix = usable_frames(regions.subrange(0, i as int));
                        assert(usable_frames(regions.subrange(0, i as int + 1)) == prefix + region_frames(r));
                        lemma_prefix_of_frames(regions, i as int + 1);
                        assert(usable_frames(regions)[n as int] == usable_frames(regions.subrange(0, i as int + 1))[n as int]);
                    }
                    return Some(f);
                }
                rest = rest - count as usize;
            }
            i += 1;
        }
        assert(regions.subrange(0, i as int) =~= regions);
        None
    }

    /// Skip frames until we pass `min_addr`: the next frame handed out is
    /// the first usable frame at or above `min_addr` (avoids giving out frames
    /// in low conventional memory or the bootloader's footprint).
    pub fn skip_below(&mut self, min_addr: u64)
        requires
            regions_addressable(old(self).regions()),
            usable_frames(old(self).regions()).len() <= usize::MAX,
        ensures
            final(self).regions() == old(self).regions(),
            first_at_or_above(usable_frames(old(self).regions()), min_addr, final(self).next_index()),
    {
        let ghost regions = self.memory_regions@;
        let mut total: usize = 0;
        let mut i: usize = 0;
        while i < self.memory_regions.len()
            invariant
                regions == self.memory_regions@,
                regions == old(self).regions(),
                regions_addressable(regions),
                usable_frames(regions).len() <= usize::MAX,
                i <= regions.len(),
                total == usable_frames(regions.subrange(0, i as int)).len(),
                forall|j: int| 0 <= j < total ==> #[trigger] usable_frames(regions)[j] < min_addr,
            decreases regions.len() - i,
        {
            let r = self.memory_regions[i];
            proof {
                assert(regions.subrange(0, i as int + 1).drop_last() =~= regions.subrange(0, i as int));
                lemma_prefix_of_frames(regions, i as int + 1);
            }
            if r.kind == MemoryRegionKind::Usable && r.end > r.start {
                let count = (r.end - r.start) / 4096 + if (r.end - r.start) % 4096 == 0 { 0 } else { 1 };
                assert(count == step_count(r)) by {
                    vstd::arithmetic::div_mod::lemma_fundamental_div_mod((r.end - r.start) as int, 4096);
                    vstd::arithmetic::div_mod::lemma_fundamental_div_mod((r.end - r.start + 4095) as int, 4096);
                }
                let ghost prefix = usable_frames(regions.subrange(0, i as int));
                assert(usable_frames(regions.subrange(0, i as int + 1)) == prefix + region_frames(r));
                let mut k: u64 = 0;
                while k < count
                    invariant
                        regions == self.memory_regions@,
                        regions == old(self).regions(),
                        regions_addressable(regions),
                        usable_frames(regions).len() <= usize::MAX,
                        i < regions.len(),
                        r == regions[i as int],
                        r.kind == MemoryRegionKind::Usable,
                        r.end > r.start,
                        count == step_count(r),
                        prefix == usable_frames(regions.subrange(0, i as int)),
                        usable_frames(regions.subrange(0, i as int + 1)) == prefix + region_frames(r),
                        usable_frames(regions.subrange(0, i as int + 1)).len() <= usable_frames(regions).len(),
                        forall|j: int|
                            0 <= j < usable_frames(regions.subrange(0, i as int + 1)).len() ==> #[trigger] usable_frames(
                                regions.subrange(0, i as int + 1),
                            )[j] == usable_frames(regions)[j],
                        k <= count,
                        total == prefix.len() + k,
                        forall|j: int| 0 <= j < total ==> #[trigger] usable_frames(regions)[j] < min_addr,
                    decreases count - k,
                {
                    proof {
                        vstd::arithmetic::div_mod::lemma_fundamental_div_mod((r.end - r.start + 4095) as int, 4096);
                        assert(regions_addressable(regions) ==> regions[i as int].end <= PHYS_ADDR_LIMIT);
                    }
                    let addr = r.start + k * 4096;
                    let f = containing_frame(addr);
                    assert(f == usable_frames(regions)[total as int]) by {
                        assert(region_frames(r)[k as int] == f);
                        assert((prefix + region_frames(r))[total as int] == f);
                    }
                    if f >= min_addr {
                        self.next = total;
                        return;
                    }
                    total += 1;
                    k += 1;
                }
            }
            i += 1;
        }
        assert(regions.subrange(0, i as int) =~= regions);
        self.next = total;
    }

    /// Hand out the next usable frame (its start address), or `None` when all
    /// are used up.
    pub fn allocate_frame(&mut self) -> (f: Option<u64>)
        requires
            regions_addressable(old(self).regions()),
            old(self).next_index() < usize::MAX,
        ensures
            allocated(*old(self), *final(self), f),
    {
        let frame = self.usable_frame(self.next);
        self.next += 1;
        frame
    }
}

/// The frames of a prefix of the memory map are a prefix of its frames.
proof fn lemma_prefix_of_frames(regions: Seq<MemoryRegion>, i: int)
    requires
        0 <= i <= regions.len(),
    ensures
        usable_frames(regions.subrange(0, i)).len() <= usable_frames(regions).len(),
        forall|j: int|
            0 <= j < usable_frames(regions.subrange(0, i)).len() ==> #[trigger] usable_frames(
                regions.subrange(0, i),
            )[j] == usable_frames(regions)[j],
    decreases regions.len() - i,
{
    if i < regions.len() {
        lemma_prefix_of_frames(regions, i + 1);
        assert(regions.subrange(0, i + 1).drop_last() =~= regions.subrange(0, i));
        let a = usable_frames(regions.subrange(0, i));
        let b = usable_frames(regions.subrange(0, i + 1));
        assert(b == a + region_frames(regions.subrange(0, i + 1).last()));
        assert forall|j: int| 0 <= j < a.len() implies #[trigger] a[j] == usable_frames(regions)[j] by {
            assert(a[j] == b[j]);
        }
    } else {
        assert(regions.subrange(0, i) =~= regions);
    }
}

/// Physical memory as 64-bit words by physical address.
pub type PhysMemory = spec_fn(u64) -> u64;

/// The reader answers every physical address as `mem` does.
pub open spec fn reads_words<F: Fn(u64) -> u64>(read: F, mem: PhysMemory) -> bool {
    forall|a: u64, v: u64| #[trigger] call_ensures(read, (a,), v) ==> v == mem(a)
}

/// Present flag (bit 0) of a page-table entry.
pub open spec fn entry_present(e: u64) -> bool {
    e & 0x1 != 0
}

/// Huge-page flag (bit 7) of a page-table entry.
pub open spec fn entry_huge(e: u64) -> bool {
    e & 0x80 != 0
}

/// Physical address held in a page-table entry (bits 12..51).
pub open spec fn entry_addr(e: u64) -> u64 {
    e & 0x000f_ffff_ffff_f000
}

/// The entry fields the walk reads: bit 0 is the present flag, bit 7 the
/// huge-page flag, and the next table or page frame is the entry with its
/// twelve flag bits below and its bits from 52 up cleared.
pub proof fn lemma_entry_fields(e: u64)
    ensures
        entry_present(e) == (e % 2 == 1),
        entry_huge(e) == ((e / 0x80) % 2 == 1),
        entry_addr(e) == e % 0x10_0000_0000_0000 - e % 0x1000,
{
    assert((e & 0x1 != 0) == (e % 2 == 1) && (e & 0x80 != 0) == ((e / 0x80) % 2 == 1) && e & 0x000f_ffff_ffff_f000
        == e % 0x10_0000_0000_0000 - e % 0x1000) by (bit_vector);
}

/// Index into the level-`level` table (4 = PML4 ... 1 = PT) for `virt`: nine
/// bits starting at bit 12 + 9 * (level - 1).
pub open spec fn spec_table_index(virt: u64, level: u64) -> u64 {
    (virt >> (12 + 9 * (level - 1)) as u64) & 0x1FF
}

/// The entry for `virt` in the level-`level` table at physical address `table`.
pub open spec fn entry_at(mem: PhysMemory, table: u64, virt: u64, level: u64) -> u64 {
    mem((table + spec_table_index(virt, level) * 8) as u64)
}

/// The physical address the page tables rooted at `p4` map `virt` to: walk
/// PML4, PDPT, PD and PT; a missing entry faults; a huge-page bit in the PDPT
/// (1 GiB) or PD (2 MiB) ends the walk there; in the PML4 it is invalid.
pub open spec fn translate(mem: PhysMemory, p4: u64, virt: u64) -> Option<u64> {
    let e4 = entry_at(mem, p4, virt, 4);
    if !entry_present(e4) || entry_huge(e4) {
        None
    } else {
        let e3 = entry_at(mem, entry_addr(e4), virt, 3);
        if !entry_present(e3) {
            None
        } else if entry_huge(e3) {
            Some((entry_addr(e3) + (virt & 0x3FFF_FFFF)) as u64)
        } else {
            let e2 = entry_at(mem, entry_addr(e3), virt, 2);
            if !entry_present(e2) {
                None
            } else if entry_huge(e2) {
                Some((entry_addr(e2) + (virt & 0x1F_FFFF)) as u64)
            } else {
                let e1 = entry_at(mem, entry_addr(e2), virt, 1);
                if !entry_present(e1) {
                    None
                } else {
                    Some((entry_addr(e1) + (virt & 0xFFF)) as u64)
                }
            }
        }
    }
}

/// Each level indexes its table with the full nine-bit field of the address
/// above that level's page offset: bits 12..21 select the PT entry, 21..30
/// the PD entry, 30..39 the PDPT entry and 39..48 the PML4 entry.
pub proof fn lemma_table_index_fields(virt: u64)
    ensures
        spec_table_index(virt, 1) == (virt / 0x1000) % 512,
        spec_table_index(virt, 2) == (virt / 0x20_0000) % 512,
        spec_table_index(virt, 3) == (virt / 0x4000_0000) % 512,
        spec_table_index(virt, 4) == (virt / 0x80_0000_0000) % 512,
{
    assert((virt >> 12u64) & 0x1FF == (virt / 0x1000) % 512 && (virt >> 21u64) & 0x1FF == (virt / 0x20_0000) % 512
        && (virt >> 30u64) & 0x1FF == (virt / 0x4000_0000) % 512 && (virt >> 39u64) & 0x1FF == (virt
        / 0x80_0000_0000) % 512) by (bit_vector);
}

/// Index into the level-`level` page table for `virt`.
pub fn table_index(virt: u64, level: u64) -> (i: u64)
    requires
        1 <= level <= 4,
    ensures
        i == spec_table_index(virt, level),
        i < 512,
        level == 1 ==> i == (virt / 0x1000) % 512,
        level == 2 ==> i == (virt / 0x20_0000) % 512,
        level == 3 ==> i == (virt / 0x4000_0000) % 512,
        level == 4 ==> i == (virt / 0x80_0000_0000) % 512,
{
    let shift = 12 + 9 * (level - 1);
    let i = (virt >> shift) & 0x1FF;
    assert((virt >> shift) & 0x1FF < 512) by (bit_vector);
    proof {
        lemma_table_index_fields(virt);
    }
    i
}

/// Read the entry for `virt` in the level-`level` table at `table`.
fn read_entry<F: Fn(u64) -> u64>(read: &F, table: u64, virt: u64, level: u64) -> (e: u64)
    requires
        forall|a: u64| call_requires(*read, (a,)),
        table < PHYS_ADDR_LIMIT,
        1 <= level <= 4,
    ensures
        forall|mem: PhysMemory| #[trigger]
            reads_words(*read, mem) ==> e == entry_at(mem, table, virt, level),
{
    let idx = table_index(virt, level);
    read(table + idx * 8)
}

/// Physical address field of an entry.
fn addr_of(e: u64) -> (a: u64)
    ensures
        a == entry_addr(e),
        a < PHYS_ADDR_LIMIT,
{
    let a = e & 0x000f_ffff_ffff_f000;
    assert(e & 0x000f_ffff_ffff_f000 < 0x10_0000_0000_0000) by (bit_vector);
    a
}

/// Walk the page tables rooted at `p4_table` (the frame in CR3) to translate
/// `virt`; `read` yields the 64-bit word at a physical address.
pub fn virt_to_phys<F: Fn(u64) -> u64>(virt: u64, p4_table: u64, read: &F) -> (p: Option<u64>)
    requires
        forall|a: u64| call_requires(*read, (a,)),
        p4_table < PHYS_ADDR_LIMIT,
    ensures
        forall|mem: PhysMemory| #[trigger] reads_words(*read, mem) ==> p == translate(mem, p4_table, virt),
{
    assert(virt & 0x3FFF_FFFF < 0x4000_0000 && virt & 0x1F_FFFF < 0x20_0000 && virt & 0xFFF < 0x1000)
        by (bit_vector);
    let p4e = read_entry(read, p4_table, virt, 4);
    if p4e & 0x1 == 0 || p4e & 0x80 != 0 {
        return None;
    }
    let p3 = addr_of(p4e);
    let p3e = read_entry(read, p3, virt, 3);
    if p3e & 0x1 == 0 {
        return None;
    }
    if p3e & 0x80 != 0 {
        let a = addr_of(p3e);
        return Some(a + (virt & 0x3FFF_FFFF));
    }
    let p2 = addr_of(p3e);
    let p2e = read_entry(read, p2, virt, 2);
    if p2e & 0x1 == 0 {
        return None;
    }
    if p2e & 0x80 != 0 {
        let a = addr_of(p2e);
        return Some(a + (virt & 0x1F_FFFF));
    }
    let p1 = addr_of(p2e);
    let p1e = read_entry(read, p1, virt, 1);
    if p1e & 0x1 == 0 {
        return None;
    }
    let a = addr_of(p1e);
    Some(a + (virt & 0xFFF))
}

/// Every frame the allocator can hand out is 4 KiB aligned, below the
/// physical address limit, and inside (the frame-aligned start of) a usable
/// region of the map.
pub proof fn lemma_usable_frames_aligned(regions: Seq<MemoryRegion>)
    requires
        regions_addressable(regions),
    ensures
        forall|j: int|
            0 <= j < usable_frames(regions).len() ==> {
                let f = #[trigger] usable_frames(regions)[j];
                &&& f % 4096 == 0
                &&& f < PHYS_ADDR_LIMIT
                &&& exists|i: int|
                    0 <= i < regions.len() && regions[i].kind == MemoryRegionKind::Usable
                        && regions[i].start - regions[i].start % 4096 <= f < regions[i].end
            },
    decreases regions.len(),
{
    if regions.len() > 0 {
        let init = regions.drop_last();
        assert forall|i: int|
            0 <= i < init.len() && (#[trigger] init[i]).kind == MemoryRegionKind::Usable implies init[i].end
            <= PHYS_ADDR_LIMIT by {
            assert(init[i] == regions[i]);
        }
        lemma_usable_frames_aligned(init);
        let r = regions.last();
        let a = usable_frames(init);
        let b = region_frames(r);
        assert forall|j: int| 0 <= j < usable_frames(regions).len() implies {
            let f = #[trigger] usable_frames(regions)[j];
            &&& f % 4096 == 0
            &&& f < PHYS_ADDR_LIMIT
            &&& exists|i: int|
                0 <= i < regions.len() && regions[i].kind == MemoryRegionKind::Usable
                    && regions[i].start - regions[i].start % 4096 <= f < regions[i].end
        } by {
            let f = usable_frames(regions)[j];
            if j < a.len() {
                assert(f == a[j]);
                let i = choose|i: int|
                    0 <= i < init.len() && init[i].kind == MemoryRegionKind::Usable
                        && init[i].start - init[i].start % 4096 <= a[j] < init[i].end;
                assert(regions[i] == init[i]);
            } else {
                let k = j - a.len();
                assert(f == b[k]);
                assert(r.kind == MemoryRegionKind::Usable);
                assert(regions[regions.len() - 1] == r);
                let x = r.start + 4096 * k;
                assert(0 <= k < step_count(r));
                assert(r.end > r.start);
                assert(4096 * k < r.end - r.start) by (nonlinear_arith)
                    requires k < (r.end - r.start + 4095) / 4096, k >= 0, r.end > r.start;
                assert(r.end <= PHYS_ADDR_LIMIT);
                assert(f == x - x % 4096);
                assert((x - x % 4096) % 4096 == 0 && r.start - r.start % 4096 <= x - x % 4096) by (nonlinear_arith)
                    requires x == r.start + 4096 * k, k >= 0, r.start >= 0;
            }
        }
    }
}

/// Translation keeps the offset within the 4 KiB page: the low twelve bits
/// of the physical address are those of the virtual address.
pub proof fn lemma_translate_keeps_page_offset(mem: PhysMemory, p4: u64, virt: u64)
    ensures
        translate(mem, p4, virt) matches Some(p) ==> p % 4096 == virt % 4096,
{
    if let Some(p) = translate(mem, p4, virt) {
        let e4 = entry_at(mem, p4, virt, 4);
        let e3 = entry_at(mem, entry_addr(e4), virt, 3);
        let e2 = entry_at(mem, entry_addr(e3), virt, 2);
        let e1 = entry_at(mem, entry_addr(e2), virt, 1);
        assert(((e3 & 0x000f_ffff_ffff_f000) + (virt & 0x3FFF_FFFF)) as u64 % 4096 == virt % 4096
            && ((e2 & 0x000f_ffff_ffff_f000) + (virt & 0x1F_FFFF)) as u64 % 4096 == virt % 4096
            && ((e1 & 0x000f_ffff_ffff_f000) + (virt & 0xFFF)) as u64 % 4096 == virt % 4096) by (bit_vector);
    }
}

/// Page sizes: a huge PDPT entry maps a 1 GiB page, which keeps the low 30
/// bits of the address; a huge PD entry maps a 2 MiB page, which keeps the
/// low 21 bits; a PT entry maps a 4 KiB page, which keeps the low 12 bits. A
/// huge-page bit in the PML4 entry, or an entry without its present bit,
/// leaves the address unmapped.
pub proof fn lemma_translate_page_sizes(mem: PhysMemory, p4: u64, virt: u64)
    ensures
        ({
            let e4 = entry_at(mem, p4, virt, 4);
            let e3 = entry_at(mem, entry_addr(e4), virt, 3);
            let e2 = entry_at(mem, entry_addr(e3), virt, 2);
            let e1 = entry_at(mem, entry_addr(e2), virt, 1);
            &&& (e4 % 2 == 0 || (e4 / 0x80) % 2 == 1) ==> translate(mem, p4, virt) is None
            &&& (e4 % 2 == 1 && (e4 / 0x80) % 2 == 0 && e3 % 2 == 0) ==> translate(mem, p4, virt) is None
            &&& (e4 % 2 == 1 && (e4 / 0x80) % 2 == 0 && e3 % 2 == 1 && (e3 / 0x80) % 2 == 1) ==> translate(
                mem,
                p4,
                virt,
            ) == Some((entry_addr(e3) + virt % 0x4000_0000) as u64)
            &&& (e4 % 2 == 1 && (e4 / 0x80) % 2 == 0 && e3 % 2 == 1 && (e3 / 0x80) % 2 == 0 && e2 % 2 == 1 && (e2
                / 0x80) % 2 == 1) ==> translate(mem, p4, virt) == Some((entry_addr(e2) + virt % 0x20_0000) as u64)
            &&& (e4 % 2 == 1 && (e4 / 0x80) % 2 == 0 && e3 % 2 == 1 && (e3 / 0x80) % 2 == 0 && e2 % 2 == 1 && (e2
                / 0x80) % 2 == 0 && e1 % 2 == 1) ==> translate(mem, p4, virt) == Some(
                (entry_addr(e1) + virt % 0x1000) as u64,
            )
        }),
{
    let e4 = entry_at(mem, p4, virt, 4);
    let e3 = entry_at(mem, entry_addr(e4), virt, 3);
    let e2 = entry_at(mem, entry_addr(e3), virt, 2);
    let e1 = entry_at(mem, entry_addr(e2), virt, 1);
    lemma_entry_fields(e4);
    lemma_entry_fields(e3);
    lemma_entry_fields(e2);
    lemma_entry_fields(e1);
    assert(virt & 0x3FFF_FFFF == virt % 0x4000_0000 && virt & 0x1F_FFFF == virt % 0x20_0000 && virt & 0xFFF == virt
        % 0x1000) by (bit_vector);
}

/// `b` and `f` are the allocator and the frame after one `allocate_frame` on
/// `a`: the frame at `a`'s next index is handed out and the index advances.
pub open spec fn allocated(a: BootInfoFrameAllocator, b: BootInfoFrameAllocator, f: Option<u64>) -> bool {
    &&& b.regions() == a.regions()
    &&& b.next_index() == a.next_index() + 1
    &&& f == frame_at(usable_frames(a.regions()), a.next_index())
}

/// After `skip_below(min_addr)`, successive allocations hand out the usable
/// frames in memory-map order, starting with the first one at or above
/// `min_addr`, then `None` once they run out; no frame index is handed out
/// twice. `states[i]` is the allocator before allocation `i` and `out[i]`
/// what it returned.
pub proof fn lemma_allocations_in_order(
    states: Seq<BootInfoFrameAllocator>,
    out: Seq<Option<u64>>,
    min_addr: u64,
)
    requires
        states.len() == out.len() + 1,
        first_at_or_above(usable_frames(states[0].regions()), min_addr, states[0].next_index()),
        forall|i: int| 0 <= i < out.len() ==> allocated(#[trigger] states[i], states[i + 1], out[i]),
    ensures
        forall|i: int|
            0 <= i < out.len() ==> #[trigger] out[i] == frame_at(
                usable_frames(states[0].regions()),
                states[0].next_index() + i as nat,
            ),
        forall|i: int, j: int|
            0 <= i < j < states.len() ==> #[trigger] states[i].next_index() < #[trigger] states[j].next_index(),
        forall|j: int|
            0 <= j < states[0].next_index() ==> #[trigger] usable_frames(states[0].regions())[j] < min_addr,
    decreases out.len(),
{
    if out.len() > 0 {
        let n = out.len() - 1;
        let s2 = states.drop_last();
        let o2 = out.drop_last();
        assert forall|i: int| 0 <= i < o2.len() implies allocated(#[trigger] s2[i], s2[i + 1], o2[i]) by {
            assert(allocated(states[i], states[i + 1], out[i]));
        }
        lemma_allocations_in_order(s2, o2, min_addr);
        assert forall|i: int| 0 <= i < states.len() implies (#[trigger] states[i]).next_index()
            == states[0].next_index() + i && states[i].regions() == states[0].regions() by {
            if i > 0 {
                lemma_allocation_index(states, out, i);
            }
        }
        assert forall|i: int| 0 <= i < out.len() implies #[trigger] out[i] == frame_at(
            usable_frames(states[0].regions()),
            states[0].next_index() + i as nat,
        ) by {
            assert(allocated(states[i], states[i + 1], out[i]));
            if i < n {
                assert(o2[i] == out[i] && s2[0] == states[0]);
            }
        }
    }
}

/// Each allocation advances the next index by one and keeps the map.
proof fn lemma_allocation_index(states: Seq<BootInfoFrameAllocator>, out: Seq<Option<u64>>, i: int)
    requires
        states.len() == out.len() + 1,
        0 <= i < states.len(),
        forall|k: int| 0 <= k < out.len() ==> allocated(#[trigger] states[k], states[k + 1], out[k]),
    ensures
        states[i].next_index() == states[0].next_index() + i,
        states[i].regions() == states[0].regions(),
    decreases i,
{
    if i > 0 {
        lemma_allocation_index(states, out, i - 1);
        assert(allocated(states[i - 1], states[i], out[i - 1]));
    }
}

} // verus!
