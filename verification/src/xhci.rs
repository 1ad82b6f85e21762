//! xHCI (eXtensible Host Controller Interface) register layout, rings and
//! controller bring-up (Intel xHCI spec rev 1.2): stop, reset, configure,
//! start, then the command ring, event ring and Device Context Base Address
//! Array (DCBAA), and port reset.
//!
//! MMIO addresses are raw `u64` virtual addresses (the physical-memory offset
//! map gives addresses that are not canonical). Register reads go through a
//! caller-supplied reader, `read(addr)`, a volatile 32-bit load; contracts
//! speak of the register file as `mmio: spec_fn(u64) -> u32` and hold for
//! every `mmio` the reader agrees with. Register writes are returned as
//! `MmioWrite` values for the caller to perform in order.
use vstd::prelude::*;

pub mod usbcmd;
pub mod usbsts;
pub mod portsc;
pub mod trb_type;

verus! {

/// 32-bit register contents by address.
pub type Mmio = spec_fn(u64) -> u32;

/// Byte contents by address.
pub type MmioBytes = spec_fn(u64) -> u8;

/// The reader answers every address as `mmio` does.
pub open spec fn reads_regs<F: Fn(u64) -> u32>(read: F, mmio: Mmio) -> bool {
    forall|a: u64, v: u32| #[trigger] call_ensures(read, (a,), v) ==> v == mmio(a)
}

/// The byte reader answers every address as `bytes` does.
pub open spec fn reads_bytes<G: Fn(u64) -> u8>(read: G, bytes: MmioBytes) -> bool {
    forall|a: u64, v: u8| #[trigger] call_ensures(read, (a,), v) ==> v == bytes(a)
}

/// A volatile store to a register.
#[allow(inconsistent_fields)]
#[derive(Clone, Copy, Debug, PartialEq, Eq, Structural)]
pub enum MmioWrite {
    /// Store a 32-bit value.
    U32 { addr: u64, value: u32 },
    /// Store a 16-bit value.
    U16 { addr: u64, value: u16 },
}

/// Room above the register base for every register the driver touches: the
/// doorbell array (up to 4 GiB in), the operational, port and runtime
/// registers.
pub const MMIO_SPAN: u64 = 0x8_0000_0000;

/// Operational + capability + runtime register view over the xHCI MMIO BAR.
pub struct Registers {
    /// Virtual address of the capability registers.
    pub base: u64,
    /// CAPLENGTH: offset of the operational registers.
    pub op_offset: u64,
    /// RTSOFF: offset of the runtime registers.
    pub rt_offset: u64,
}

impl Registers {
    /// Offsets fit the MMIO window and every register address fits in 64 bits.
    pub open spec fn wf(&self) -> bool {
        &&& self.op_offset <= 0xFF
        &&& self.rt_offset <= u32::MAX
        &&& self.base + MMIO_SPAN <= u64::MAX
    }

    /// Locate the registers of the controller whose BAR is at `bar_phys`,
    /// with all physical memory mapped at `phys_offset`: read CAPLENGTH (a
    /// byte at the base) and RTSOFF (at base + 0x18).
    pub fn new<G: Fn(u64) -> u8, F: Fn(u64) -> u32>(
        bar_phys: u64,
        phys_offset: u64,
        read8: &G,
        read32: &F,
    ) -> (r: Self)
        requires
            phys_offset + bar_phys + MMIO_SPAN <= u64::MAX,
            forall|a: u64| call_requires(*read8, (a,)),
            forall|a: u64| call_requires(*read32, (a,)),
        ensures
            r.wf(),
            r.base == phys_offset + bar_phys,
            forall|bytes: MmioBytes| #[trigger]
                reads_bytes(*read8, bytes) ==> r.op_offset == bytes(r.base),
            forall|mmio: Mmio| #[trigger]
                reads_regs(*read32, mmio) ==> r.rt_offset == mmio((r.base + 0x18) as u64),
    {
        let base = phys_offset + bar_phys;
        let caplength = read8(base) as u64;
        let rtsoff = read32(base + 0x18) as u64;
        Self { base, op_offset: caplength, rt_offset: rtsoff }
    }

    // -- capability registers (relative to BAR base) -------------------------

    /// The capability register at `offset`.
    pub open spec fn cap(&self, mmio: Mmio, offset: u64) -> u32 {
        mmio((self.base + offset) as u64)
    }

    fn read_cap<F: Fn(u64) -> u32>(&self, read: &F, offset: u64) -> (v: u32)
        requires
            self.wf(),
            offset <= 0x20,
            forall|a: u64| call_requires(*read, (a,)),
        ensures
            forall|mmio: Mmio| #[trigger] reads_regs(*read, mmio) ==> v == self.cap(mmio, offset),
    {
        read(self.base + offset)
    }

    /// Interface version number (HCIVERSION, the high half of the first
    /// capability dword).
    pub fn hciversion<F: Fn(u64) -> u32>(&self, read: &F) -> (v: u16)
        requires
            self.wf(),
            forall|a: u64| call_requires(*read, (a,)),
        ensures
            forall|mmio: Mmio| #[trigger]
                reads_regs(*read, mmio) ==> v == self.cap(mmio, 0) / 0x1_0000,
    {
        let d = self.read_cap(read, 0x00);
        assert((d >> 16u32) as u16 == d / 0x1_0000) by (bit_vector);
        (d >> 16u32) as u16
    }

    /// MaxSlots: bits 7..0 of HCSPARAMS1.
    pub fn max_slots<F: Fn(u64) -> u32>(&self, read: &F) -> (n: u8)
        requires
            self.wf(),
            forall|a: u64| call_requires(*read, (a,)),
        ensures
            forall|mmio: Mmio| #[trigger]
                reads_regs(*read, mmio) ==> n == self.cap(mmio, 4) % 0x100,
    {
        let d = self.read_cap(read, 4);
        assert(d as u8 == d % 0x100) by (bit_vector);
        d as u8
    }

    /// MaxPorts: bits 31..24 of HCSPARAMS1.
    pub fn max_ports<F: Fn(u64) -> u32>(&self, read: &F) -> (n: u8)
        requires
            self.wf(),
            forall|a: u64| call_requires(*read, (a,)),
        ensures
            forall|mmio: Mmio| #[trigger]
                reads_regs(*read, mmio) ==> n == self.cap(mmio, 4) / 0x100_0000,
    {
        let d = self.read_cap(read, 4);
        assert(((d >> 24u32) & 0xFF) as u8 == d / 0x100_0000) by (bit_vector);
        ((d >> 24u32) & 0xFF) as u8
    }

    /// Max Scratchpad Buffers: HCSPARAMS2 bits 31..27 (high five bits) over
    /// bits 25..21 (low five bits).
    pub fn max_scratchpad_bufs<F: Fn(u64) -> u32>(&self, read: &F) -> (n: u16)
        requires
            self.wf(),
            forall|a: u64| call_requires(*read, (a,)),
        ensures
            forall|mmio: Mmio| #[trigger]
                reads_regs(*read, mmio) ==> n == (self.cap(mmio, 8) / 0x800_0000) * 32 + (self.cap(
                    mmio,
                    8,
                ) / 0x20_0000) % 32,
    {
        let v = self.read_cap(read, 8);
        let hi = (v >> 27u32) & 0x1F;
        let lo = (v >> 21u32) & 0x1F;
        assert(((((v >> 27u32) & 0x1F) << 5u32) | ((v >> 21u32) & 0x1F)) as u16 == (v / 0x800_0000)
            * 32 + (v / 0x20_0000) % 32) by (bit_vector);
        ((hi << 5u32) | lo) as u16
    }

    /// Context Size: HCCPARAMS1 bit 2 set means 64-byte contexts.
    pub fn context_size_64<F: Fn(u64) -> u32>(&self, read: &F) -> (b: bool)
        requires
            self.wf(),
            forall|a: u64| call_requires(*read, (a,)),
        ensures
            forall|mmio: Mmio| #[trigger]
                reads_regs(*read, mmio) ==> b == ((self.cap(mmio, 0x10) / 4) % 2 == 1),
    {
        let d = self.read_cap(read, 0x10);
        assert((d & (1u32 << 2u32) != 0) == ((d / 4) % 2 == 1)) by (bit_vector);
        d & (1u32 << 2u32) != 0
    }

    // -- operational registers (relative to BAR + caplength) -----------------

    /// Address of the operational register at `offset`.
    pub open spec fn spec_op_addr(&self, offset: u64) -> u64 {
        (self.base + self.op_offset + offset) as u64
    }

    fn op_addr(&self, offset: u64) -> (a: u64)
        requires
            self.wf(),
            offset <= 0x2000,
        ensures
            a == self.spec_op_addr(offset),
    {
        self.base + self.op_offset + offset
    }

    fn read_op<F: Fn(u64) -> u32>(&self, read: &F, offset: u64) -> (v: u32)
        requires
            self.wf(),
            offset <= 0x2000,
            forall|a: u64| call_requires(*read, (a,)),
        ensures
            forall|mmio: Mmio| #[trigger]
                reads_regs(*read, mmio) ==> v == mmio(self.spec_op_addr(offset)),
    {
        read(self.op_addr(offset))
    }

    fn write_op(&self, offset: u64, value: u32) -> (w: MmioWrite)
        requires
            self.wf(),
            offset <= 0x2000,
        ensures
            w == (MmioWrite::U32 { addr: self.spec_op_addr(offset), value }),
    {
        MmioWrite::U32 { addr: self.op_addr(offset), value }
    }

    /// USBCMD (operational offset 0x00).
    pub fn usbcmd<F: Fn(u64) -> u32>(&self, read: &F) -> (v: u32)
        requires
            self.wf(),
            forall|a: u64| call_requires(*read, (a,)),
        ensures
            forall|mmio: Mmio| #[trigger] reads_regs(*read, mmio) ==> v == mmio(self.spec_op_addr(0x00)),
    {
        self.read_op(read, 0x00)
    }

    /// Store `v` to USBCMD.
    pub fn write_usbcmd(&self, v: u32) -> (w: MmioWrite)
        requires
            self.wf(),
        ensures
            w == (MmioWrite::U32 { addr: self.spec_op_addr(0x00), value: v }),
    {
        self.write_op(0x00, v)
    }

    /// USBSTS (operational offset 0x04).
    pub fn usbsts<F: Fn(u64) -> u32>(&self, read: &F) -> (v: u32)
        requires
            self.wf(),
            forall|a: u64| call_requires(*read, (a,)),
        ensures
            forall|mmio: Mmio| #[trigger] reads_regs(*read, mmio) ==> v == mmio(self.spec_op_addr(0x04)),
    {
        self.read_op(read, 0x04)
    }

    /// Store `v` to USBSTS.
    pub fn write_usbsts(&self, v: u32) -> (w: MmioWrite)
        requires
            self.wf(),
        ensures
            w == (MmioWrite::U32 { addr: self.spec_op_addr(0x04), value: v }),
    {
        self.write_op(0x04, v)
    }

    /// PAGESIZE (operational offset 0x08).
    pub fn pagesize<F: Fn(u64) -> u32>(&self, read: &F) -> (v: u32)
        requires
            self.wf(),
            forall|a: u64| call_requires(*read, (a,)),
        ensures
            forall|mmio: Mmio| #[trigger] reads_regs(*read, mmio) ==> v == mmio(self.spec_op_addr(0x08)),
    {
        self.read_op(read, 0x08)
    }

    /// Store a 64-bit pointer as two 32-bit stores, low half first (QEMU drops
    /// the high bits of a 64-bit access).
    fn write_op_split(&self, offset: u64, addr: u64) -> (w: (MmioWrite, MmioWrite))
        requires
            self.wf(),
            offset <= 0x1000,
        ensures
            w.0 == (MmioWrite::U32 { addr: self.spec_op_addr(offset), value: (addr % 0x1_0000_0000) as u32 }),
            w.1 == (MmioWrite::U32 { addr: self.spec_op_addr((offset + 4) as u64), value: (addr / 0x1_0000_0000) as u32 }),
    {
        assert(addr as u32 == addr % 0x1_0000_0000 && (addr >> 32u64) as u32 == addr / 0x1_0000_0000)
            by (bit_vector);
        (self.write_op(offset, addr as u32), self.write_op(offset + 4, (addr >> 32u64) as u32))
    }

    /// DCBAAP (operational 0x30/0x34), written as two halves.
    pub fn write_dcbaap(&self, addr: u64) -> (w: (MmioWrite, MmioWrite))
        requires
            self.wf(),
        ensures
            w.0 == (MmioWrite::U32 { addr: self.spec_op_addr(0x30), value: (addr % 0x1_0000_0000) as u32 }),
            w.1 == (MmioWrite::U32 { addr: self.spec_op_addr(0x34), value: (addr / 0x1_0000_0000) as u32 }),
    {
        self.write_op_split(0x30, addr)
    }

    /// CRCR (operational 0x18/0x1C), written as two halves.
    pub fn write_crcr(&self, addr: u64) -> (w: (MmioWrite, MmioWrite))
        requires
            self.wf(),
        ensures
            w.0 == (MmioWrite::U32 { addr: self.spec_op_addr(0x18), value: (addr % 0x1_0000_0000) as u32 }),
            w.1 == (MmioWrite::U32 { addr: self.spec_op_addr(0x1c), value: (addr / 0x1_0000_0000) as u32 }),
    {
        self.write_op_split(0x18, addr)
    }

    /// Store `v` to CONFIG (operational 0x38).
    pub fn write_config(&self, v: u32) -> (w: MmioWrite)
        requires
            self.wf(),
        ensures
            w == (MmioWrite::U32 { addr: self.spec_op_addr(0x38), value: v }),
    {
        self.write_op(0x38, v)
    }

    /// Address of the doorbell register of `target` (slot, or 0 for the
    /// command ring): the doorbell array starts at BAR + DBOFF (capability
    /// 0x14, low two bits reserved); writing any value rings it.
    pub fn doorbell<F: Fn(u64) -> u32>(&self, read: &F, target: u32) -> (a: u64)
        requires
            self.wf(),
            forall|a: u64| call_requires(*read, (a,)),
        ensures
            forall|mmio: Mmio| #[trigger]
                reads_regs(*read, mmio) ==> a == self.base + (self.cap(mmio, 0x14) - self.cap(mmio, 0x14) % 4)
                    + target * 4,
    {
        let d = self.read_cap(read, 0x14);
        let dboff = (d & !0x3u32) as u64;
        assert(d & !0x3u32 == d - d % 4) by (bit_vector);
        self.base + dboff + target as u64 * 4
    }

    // -- runtime registers (relative to BAR + rtsoff) ------------------------

    /// Address of the runtime register at `offset`.
    pub open spec fn spec_rt_addr(&self, offset: u64) -> u64 {
        (self.base + self.rt_offset + offset) as u64
    }

    fn rt_addr(&self, offset: u64) -> (a: u64)
        requires
            self.wf(),
            offset <= 0x40,
        ensures
            a == self.spec_rt_addr(offset),
    {
        self.base + self.rt_offset + offset
    }

    /// Interrupter 0 Event Ring Segment Table base (ERSTBA, runtime
    /// 0x30/0x34), written as two halves; the high half last (QEMU resets the
    /// event ring on that write, so the order matters).
    pub fn write_erstba(&self, addr: u64) -> (w: (MmioWrite, MmioWrite))
        requires
            self.wf(),
        ensures
            w.0 == (MmioWrite::U32 { addr: self.spec_rt_addr(0x30), value: (addr % 0x1_0000_0000) as u32 }),
            w.1 == (MmioWrite::U32 { addr: self.spec_rt_addr(0x34), value: (addr / 0x1_0000_0000) as u32 }),
    {
        assert(addr as u32 == addr % 0x1_0000_0000 && (addr >> 32u64) as u32 == addr / 0x1_0000_0000)
            by (bit_vector);
        (
            MmioWrite::U32 { addr: self.rt_addr(0x30), value: addr as u32 },
            MmioWrite::U32 { addr: self.rt_addr(0x34), value: (addr >> 32u64) as u32 },
        )
    }

    /// Interrupter 0 Event Ring Segment Table size (ERSTSZ, runtime 0x28, 16 bits).
    pub fn write_erstsz(&self, count: u16) -> (w: MmioWrite)
        requires
            self.wf(),
        ensures
            w == (MmioWrite::U16 { addr: self.spec_rt_addr(0x28), value: count }),
    {
        MmioWrite::U16 { addr: self.rt_addr(0x28), value: count }
    }

    /// Interrupter 0 Event Ring Dequeue Pointer (ERDP, runtime 0x38/0x3C), two halves.
    pub fn write_erdp(&self, addr: u64) -> (w: (MmioWrite, MmioWrite))
        requires
            self.wf(),
        ensures
            w.0 == (MmioWrite::U32 { addr: self.spec_rt_addr(0x38), value: (addr % 0x1_0000_0000) as u32 }),
            w.1 == (MmioWrite::U32 { addr: self.spec_rt_addr(0x3c), value: (addr / 0x1_0000_0000) as u32 }),
    {
        assert(addr as u32 == addr % 0x1_0000_0000 && (addr >> 32u64) as u32 == addr / 0x1_0000_0000)
            by (bit_vector);
        (
            MmioWrite::U32 { addr: self.rt_addr(0x38), value: addr as u32 },
            MmioWrite::U32 { addr: self.rt_addr(0x3c), value: (addr >> 32u64) as u32 },
        )
    }

    /// Interrupter 0 management (IMAN, runtime 0x20): write 1 to IP (bit 1)
    /// to clear a pending interrupt, then set IE (bit 0).
    pub fn enable_interrupter(&self) -> (w: (MmioWrite, MmioWrite))
        requires
            self.wf(),
        ensures
            w.0 == (MmioWrite::U32 { addr: self.spec_rt_addr(0x20), value: 2 }),
            w.1 == (MmioWrite::U32 { addr: self.spec_rt_addr(0x20), value: 1 }),
    {
        assert((1u32 << 1u32) == 2u32 && (1u32 << 0u32) == 1u32) by (bit_vector);
        (
            MmioWrite::U32 { addr: self.rt_addr(0x20), value: 1 << 1 },
            MmioWrite::U32 { addr: self.rt_addr(0x20), value: 1 << 0 },
        )
    }

    // -- port registers ------------------------------------------------------

    /// Address of PORTSC of `port` (numbered from 1): operational 0x400 + 0x10
    /// per port.
    pub open spec fn spec_portsc_addr(&self, port: u8) -> u64 {
        (self.base + self.op_offset + 0x400 + (port - 1) * 0x10) as u64
    }

    /// Address of PORTSC of `port` (numbered from 1).
    pub fn portsc_addr(&self, port: u8) -> (a: u64)
        requires
            self.wf(),
            port >= 1,
        ensures
            a == self.spec_portsc_addr(port),
    {
        self.base + self.op_offset + 0x400 + ((port as u64 - 1) * 0x10)
    }

    /// PORTSC of `port` (numbered from 1).
    pub fn read_portsc<F: Fn(u64) -> u32>(&self, read: &F, port: u8) -> (v: u32)
        requires
            self.wf(),
            port >= 1,
            forall|a: u64| call_requires(*read, (a,)),
        ensures
            forall|mmio: Mmio| #[trigger] reads_regs(*read, mmio) ==> v == mmio(self.spec_portsc_addr(port)),
    {
        read(self.portsc_addr(port))
    }

    /// Store `value` to PORTSC of `port` (numbered from 1).
    pub fn write_portsc(&self, port: u8, value: u32) -> (w: MmioWrite)
        requires
            self.wf(),
            port >= 1,
        ensures
            w == (MmioWrite::U32 { addr: self.spec_portsc_addr(port), value }),
    {
        MmioWrite::U32 { addr: self.portsc_addr(port), value }
    }
}

// --- transfer request blocks (TRBs) ------------------------------------------

/// A 16-byte Transfer Request Block.
#[derive(Clone, Copy, Debug, PartialEq, Eq, Structural)]
pub struct Trb {
    pub parameter: u64,
    pub status: u32,
    pub control: u32,
}

impl Trb {
    /// A TRB of all zeroes.
    pub fn zero() -> (t: Self)
        ensures
            t == (Trb { parameter: 0, status: 0, control: 0 }),
    {
        Self { parameter: 0, status: 0, control: 0 }
    }

    /// Cycle bit: bit 0 of the control word.
    pub open spec fn spec_cycle_bit(self) -> bool {
        self.control % 2 == 1
    }

    /// TRB type: bits 15..10 of the control word.
    pub open spec fn spec_trb_type(self) -> u8 {
        ((self.control / 0x400) % 0x40) as u8
    }

    /// Cycle bit: bit 0 of the control word.
    pub fn cycle_bit(&self) -> (b: bool)
        ensures
            b == self.spec_cycle_bit(),
    {
        proof {
            lemma_trb_fields(*self);
        }
        self.control & 0x1 != 0
    }

    /// TRB type: bits 15..10 of the control word.
    pub fn trb_type(&self) -> (t: u8)
        ensures
            t == self.spec_trb_type(),
    {
        proof {
            lemma_trb_fields(*self);
        }
        ((self.control >> 10u32) & 0x3F) as u8
    }
}

/// The cycle bit is bit 0 of a TRB's control word and the TRB type its six
/// bits from bit 10 up.
pub proof fn lemma_trb_fields(t: Trb)
    ensures
        t.spec_cycle_bit() == (t.control & 0x1 != 0),
        t.spec_trb_type() as u32 == (t.control >> 10u32) & 0x3F,
        (t.control >> 10u32) & 0x3F < 0x40,
{
    let c = t.control;
    assert((c % 2 == 1) == (c & 0x1 != 0) && (((c / 0x400) % 0x40) as u8) as u32 == (c >> 10u32) & 0x3F && (c
        >> 10u32) & 0x3F < 0x40) by (bit_vector);
}

// --- ring buffers -----------------------------------------------------------

/// Alignment of the rings, DCBAA and segment table the controller reads.
pub const DMA_ALIGN: u64 = 64;

/// Round `addr` up to the next 64-byte boundary: a buffer allocated with 64
/// spare bytes holds an aligned block of its requested size from there.
pub fn dma_align_up(addr: usize) -> (a: usize)
    requires
        addr + 63 <= usize::MAX,
    ensures
        a % 64 == 0,
        addr <= a < addr + 64,
{
    let b = addr + 63;
    let a = b & !63usize;
    assert(b & !63usize == b - b % 64) by (bit_vector);
    a
}

/// `n` is a power of two.
pub open spec fn is_power_of_two(n: usize) -> bool {
    n > 0 && n & ((n - 1) as usize) == 0
}

/// Producer state of a TRB ring of `len` slots at physical address `phys`:
/// the slot the next TRB goes to, and the producer cycle state. The TRB
/// storage itself is DMA memory that the caller owns.
pub struct Ring {
    pub len: usize,
    pub phys: u64,
    pub enqueue: usize,
    pub cycle: bool,
}

impl Ring {
    /// The slot count is a power of two, the enqueue index is a slot, and the
    /// ring starts on a 64-byte boundary.
    pub open spec fn wf(&self) -> bool {
        &&& is_power_of_two(self.len)
        &&& self.enqueue < self.len
        &&& self.phys % DMA_ALIGN == 0
    }

    /// A fresh ring of `count` slots (a power of two) at `phys` (64-byte
    /// aligned; the storage is zeroed by whoever allocates it): enqueue at
    /// slot 0 with cycle state 1.
    pub fn new(count: usize, phys: u64) -> (r: Self)
        requires
            is_power_of_two(count),
            phys % DMA_ALIGN == 0,
        ensures
            r.wf(),
            r.len == count,
            r.phys == phys,
            r.enqueue == 0,
            r.cycle,
    {
        Self { len: count, phys, enqueue: 0, cycle: true }
    }

    /// Physical address of the first TRB.
    pub fn physical_address(&self) -> (p: u64)
        ensures
            p == self.phys,
    {
        self.phys
    }

    /// Enqueue `trb`: returns the slot it goes to and the TRB to store
    /// there, whose cycle bit is the ring's cycle state; the enqueue index
    /// advances by one, wrapping at the end.
    pub fn push(&mut self, trb: Trb) -> (slot: (usize, Trb))
        requires
            old(self).wf(),
        ensures
            final(self).wf(),
            slot.0 == old(self).enqueue,
            slot.1 == (Trb {
                control: (trb.control - trb.control % 2 + if old(self).cycle { 1int } else { 0 }) as u32,
                ..trb
            }),
            final(self).enqueue == (old(self).enqueue + 1) % (old(self).len as int),
            final(self).len == old(self).len,
            final(self).phys == old(self).phys,
            final(self).cycle == old(self).cycle,
            slot.1.spec_cycle_bit() == old(self).cycle,
            slot.1.control & 0xFFFF_FFFE == trb.control & 0xFFFF_FFFE,
            slot.1.spec_trb_type() == trb.spec_trb_type(),
    {
        let idx = self.enqueue;
        let c = trb.control;
        let cyc = self.cycle as u32;
        let control = (c & !1u32) | cyc;
        assert(cyc <= 1 ==> (c & !1u32) | cyc == c - c % 2 + cyc && ((c & !1u32) | cyc) & 0xFFFF_FFFE == c & 0xFFFF_FFFE && (((c & !1u32) | cyc) & 1
            == 1) == (cyc == 1) && ((c & !1u32) | cyc) >> 10u32 == c >> 10u32) by (bit_vector);
        let stored = Trb { control, ..trb };
        proof {
            lemma_trb_fields(stored);
            lemma_trb_fields(trb);
        }
        let n = self.len;
        let e = self.enqueue;
        assert(n > 0 && n & ((n - 1) as usize) == 0 && e < n ==> ((e + 1) as usize) & ((n - 1) as usize) == ((e + 1) as usize) % n)
            by (bit_vector);
        self.enqueue = (self.enqueue + 1) & (self.len - 1);
        (idx, stored)
    }

    /// Flip the producer cycle state (after wrapping past a link TRB).
    pub fn toggle_cycle(&mut self)
        ensures
            final(self).cycle == !old(self).cycle,
            final(self).len == old(self).len,
            final(self).phys == old(self).phys,
            final(self).enqueue == old(self).enqueue,
    {
        self.cycle = !self.cycle;
    }
}

/// One Event Ring Segment Table entry: the segment's base and TRB count.
#[derive(Clone, Copy, Debug, PartialEq, Eq, Structural)]
pub struct ErstEntry {
    pub ring_base: u64,
    pub ring_size: u16,
}

/// The single segment table entry describing `event_ring`.
pub fn erst_entry(event_ring: &Ring) -> (e: ErstEntry)
    ensures
        e.ring_base == event_ring.phys,
        e.ring_size == event_ring.len % 0x1_0000,
{
    let n = event_ring.len;
    assert(n as u16 == n % 0x1_0000) by (bit_vector);
    ErstEntry { ring_base: event_ring.physical_address(), ring_size: event_ring.len as u16 }
}

/// Device Context Base Address Array: one 64-bit pointer per device slot plus
/// the scratchpad entry 0, at physical address `phys`.
pub struct Dcbaa {
    pub entries: usize,
    pub phys: u64,
}

impl Dcbaa {
    /// The array for `max_slots` device slots: `max_slots + 1` entries, at
    /// `phys` (64-byte aligned).
    pub fn new(max_slots: u8, phys: u64) -> (d: Self)
        requires
            phys % DMA_ALIGN == 0,
        ensures
            d.entries == max_slots + 1,
            d.phys == phys,
    {
        Self { entries: max_slots as usize + 1, phys }
    }

    /// Physical address of entry 0.
    pub fn physical_address(&self) -> (p: u64)
        ensures
            p == self.phys,
    {
        self.phys
    }
}

// --- controller --------------------------------------------------------------

/// One step of a register program.
#[derive(Clone, Copy, Debug, PartialEq, Eq, Structural)]
pub enum MmioOp {
    /// Perform the store.
    Write(MmioWrite),
    /// Spin until some bit of `mask` reads as set at `addr`.
    WaitSet { addr: u64, mask: u32 },
    /// Spin until every bit of `mask` reads as clear at `addr`.
    WaitClear { addr: u64, mask: u32 },
}

/// A 32-bit store as a program step.
pub open spec fn w32(addr: u64, value: u32) -> MmioOp {
    MmioOp::Write(MmioWrite::U32 { addr, value })
}

/// Low half of a 64-bit value.
pub open spec fn lo32(v: u64) -> u32 {
    (v % 0x1_0000_0000) as u32
}

/// High half of a 64-bit value.
pub open spec fn hi32(v: u64) -> u32 {
    (v / 0x1_0000_0000) as u32
}

/// USBCMD value that starts the controller: Run/Stop, interrupts and host
/// system errors enabled.
pub open spec fn run_command() -> u32 {
    usbcmd::RS | usbcmd::INTE | usbcmd::HSEE
}

/// The bring-up program, given the USBCMD value read beforehand: stop, wait
/// for HCHalted; reset (with Run/Stop kept clear), wait for the reset bit to clear and for Controller Not
/// Ready to clear; configure the device slots, the DCBAA and command ring
/// (ring cycle state 1), the event ring segment table (one segment), its
/// dequeue pointer, and interrupter 0; start, wait for HCHalted to clear.
pub open spec fn init_program(
    regs: Registers,
    cmd: u32,
    max_slots: u8,
    dcbaa_phys: u64,
    cmd_ring_phys: u64,
    erst_phys: u64,
    event_ring_phys: u64,
) -> Seq<MmioOp> {
    let crcr = cmd_ring_phys | 1;
    seq![
        w32(regs.spec_op_addr(0x00), cmd & !usbcmd::RS),
        MmioOp::WaitSet { addr: regs.spec_op_addr(0x04), mask: usbsts::HCH },
        w32(regs.spec_op_addr(0x00), (cmd & !usbcmd::RS) | usbcmd::HCRST),
        MmioOp::WaitClear { addr: regs.spec_op_addr(0x00), mask: usbcmd::HCRST },
        MmioOp::WaitClear { addr: regs.spec_op_addr(0x04), mask: usbsts::CNR },
        w32(regs.spec_op_addr(0x38), max_slots as u32),
        w32(regs.spec_op_addr(0x30), lo32(dcbaa_phys)),
        w32(regs.spec_op_addr(0x34), hi32(dcbaa_phys)),
        w32(regs.spec_op_addr(0x18), lo32(crcr)),
        w32(regs.spec_op_addr(0x1c), hi32(crcr)),
        w32(regs.spec_rt_addr(0x30), lo32(erst_phys)),
        w32(regs.spec_rt_addr(0x34), hi32(erst_phys)),
        MmioOp::Write(MmioWrite::U16 { addr: regs.spec_rt_addr(0x28), value: 1 }),
        w32(regs.spec_rt_addr(0x38), lo32(event_ring_phys)),
        w32(regs.spec_rt_addr(0x3c), hi32(event_ring_phys)),
        w32(regs.spec_rt_addr(0x20), 2),
        w32(regs.spec_rt_addr(0x20), 1),
        w32(regs.spec_op_addr(0x00), run_command()),
        MmioOp::WaitClear { addr: regs.spec_op_addr(0x04), mask: usbsts::HCH },
    ]
}

/// An initialised host controller: its registers, command and event rings,
/// DCBAA, and the slot and port counts it reported.
pub struct Controller {
    pub regs: Registers,
    pub cmd_ring: Ring,
    pub event_ring: Ring,
    pub dcbaa: Dcbaa,
    pub max_slots: u8,
    pub max_ports: u8,
    pub phys_offset: u64,
}

impl Controller {
    /// Registers and rings are consistent.
    pub open spec fn wf(&self) -> bool {
        &&& self.regs.wf()
        &&& self.cmd_ring.wf()
        &&& self.event_ring.wf()
    }

    /// Bring the controller up (stop, reset, configure, start) with the rings
    /// and DCBAA already allocated and the segment table at `erst_phys`
    /// describing `event_ring`; `cmd` is USBCMD as read before stopping.
    /// Returns the controller and the register program to run, in order.
    pub fn init(
        regs: Registers,
        max_slots: u8,
        max_ports: u8,
        cmd: u32,
        cmd_ring: Ring,
        event_ring: Ring,
        dcbaa: Dcbaa,
        erst_phys: u64,
        phys_offset: u64,
    ) -> (r: (Controller, Vec<MmioOp>))
        requires
            regs.wf(),
            cmd_ring.wf(),
            event_ring.wf(),
        ensures
            r.0.wf(),
            r.0.max_slots == max_slots,
            r.0.max_ports == max_ports,
            r.0.cmd_ring == cmd_ring,
            r.0.event_ring == event_ring,
            r.0.regs == regs,
            r.0.dcbaa == dcbaa,
            r.0.phys_offset == phys_offset,
            r.1@ == init_program(
                regs,
                cmd,
                max_slots,
                dcbaa.phys,
                cmd_ring.phys,
                erst_phys,
                event_ring.phys,
            ),
    {
        let mut ops: Vec<MmioOp> = Vec::new();
        // step 1: stop
        ops.push(MmioOp::Write(regs.write_usbcmd(cmd & !usbcmd::RS)));
        ops.push(MmioOp::WaitSet { addr: regs.op_addr(0x04), mask: usbsts::HCH });
        // step 2: reset
        ops.push(MmioOp::Write(regs.write_usbcmd((cmd & !usbcmd::RS) | usbcmd::HCRST)));
        ops.push(MmioOp::WaitClear { addr: regs.op_addr(0x00), mask: usbcmd::HCRST });
        ops.push(MmioOp::WaitClear { addr: regs.op_addr(0x04), mask: usbsts::CNR });
        // step 3: configure
        ops.push(MmioOp::Write(regs.write_config(max_slots as u32)));
        let (a, b) = regs.write_dcbaap(dcbaa.physical_address());
        ops.push(MmioOp::Write(a));
        ops.push(MmioOp::Write(b));
        let (a, b) = regs.write_crcr(cmd_ring.physical_address() | 1);
        ops.push(MmioOp::Write(a));
        ops.push(MmioOp::Write(b));
        let (a, b) = regs.write_erstba(erst_phys);
        ops.push(MmioOp::Write(a));
        ops.push(MmioOp::Write(b));
        ops.push(MmioOp::Write(regs.write_erstsz(1)));
        let (a, b) = regs.write_erdp(event_ring.physical_address());
        ops.push(MmioOp::Write(a));
        ops.push(MmioOp::Write(b));
        let (a, b) = regs.enable_interrupter();
        ops.push(MmioOp::Write(a));
        ops.push(MmioOp::Write(b));
        // step 4: start
        ops.push(MmioOp::Write(regs.write_usbcmd(usbcmd::RS | usbcmd::INTE | usbcmd::HSEE)));
        ops.push(MmioOp::WaitClear { addr: regs.op_addr(0x04), mask: usbsts::HCH });
        let ghost expect = init_program(
            regs,
            cmd,
            max_slots,
            dcbaa.phys,
            cmd_ring.phys,
            erst_phys,
            event_ring.phys,
        );
        assert(ops@ =~= expect);
        (Controller { regs, cmd_ring, event_ring, dcbaa, max_slots, max_ports, phys_offset }, ops)
    }

    /// Queue a No-Op command: returns the command-ring slot and the TRB to
    /// store there (type No Op Command, ring cycle state), and the doorbell 0
    /// store that tells the controller to look.
    pub fn noop_command<F: Fn(u64) -> u32>(&mut self, read: &F) -> (r: (usize, Trb, MmioWrite))
        requires
            old(self).wf(),
            forall|a: u64| call_requires(*read, (a,)),
        ensures
            final(self).wf(),
            r.0 == old(self).cmd_ring.enqueue,
            r.1 == (Trb {
                parameter: 0,
                status: 0,
                control: (trb_type::NO_OP_CMD as int * 0x400 + if old(self).cmd_ring.cycle { 1int } else { 0 }) as u32,
            }),
            r.1.spec_trb_type() == 23,
            r.1.spec_cycle_bit() == old(self).cmd_ring.cycle,
            final(self).cmd_ring.enqueue == (old(self).cmd_ring.enqueue + 1) % (old(self).cmd_ring.len as int),
            final(self).cmd_ring.cycle == old(self).cmd_ring.cycle,
            final(self).cmd_ring.len == old(self).cmd_ring.len,
            final(self).cmd_ring.phys == old(self).cmd_ring.phys,
            final(self).event_ring == old(self).event_ring,
            final(self).regs == old(self).regs,
            final(self).max_slots == old(self).max_slots,
            final(self).max_ports == old(self).max_ports,
            forall|mmio: Mmio| #[trigger]
                reads_regs(*read, mmio) ==> r.2 == (MmioWrite::U32 {
                    addr: (old(self).regs.base + (old(self).regs.cap(mmio, 0x14) - old(self).regs.cap(mmio, 0x14) % 4)) as u64,
                    value: 0,
                }),
    {
        let control = (trb_type::NO_OP_CMD as u32) << 10u32;
        assert(control == 23 * 0x400) by (bit_vector)
            requires control == (23u8 as u32) << 10u32;
        let (slot, trb) = self.cmd_ring.push(Trb { parameter: 0, status: 0, control });
        let bell = self.regs.doorbell(read, 0);
        (slot, trb, MmioWrite::U32 { addr: bell, value: 0 })
    }

    /// Outcome of the No-Op as the first event-ring TRB shows it: `None`
    /// while no Command Completion Event with the command ring's cycle state
    /// is there; otherwise whether its completion code (status bits 31..24)
    /// is Success (1).
    pub open spec fn spec_noop_completion(&self, event: Trb) -> Option<bool> {
        if event.spec_cycle_bit() == self.cmd_ring.cycle && event.spec_trb_type()
            == trb_type::COMMAND_COMPLETION {
            Some(event.status / 0x100_0000 == 1)
        } else {
            None
        }
    }

    /// Outcome of the No-Op as the first event-ring TRB shows it (see
    /// `spec_noop_completion`).
    pub fn noop_completion(&self, event: &Trb) -> (r: Option<bool>)
        ensures
            r == self.spec_noop_completion(*event),
    {
        if event.cycle_bit() == self.cmd_ring.cycle && event.trb_type() == trb_type::COMMAND_COMPLETION {
            let s = event.status;
            assert(((s >> 24u32) as u8 == 1) == (s / 0x100_0000 == 1)) by (bit_vector);
            let cc = (event.status >> 24u32) as u8;
            Some(cc == 1)
        } else {
            None
        }
    }

    /// A completion is recognised by its bits: the event's cycle bit (bit 0
    /// of the control word) matches the command ring's cycle state and its
    /// TRB type (control bits 10..16) is Command Completion Event (33); the
    /// command succeeded when the completion code (status bits 24..32) is 1.
    pub proof fn lemma_noop_completion_bits(&self, event: Trb)
        ensures
            self.spec_noop_completion(event) == if (event.control & 0x1 != 0) == self.cmd_ring.cycle && (
            event.control >> 10u32) & 0x3F == 33 {
                Some(event.status >> 24u32 == 1)
            } else {
                None
            },
    {
        lemma_trb_fields(event);
        let s = event.status;
        let c = event.control;
        assert(((s / 0x100_0000 == 1) == (s >> 24u32 == 1)) && ((c >> 10u32) & 0x3F == 33) == ((((c >> 10u32)
            & 0x3F) as u8) == 33u8)) by (bit_vector);
    }

    /// One poll of the No-Op's completion, after `tries` polls that found
    /// none: on a completion, clear event slot 0 and report its success;
    /// otherwise poll again, or give up (report failure) once
    /// `NOOP_POLL_LIMIT` polls have found nothing.
    pub fn noop_poll(&self, tries: u32, event: &Trb) -> (r: NoopPoll)
        requires
            tries < NOOP_POLL_LIMIT,
        ensures
            r == match self.spec_noop_completion(*event) {
                Some(success) => NoopPoll::Complete {
                    success,
                    slot: 0,
                    clear: Trb { parameter: 0, status: 0, control: 0 },
                },
                None => if tries + 1 < NOOP_POLL_LIMIT {
                    NoopPoll::Pending
                } else {
                    NoopPoll::GiveUp
                },
            },
    {
        match self.noop_completion(event) {
            Some(success) => NoopPoll::Complete { success, slot: 0, clear: Trb::zero() },
            None => if tries + 1 < NOOP_POLL_LIMIT {
                NoopPoll::Pending
            } else {
                NoopPoll::GiveUp
            },
        }
    }
}

/// Number of polls for the No-Op's completion before giving up; the No-Op is
/// a health check and the controller works without it.
pub const NOOP_POLL_LIMIT: u32 = 1_000_000;

/// What one poll of the No-Op's completion decides.
#[derive(Clone, Copy, Debug, PartialEq, Eq, Structural)]
pub enum NoopPoll {
    /// The command completed: store `clear` in event-ring slot `slot` and
    /// report `success`.
    Complete { success: bool, slot: usize, clear: Trb },
    /// Nothing yet: poll again.
    Pending,
    /// The poll budget is spent: report failure.
    GiveUp,
}

/// The outcome of a No-Op whose polls see the event slot as `events`, one
/// per poll: the success of the first completion among the first
/// `NOOP_POLL_LIMIT` polls, or failure if there is none.
pub open spec fn noop_outcome(ctrl: Controller, events: Seq<Trb>, from: nat) -> bool
    decreases NOOP_POLL_LIMIT - from,
{
    if from >= NOOP_POLL_LIMIT || from >= events.len() {
        false
    } else {
        match ctrl.spec_noop_completion(events[from as int]) {
            Some(success) => success,
            None => noop_outcome(ctrl, events, from + 1),
        }
    }
}

/// Polls that find no completion do not change the outcome: after `i` such
/// polls, the answer is the one the remaining polls give. With `noop_poll`
/// this makes the answer of the poll loop started at zero tries exactly
/// `noop_outcome(ctrl, events, 0)`.
pub proof fn lemma_noop_outcome_skips_pending(ctrl: Controller, events: Seq<Trb>, i: nat)
    requires
        i <= NOOP_POLL_LIMIT,
        i <= events.len(),
        forall|j: int| 0 <= j < i ==> (#[trigger] ctrl.spec_noop_completion(events[j])) is None,
    ensures
        noop_outcome(ctrl, events, 0) == noop_outcome(ctrl, events, i),
    decreases i,
{
    if i > 0 {
        lemma_noop_outcome_skips_pending(ctrl, events, (i - 1) as nat);
        assert(ctrl.spec_noop_completion(events[i - 1]) is None);
    }
}

// --- port bring-up ------------------------------------------------------------

/// Port Speed field of a PORTSC value.
pub fn port_speed(sc: u32) -> (s: u32)
    ensures
        s == (sc / 0x400) % 16,
{
    assert((sc & (0xFu32 << 10u32)) >> 10u32 == (sc / 0x400) % 16) by (bit_vector);
    (sc & portsc::SPEED_MASK) >> portsc::SPEED_SHIFT
}

/// What the port walk asks of the caller next.
#[derive(Clone, Copy, Debug, PartialEq, Eq, Structural)]
pub enum PortAction {
    /// Read PORTSC of `port` and hand the value to `PortInit::step`.
    Read { port: u8 },
    /// Store `value` to PORTSC of `port`, then read it back and hand the value
    /// to `PortInit::step`.
    WriteThenRead { port: u8, value: u32 },
    /// Every port is handled; `connected` of them had a device attached.
    Done { connected: u8 },
}

/// Where the walk is within the current port.
#[derive(Clone, Copy, Debug, PartialEq, Eq, Structural)]
pub enum PortPhase {
    /// The next value is the port's status.
    Status,
    /// A reset is under way; the next value is polled for Port Reset Change.
    Resetting,
    /// The reset change was acknowledged; the next value is the status after
    /// the reset.
    Reset,
    /// All ports are handled.
    Finished,
}

/// State of the walk over ports `1..=max_ports`: count the ports with a
/// device attached, and reset each such port that is not enabled (set Port
/// Power and Port Reset, wait for Port Reset Change, acknowledge it).
pub struct PortInit {
    pub max_ports: u8,
    pub port: u16,
    pub connected: u8,
    pub phase: PortPhase,
}

/// PORTSC value with Current Connect Status set.
pub open spec fn is_connected(sc: u32) -> bool {
    sc % 2 == 1
}

/// PORTSC value with Port Enabled set.
pub open spec fn is_enabled(sc: u32) -> bool {
    (sc / 2) % 2 == 1
}

/// PORTSC value with Port Reset Change set.
pub open spec fn reset_changed(sc: u32) -> bool {
    (sc / 0x20_0000) % 2 == 1
}

/// How the port walk reads and writes PORTSC: bit 0 (CCS) says a device is
/// attached, bit 1 (PED) that the port is enabled and bit 21 (PRC) that a
/// reset has completed, whatever the other bits hold; a port is reset by
/// storing its value with bits 9 (PP) and 4 (PR) set, and the reset change
/// is acknowledged by storing the value with bit 21 set.
pub proof fn lemma_portsc_bits(sc: u32)
    ensures
        is_connected(sc) == (sc & 0x1 != 0),
        is_enabled(sc) == (sc & 0x2 != 0),
        reset_changed(sc) == (sc & 0x20_0000 != 0),
        sc | portsc::PP | portsc::PR == sc | 0x210,
        sc | portsc::PRC == sc | 0x20_0000,
        portsc::CCS == 0x1,
        portsc::PED == 0x2,
        portsc::PRC == 0x20_0000,
{
    assert(portsc::CCS == 0x1 && portsc::PED == 0x2 && portsc::PP == 0x200 && portsc::PR == 0x10 && portsc::PRC
        == 0x20_0000 && (sc % 2 == 1) == (sc & 0x1 != 0) && ((sc / 2) % 2 == 1) == (sc & 0x2 != 0) && ((sc
        / 0x20_0000) % 2 == 1) == (sc & 0x20_0000 != 0) && sc | 0x200u32 | 0x10u32 == sc | 0x210u32) by (bit_vector)
        requires
            portsc::CCS == 1u32 << 0u32,
            portsc::PED == 1u32 << 1u32,
            portsc::PP == 1u32 << 9u32,
            portsc::PR == 1u32 << 4u32,
            portsc::PRC == 1u32 << 21u32,
    ;
}

impl PortInit {
    /// The port under way is a real port (or the walk is over), and the count
    /// covers only ports already looked at.
    pub open spec fn wf(&self) -> bool {
        &&& 1 <= self.port
        &&& self.phase == PortPhase::Finished ==> self.port == self.max_ports + 1
        &&& self.phase != PortPhase::Finished ==> self.port <= self.max_ports
        &&& self.connected <= self.port
        &&& (self.phase == PortPhase::Status || self.phase == PortPhase::Finished) ==> self.connected
            < self.port
    }

    /// The action that finishes port `port`: go on to the next port, or
    /// report the count after the last.
    pub open spec fn advance_action(max_ports: u8, port: u16, connected: u8) -> PortAction {
        if port < max_ports {
            PortAction::Read { port: (port + 1) as u8 }
        } else {
            PortAction::Done { connected }
        }
    }

    /// The walk has finished port `port` with `connected` counted: it is at
    /// the status of the next port, or finished after the last.
    pub open spec fn advanced(self, max_ports: u8, port: u16, connected: u8) -> bool {
        &&& self.max_ports == max_ports
        &&& self.connected == connected
        &&& self.port == port + 1
        &&& self.phase == if port < max_ports {
            PortPhase::Status
        } else {
            PortPhase::Finished
        }
    }

    /// Start the walk: read port 1, or report none when there are no ports.
    pub fn new(max_ports: u8) -> (r: (PortInit, PortAction))
        ensures
            r.0.wf(),
            r.0.max_ports == max_ports,
            r.0.connected == 0,
            max_ports == 0 ==> r.1 == (PortAction::Done { connected: 0 }) && r.0.port == 1 && r.0.phase
                == PortPhase::Finished,
            max_ports > 0 ==> r.1 == (PortAction::Read { port: 1 }) && r.0.port == 1 && r.0.phase == PortPhase::Status,
    {
        if max_ports == 0 {
            (PortInit { max_ports, port: 1, connected: 0, phase: PortPhase::Finished }, PortAction::Done { connected: 0 })
        } else {
            (PortInit { max_ports, port: 1, connected: 0, phase: PortPhase::Status }, PortAction::Read { port: 1 })
        }
    }

    fn advance(&mut self) -> (a: PortAction)
        requires
            1 <= old(self).port <= old(self).max_ports,
            old(self).connected <= old(self).port,
        ensures
            final(self).max_ports == old(self).max_ports,
            final(self).connected == old(self).connected,
            final(self).port == old(self).port + 1,
            a == Self::advance_action(old(self).max_ports, old(self).port, old(self).connected),
            old(self).port < old(self).max_ports ==> final(self).phase == PortPhase::Status,
            old(self).port >= old(self).max_ports ==> final(self).phase == PortPhase::Finished,
    {
        let p = self.port;
        self.port = self.port + 1;
        if p < self.max_ports as u16 {
            self.phase = PortPhase::Status;
            PortAction::Read { port: self.port as u8 }
        } else {
            self.phase = PortPhase::Finished;
            PortAction::Done { connected: self.connected }
        }
    }

    /// Take the PORTSC value the last action read and decide the next action.
    pub fn step(&mut self, sc: u32) -> (a: PortAction)
        requires
            old(self).wf(),
            old(self).phase != PortPhase::Finished,
        ensures
            final(self).wf(),
            final(self).max_ports == old(self).max_ports,
            a matches PortAction::Done { connected } ==> connected <= old(self).max_ports
                && final(self).phase == PortPhase::Finished,
            match old(self).phase {
                PortPhase::Status => if !is_connected(sc) {
                    final(self).advanced(old(self).max_ports, old(self).port, old(self).connected)
                        && a == Self::advance_action(old(self).max_ports, old(self).port, old(self).connected)
                } else if is_enabled(sc) {
                    final(self).advanced(old(self).max_ports, old(self).port, (old(self).connected + 1) as u8)
                        && a == Self::advance_action(old(self).max_ports, old(self).port, (old(self).connected + 1) as u8)
                } else {
                    final(self).connected == old(self).connected + 1
                        && final(self).port == old(self).port
                        && final(self).phase == PortPhase::Resetting
                        && a == (PortAction::WriteThenRead {
                            port: old(self).port as u8,
                            value: sc | portsc::PP | portsc::PR,
                        })
                },
                PortPhase::Resetting => final(self).connected == old(self).connected && if reset_changed(sc) {
                    final(self).port == old(self).port
                        && final(self).phase == PortPhase::Reset
                        && a == (PortAction::WriteThenRead { port: old(self).port as u8, value: sc | portsc::PRC })
                } else {
                    final(self).port == old(self).port
                        && final(self).phase == PortPhase::Resetting
                        && a == (PortAction::Read { port: old(self).port as u8 })
                },
                PortPhase::Reset => final(self).advanced(old(self).max_ports, old(self).port, old(self).connected)
                    && a == Self::advance_action(old(self).max_ports, old(self).port, old(self).connected),
                PortPhase::Finished => false,
            },
            old(self).phase == PortPhase::Status && sc & 0x1 == 0 ==> a == Self::advance_action(
                old(self).max_ports,
                old(self).port,
                old(self).connected,
            ),
            old(self).phase == PortPhase::Status && sc & 0x1 != 0 && sc & 0x2 != 0 ==> a == Self::advance_action(
                old(self).max_ports,
                old(self).port,
                (old(self).connected + 1) as u8,
            ),
            old(self).phase == PortPhase::Status && sc & 0x1 != 0 && sc & 0x2 == 0 ==> a == (PortAction::WriteThenRead {
                port: old(self).port as u8,
                value: sc | 0x210,
            }),
            old(self).phase == PortPhase::Resetting && sc & 0x20_0000 != 0 ==> a == (PortAction::WriteThenRead {
                port: old(self).port as u8,
                value: sc | 0x20_0000,
            }),
            old(self).phase == PortPhase::Resetting && sc & 0x20_0000 == 0 ==> a == (PortAction::Read {
                port: old(self).port as u8,
            }),
    {
        proof {
            lemma_portsc_bits(sc);
        }
        match self.phase {
            PortPhase::Status => {
                if sc & portsc::CCS == 0 {
                    return self.advance();
                }
                self.connected += 1;
                if sc & portsc::PED == 0 {
                    self.phase = PortPhase::Resetting;
                    PortAction::WriteThenRead { port: self.port as u8, value: sc | portsc::PP | portsc::PR }
                } else {
                    self.advance()
                }
            },
            PortPhase::Resetting => {
                if sc & portsc::PRC != 0 {
                    self.phase = PortPhase::Reset;
                    PortAction::WriteThenRead { port: self.port as u8, value: sc | portsc::PRC }
                } else {
                    PortAction::Read { port: self.port as u8 }
                }
            },
            _ => self.advance(),
        }
    }
}

/// The command and status bits the bring-up uses, where the xHCI
/// specification puts them: USBCMD Run/Stop is bit 0, Host Controller Reset
/// bit 1, Interrupter Enable bit 2 and Host System Error Enable bit 3, so the
/// start command is 0xD; USBSTS HCHalted is bit 0 and Controller Not Ready
/// bit 11.
pub proof fn lemma_command_bits()
    ensures
        usbcmd::RS == 0x1,
        usbcmd::HCRST == 0x2,
        usbcmd::INTE == 0x4,
        usbcmd::HSEE == 0x8,
        run_command() == 0xD,
        usbsts::HCH == 0x1,
        usbsts::CNR == 0x800,
{
    assert(usbcmd::RS == 0x1 && usbcmd::HCRST == 0x2 && usbcmd::INTE == 0x4 && usbcmd::HSEE == 0x8 && usbsts::HCH
        == 0x1 && usbsts::CNR == 0x800 && 0x1u32 | 0x4u32 | 0x8u32 == 0xDu32) by (bit_vector)
        requires
            usbcmd::RS == 1u32 << 0u32,
            usbcmd::HCRST == 1u32 << 1u32,
            usbcmd::INTE == 1u32 << 2u32,
            usbcmd::HSEE == 1u32 << 3u32,
            usbsts::HCH == 1u32 << 0u32,
            usbsts::CNR == 1u32 << 11u32,
    ;
}

/// The bring-up follows the order of the xHCI specification: stop (Run/Stop
/// cleared) and wait until halted; reset (Run/Stop still clear) and wait
/// until the reset completes
/// and the controller is ready; only then configure; start (Run/Stop set) as
/// the last store and wait until running. USBCMD is not written between the
/// reset and the start. (This needs the runtime registers to lie past the
/// start of the operational ones, as RTSOFF always does on real controllers.)
pub proof fn lemma_bring_up_order(
    regs: Registers,
    cmd: u32,
    max_slots: u8,
    dcbaa_phys: u64,
    cmd_ring_phys: u64,
    erst_phys: u64,
    event_ring_phys: u64,
)
    requires
        regs.wf(),
        regs.rt_offset > regs.op_offset,
    ensures
        ({
            let p = init_program(regs, cmd, max_slots, dcbaa_phys, cmd_ring_phys, erst_phys, event_ring_phys);
            let usbcmd_at = regs.spec_op_addr(0x00);
            let usbsts_at = regs.spec_op_addr(0x04);
            &&& p.len() == 19
            &&& p[0] matches MmioOp::Write(MmioWrite::U32 { addr, value }) && addr == usbcmd_at && value & usbcmd::RS == 0
            &&& p[1] == (MmioOp::WaitSet { addr: usbsts_at, mask: usbsts::HCH })
            &&& p[2] matches MmioOp::Write(MmioWrite::U32 { addr, value }) && addr == usbcmd_at && value & usbcmd::HCRST != 0
                && value & usbcmd::RS == 0
            &&& p[3] == (MmioOp::WaitClear { addr: usbcmd_at, mask: usbcmd::HCRST })
            &&& p[4] == (MmioOp::WaitClear { addr: usbsts_at, mask: usbsts::CNR })
            &&& forall|i: int| 5 <= i < 17 ==> !(#[trigger] p[i] matches MmioOp::Write(MmioWrite::U32 { addr, .. }) && addr == usbcmd_at)
            &&& p[17] matches MmioOp::Write(MmioWrite::U32 { addr, value }) && addr == usbcmd_at && value & usbcmd::RS != 0
            &&& p[18] == (MmioOp::WaitClear { addr: usbsts_at, mask: usbsts::HCH })
        }),
{
    let p = init_program(regs, cmd, max_slots, dcbaa_phys, cmd_ring_phys, erst_phys, event_ring_phys);
    assert((cmd & !usbcmd::RS) & usbcmd::RS == 0 && ((cmd & !usbcmd::RS) | usbcmd::HCRST) & usbcmd::HCRST != 0
        && ((cmd & !usbcmd::RS) | usbcmd::HCRST) & usbcmd::RS == 0
        && run_command() & usbcmd::RS != 0) by (bit_vector)
        requires
            usbcmd::RS == 1u32 << 0u32,
            usbcmd::HCRST == 1u32 << 1u32,
            run_command() == usbcmd::RS | usbcmd::INTE | usbcmd::HSEE;
    assert forall|i: int| 5 <= i < 17 implies !(#[trigger] p[i] matches MmioOp::Write(MmioWrite::U32 { addr, .. }) && addr == regs.spec_op_addr(0x00)) by {
        assert(regs.spec_rt_addr(0x20) != regs.spec_op_addr(0x00));
    }
}

} // verus!
