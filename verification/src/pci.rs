//! PCI configuration space decoding and bus enumeration.
//!
//! Configuration Mechanism #1 selects a dword of configuration space by writing
//! a 32-bit CONFIG_ADDRESS value to port 0xCF8 and then reading port 0xCFC.
//! The port access itself is a caller-supplied reader, `read(address)`, that
//! performs that pair of port operations. Everything else (address encoding,
//! register decoding, the bus scan, BAR decoding) is here.
//!
//! Contracts speak of a configuration space `space: spec_fn(u32) -> u32`, the
//! dword that each CONFIG_ADDRESS value selects, and hold for every `space`
//! that the reader agrees with (`reads_as`).
use vstd::prelude::*;
use crate::bits::lemma_u32_fields;

verus! {

/// I/O port of the CONFIG_ADDRESS register.
pub const CONFIG_ADDRESS: u16 = 0xCF8;

/// I/O port of the CONFIG_DATA register.
pub const CONFIG_DATA: u16 = 0xCFC;

/// Vendor ID read from a slot where no function responds.
pub const NO_VENDOR: u16 = 0xFFFF;

/// Configuration space as seen through CONFIG_ADDRESS values.
pub type ConfigSpace = spec_fn(u32) -> u32;

/// The reader answers every CONFIG_ADDRESS value as `space` does.
pub open spec fn reads_as<F: Fn(u32) -> u32>(read: F, space: ConfigSpace) -> bool {
    forall|a: u32, v: u32| #[trigger] call_ensures(read, (a,), v) ==> v == space(a)
}

/// The reader may be called with any address.
pub open spec fn total_reader<F: Fn(u32) -> u32>(read: F) -> bool {
    forall|a: u32| call_requires(read, (a,))
}

/// CONFIG_ADDRESS for a dword of configuration space: the enable bit (31),
/// then bus (bits 23..16), device (15..11, five bits), function (10..8, three
/// bits) and the dword-aligned register offset (7..2).
pub open spec fn spec_config_address(bus: u8, device: u8, function: u8, offset: u8) -> u32 {
    (0x8000_0000 + bus as int * 0x1_0000 + (device % 32) as int * 0x800 + (function % 8) as int
        * 0x100 + (offset - offset % 4)) as u32
}

/// Build the 32-bit CONFIG_ADDRESS value for Configuration Mechanism #1.
pub fn config_address(bus: u8, device: u8, function: u8, offset: u8) -> (r: u32)
    ensures
        r == spec_config_address(bus, device, function, offset),
{
    let r = 0x8000_0000u32 | ((bus as u32) << 16u32) | (((device & 0x1F) as u32) << 11u32) | (((
    function & 0x7) as u32) << 8u32) | (offset as u32 & 0xFC);
    assert(r == spec_config_address(bus, device, function, offset)) by (bit_vector)
        requires
            r == 0x8000_0000u32 | ((bus as u32) << 16u32) | (((device & 0x1F) as u32) << 11u32) | (((
            function & 0x7) as u32) << 8u32) | (offset as u32 & 0xFC),
    ;
    r
}

/// Each field of a CONFIG_ADDRESS value can be read back: bit 31 is the
/// enable bit, bits 24..31 are clear, bits 16..24 hold the bus, bits 11..16
/// the device (modulo 32), bits 8..11 the function (modulo 8) and bits 0..8
/// the register offset rounded down to a dword.
pub proof fn lemma_config_address_fields(bus: u8, device: u8, function: u8, offset: u8)
    ensures
        ({
            let a = spec_config_address(bus, device, function, offset);
            &&& a >> 31u32 == 1
            &&& (a >> 24u32) & 0x7F == 0
            &&& (a >> 16u32) & 0xFF == bus as u32
            &&& (a >> 11u32) & 0x1F == device as u32 % 32
            &&& (a >> 8u32) & 0x7 == function as u32 % 8
            &&& a & 0xFF == offset as u32 - offset as u32 % 4
        }),
{
    let a = spec_config_address(bus, device, function, offset);
    assert(a >> 31u32 == 1 && (a >> 24u32) & 0x7F == 0 && (a >> 16u32) & 0xFF == bus as u32 && (a >> 11u32)
        & 0x1F == device as u32 % 32 && (a >> 8u32) & 0x7 == function as u32 % 8 && a & 0xFF == offset as u32
        - offset as u32 % 4) by (bit_vector)
        requires
            a == spec_config_address(bus, device, function, offset),
    ;
}

/// A typed handle on the configuration space of one device/function.
#[derive(Clone, Copy, Debug, PartialEq, Eq, Structural)]
pub struct PciConfig {
    pub bus: u8,
    pub device: u8,
    pub function: u8,
}

/// A port write that stores `data` at the configuration dword selected by
/// `address` (CONFIG_ADDRESS, then CONFIG_DATA).
#[derive(Clone, Copy, Debug, PartialEq, Eq, Structural)]
pub struct ConfigWrite {
    pub address: u32,
    pub data: u32,
}

/// The dword at `offset` in the configuration space of `cfg`.
pub open spec fn dword(space: ConfigSpace, cfg: PciConfig, offset: u8) -> u32 {
    space(spec_config_address(cfg.bus, cfg.device, cfg.function, offset))
}

pub open spec fn spec_vendor_id(space: ConfigSpace, cfg: PciConfig) -> u16 {
    (dword(space, cfg, 0x00) % 0x1_0000) as u16
}

pub open spec fn spec_device_id(space: ConfigSpace, cfg: PciConfig) -> u16 {
    (dword(space, cfg, 0x00) / 0x1_0000) as u16
}

pub open spec fn spec_header_type(space: ConfigSpace, cfg: PciConfig) -> u8 {
    ((dword(space, cfg, 0x0C) / 0x1_0000) % 0x100) as u8
}

pub open spec fn spec_class_info(space: ConfigSpace, cfg: PciConfig) -> (u8, u8, u8) {
    let d = dword(space, cfg, 0x08);
    ((d / 0x100_0000) as u8, ((d / 0x1_0000) % 0x100) as u8, ((d / 0x100) % 0x100) as u8)
}

/// The header fields sit where the PCI specification puts them: vendor ID in
/// bits 0..16 of dword 0 and device ID in bits 16..32; header type in bits
/// 16..24 of dword 0x0C; class code, subclass and programming interface in
/// bits 24..32, 16..24 and 8..16 of dword 0x08.
pub proof fn lemma_header_fields(space: ConfigSpace, cfg: PciConfig)
    ensures
        spec_vendor_id(space, cfg) as u32 == dword(space, cfg, 0x00) & 0xFFFF,
        spec_device_id(space, cfg) as u32 == dword(space, cfg, 0x00) >> 16u32,
        spec_header_type(space, cfg) as u32 == (dword(space, cfg, 0x0C) >> 16u32) & 0xFF,
        spec_class_info(space, cfg).0 as u32 == dword(space, cfg, 0x08) >> 24u32,
        spec_class_info(space, cfg).1 as u32 == (dword(space, cfg, 0x08) >> 16u32) & 0xFF,
        spec_class_info(space, cfg).2 as u32 == (dword(space, cfg, 0x08) >> 8u32) & 0xFF,
{
    let d0 = dword(space, cfg, 0x00);
    let d8 = dword(space, cfg, 0x08);
    let dc = dword(space, cfg, 0x0C);
    lemma_u32_fields(d0);
    lemma_u32_fields(d8);
    lemma_u32_fields(dc);
}

/// Decoded PCI Base Address Register.
#[allow(inconsistent_fields)]
#[derive(Clone, Copy, Debug, PartialEq, Eq, Structural)]
pub enum Bar {
    /// I/O port BAR.
    Io { port: u16 },
    /// 32-bit memory-mapped BAR.
    Memory32 { base: u32, prefetchable: bool },
    /// 64-bit memory-mapped BAR (two consecutive 32-bit registers).
    Memory64 { base: u64, prefetchable: bool },
    /// Unrecognised BAR type.
    Unknown { raw: u32 },
}

/// The BAR that register value `raw` describes; `high` is the following
/// register, which holds the upper half of a 64-bit memory BAR.
pub open spec fn decode_bar(raw: u32, high: u32) -> Bar {
    if raw % 2 == 1 {
        Bar::Io { port: ((raw - raw % 4) % 0x1_0000) as u16 }
    } else {
        let ty = (raw / 2) % 4;
        let prefetchable = (raw / 8) % 2 == 1;
        let addr32 = (raw - raw % 16) as u32;
        if ty == 0 {
            Bar::Memory32 { base: addr32, prefetchable }
        } else if ty == 2 {
            Bar::Memory64 { base: (high as int * 0x1_0000_0000 + addr32) as u64, prefetchable }
        } else {
            Bar::Unknown { raw }
        }
    }
}

/// Register offset of BAR `bar_index`.
pub open spec fn bar_offset(bar_index: u8) -> int {
    0x10 + bar_index * 4
}

/// The BAR at `bar_index` in the configuration space of `cfg`.
pub open spec fn spec_read_bar(space: ConfigSpace, cfg: PciConfig, bar_index: u8) -> Bar {
    let off = bar_offset(bar_index);
    decode_bar(dword(space, cfg, off as u8), dword(space, cfg, (off + 4) as u8))
}

/// Whether a BAR register value marks a 64-bit memory BAR.
pub open spec fn is_memory64_raw(raw: u32) -> bool {
    raw % 2 == 0 && (raw / 2) % 4 == 2
}

/// `read_bar` stays inside the 256-byte configuration space: the register
/// offset fits in a byte, and where the register after it would not, the
/// reader never reports a 64-bit memory BAR there.
pub open spec fn bar_readable<F: Fn(u32) -> u32>(read: F, cfg: PciConfig, bar_index: u8) -> bool {
    &&& bar_offset(bar_index) <= 0xFF
    &&& (bar_offset(bar_index) + 4 > 0xFF ==> forall|v: u32|
        #[trigger] call_ensures(
            read,
            (spec_config_address(cfg.bus, cfg.device, cfg.function, bar_offset(bar_index) as u8),),
            v,
        ) ==> !is_memory64_raw(v))
}

impl Bar {
    /// Physical base address of a memory BAR.
    pub open spec fn spec_memory_base(self) -> Option<u64> {
        match self {
            Bar::Memory32 { base, .. } => Some(base as u64),
            Bar::Memory64 { base, .. } => Some(base),
            _ => None,
        }
    }

    /// Physical base address for a memory BAR, or `None` for I/O / unknown.
    pub fn memory_base(&self) -> (r: Option<u64>)
        ensures
            r == self.spec_memory_base(),
    {
        match self {
            Bar::Memory32 { base, .. } => Some(*base as u64),
            Bar::Memory64 { base, .. } => Some(*base),
            _ => None,
        }
    }
}

/// Decode a BAR register pair (see `decode_bar`).
fn bar_from_raw(raw: u32, high: u32) -> (r: Bar)
    ensures
        r == decode_bar(raw, high),
{
    if raw & 0x1 == 1 {
        let port = (raw & 0xFFFFFFFC) as u16;
        assert(raw & 0x1 == raw % 2 && (raw & 0xFFFFFFFC) as u16 == ((raw - raw % 4) % 0x1_0000) as u16)
            by (bit_vector);
        Bar::Io { port }
    } else {
        let ty = (raw >> 1u32) & 0x3;
        let prefetchable = (raw >> 3u32) & 0x1 == 1;
        let addr32 = raw & 0xFFFFFFF0;
        assert(raw & 0x1 == raw % 2 && (raw >> 1u32) & 0x3 == (raw / 2) % 4 && (raw >> 3u32) & 0x1
            == (raw / 8) % 2 && raw & 0xFFFFFFF0 == raw - raw % 16) by (bit_vector);
        if ty == 0 {
            Bar::Memory32 { base: addr32, prefetchable }
        } else if ty == 2 {
            let base64 = addr32 as u64 | ((high as u64) << 32u64);
            assert(addr32 as u64 | ((high as u64) << 32u64) == high as u64 * 0x1_0000_0000u64
                + addr32 as u64) by (bit_vector);
            Bar::Memory64 { base: base64, prefetchable }
        } else {
            Bar::Unknown { raw }
        }
    }
}

impl PciConfig {
    /// Construct a config-space handle. No I/O is performed until a read.
    pub fn new(bus: u8, device: u8, function: u8) -> (r: Self)
        ensures
            r == (PciConfig { bus, device, function }),
    {
        Self { bus, device, function }
    }

    /// Read the 32-bit word at `offset` (must be 4-byte aligned) through `read`.
    pub fn read32<F: Fn(u32) -> u32>(&self, read: &F, offset: u8) -> (r: u32)
        requires
            total_reader(*read),
            offset % 4 == 0,
        ensures
            call_ensures(
                *read,
                (spec_config_address(self.bus, self.device, self.function, offset),),
                r,
            ),
            forall|space: ConfigSpace| #[trigger]
                reads_as(*read, space) ==> r == dword(space, *self, offset),
    {
        let addr = config_address(self.bus, self.device, self.function, offset);
        read(addr)
    }

    /// The port writes that store `value` at `offset` (must be 4-byte aligned).
    pub fn write32(&self, offset: u8, value: u32) -> (w: ConfigWrite)
        requires
            offset % 4 == 0,
        ensures
            w == (ConfigWrite {
                address: spec_config_address(self.bus, self.device, self.function, offset),
                data: value,
            }),
    {
        ConfigWrite {
            address: config_address(self.bus, self.device, self.function, offset),
            data: value,
        }
    }

    /// Vendor ID (offset 0x00, low 16 bits).
    pub fn vendor_id<F: Fn(u32) -> u32>(&self, read: &F) -> (r: u16)
        requires
            total_reader(*read),
        ensures
            forall|space: ConfigSpace| #[trigger]
                reads_as(*read, space) ==> r == spec_vendor_id(space, *self),
    {
        let d = self.read32(read, 0x00);
        proof {
            lemma_u32_fields(d);
        }
        (d & 0xFFFF) as u16
    }

    /// Device ID (offset 0x00, high 16 bits).
    pub fn device_id<F: Fn(u32) -> u32>(&self, read: &F) -> (r: u16)
        requires
            total_reader(*read),
        ensures
            forall|space: ConfigSpace| #[trigger]
                reads_as(*read, space) ==> r == spec_device_id(space, *self),
    {
        let d = self.read32(read, 0x00);
        proof {
            lemma_u32_fields(d);
        }
        ((d >> 16u32) & 0xFFFF) as u16
    }

    /// Header type (bits 23..16 of the dword at 0x0C).
    pub fn header_type<F: Fn(u32) -> u32>(&self, read: &F) -> (r: u8)
        requires
            total_reader(*read),
        ensures
            forall|space: ConfigSpace| #[trigger]
                reads_as(*read, space) ==> r == spec_header_type(space, *self),
    {
        let d = self.read32(read, 0x0C);
        proof {
            lemma_u32_fields(d);
        }
        ((d >> 16u32) & 0xFF) as u8
    }

    /// Class code tuple `(class, subclass, prog-if)`, from offset 0x08.
    pub fn class_info<F: Fn(u32) -> u32>(&self, read: &F) -> (r: (u8, u8, u8))
        requires
            total_reader(*read),
        ensures
            forall|space: ConfigSpace| #[trigger]
                reads_as(*read, space) ==> r == spec_class_info(space, *self),
    {
        let dword = self.read32(read, 0x08);
        let class = ((dword >> 24u32) & 0xFF) as u8;
        let subclass = ((dword >> 16u32) & 0xFF) as u8;
        let prog_if = ((dword >> 8u32) & 0xFF) as u8;
        proof {
            lemma_u32_fields(dword);
        }
        (class, subclass, prog_if)
    }

    /// Read BAR `bar_index` (offset 0x10 + 4 * index); a 64-bit memory BAR
    /// also reads the following register for its upper half.
    pub fn read_bar<F: Fn(u32) -> u32>(&self, read: &F, bar_index: u8) -> (r: Bar)
        requires
            total_reader(*read),
            bar_readable(*read, *self, bar_index),
        ensures
            forall|space: ConfigSpace| #[trigger]
                reads_as(*read, space) ==> r == spec_read_bar(space, *self, bar_index),
    {
        let offset = 0x10 + bar_index * 4;
        let raw = self.read32(read, offset);
        if raw & 0x1 == 0 && (raw >> 1u32) & 0x3 == 0x2 {
            assert(raw & 0x1 == 0 && (raw >> 1u32) & 0x3 == 0x2 ==> is_memory64_raw(raw))
                by (bit_vector);
            let high = self.read32(read, offset + 4);
            bar_from_raw(raw, high)
        } else {
            let r = bar_from_raw(raw, 0);
            assert(raw & 0x1 == 0 && (raw >> 1u32) & 0x3 == 0x2 <== is_memory64_raw(raw))
                by (bit_vector);
            r
        }
    }
}

/// A discovered PCI device.
#[derive(Clone, Copy, Debug)]
pub struct Device {
    pub bus: u8,
    pub device: u8,
    pub function: u8,
    pub vendor_id: u16,
    pub device_id: u16,
    pub class: u8,
    pub subclass: u8,
    pub prog_if: u8,
    pub header_type: u8,
    pub bars: [Option<Bar>; 6],
}

/// Number of BAR registers in a type-0 header.
pub const BAR_COUNT: usize = 6;

/// Slot `i` of a device's BAR table: the decoded BAR, or `None` where the
/// register holds the upper half of the 64-bit memory BAR before it.
pub open spec fn bar_at(space: ConfigSpace, cfg: PciConfig, i: nat) -> Option<Bar>
    decreases i,
{
    if i > 0 && bar_at(space, cfg, (i - 1) as nat) matches Some(Bar::Memory64 { .. }) {
        None
    } else {
        Some(spec_read_bar(space, cfg, i as u8))
    }
}

/// `d` is the record of function `cfg` in configuration space `space`.
pub open spec fn device_matches(d: Device, space: ConfigSpace, cfg: PciConfig) -> bool {
    let (class, subclass, prog_if) = spec_class_info(space, cfg);
    &&& d.bus == cfg.bus
    &&& d.device == cfg.device
    &&& d.function == cfg.function
    &&& d.vendor_id == spec_vendor_id(space, cfg)
    &&& d.device_id == spec_device_id(space, cfg)
    &&& d.class == class
    &&& d.subclass == subclass
    &&& d.prog_if == prog_if
    &&& d.header_type == spec_header_type(space, cfg)
    &&& forall|i: int| 0 <= i < BAR_COUNT ==> #[trigger] d.bars@[i] == bar_at(space, cfg, i as nat)
}

/// A function responds when its vendor ID is not all ones.
pub open spec fn present(space: ConfigSpace, cfg: PciConfig) -> bool {
    spec_vendor_id(space, cfg) != NO_VENDOR
}

/// The responding functions `1..f` of a multi-function device, in order.
pub open spec fn extra_functions(space: ConfigSpace, bus: u8, device: u8, f: nat) -> Seq<PciConfig>
    decreases f,
{
    if f <= 1 {
        Seq::empty()
    } else {
        let cfg = PciConfig { bus, device, function: (f - 1) as u8 };
        extra_functions(space, bus, device, (f - 1) as nat) + if present(space, cfg) {
            seq![cfg]
        } else {
            Seq::empty()
        }
    }
}

/// The functions found at one bus/device slot: none if function 0 does not
/// respond; function 0, then the responding functions 1..7 when its header
/// type marks it multi-function (bit 7).
pub open spec fn slot_functions(space: ConfigSpace, bus: u8, device: u8) -> Seq<PciConfig> {
    let f0 = PciConfig { bus, device, function: 0 };
    if !present(space, f0) {
        Seq::empty()
    } else if spec_header_type(space, f0) & 0x80 != 0 {
        seq![f0] + extra_functions(space, bus, device, 8)
    } else {
        seq![f0]
    }
}

/// Number of bus/device slots scanned: 256 buses of 32 devices.
pub open spec fn slot_count() -> nat {
    256 * 32
}

/// The functions found in the first `n` slots, in bus-major order.
pub open spec fn scan_prefix(space: ConfigSpace, n: nat) -> Seq<PciConfig>
    decreases n,
{
    if n == 0 {
        Seq::empty()
    } else {
        let k = (n - 1) as nat;
        scan_prefix(space, k) + slot_functions(space, (k / 32) as u8, (k % 32) as u8)
    }
}

/// `devices` are, in order, the records of the functions `cfgs`.
pub open spec fn records_of(devices: Seq<Device>, space: ConfigSpace, cfgs: Seq<PciConfig>) -> bool {
    &&& devices.len() == cfgs.len()
    &&& forall|i: int| 0 <= i < cfgs.len() ==> device_matches(#[trigger] devices[i], space, cfgs[i])
}

/// Read the BAR table of `cfg`, leaving the upper half of each 64-bit memory
/// BAR empty.
fn read_bars<F: Fn(u32) -> u32>(cfg: &PciConfig, read: &F) -> (bars: [Option<Bar>; 6])
    requires
        total_reader(*read),
    ensures
        forall|space: ConfigSpace| #[trigger]
            reads_as(*read, space) ==> forall|i: int|
                0 <= i < BAR_COUNT ==> #[trigger] bars@[i] == bar_at(space, *cfg, i as nat),
{
    let mut bars: [Option<Bar>; 6] = [None; 6];
    let mut bar_idx: u8 = 0;
    while bar_idx < 6
        invariant
            total_reader(*read),
            bar_idx <= 7,
            forall|space: ConfigSpace| #[trigger]
                reads_as(*read, space) ==> {
                    &&& forall|i: int|
                        0 <= i < bar_idx && i < BAR_COUNT ==> #[trigger] bars@[i] == bar_at(
                            space,
                            *cfg,
                            i as nat,
                        )
                    &&& (0 < bar_idx < BAR_COUNT ==> !(bar_at(space, *cfg, (bar_idx - 1) as nat) matches Some(Bar::Memory64 { .. })))
                },
            forall|i: int| bar_idx <= i < BAR_COUNT ==> #[trigger] bars@[i] == None::<Bar>,
        decreases 7 - bar_idx,
    {
        let bar = cfg.read_bar(read, bar_idx);
        let is_64bit = matches!(bar, Bar::Memory64 { .. });
        bars[bar_idx as usize] = Some(bar);
        bar_idx += 1;
        if is_64bit {
            bar_idx += 1;
        }
        assert forall|space: ConfigSpace| #[trigger] reads_as(*read, space) implies {
            &&& forall|i: int|
                0 <= i < bar_idx && i < BAR_COUNT ==> #[trigger] bars@[i] == bar_at(space, *cfg, i as nat)
            &&& (0 < bar_idx < BAR_COUNT ==> !(bar_at(space, *cfg, (bar_idx - 1) as nat) matches Some(Bar::Memory64 { .. })))
        } by {
            let k: int = if is_64bit { bar_idx - 2 } else { bar_idx - 1 };
            assert(bar_at(space, *cfg, k as nat) == Some(bar));
            if is_64bit && k + 1 < BAR_COUNT {
                assert(bar_at(space, *cfg, (k + 1) as nat) == None::<Bar>);
            }
        }
    }
    bars
}

/// Read the record of function `cfg`, whose vendor ID is `vendor_id`.
fn device_record<F: Fn(u32) -> u32>(cfg: PciConfig, read: &F, vendor_id: u16) -> (d: Device)
    requires
        total_reader(*read),
        forall|space: ConfigSpace| #[trigger]
            reads_as(*read, space) ==> vendor_id == spec_vendor_id(space, cfg),
    ensures
        forall|space: ConfigSpace| #[trigger]
            reads_as(*read, space) ==> device_matches(d, space, cfg),
{
    let header_type = cfg.header_type(read);
    let (class, subclass, prog_if) = cfg.class_info(read);
    let device_id = cfg.device_id(read);
    let bars = read_bars(&cfg, read);
    Device {
        bus: cfg.bus,
        device: cfg.device,
        function: cfg.function,
        vendor_id,
        device_id,
        class,
        subclass,
        prog_if,
        header_type,
        bars,
    }
}

/// Append the functions found at one bus/device slot.
fn scan_slot<F: Fn(u32) -> u32>(read: &F, bus: u8, device: u8, devices: &mut Vec<Device>)
    requires
        total_reader(*read),
    ensures
        forall|space: ConfigSpace| #[trigger]
            reads_as(*read, space) ==> forall|cfgs: Seq<PciConfig>|
                #[trigger] records_of(old(devices)@, space, cfgs) ==> records_of(
                    final(devices)@,
                    space,
                    cfgs + slot_functions(space, bus, device),
                ),
{
    let cfg = PciConfig::new(bus, device, 0);
    let vid = cfg.vendor_id(read);
    if vid == 0xFFFF {
        assert forall|space: ConfigSpace| #[trigger] reads_as(*read, space) implies forall|
            cfgs: Seq<PciConfig>,
        |
            #[trigger] records_of(old(devices)@, space, cfgs) ==> records_of(
                devices@,
                space,
                cfgs + slot_functions(space, bus, device),
            ) by {
            assert forall|cfgs: Seq<PciConfig>| #[trigger]
                records_of(old(devices)@, space, cfgs) implies records_of(
                devices@,
                space,
                cfgs + slot_functions(space, bus, device),
            ) by {
                assert(cfgs + slot_functions(space, bus, device) =~= cfgs);
            }
        }
        return;
    }
    let d0 = device_record(cfg, read, vid);
    let header_type = d0.header_type;
    devices.push(d0);
    let ghost after_f0 = devices@;
    if header_type & 0x80 != 0 {
        let mut function: u8 = 1;
        while function < 8
            invariant
                total_reader(*read),
                1 <= function <= 8,
                forall|space: ConfigSpace| #[trigger]
                    reads_as(*read, space) ==> forall|cfgs: Seq<PciConfig>|
                        #[trigger] records_of(old(devices)@, space, cfgs) ==> records_of(
                            devices@,
                            space,
                            cfgs + seq![cfg] + extra_functions(space, bus, device, function as nat),
                        ),
            decreases 8 - function,
        {
            let c = PciConfig::new(bus, device, function);
            let vid = c.vendor_id(read);
            if vid != 0xFFFF {
                let d = device_record(c, read, vid);
                devices.push(d);
            }
            proof {
                assert forall|space: ConfigSpace| #[trigger] reads_as(*read, space) implies forall|
                    cfgs: Seq<PciConfig>,
                |
                    #[trigger] records_of(old(devices)@, space, cfgs) ==> records_of(
                        devices@,
                        space,
                        cfgs + seq![cfg] + extra_functions(space, bus, device, (function + 1) as nat),
                    ) by {
                    assert forall|cfgs: Seq<PciConfig>| #[trigger]
                        records_of(old(devices)@, space, cfgs) implies records_of(
                        devices@,
                        space,
                        cfgs + seq![cfg] + extra_functions(space, bus, device, (function + 1) as nat),
                    ) by {
                        let prev = cfgs + seq![cfg] + extra_functions(space, bus, device, function as nat);
                        let next = cfgs + seq![cfg] + extra_functions(space, bus, device, (function + 1) as nat);
                        if present(space, c) {
                            assert(next =~= prev.push(c));
                        } else {
                            assert(next =~= prev);
                        }
                    }
                }
            }
            function += 1;
        }
    }
    proof {
        assert forall|space: ConfigSpace| #[trigger] reads_as(*read, space) implies forall|
            cfgs: Seq<PciConfig>,
        |
            #[trigger] records_of(old(devices)@, space, cfgs) ==> records_of(
                devices@,
                space,
                cfgs + slot_functions(space, bus, device),
            ) by {
            assert forall|cfgs: Seq<PciConfig>| #[trigger]
                records_of(old(devices)@, space, cfgs) implies records_of(
                devices@,
                space,
                cfgs + slot_functions(space, bus, device),
            ) by {
                if header_type & 0x80 != 0 {
                    assert(cfgs + slot_functions(space, bus, device) =~= cfgs + seq![cfg]
                        + extra_functions(space, bus, device, 8));
                } else {
                    assert(cfgs + slot_functions(space, bus, device) =~= cfgs + seq![cfg]);
                    assert(records_of(devices@, space, cfgs + seq![cfg]));
                }
            }
        }
    }
}

/// Scan all 256 buses of 32 devices and return every responding function in
/// bus/device/function order; functions 1..7 are visited only for
/// multi-function devices (header type bit 7).
pub fn enumerate<F: Fn(u32) -> u32>(read: &F) -> (devices: Vec<Device>)
    requires
        total_reader(*read),
    ensures
        forall|space: ConfigSpace| #[trigger]
            reads_as(*read, space) ==> records_of(devices@, space, scan_prefix(space, slot_count())),
{
    let mut devices: Vec<Device> = Vec::new();
    let mut bus: u16 = 0;
    while bus < 256
        invariant
            total_reader(*read),
            bus <= 256,
            forall|space: ConfigSpace| #[trigger]
                reads_as(*read, space) ==> records_of(devices@, space, scan_prefix(space, bus as nat * 32)),
        decreases 256 - bus,
    {
        let mut device: u8 = 0;
        while device < 32
            invariant
                total_reader(*read),
                bus < 256,
                device <= 32,
                forall|space: ConfigSpace| #[trigger]
                    reads_as(*read, space) ==> records_of(
                        devices@,
                        space,
                        scan_prefix(space, bus as nat * 32 + device as nat),
                    ),
            decreases 32 - device,
        {
            let ghost before = devices@;
            scan_slot(read, bus as u8, device, &mut devices);
            proof {
                assert forall|space: ConfigSpace| #[trigger] reads_as(*read, space) implies records_of(
                    devices@,
                    space,
                    scan_prefix(space, bus as nat * 32 + device as nat + 1),
                ) by {
                    let k = bus as nat * 32 + device as nat;
                    assert(k / 32 == bus as nat && k % 32 == device as nat) by (nonlinear_arith)
                        requires k == bus as nat * 32 + device as nat, device < 32;
                    assert(records_of(before, space, scan_prefix(space, k)));
                }
            }
            device += 1;
        }
        bus += 1;
    }
    devices
}

/// Class 0x0C (serial bus), subclass 0x03 (USB), prog-if 0x30 (xHCI).
pub open spec fn is_xhci(d: Device) -> bool {
    d.class == 0x0C && d.subclass == 0x03 && d.prog_if == 0x30
}

/// The xHCI controllers among `devices`, in order.
pub open spec fn xhci_devices(devices: Seq<Device>) -> Seq<Device>
    decreases devices.len(),
{
    if devices.len() == 0 {
        Seq::empty()
    } else {
        xhci_devices(devices.drop_last()) + if is_xhci(devices.last()) {
            seq![devices.last()]
        } else {
            Seq::empty()
        }
    }
}

/// Filter `devices` for xHCI controllers: class 0x0C, subclass 0x03, prog-if 0x30.
pub fn find_xhci(devices: &[Device]) -> (r: Vec<&Device>)
    ensures
        r@.map_values(|d: &Device| *d) == xhci_devices(devices@),
        r@.len() == xhci_devices(devices@).len(),
        forall|i: int| 0 <= i < r@.len() ==> *#[trigger] r@[i] == xhci_devices(devices@)[i],
        r@.map_values(|d: &Device| *d) == devices@.filter(
            |d: Device| d.class == 0x0C && d.subclass == 0x03 && d.prog_if == 0x30,
        ),
        forall|i: int|
            0 <= i < r@.len() ==> #[trigger] r@[i].class == 0x0C && r@[i].subclass == 0x03 && r@[i].prog_if
                == 0x30,
{
    let mut r: Vec<&Device> = Vec::new();
    let mut i: usize = 0;
    while i < devices.len()
        invariant
            i <= devices@.len(),
            r@.map_values(|d: &Device| *d) == xhci_devices(devices@.subrange(0, i as int)),
        decreases devices@.len() - i,
    {
        let d = &devices[i];
        proof {
            let s = devices@.subrange(0, i as int + 1);
            assert(s.drop_last() =~= devices@.subrange(0, i as int));
        }
        if d.class == 0x0C && d.subclass == 0x03 && d.prog_if == 0x30 {
            r.push(d);
        }
        assert(r@.map_values(|d: &Device| *d) =~= xhci_devices(devices@.subrange(0, i as int + 1)));
        i += 1;
    }
    assert(devices@.subrange(0, devices@.len() as int) =~= devices@);
    assert forall|i: int| 0 <= i < r@.len() implies *#[trigger] r@[i] == xhci_devices(devices@)[i] by {
        assert(r@.map_values(|d: &Device| *d)[i] == *r@[i]);
    }
    proof {
        lemma_xhci_selection(devices@);
    }
    r
}

/// How a BAR register is read. Bit 0 set marks an I/O BAR, whose port is the
/// register's low sixteen bits with only the two flag bits cleared. Otherwise
/// bits 1 and 2 give the memory type: 0 a 32-bit base, 2 a 64-bit base whose
/// upper half is the next register, 1 and 3 are unknown types. A memory base
/// is the register with its four flag bits cleared, and bit 3 is the
/// prefetchable flag.
pub proof fn lemma_bar_decoding(raw: u32, high: u32)
    ensures
        raw & 1 == 1 ==> decode_bar(raw, high) == (Bar::Io { port: ((raw % 0x1_0000) - raw % 4) as u16 }),
        raw & 7 == 0 ==> decode_bar(raw, high) == (Bar::Memory32 {
            base: raw & 0xFFFF_FFF0,
            prefetchable: raw & 8 != 0,
        }),
        raw & 7 == 4 ==> decode_bar(raw, high) == (Bar::Memory64 {
            base: ((high as u64) << 32u64) | ((raw & 0xFFFF_FFF0) as u64),
            prefetchable: raw & 8 != 0,
        }),
        raw & 7 == 2 || raw & 7 == 6 ==> decode_bar(raw, high) == (Bar::Unknown { raw }),
{
    let h = high as u64;
    let l = (raw & 0xFFFF_FFF0) as u64;
    assert((raw & 1 == 1 ==> raw % 2 == 1 && (raw - raw % 4) % 0x1_0000 == (raw % 0x1_0000) - raw % 4) && (raw
        & 7 == 0 ==> raw % 2 == 0 && (raw / 2) % 4 == 0) && (raw & 7 == 4 ==> raw % 2 == 0 && (raw / 2) % 4 == 2)
        && (raw & 7 == 2 || raw & 7 == 6 ==> raw % 2 == 0 && ((raw / 2) % 4 == 1 || (raw / 2) % 4 == 3)) && raw
        & 0xFFFF_FFF0 == raw - raw % 16 && ((raw / 8) % 2 == 1) == (raw & 8 != 0) && (h < 0x1_0000_0000 && l
        < 0x1_0000_0000 ==> (h << 32u64) | l == h * 0x1_0000_0000 + l)) by (bit_vector);
}

/// `find_xhci` keeps exactly the USB 3 (xHCI) controllers: the devices of
/// class 0x0C (serial bus), subclass 0x03 (USB) and prog-if 0x30, in the order
/// of the scan. USB controllers with another interface (UHCI 0x00, OHCI 0x10,
/// EHCI 0x20) and every other device are left out.
pub proof fn lemma_xhci_selection(devices: Seq<Device>)
    ensures
        xhci_devices(devices) == devices.filter(
            |d: Device| d.class == 0x0C && d.subclass == 0x03 && d.prog_if == 0x30,
        ),
        forall|i: int|
            0 <= i < xhci_devices(devices).len() ==> {
                let d = #[trigger] xhci_devices(devices)[i];
                d.class == 0x0C && d.subclass == 0x03 && d.prog_if == 0x30
            },
        forall|i: int|
            0 <= i < devices.len() && devices[i].class == 0x0C && devices[i].subclass == 0x03
                && devices[i].prog_if == 0x30 ==> xhci_devices(devices).contains(#[trigger] devices[i]),
{
    let pred = |d: Device| d.class == 0x0C && d.subclass == 0x03 && d.prog_if == 0x30;
    lemma_xhci_devices_filter(devices, pred);
    assert forall|i: int| 0 <= i < xhci_devices(devices).len() implies {
        let d = #[trigger] xhci_devices(devices)[i];
        d.class == 0x0C && d.subclass == 0x03 && d.prog_if == 0x30
    } by {
        devices.lemma_filter_pred(pred, i);
    }
    assert forall|i: int|
        0 <= i < devices.len() && devices[i].class == 0x0C && devices[i].subclass == 0x03
            && devices[i].prog_if == 0x30 implies xhci_devices(devices).contains(#[trigger] devices[i]) by {
        devices.lemma_filter_contains(pred, i);
    }
}

proof fn lemma_xhci_devices_filter(devices: Seq<Device>, pred: spec_fn(Device) -> bool)
    requires
        forall|d: Device| #[trigger] pred(d) == is_xhci(d),
    ensures
        xhci_devices(devices) == devices.filter(pred),
    decreases devices.len(),
{
    if devices.len() > 0 {
        lemma_xhci_devices_filter(devices.drop_last(), pred);
        reveal(Seq::filter);
        let rest = devices.drop_last().filter(pred);
        assert(pred(devices.last()) == is_xhci(devices.last()));
        if is_xhci(devices.last()) {
            assert(devices.filter(pred) == rest.push(devices.last()));
            assert(xhci_devices(devices) =~= rest.push(devices.last()));
        } else {
            assert(devices.filter(pred) == rest);
            assert(xhci_devices(devices) =~= rest);
        }
    }
}

/// Short name of a PCI class/subclass pair.
pub open spec fn spec_class_name(class: u8, subclass: u8) -> &'static str {
    if class == 0x00 && subclass == 0x00 {
        "Non-VGA"
    } else if class == 0x00 && subclass == 0x01 {
        "VGA Compatible"
    } else if class == 0x01 && subclass == 0x00 {
        "SCSI"
    } else if class == 0x01 && subclass == 0x01 {
        "IDE"
    } else if class == 0x01 && subclass == 0x06 {
        "SATA"
    } else if class == 0x01 && subclass == 0x07 {
        "SAS"
    } else if class == 0x02 && subclass == 0x00 {
        "Ethernet"
    } else if class == 0x03 && subclass == 0x00 {
        "VGA"
    } else if class == 0x04 {
        "Multimedia"
    } else if class == 0x06 && subclass == 0x00 {
        "Host Bridge"
    } else if class == 0x06 && subclass == 0x01 {
        "ISA Bridge"
    } else if class == 0x06 && subclass == 0x04 {
        "PCI-to-PCI Bridge"
    } else if class == 0x06 && subclass == 0x07 {
        "CardBus Bridge"
    } else if class == 0x0C && subclass == 0x03 {
        "USB Host Controller"
    } else if class == 0x0C && subclass == 0x05 {
        "SMBus"
    } else if class == 0x0D && subclass == 0x00 {
        "IRQ Controller"
    } else {
        "Unknown"
    }
}

/// Return a short string for the PCI class code.
pub fn class_name(class: u8, subclass: u8) -> (r: &'static str)
    ensures
        r == spec_class_name(class, subclass),
{
    match (class, subclass) {
        (0x00, 0x00) => "Non-VGA",
        (0x00, 0x01) => "VGA Compatible",
        (0x01, 0x00) => "SCSI",
        (0x01, 0x01) => "IDE",
        (0x01, 0x06) => "SATA",
        (0x01, 0x07) => "SAS",
        (0x02, 0x00) => "Ethernet",
        (0x03, 0x00) => "VGA",
        (0x04, _) => "Multimedia",
        (0x06, 0x00) => "Host Bridge",
        (0x06, 0x01) => "ISA Bridge",
        (0x06, 0x04) => "PCI-to-PCI Bridge",
        (0x06, 0x07) => "CardBus Bridge",
        (0x0C, 0x03) => "USB Host Controller",
        (0x0C, 0x05) => "SMBus",
        (0x0D, 0x00) => "IRQ Controller",
        _ => "Unknown",
    }
}

/// Distinct functions and registers select distinct CONFIG_ADDRESS values:
/// the encoding loses only device bits above 5, function bits above 3 and the
/// low two offset bits.
pub proof fn lemma_config_address_injective(
    b1: u8,
    d1: u8,
    f1: u8,
    o1: u8,
    b2: u8,
    d2: u8,
    f2: u8,
    o2: u8,
)
    requires
        d1 < 32 && d2 < 32,
        f1 < 8 && f2 < 8,
        o1 % 4 == 0 && o2 % 4 == 0,
        spec_config_address(b1, d1, f1, o1) == spec_config_address(b2, d2, f2, o2),
    ensures
        b1 == b2 && d1 == d2 && f1 == f2 && o1 == o2,
{
    let x1 = b1 as int * 0x1_0000 + d1 as int * 0x800 + f1 as int * 0x100 + o1 as int;
    let x2 = b2 as int * 0x1_0000 + d2 as int * 0x800 + f2 as int * 0x100 + o2 as int;
    lemma_config_address_value(b1, d1, f1, o1);
    lemma_config_address_value(b2, d2, f2, o2);
    assert(o1 == x1 % 0x100 && f1 * 0x100 + o1 == x1 % 0x800 && d1 * 0x800 + f1 * 0x100 + o1 == x1 % 0x1_0000
        && b1 == x1 / 0x1_0000) by (nonlinear_arith)
        requires
            x1 == b1 as int * 0x1_0000 + d1 as int * 0x800 + f1 as int * 0x100 + o1 as int,
            d1 < 32, f1 < 8, o1 < 256, b1 < 256;
    assert(o2 == x2 % 0x100 && f2 * 0x100 + o2 == x2 % 0x800 && d2 * 0x800 + f2 * 0x100 + o2 == x2 % 0x1_0000
        && b2 == x2 / 0x1_0000) by (nonlinear_arith)
        requires
            x2 == b2 as int * 0x1_0000 + d2 as int * 0x800 + f2 as int * 0x100 + o2 as int,
            d2 < 32, f2 < 8, o2 < 256, b2 < 256;
}

proof fn lemma_config_address_value(b: u8, d: u8, f: u8, o: u8)
    requires
        d < 32,
        f < 8,
        o % 4 == 0,
    ensures
        spec_config_address(b, d, f, o) as int == 0x8000_0000 + b as int * 0x1_0000 + d as int * 0x800 + f as int
            * 0x100 + o as int,
{
    assert(d % 32 == d && f % 8 == f && o - o % 4 == o);
    assert(0 <= b as int * 0x1_0000 + d as int * 0x800 + f as int * 0x100 + (o as int) < 0x100_0000);
}

/// What the scan reports of each function it finds: it responds (vendor ID
/// not all ones); it is a real device (below 32) and function (below 8); and
/// a function other than 0 is reported only when function 0 of its device
/// responds and is multi-function.
pub open spec fn scanned_function_ok(space: ConfigSpace, cfg: PciConfig) -> bool {
    let f0 = PciConfig { bus: cfg.bus, device: cfg.device, function: 0 };
    &&& present(space, cfg)
    &&& cfg.device < 32
    &&& cfg.function < 8
    &&& cfg.function > 0 ==> present(space, f0) && spec_header_type(space, f0) & 0x80 != 0
}

/// Every function in the scan responds, and functions above 0 appear only
/// for multi-function devices.
pub proof fn lemma_scan_reports_present_functions(space: ConfigSpace, n: nat)
    requires
        n <= slot_count(),
    ensures
        forall|i: int|
            0 <= i < scan_prefix(space, n).len() ==> scanned_function_ok(
                space,
                #[trigger] scan_prefix(space, n)[i],
            ),
    decreases n,
{
    if n > 0 {
        let k = (n - 1) as nat;
        lemma_scan_reports_present_functions(space, k);
        let bus = (k / 32) as u8;
        let device = (k % 32) as u8;
        lemma_slot_functions_ok(space, bus, device);
        let a = scan_prefix(space, k);
        let b = slot_functions(space, bus, device);
        assert forall|i: int| 0 <= i < scan_prefix(space, n).len() implies scanned_function_ok(
            space,
            #[trigger] scan_prefix(space, n)[i],
        ) by {
            assert(scan_prefix(space, n) == a + b);
            if i < a.len() {
                assert(scan_prefix(space, n)[i] == a[i]);
            } else {
                assert(scan_prefix(space, n)[i] == b[i - a.len()]);
            }
        }
    }
}

proof fn lemma_slot_functions_ok(space: ConfigSpace, bus: u8, device: u8)
    requires
        device < 32,
    ensures
        forall|i: int|
            0 <= i < slot_functions(space, bus, device).len() ==> scanned_function_ok(
                space,
                #[trigger] slot_functions(space, bus, device)[i],
            ),
{
    let f0 = PciConfig { bus, device, function: 0 };
    if present(space, f0) && spec_header_type(space, f0) & 0x80 != 0 {
        lemma_extra_functions_ok(space, bus, device, 8);
        let e = extra_functions(space, bus, device, 8);
        assert forall|i: int| 0 <= i < slot_functions(space, bus, device).len() implies scanned_function_ok(
            space,
            #[trigger] slot_functions(space, bus, device)[i],
        ) by {
            if i > 0 {
                assert(slot_functions(space, bus, device)[i] == e[i - 1]);
            }
        }
    }
}

proof fn lemma_extra_functions_ok(space: ConfigSpace, bus: u8, device: u8, f: nat)
    requires
        device < 32,
        f <= 8,
    ensures
        forall|i: int|
            0 <= i < extra_functions(space, bus, device, f).len() ==> {
                let c = #[trigger] extra_functions(space, bus, device, f)[i];
                &&& present(space, c)
                &&& c.bus == bus && c.device == device
                &&& 0 < c.function < 8
            },
    decreases f,
{
    if f > 1 {
        lemma_extra_functions_ok(space, bus, device, (f - 1) as nat);
        let a = extra_functions(space, bus, device, (f - 1) as nat);
        let cfg = PciConfig { bus, device, function: (f - 1) as u8 };
        assert forall|i: int| 0 <= i < extra_functions(space, bus, device, f).len() implies {
            let c = #[trigger] extra_functions(space, bus, device, f)[i];
            &&& present(space, c)
            &&& c.bus == bus && c.device == device
            &&& 0 < c.function < 8
        } by {
            if i < a.len() {
                assert(extra_functions(space, bus, device, f)[i] == a[i]);
            }
        }
    }
}

} // verus!
