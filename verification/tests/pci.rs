use std::collections::HashMap;

use punkos::pci::{
    class_name, config_address, enumerate, find_xhci, Bar, ConfigWrite, PciConfig,
};

/// A fake configuration space: dwords by (bus, device, function, offset);
/// absent registers read as all ones.
struct Space {
    regs: HashMap<u32, u32>,
}

impl Space {
    fn new() -> Self {
        Space { regs: HashMap::new() }
    }

    fn set(&mut self, bus: u8, device: u8, function: u8, offset: u8, value: u32) {
        self.regs.insert(config_address(bus, device, function, offset), value);
    }

    /// A type-0 function with the given ids, class code and header type.
    fn function(
        &mut self,
        at: (u8, u8, u8),
        vendor: u16,
        device_id: u16,
        class: (u8, u8, u8),
        header_type: u8,
    ) {
        let (b, d, f) = at;
        self.set(b, d, f, 0x00, ((device_id as u32) << 16) | vendor as u32);
        self.set(
            b,
            d,
            f,
            0x08,
            ((class.0 as u32) << 24) | ((class.1 as u32) << 16) | ((class.2 as u32) << 8) | 0x01,
        );
        self.set(b, d, f, 0x0C, (header_type as u32) << 16);
        for i in 0..6u8 {
            self.set(b, d, f, 0x10 + 4 * i, 0);
        }
    }

    fn read(&self, addr: u32) -> u32 {
        *self.regs.get(&addr).unwrap_or(&0xFFFF_FFFF)
    }
}

#[test]
fn config_address_layout() {
    assert_eq!(config_address(0, 0, 0, 0), 0x8000_0000);
    assert_eq!(config_address(0, 3, 2, 0x10), 0x8000_1A10);
    assert_eq!(config_address(0xFF, 0x1F, 7, 0xFC), 0x80FF_FFFC);
    // device and function are masked, the offset is dword aligned
    assert_eq!(config_address(1, 0x21, 9, 0x13), config_address(1, 1, 1, 0x10));
}

#[test]
fn config_write_targets_the_register() {
    let cfg = PciConfig::new(0, 4, 0);
    assert_eq!(cfg.write32(0x04, 0x0000_0006), ConfigWrite { address: 0x8000_2004, data: 6 });
}

#[test]
fn header_fields_decode() {
    let mut s = Space::new();
    s.function((0, 2, 0), 0x1234, 0x1111, (0x03, 0x00, 0x00), 0x00);
    let read = |a: u32| s.read(a);
    let cfg = PciConfig::new(0, 2, 0);
    assert_eq!(cfg.read32(&read, 0x00), 0x1111_1234);
    assert_eq!(cfg.vendor_id(&read), 0x1234);
    assert_eq!(cfg.device_id(&read), 0x1111);
    assert_eq!(cfg.class_info(&read), (0x03, 0x00, 0x00));
    assert_eq!(cfg.header_type(&read), 0x00);
    let absent = PciConfig::new(0, 9, 0);
    assert_eq!(absent.vendor_id(&read), 0xFFFF);
}

#[test]
fn bar_kinds_decode() {
    let mut s = Space::new();
    s.function((0, 5, 0), 0x8086, 0x100E, (0x02, 0x00, 0x00), 0x00);
    s.set(0, 5, 0, 0x10, 0xFEBF_0008); // 32-bit memory, prefetchable
    s.set(0, 5, 0, 0x14, 0x0000_C001); // I/O port
    s.set(0, 5, 0, 0x18, 0xFE00_000C); // 64-bit memory, prefetchable ...
    s.set(0, 5, 0, 0x1C, 0x0000_0001); // ... upper half
    s.set(0, 5, 0, 0x20, 0x0000_0002); // reserved memory type
    s.set(0, 5, 0, 0x24, 0x1234_5670); // 32-bit, not prefetchable
    let read = |a: u32| s.read(a);
    let cfg = PciConfig::new(0, 5, 0);
    assert_eq!(cfg.read_bar(&read, 0), Bar::Memory32 { base: 0xFEBF_0000, prefetchable: true });
    assert_eq!(cfg.read_bar(&read, 1), Bar::Io { port: 0xC000 });
    assert_eq!(cfg.read_bar(&read, 2), Bar::Memory64 { base: 0x1_FE00_0000, prefetchable: true });
    assert_eq!(cfg.read_bar(&read, 4), Bar::Unknown { raw: 2 });
    assert_eq!(cfg.read_bar(&read, 5), Bar::Memory32 { base: 0x1234_5670, prefetchable: false });
}

#[test]
fn memory_base_of_each_kind() {
    assert_eq!(Bar::Memory32 { base: 0xFEBF_0000, prefetchable: false }.memory_base(), Some(0xFEBF_0000));
    assert_eq!(Bar::Memory64 { base: 0x1_0000_0000, prefetchable: true }.memory_base(), Some(0x1_0000_0000));
    assert_eq!(Bar::Io { port: 0xC000 }.memory_base(), None);
    assert_eq!(Bar::Unknown { raw: 6 }.memory_base(), None);
}

fn sample_machine() -> Space {
    let mut s = Space::new();
    // host bridge
    s.function((0, 0, 0), 0x8086, 0x1237, (0x06, 0x00, 0x00), 0x00);
    // multi-function device: functions 0, 1 and 3 respond
    s.function((0, 1, 0), 0x8086, 0x7000, (0x06, 0x01, 0x00), 0x80);
    s.function((0, 1, 1), 0x8086, 0x7010, (0x01, 0x01, 0x80), 0x00);
    s.function((0, 1, 3), 0x8086, 0x7113, (0x06, 0x80, 0x00), 0x00);
    // single-function device that also answers on function 1: not scanned
    s.function((0, 2, 0), 0x1234, 0x1111, (0x03, 0x00, 0x00), 0x00);
    s.function((0, 2, 1), 0x1234, 0x1111, (0x03, 0x00, 0x00), 0x00);
    // xHCI controller with a 64-bit BAR0
    s.function((0, 4, 0), 0x1B36, 0x000D, (0x0C, 0x03, 0x30), 0x00);
    s.set(0, 4, 0, 0x10, 0xFEBF_0004);
    s.set(0, 4, 0, 0x14, 0x0000_0000);
    // function 0 absent, function 1 present: not scanned
    s.function((0, 7, 1), 0xABCD, 0x0001, (0x02, 0x00, 0x00), 0x00);
    // a device on another bus
    s.function((3, 0, 0), 0x10EC, 0x8139, (0x02, 0x00, 0x00), 0x00);
    s
}

#[test]
fn enumerate_scans_in_bus_order() {
    let s = sample_machine();
    let read = |a: u32| s.read(a);
    let devices = enumerate(&read);
    let found: Vec<(u8, u8, u8, u16)> =
        devices.iter().map(|d| (d.bus, d.device, d.function, d.vendor_id)).collect();
    assert_eq!(
        found,
        vec![
            (0, 0, 0, 0x8086),
            (0, 1, 0, 0x8086),
            (0, 1, 1, 0x8086),
            (0, 1, 3, 0x8086),
            (0, 2, 0, 0x1234),
            (0, 4, 0, 0x1B36),
            (3, 0, 0, 0x10EC),
        ]
    );
    assert_eq!(devices[2].device_id, 0x7010);
    assert_eq!((devices[2].class, devices[2].subclass, devices[2].prog_if), (0x01, 0x01, 0x80));
    assert_eq!(devices[1].header_type, 0x80);
}

#[test]
fn sixty_four_bit_bar_takes_two_slots() {
    let s = sample_machine();
    let read = |a: u32| s.read(a);
    let devices = enumerate(&read);
    let xhci = &devices[5];
    assert_eq!(xhci.bars[0], Some(Bar::Memory64 { base: 0xFEBF_0000, prefetchable: false }));
    assert_eq!(xhci.bars[1], None);
    assert_eq!(xhci.bars[2], Some(Bar::Memory32 { base: 0, prefetchable: false }));
    assert_eq!(xhci.bars[5], Some(Bar::Memory32 { base: 0, prefetchable: false }));
}

#[test]
fn empty_bus_finds_nothing() {
    let s = Space::new();
    let read = |a: u32| s.read(a);
    assert!(enumerate(&read).is_empty());
}

#[test]
fn find_xhci_keeps_usb3_controllers() {
    let s = sample_machine();
    let read = |a: u32| s.read(a);
    let devices = enumerate(&read);
    let xhci = find_xhci(&devices);
    assert_eq!(xhci.len(), 1);
    assert_eq!((xhci[0].bus, xhci[0].device, xhci[0].function), (0, 4, 0));
    assert_eq!(xhci[0].bars[0].unwrap().memory_base(), Some(0xFEBF_0000));
    assert!(find_xhci(&devices[..5]).is_empty());
}

#[test]
fn class_names() {
    assert_eq!(class_name(0x00, 0x00), "Non-VGA");
    assert_eq!(class_name(0x00, 0x01), "VGA Compatible");
    assert_eq!(class_name(0x01, 0x00), "SCSI");
    assert_eq!(class_name(0x01, 0x01), "IDE");
    assert_eq!(class_name(0x01, 0x06), "SATA");
    assert_eq!(class_name(0x01, 0x07), "SAS");
    assert_eq!(class_name(0x02, 0x00), "Ethernet");
    assert_eq!(class_name(0x03, 0x00), "VGA");
    assert_eq!(class_name(0x04, 0x01), "Multimedia");
    assert_eq!(class_name(0x04, 0x80), "Multimedia");
    assert_eq!(class_name(0x06, 0x00), "Host Bridge");
    assert_eq!(class_name(0x06, 0x01), "ISA Bridge");
    assert_eq!(class_name(0x06, 0x04), "PCI-to-PCI Bridge");
    assert_eq!(class_name(0x06, 0x07), "CardBus Bridge");
    assert_eq!(class_name(0x0C, 0x03), "USB Host Controller");
    assert_eq!(class_name(0x0C, 0x05), "SMBus");
    assert_eq!(class_name(0x0D, 0x00), "IRQ Controller");
    assert_eq!(class_name(0x0C, 0x04), "Unknown");
    assert_eq!(class_name(0x02, 0x80), "Unknown");
}

#[test]
fn config_addresses_are_distinct() {
    let mut seen = std::collections::HashSet::new();
    for bus in [0u8, 1, 0x80, 0xFF] {
        for device in 0..32u8 {
            for function in 0..8u8 {
                for offset in (0..=0xFCu8).step_by(0x24) {
                    assert!(seen.insert(config_address(bus, device, function, offset)));
                }
            }
        }
    }
}
