use std::collections::HashMap;

use punkos::xhci::{
    erst_entry, port_speed, portsc, trb_type, usbcmd, usbsts, Controller, Dcbaa, MmioOp, MmioWrite,
    NoopPoll, NOOP_POLL_LIMIT,
    PortAction, PortInit, Registers, Ring, Trb,
};

const PHYS_OFFSET: u64 = 0x1_0000_0000_0000;
const BAR: u64 = 0xFEBF_0000;
const BASE: u64 = PHYS_OFFSET + BAR;
const OP: u64 = BASE + 0x40;
const RT: u64 = BASE + 0x1000;

/// Capability registers of a controller like QEMU's: CAPLENGTH 0x40,
/// version 1.0, 64 slots, 4 ports, RTSOFF 0x1000, DBOFF 0x2000.
fn caps() -> HashMap<u64, u32> {
    let mut m = HashMap::new();
    m.insert(BASE, 0x0100_0040);
    m.insert(BASE + 4, (4 << 24) | 64);
    m.insert(BASE + 8, (1 << 27) | (3 << 21));
    m.insert(BASE + 0x10, 0x0000_0004);
    m.insert(BASE + 0x14, 0x0000_2003);
    m.insert(BASE + 0x18, 0x0000_1000);
    m.insert(OP, 0x0000_0005);
    m.insert(OP + 4, 0x0000_0001);
    m.insert(OP + 8, 0x0000_0001);
    m.insert(OP + 0x400 + 0x10, 0x0000_0203);
    m
}

fn registers(m: &HashMap<u64, u32>) -> Registers {
    let read8 = |a: u64| (m[&a] & 0xFF) as u8;
    let read32 = |a: u64| m[&a];
    Registers::new(BAR, PHYS_OFFSET, &read8, &read32)
}

#[test]
fn registers_locate_the_register_blocks() {
    let m = caps();
    let regs = registers(&m);
    assert_eq!(regs.base, BASE);
    assert_eq!(regs.op_offset, 0x40);
    assert_eq!(regs.rt_offset, 0x1000);
}

#[test]
fn capability_fields_decode() {
    let m = caps();
    let regs = registers(&m);
    let read = |a: u64| m[&a];
    assert_eq!(regs.hciversion(&read), 0x0100);
    assert_eq!(regs.max_slots(&read), 64);
    assert_eq!(regs.max_ports(&read), 4);
    assert_eq!(regs.max_scratchpad_bufs(&read), 35);
    assert!(regs.context_size_64(&read));
    assert_eq!(regs.doorbell(&read, 0), BASE + 0x2000);
    assert_eq!(regs.doorbell(&read, 3), BASE + 0x200C);
}

#[test]
fn operational_registers_read_and_write() {
    let m = caps();
    let regs = registers(&m);
    let read = |a: u64| m[&a];
    assert_eq!(regs.usbcmd(&read), 5);
    assert_eq!(regs.usbsts(&read), 1);
    assert_eq!(regs.pagesize(&read), 1);
    assert_eq!(regs.write_usbcmd(7), MmioWrite::U32 { addr: OP, value: 7 });
    assert_eq!(regs.write_usbsts(8), MmioWrite::U32 { addr: OP + 4, value: 8 });
    assert_eq!(regs.write_config(64), MmioWrite::U32 { addr: OP + 0x38, value: 64 });
    assert_eq!(
        regs.write_dcbaap(0x1_2345_6000),
        (
            MmioWrite::U32 { addr: OP + 0x30, value: 0x2345_6000 },
            MmioWrite::U32 { addr: OP + 0x34, value: 1 }
        )
    );
    assert_eq!(
        regs.write_crcr(0x0000_0002_0000_1001),
        (MmioWrite::U32 { addr: OP + 0x18, value: 0x1001 }, MmioWrite::U32 { addr: OP + 0x1c, value: 2 })
    );
}

#[test]
fn runtime_registers_write_in_halves() {
    let m = caps();
    let regs = registers(&m);
    assert_eq!(
        regs.write_erstba(0xAB_0000_4000),
        (MmioWrite::U32 { addr: RT + 0x30, value: 0x4000 }, MmioWrite::U32 { addr: RT + 0x34, value: 0xAB })
    );
    assert_eq!(regs.write_erstsz(1), MmioWrite::U16 { addr: RT + 0x28, value: 1 });
    assert_eq!(
        regs.write_erdp(0x5000),
        (MmioWrite::U32 { addr: RT + 0x38, value: 0x5000 }, MmioWrite::U32 { addr: RT + 0x3c, value: 0 })
    );
    assert_eq!(
        regs.enable_interrupter(),
        (MmioWrite::U32 { addr: RT + 0x20, value: 2 }, MmioWrite::U32 { addr: RT + 0x20, value: 1 })
    );
}

#[test]
fn port_registers() {
    let m = caps();
    let regs = registers(&m);
    let read = |a: u64| m[&a];
    assert_eq!(regs.portsc_addr(1), OP + 0x400);
    assert_eq!(regs.portsc_addr(4), OP + 0x430);
    assert_eq!(regs.read_portsc(&read, 2), 0x203);
    assert_eq!(regs.write_portsc(3, 0x10), MmioWrite::U32 { addr: OP + 0x420, value: 0x10 });
    assert_eq!(port_speed(0x0000_1203), 4);
    assert_eq!(port_speed(0xFFFF_FFFF), 15);
}

#[test]
fn bit_constants() {
    assert_eq!((usbcmd::RS, usbcmd::HCRST, usbcmd::INTE, usbcmd::HSEE), (1, 2, 4, 8));
    assert_eq!((usbsts::HCH, usbsts::CNR), (1, 0x800));
    assert_eq!((portsc::CCS, portsc::PED, portsc::PR, portsc::PP, portsc::PRC), (1, 2, 0x10, 0x200, 0x20_0000));
    assert_eq!(portsc::SPEED_MASK, 0x3C00);
    assert_eq!((trb_type::NO_OP_CMD, trb_type::COMMAND_COMPLETION), (23, 33));
}

#[test]
fn trb_fields() {
    assert_eq!(Trb::zero(), Trb { parameter: 0, status: 0, control: 0 });
    let t = Trb { parameter: 0, status: 0, control: (33 << 10) | 1 };
    assert!(t.cycle_bit());
    assert_eq!(t.trb_type(), 33);
    let u = Trb { parameter: 7, status: 0, control: 0xFFFF_FFFE };
    assert!(!u.cycle_bit());
    assert_eq!(u.trb_type(), 0x3F);
}

#[test]
fn ring_push_sets_cycle_and_wraps() {
    let mut ring = Ring::new(4, 0x8000);
    assert_eq!(ring.physical_address(), 0x8000);
    let t = Trb { parameter: 0x1234, status: 9, control: 23 << 10 };
    for expected in 0..4usize {
        let (slot, stored) = ring.push(t);
        assert_eq!(slot, expected);
        assert_eq!(stored, Trb { parameter: 0x1234, status: 9, control: (23 << 10) | 1 });
    }
    assert_eq!(ring.enqueue, 0);
    ring.toggle_cycle();
    assert!(!ring.cycle);
    let (slot, stored) = ring.push(Trb { parameter: 0, status: 0, control: 0xFF });
    assert_eq!(slot, 0);
    assert_eq!(stored.control, 0xFE);
    assert_eq!(ring.enqueue, 1);
}

#[test]
fn erst_and_dcbaa() {
    let event_ring = Ring::new(256, 0x9000);
    assert_eq!(erst_entry(&event_ring), punkos::xhci::ErstEntry { ring_base: 0x9000, ring_size: 256 });
    let d = Dcbaa::new(64, 0xA000);
    assert_eq!(d.entries, 65);
    assert_eq!(d.physical_address(), 0xA000);
}

fn controller() -> (Controller, Vec<MmioOp>) {
    let m = caps();
    let regs = registers(&m);
    Controller::init(
        regs,
        64,
        4,
        0x0000_0005,
        Ring::new(256, 0x0010_0000),
        Ring::new(256, 0x0010_1000),
        Dcbaa::new(64, 0x0010_2000),
        0x0010_3000,
        PHYS_OFFSET,
    )
}

#[test]
fn bring_up_program() {
    let (ctrl, ops) = controller();
    assert_eq!(ctrl.max_slots, 64);
    assert_eq!(ctrl.max_ports, 4);
    let w = |addr: u64, value: u32| MmioOp::Write(MmioWrite::U32 { addr, value });
    assert_eq!(
        ops,
        vec![
            w(OP, 0x4),
            MmioOp::WaitSet { addr: OP + 4, mask: 1 },
            w(OP, 0x6),
            MmioOp::WaitClear { addr: OP, mask: 2 },
            MmioOp::WaitClear { addr: OP + 4, mask: 0x800 },
            w(OP + 0x38, 64),
            w(OP + 0x30, 0x0010_2000),
            w(OP + 0x34, 0),
            w(OP + 0x18, 0x0010_0001),
            w(OP + 0x1c, 0),
            w(RT + 0x30, 0x0010_3000),
            w(RT + 0x34, 0),
            MmioOp::Write(MmioWrite::U16 { addr: RT + 0x28, value: 1 }),
            w(RT + 0x38, 0x0010_1000),
            w(RT + 0x3c, 0),
            w(RT + 0x20, 2),
            w(RT + 0x20, 1),
            w(OP, 0xD),
            MmioOp::WaitClear { addr: OP + 4, mask: 1 },
        ]
    );
}

#[test]
fn noop_command_and_completion() {
    let m = caps();
    let read = |a: u64| m[&a];
    let (mut ctrl, _) = controller();
    let (slot, trb, bell) = ctrl.noop_command(&read);
    assert_eq!(slot, 0);
    assert_eq!(trb, Trb { parameter: 0, status: 0, control: (23 << 10) | 1 });
    assert_eq!(bell, MmioWrite::U32 { addr: BASE + 0x2000, value: 0 });
    assert_eq!(ctrl.cmd_ring.enqueue, 1);

    let done = Trb { parameter: 0x0010_0000, status: 1 << 24, control: (33 << 10) | 1 };
    assert_eq!(ctrl.noop_completion(&done), Some(true));
    let failed = Trb { status: 5 << 24, ..done };
    assert_eq!(ctrl.noop_completion(&failed), Some(false));
    let stale = Trb { control: 33 << 10, ..done };
    assert_eq!(ctrl.noop_completion(&stale), None);
    let other = Trb { control: (34 << 10) | 1, ..done };
    assert_eq!(ctrl.noop_completion(&other), None);
    assert_eq!(ctrl.noop_completion(&Trb::zero()), None);
}

#[test]
fn port_walk_counts_and_resets() {
    let (mut walk, first) = PortInit::new(3);
    assert_eq!(first, PortAction::Read { port: 1 });
    // port 1: nothing attached
    assert_eq!(walk.step(0x0000_02A0), PortAction::Read { port: 2 });
    // port 2: attached and enabled
    assert_eq!(walk.step(0x0000_0203), PortAction::Read { port: 3 });
    // port 3: attached, not enabled: reset it
    assert_eq!(walk.step(0x0000_0201), PortAction::WriteThenRead { port: 3, value: 0x0000_0211 });
    // reset still running
    assert_eq!(walk.step(0x0000_0211), PortAction::Read { port: 3 });
    // reset change reported: acknowledge it
    assert_eq!(walk.step(0x0020_0203), PortAction::WriteThenRead { port: 3, value: 0x0020_0203 });
    // status after the reset
    assert_eq!(walk.step(0x0000_0203), PortAction::Done { connected: 2 });
}

#[test]
fn port_walk_without_ports() {
    let (_, first) = PortInit::new(0);
    assert_eq!(first, PortAction::Done { connected: 0 });
}

#[test]
fn noop_poll_budget() {
    let (ctrl, _) = controller();
    let done = Trb { parameter: 0, status: 1 << 24, control: (33 << 10) | 1 };
    assert_eq!(
        ctrl.noop_poll(0, &done),
        NoopPoll::Complete { success: true, slot: 0, clear: Trb::zero() }
    );
    let failed = Trb { status: 0x11 << 24, ..done };
    assert_eq!(
        ctrl.noop_poll(NOOP_POLL_LIMIT - 1, &failed),
        NoopPoll::Complete { success: false, slot: 0, clear: Trb::zero() }
    );
    assert_eq!(ctrl.noop_poll(0, &Trb::zero()), NoopPoll::Pending);
    assert_eq!(ctrl.noop_poll(NOOP_POLL_LIMIT - 2, &Trb::zero()), NoopPoll::Pending);
    assert_eq!(ctrl.noop_poll(NOOP_POLL_LIMIT - 1, &Trb::zero()), NoopPoll::GiveUp);
    assert_eq!(NOOP_POLL_LIMIT, 1_000_000);
}

#[test]
fn reset_store_keeps_run_clear_for_a_running_controller() {
    let m = caps();
    let regs = registers(&m);
    let (_, ops) = Controller::init(
        regs,
        64,
        4,
        usbcmd::RS | usbcmd::INTE,
        Ring::new(256, 0x0010_0000),
        Ring::new(256, 0x0010_1000),
        Dcbaa::new(64, 0x0010_2000),
        0x0010_3000,
        PHYS_OFFSET,
    );
    assert_eq!(ops[0], MmioOp::Write(MmioWrite::U32 { addr: OP, value: usbcmd::INTE }));
    assert_eq!(ops[2], MmioOp::Write(MmioWrite::U32 { addr: OP, value: usbcmd::INTE | usbcmd::HCRST }));
}

#[test]
fn dma_blocks_align_to_64_bytes() {
    assert_eq!(punkos::xhci::dma_align_up(0x1000), 0x1000);
    assert_eq!(punkos::xhci::dma_align_up(0x1001), 0x1040);
    assert_eq!(punkos::xhci::dma_align_up(0x103F), 0x1040);
    assert_eq!(punkos::xhci::dma_align_up(0x1040), 0x1040);
    assert_eq!(punkos::xhci::DMA_ALIGN, 64);
}
