# punkos core

The verified core of punkos, a bare-metal x86_64 kernel that treats the
machine as the user's pod of RDF fragments.

`src/` is the library, verified with Verus:

- `keyboard` — PS/2 scancode set 1 decoding with shift tracking, the
  keystroke ring buffer, line editing.
- `pci` — Configuration Mechanism #1 addressing, header and BAR decoding, the
  bus scan, xHCI lookup, class names.
- `xhci` — xHCI register layout, TRB rings, the controller bring-up program,
  No-Op completion, and the port reset walk.
- `memory` — the boot-memory-map frame allocator and the 4-level page walk.
- `framebuffer`, `render` — pixel encoding and the animated three-bubble mark.
- `interrupts` — interrupt vectors and PIT programming.

Port I/O, MMIO and memory reads are performed by the caller: the library
takes a reader closure for reads and returns the stores to perform.

`app/` holds the kernel's hardware plumbing (interrupt handlers, port and MMIO
access, DMA allocation, the boot sequence) and the host-side QEMU launcher.
