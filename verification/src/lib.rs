//! Verified core of the punkos kernel: keyboard decoding, PCI enumeration,
//! xHCI register and ring bookkeeping, physical frame allocation and
//! page-table walking, and the software renderer.
mod bits;
pub mod keyboard;
pub mod pci;
pub mod framebuffer;
pub mod render;
pub mod interrupts;
pub mod memory;
pub mod xhci;
