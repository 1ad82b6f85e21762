//! Interrupt vector numbering and programmable interval timer settings.
//!
//! The 8259 PICs are remapped so that their 16 lines follow the 32 CPU
//! exception vectors; the timer (IRQ0) and keyboard (IRQ1) are the first two.
use vstd::prelude::*;

verus! {

/// First vector of the primary PIC.
pub const PIC_1_OFFSET: u8 = 32;

/// First vector of the secondary PIC.
pub const PIC_2_OFFSET: u8 = PIC_1_OFFSET + 8;

/// Input clock of the PIT, in Hz.
pub const PIT_INPUT_HZ: u32 = 1_193_182;

/// PIT command: channel 0, low byte then high byte, mode 3 (square wave).
pub const PIT_SQUARE_WAVE: u8 = 0x36;

/// Interrupt vectors of the hardware lines in use.
#[derive(Clone, Copy, Debug, PartialEq, Eq, Structural)]
pub enum InterruptIndex {
    Timer,
    Keyboard,
}

impl InterruptIndex {
    /// The vector: the timer is the primary PIC's first line, the keyboard
    /// the next.
    pub open spec fn vector(self) -> u8 {
        match self {
            InterruptIndex::Timer => PIC_1_OFFSET,
            InterruptIndex::Keyboard => (PIC_1_OFFSET + 1) as u8,
        }
    }

    /// The interrupt vector number.
    pub fn as_u8(self) -> (v: u8)
        ensures
            v == self.vector(),
    {
        match self {
            InterruptIndex::Timer => PIC_1_OFFSET,
            InterruptIndex::Keyboard => PIC_1_OFFSET + 1,
        }
    }
}

/// The PICs are remapped past the 32 CPU exception vectors: the timer
/// raises vector 32, the keyboard vector 33, and the secondary PIC starts at
/// vector 40.
pub proof fn lemma_vectors()
    ensures
        InterruptIndex::Timer.vector() == 32,
        InterruptIndex::Keyboard.vector() == 33,
        PIC_2_OFFSET == 40,
{
}

/// Prepare keyboard interrupts. IRQ1 is already unmasked by the PIC
/// initialisation and its IDT entry is registered at boot, so nothing more is
/// needed on the PIC side for PS/2.
pub fn init_keyboard() {
}

/// Reload value that makes PIT channel 0 fire at `hz` Hz: the input clock
/// divided by `hz`, kept to the 16 bits the counter holds.
pub fn pit_divisor(hz: u32) -> (d: u16)
    requires
        hz > 0,
    ensures
        d == (PIT_INPUT_HZ / hz) % 0x1_0000,
{
    let q = PIT_INPUT_HZ / hz;
    assert(q as u16 == q % 0x1_0000) by (bit_vector);
    q as u16
}

/// The bytes written to the PIT data port for a reload value: low byte, then
/// high byte.
pub fn divisor_bytes(divisor: u16) -> (b: (u8, u8))
    ensures
        b.0 == divisor % 0x100,
        b.1 == divisor / 0x100,
        b.1 * 0x100 + b.0 == divisor,
{
    let lo = (divisor & 0xFF) as u8;
    let hi = (divisor >> 8u16) as u8;
    assert((divisor & 0xFF) as u8 == divisor % 0x100 && (divisor >> 8u16) as u8 == divisor / 0x100)
        by (bit_vector);
    (lo, hi)
}

} // verus!
