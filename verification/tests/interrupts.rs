use punkos::interrupts::{divisor_bytes, pit_divisor, InterruptIndex, PIC_1_OFFSET, PIC_2_OFFSET};

#[test]
fn vectors_follow_the_exceptions() {
    assert_eq!(PIC_1_OFFSET, 32);
    assert_eq!(PIC_2_OFFSET, 40);
    assert_eq!(InterruptIndex::Timer.as_u8(), 32);
    assert_eq!(InterruptIndex::Keyboard.as_u8(), 33);
}

#[test]
fn pit_at_one_hundred_hertz() {
    assert_eq!(pit_divisor(100), 11931);
    assert_eq!(divisor_bytes(11931), (0x9B, 0x2E));
}

#[test]
fn pit_divisor_keeps_sixteen_bits() {
    assert_eq!(pit_divisor(10), 53782);
    assert_eq!(pit_divisor(1_193_182), 1);
    assert_eq!(pit_divisor(2_000_000), 0);
}
