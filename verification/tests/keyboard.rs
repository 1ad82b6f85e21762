use punkos::keyboard::{
    handle_scancode, read_char, read_line_key, scancode_to_char, Keyboard, RingBuffer, BUF_SIZE,
};

#[test]
fn letters_follow_shift() {
    assert_eq!(scancode_to_char(0x1E, false), Some('a'));
    assert_eq!(scancode_to_char(0x1E, true), Some('A'));
    assert_eq!(scancode_to_char(0x10, false), Some('q'));
    assert_eq!(scancode_to_char(0x32, true), Some('M'));
}

#[test]
fn number_row_and_punctuation() {
    assert_eq!(scancode_to_char(0x02, false), Some('1'));
    assert_eq!(scancode_to_char(0x02, true), Some('!'));
    assert_eq!(scancode_to_char(0x0B, true), Some(')'));
    assert_eq!(scancode_to_char(0x28, false), Some('\''));
    assert_eq!(scancode_to_char(0x28, true), Some('"'));
    assert_eq!(scancode_to_char(0x2B, false), Some('\\'));
    assert_eq!(scancode_to_char(0x35, true), Some('?'));
}

#[test]
fn control_keys_and_unmapped_codes() {
    assert_eq!(scancode_to_char(0x01, false), Some('\x1b'));
    assert_eq!(scancode_to_char(0x0E, true), Some('\x08'));
    assert_eq!(scancode_to_char(0x0F, false), Some('\t'));
    assert_eq!(scancode_to_char(0x1C, true), Some('\n'));
    assert_eq!(scancode_to_char(0x39, false), Some(' '));
    assert_eq!(scancode_to_char(0x00, false), None);
    assert_eq!(scancode_to_char(0x1D, false), None);
    assert_eq!(scancode_to_char(0x3A, true), None);
    assert_eq!(scancode_to_char(0x2A, false), None);
}

#[test]
fn shift_gives_upper_case_for_every_letter() {
    for sc in 0u8..=0x7F {
        if let Some(c) = scancode_to_char(sc, false) {
            if c.is_ascii_lowercase() {
                assert_eq!(scancode_to_char(sc, true), Some(c.to_ascii_uppercase()));
            }
        }
    }
}

#[test]
fn shift_keys_are_tracked() {
    let mut kb = Keyboard::new();
    handle_scancode(&mut kb, 0x1E);
    handle_scancode(&mut kb, 0x2A);
    assert!(kb.shift);
    handle_scancode(&mut kb, 0x1E);
    handle_scancode(&mut kb, 0xAA);
    assert!(!kb.shift);
    handle_scancode(&mut kb, 0x36);
    handle_scancode(&mut kb, 0x1F);
    handle_scancode(&mut kb, 0xB6);
    handle_scancode(&mut kb, 0x1F);
    assert_eq!(read_char(&mut kb), Some('a'));
    assert_eq!(read_char(&mut kb), Some('A'));
    assert_eq!(read_char(&mut kb), Some('S'));
    assert_eq!(read_char(&mut kb), Some('s'));
    assert_eq!(read_char(&mut kb), None);
}

#[test]
fn break_codes_are_ignored() {
    let mut kb = Keyboard::new();
    handle_scancode(&mut kb, 0x9E);
    handle_scancode(&mut kb, 0x81);
    assert_eq!(read_char(&mut kb), None);
    assert!(!kb.shift);
    handle_scancode(&mut kb, 0x1D);
    assert_eq!(read_char(&mut kb), None);
}

#[test]
fn keystrokes_come_out_in_order() {
    let mut kb = Keyboard::new();
    for sc in [0x23u8, 0x12, 0x26, 0x26, 0x18] {
        handle_scancode(&mut kb, sc);
    }
    let mut out = String::new();
    while let Some(c) = read_char(&mut kb) {
        out.push(c);
    }
    assert_eq!(out, "hello");
}

#[test]
fn full_buffer_drops_oldest_keystrokes() {
    let mut kb = Keyboard::new();
    handle_scancode(&mut kb, 0x30);
    for _ in 0..BUF_SIZE + 10 {
        handle_scancode(&mut kb, 0x1E);
    }
    handle_scancode(&mut kb, 0x2E);
    let mut out = String::new();
    while let Some(c) = read_char(&mut kb) {
        out.push(c);
    }
    assert_eq!(out.len(), BUF_SIZE - 1);
    assert!(!out.contains('b'));
    assert!(out.ends_with("ac"));
    assert!(out[..BUF_SIZE - 2].chars().all(|c| c == 'a'));
}

#[test]
fn full_ring_buffer_keeps_the_newest() {
    let mut rb: RingBuffer<4> = RingBuffer::new();
    for c in ['a', 'b', 'c', 'd', 'e'] {
        rb.push(c);
    }
    assert_eq!(rb.pop(), Some('c'));
    assert_eq!(rb.pop(), Some('d'));
    assert_eq!(rb.pop(), Some('e'));
    assert_eq!(rb.pop(), None);
}

#[test]
fn ring_buffer_wraps_around() {
    let mut rb: RingBuffer<4> = RingBuffer::new();
    assert_eq!(rb.pop(), None);
    for round in 0..5u32 {
        let a = char::from_u32('a' as u32 + round).unwrap();
        rb.push(a);
        rb.push('x');
        rb.push('y');
        assert_eq!(rb.pop(), Some(a));
        assert_eq!(rb.pop(), Some('x'));
        assert_eq!(rb.pop(), Some('y'));
        assert_eq!(rb.pop(), None);
    }
}

#[test]
fn single_slot_ring_buffer_holds_nothing() {
    let mut rb: RingBuffer<1> = RingBuffer::new();
    rb.push('a');
    assert_eq!(rb.pop(), None);
}

#[test]
fn line_editing_with_backspace() {
    let mut line = String::new();
    let mut done = false;
    for c in ['a', 'b', '\x08', 'c', 'd', '\x08', '\x08', 'e', '\n'] {
        done = read_line_key(&mut line, c);
        if done {
            break;
        }
    }
    assert!(done);
    assert_eq!(line, "ae");
}

#[test]
fn backspace_on_empty_line() {
    let mut line = String::new();
    assert!(!read_line_key(&mut line, '\x08'));
    assert_eq!(line, "");
    assert!(!read_line_key(&mut line, '\t'));
    assert!(read_line_key(&mut line, '\n'));
    assert_eq!(line, "\t");
}

#[test]
fn fifo_up_to_capacity() {
    let mut rb: RingBuffer<8> = RingBuffer::new();
    let cs = ['p', 'u', 'n', 'k', 'o', 's', '!'];
    for c in cs {
        rb.push(c);
    }
    for c in cs {
        assert_eq!(rb.pop(), Some(c));
    }
    assert_eq!(rb.pop(), None);
    assert_eq!(rb.pop(), None);
    rb.push('z');
    assert_eq!(rb.pop(), Some('z'));
}
