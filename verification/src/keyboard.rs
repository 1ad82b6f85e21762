//! PS/2 keyboard decoding: scancode set 1 to characters (US QWERTY) with shift
//! tracking, a bounded keystroke ring buffer, and line editing.
//!
//! The port read that fetches a scancode happens in the interrupt handler; this
//! module holds everything that is decided once the scancode is known.
use vstd::prelude::*;

verus! {

/// Capacity of the keystroke buffer's backing store.
pub const BUF_SIZE: usize = 256;

/// Set-1 make code of the left shift key.
pub const LEFT_SHIFT_MAKE: u8 = 0x2A;

/// Set-1 make code of the right shift key.
pub const RIGHT_SHIFT_MAKE: u8 = 0x36;

/// Set-1 break code of the left shift key.
pub const LEFT_SHIFT_BREAK: u8 = 0xAA;

/// Set-1 break code of the right shift key.
pub const RIGHT_SHIFT_BREAK: u8 = 0xB6;

/// The characters a set-1 make code produces: `(unshifted, shifted)`, or `None`
/// for a code that produces no character.
pub open spec fn key_chars(scancode: u8) -> Option<(char, char)> {
    match scancode {
        0x01 => Some(('\x1b', '\x1b')),
        0x0E => Some(('\x08', '\x08')),
        0x0F => Some(('\t', '\t')),
        0x1C => Some(('\n', '\n')),
        0x39 => Some((' ', ' ')),
        0x02 => Some(('1', '!')),
        0x03 => Some(('2', '@')),
        0x04 => Some(('3', '#')),
        0x05 => Some(('4', '$')),
        0x06 => Some(('5', '%')),
        0x07 => Some(('6', '^')),
        0x08 => Some(('7', '&')),
        0x09 => Some(('8', '*')),
        0x0A => Some(('9', '(')),
        0x0B => Some(('0', ')')),
        0x0C => Some(('-', '_')),
        0x0D => Some(('=', '+')),
        0x10 => Some(('q', 'Q')),
        0x11 => Some(('w', 'W')),
        0x12 => Some(('e', 'E')),
        0x13 => Some(('r', 'R')),
        0x14 => Some(('t', 'T')),
        0x15 => Some(('y', 'Y')),
        0x16 => Some(('u', 'U')),
        0x17 => Some(('i', 'I')),
        0x18 => Some(('o', 'O')),
        0x19 => Some(('p', 'P')),
        0x1A => Some(('[', '{')),
        0x1B => Some((']', '}')),
        0x1E => Some(('a', 'A')),
        0x1F => Some(('s', 'S')),
        0x20 => Some(('d', 'D')),
        0x21 => Some(('f', 'F')),
        0x22 => Some(('g', 'G')),
        0x23 => Some(('h', 'H')),
        0x24 => Some(('j', 'J')),
        0x25 => Some(('k', 'K')),
        0x26 => Some(('l', 'L')),
        0x27 => Some((';', ':')),
        0x28 => Some(('\'', '"')),
        0x2B => Some(('\\', '|')),
        0x2C => Some(('z', 'Z')),
        0x2D => Some(('x', 'X')),
        0x2E => Some(('c', 'C')),
        0x2F => Some(('v', 'V')),
        0x30 => Some(('b', 'B')),
        0x31 => Some(('n', 'N')),
        0x32 => Some(('m', 'M')),
        0x33 => Some((',', '<')),
        0x34 => Some(('.', '>')),
        0x35 => Some(('/', '?')),
        _ => None,
    }
}

/// The character that `scancode` produces with the given shift state.
pub open spec fn spec_decode(scancode: u8, shifted: bool) -> Option<char> {
    match key_chars(scancode) {
        Some(pair) => Some(if shifted { pair.1 } else { pair.0 }),
        None => None,
    }
}

/// Translate a set-1 make code to a character (US QWERTY), honouring shift.
pub fn scancode_to_char(scancode: u8, shifted: bool) -> (r: Option<char>)
    ensures
        r == spec_decode(scancode, shifted),
{
    match scancode {
        0x01 => Some('\x1b'),
        0x0E => Some('\x08'),
        0x0F => Some('\t'),
        0x1C => Some('\n'),
        0x39 => Some(' '),
        0x02 => Some(if shifted { '!' } else { '1' }),
        0x03 => Some(if shifted { '@' } else { '2' }),
        0x04 => Some(if shifted { '#' } else { '3' }),
        0x05 => Some(if shifted { '$' } else { '4' }),
        0x06 => Some(if shifted { '%' } else { '5' }),
        0x07 => Some(if shifted { '^' } else { '6' }),
        0x08 => Some(if shifted { '&' } else { '7' }),
        0x09 => Some(if shifted { '*' } else { '8' }),
        0x0A => Some(if shifted { '(' } else { '9' }),
        0x0B => Some(if shifted { ')' } else { '0' }),
        0x0C => Some(if shifted { '_' } else { '-' }),
        0x0D => Some(if shifted { '+' } else { '=' }),
        0x10 => Some(if shifted { 'Q' } else { 'q' }),
        0x11 => Some(if shifted { 'W' } else { 'w' }),
        0x12 => Some(if shifted { 'E' } else { 'e' }),
        0x13 => Some(if shifted { 'R' } else { 'r' }),
        0x14 => Some(if shifted { 'T' } else { 't' }),
        0x15 => Some(if shifted { 'Y' } else { 'y' }),
        0x16 => Some(if shifted { 'U' } else { 'u' }),
        0x17 => Some(if shifted { 'I' } else { 'i' }),
        0x18 => Some(if shifted { 'O' } else { 'o' }),
        0x19 => Some(if shifted { 'P' } else { 'p' }),
        0x1A => Some(if shifted { '{' } else { '[' }),
        0x1B => Some(if shifted { '}' } else { ']' }),
        0x1E => Some(if shifted { 'A' } else { 'a' }),
        0x1F => Some(if shifted { 'S' } else { 's' }),
        0x20 => Some(if shifted { 'D' } else { 'd' }),
        0x21 => Some(if shifted { 'F' } else { 'f' }),
        0x22 => Some(if shifted { 'G' } else { 'g' }),
        0x23 => Some(if shifted { 'H' } else { 'h' }),
        0x24 => Some(if shifted { 'J' } else { 'j' }),
        0x25 => Some(if shifted { 'K' } else { 'k' }),
        0x26 => Some(if shifted { 'L' } else { 'l' }),
        0x27 => Some(if shifted { ':' } else { ';' }),
        0x28 => Some(if shifted { '"' } else { '\'' }),
        0x2B => Some(if shifted { '|' } else { '\\' }),
        0x2C => Some(if shifted { 'Z' } else { 'z' }),
        0x2D => Some(if shifted { 'X' } else { 'x' }),
        0x2E => Some(if shifted { 'C' } else { 'c' }),
        0x2F => Some(if shifted { 'V' } else { 'v' }),
        0x30 => Some(if shifted { 'B' } else { 'b' }),
        0x31 => Some(if shifted { 'N' } else { 'n' }),
        0x32 => Some(if shifted { 'M' } else { 'm' }),
        0x33 => Some(if shifted { '<' } else { ',' }),
        0x34 => Some(if shifted { '>' } else { '.' }),
        0x35 => Some(if shifted { '?' } else { '/' }),
        _ => None,
    }
}

/// A fixed-capacity FIFO of keystrokes over a store of `N` slots. One slot is
/// kept free to tell "full" from "empty", so it holds at most `N - 1` items;
/// a push onto a full buffer drops the oldest item rather than panicking (it
/// runs in an interrupt handler).
pub struct RingBuffer<const N: usize> {
    data: Vec<char>,
    head: usize,
    tail: usize,
}

impl<const N: usize> View for RingBuffer<N> {
    type V = Seq<char>;

    /// The buffered keystrokes, oldest first.
    closed spec fn view(&self) -> Seq<char> {
        if self.tail <= self.head {
            self.data@.subrange(self.tail as int, self.head as int)
        } else {
            self.data@.subrange(self.tail as int, N as int) + self.data@.subrange(
                0,
                self.head as int,
            )
        }
    }
}

impl<const N: usize> RingBuffer<N> {
    /// Internal consistency of the indices and the backing store.
    pub closed spec fn wf(&self) -> bool {
        &&& self.data@.len() == N
        &&& (N == 0 ==> self.head == 0 && self.tail == 0)
        &&& (N > 0 ==> self.head < N && self.tail < N)
    }

    /// Slot the next keystroke is written to.
    pub closed spec fn write_index(&self) -> usize {
        self.head
    }

    /// An empty buffer.
    pub fn new() -> (r: Self)
        ensures
            r.wf(),
            r@ == Seq::<char>::empty(),
    {
        RingBuffer { data: vec!['\0'; N], head: 0, tail: 0 }
    }

    /// Every buffer holds fewer items than it has slots.
    pub proof fn lemma_len_bound(&self)
        requires
            self.wf(),
        ensures
            N == 0 ==> self@.len() == 0,
            N > 0 ==> self@.len() < N,
    {
    }

    /// Append `c`; when the buffer already holds `N - 1` items, the oldest one
    /// is dropped to make room.
    pub fn push(&mut self, c: char)
        requires
            old(self).wf(),
            N > 0,
        ensures
            final(self).wf(),
            final(self)@ == pushed(old(self)@, c, N as nat),
    {
        proof {
            lemma_succ_mod(self.head, N);
        }
        let next = (self.head + 1) % N;
        if next == self.tail {
            // Full: drop the oldest to make room.
            proof {
                lemma_succ_mod(self.tail, N);
            }
            self.tail = (self.tail + 1) % N;
        }
        self.data[self.head] = c;
        self.head = next;
        proof {
            if old(self)@.len() + 1 < N {
                assert(self@ =~= old(self)@.push(c));
            } else if old(self)@.len() > 0 {
                assert(self@ =~= old(self)@.drop_first().push(c));
            } else {
                assert(self@ =~= old(self)@);
            }
        }
    }

    /// Remove and return the oldest item, or `None` when empty.
    pub fn pop(&mut self) -> (r: Option<char>)
        requires
            old(self).wf(),
        ensures
            final(self).wf(),
            r == popped(old(self)@),
            final(self)@ == after_pop(old(self)@),
            old(self)@.len() == 0 ==> *final(self) == *old(self),
            final(self).write_index() == old(self).write_index(),
    {
        if self.head == self.tail {
            None
        } else {
            let c = self.data[self.tail];
            proof {
                lemma_succ_mod(self.tail, N);
            }
            self.tail = (self.tail + 1) % N;
            assert(self@ =~= old(self)@.drop_first());
            Some(c)
        }
    }
}

/// The contents of a buffer of `n` slots holding `s` after `c` is pushed:
/// appended while fewer than `n - 1` items are held; otherwise the oldest item
/// is dropped and `c` appended (a buffer with no room at all stays empty).
pub open spec fn pushed(s: Seq<char>, c: char, n: nat) -> Seq<char> {
    if s.len() + 1 < n {
        s.push(c)
    } else if s.len() > 0 {
        s.drop_first().push(c)
    } else {
        s
    }
}

/// What a pop of a buffer holding `s` returns: its oldest item, if any.
pub open spec fn popped(s: Seq<char>) -> Option<char> {
    if s.len() == 0 {
        None
    } else {
        Some(s[0])
    }
}

/// The contents after a pop of a buffer holding `s`.
pub open spec fn after_pop(s: Seq<char>) -> Seq<char> {
    if s.len() == 0 {
        s
    } else {
        s.drop_first()
    }
}

/// The contents after pushing each of `cs`, in order, onto `s`.
pub open spec fn pushed_all(s: Seq<char>, cs: Seq<char>, n: nat) -> Seq<char>
    decreases cs.len(),
{
    if cs.len() == 0 {
        s
    } else {
        pushed(pushed_all(s, cs.drop_last(), n), cs.last(), n)
    }
}

/// The contents after `k` pops of a buffer holding `s`.
pub open spec fn after_pops(s: Seq<char>, k: nat) -> Seq<char>
    decreases k,
{
    if k == 0 {
        s
    } else {
        after_pop(after_pops(s, (k - 1) as nat))
    }
}

/// First in, first out, nothing lost below capacity: pushing `cs` (at most
/// `n - 1` keystrokes) onto an empty buffer of `n` slots leaves exactly `cs`;
/// the `i`-th pop after that returns `cs[i]`, and the pop after the last one
/// returns `None`.
pub proof fn lemma_fifo(cs: Seq<char>, n: nat)
    requires
        cs.len() < n,
    ensures
        pushed_all(Seq::empty(), cs, n) == cs,
        forall|i: nat| i < cs.len() ==> #[trigger] popped(after_pops(cs, i)) == Some(cs[i as int]),
        popped(after_pops(cs, cs.len())) == None::<char>,
    decreases cs.len(),
{
    if cs.len() > 0 {
        lemma_fifo(cs.drop_last(), n);
        assert(cs.drop_last().push(cs.last()) =~= cs);
    }
    lemma_pops_skip(cs, cs.len());
    assert forall|i: nat| i < cs.len() implies #[trigger] popped(after_pops(cs, i)) == Some(cs[i as int]) by {
        lemma_pops_skip(cs, i);
    }
}

/// `k` pops of `s` (with `k` at most its length) leave its items from `k` on.
proof fn lemma_pops_skip(s: Seq<char>, k: nat)
    requires
        k <= s.len(),
    ensures
        after_pops(s, k) == s.subrange(k as int, s.len() as int),
    decreases k,
{
    if k > 0 {
        lemma_pops_skip(s, (k - 1) as nat);
        assert(s.subrange(k - 1, s.len() as int).drop_first() =~= s.subrange(k as int, s.len() as int));
    } else {
        assert(s.subrange(0, s.len() as int) =~= s);
    }
}

/// Advancing an index below `n` by one wraps to zero exactly at `n`.
proof fn lemma_succ_mod(i: usize, n: usize)
    requires
        i < n,
    ensures
        i + 1 < n ==> (i + 1) % (n as int) == i + 1,
        i + 1 == n ==> (i + 1) % (n as int) == 0,
{
    if i + 1 < n {
        vstd::arithmetic::div_mod::lemma_small_mod((i + 1) as nat, n as nat);
    } else {
        vstd::arithmetic::div_mod::lemma_mod_self_0(n as int);
    }
}

/// Keyboard driver state: whether a shift key is held, and the keystrokes not
/// yet read.
pub struct Keyboard {
    pub shift: bool,
    pub buf: RingBuffer<BUF_SIZE>,
}

impl Keyboard {
    /// Consistency of the keystroke buffer.
    pub open spec fn wf(&self) -> bool {
        self.buf.wf()
    }

    /// No shift held, nothing buffered.
    pub fn new() -> (r: Self)
        ensures
            r.wf(),
            !r.shift,
            r.buf@ == Seq::<char>::empty(),
    {
        Keyboard { shift: false, buf: RingBuffer::new() }
    }
}

/// The buffered keystrokes after `c` has been offered to a buffer holding `s`.
pub open spec fn buffered(s: Seq<char>, c: char) -> Seq<char> {
    pushed(s, c, BUF_SIZE as nat)
}

/// The keyboard state that a scancode leads to: `(shift, buffered keystrokes)`.
pub open spec fn spec_handle(shift: bool, s: Seq<char>, scancode: u8) -> (bool, Seq<char>) {
    if scancode == LEFT_SHIFT_MAKE || scancode == RIGHT_SHIFT_MAKE {
        (true, s)
    } else if scancode == LEFT_SHIFT_BREAK || scancode == RIGHT_SHIFT_BREAK {
        (false, s)
    } else if scancode & 0x80 != 0 {
        (shift, s)
    } else {
        match spec_decode(scancode, shift) {
            Some(c) => (shift, buffered(s, c)),
            None => (shift, s),
        }
    }
}

/// Process one scancode: track the shift keys, ignore other break codes, and
/// buffer the character of a make code.
pub fn handle_scancode(kb: &mut Keyboard, scancode: u8)
    requires
        old(kb).wf(),
    ensures
        final(kb).wf(),
        (final(kb).shift, final(kb).buf@) == spec_handle(old(kb).shift, old(kb).buf@, scancode),
{
    if scancode == LEFT_SHIFT_MAKE || scancode == RIGHT_SHIFT_MAKE {
        kb.shift = true;
        return;
    }
    if scancode == LEFT_SHIFT_BREAK || scancode == RIGHT_SHIFT_BREAK {
        kb.shift = false;
        return;
    }
    if scancode & 0x80 != 0 {
        return;
    }
    let shifted = kb.shift;
    if let Some(c) = scancode_to_char(scancode, shifted) {
        kb.buf.push(c);
    }
}

/// Non-blocking: the oldest buffered keystroke, or `None`.
pub fn read_char(kb: &mut Keyboard) -> (r: Option<char>)
    requires
        old(kb).wf(),
    ensures
        final(kb).wf(),
        final(kb).shift == old(kb).shift,
        r == popped(old(kb).buf@),
        final(kb).buf@ == after_pop(old(kb).buf@),
{
    kb.buf.pop()
}

/// The line being typed after key `c` is applied to `line`: backspace removes
/// the last character (if any), any other key but newline is appended.
pub open spec fn edit(line: Seq<char>, c: char) -> Seq<char> {
    if c == '\x08' {
        if line.len() > 0 {
            line.drop_last()
        } else {
            line
        }
    } else if c == '\n' {
        line
    } else {
        line.push(c)
    }
}

/// `String::push`: appends a character.
#[verifier::external_body]
fn string_push(s: &mut String, c: char)
    ensures
        final(s)@ == old(s)@.push(c),
{
    s.push(c)
}

/// `String::pop`: removes and returns the last character, `None` when empty.
#[verifier::external_body]
fn string_pop(s: &mut String) -> (r: Option<char>)
    ensures
        old(s)@.len() == 0 ==> r == None::<char> && final(s)@ == old(s)@,
        old(s)@.len() > 0 ==> r == Some(old(s)@.last()) && final(s)@ == old(s)@.drop_last(),
{
    s.pop()
}

/// Apply one keystroke to the line being read. Returns `true` when the key is
/// the newline that ends the line (the line is then left as it was).
pub fn read_line_key(line: &mut String, c: char) -> (done: bool)
    ensures
        done == (c == '\n'),
        final(line)@ == edit(old(line)@, c),
{
    if c == '\n' {
        true
    } else if c == '\x08' {
        let _ = string_pop(line);
        false
    } else {
        string_push(line, c);
        false
    }
}

/// The US QWERTY layout, key by key. The number row (make codes 0x02 to
/// 0x0D), the three letter rows (0x10 to 0x1B, 0x1E to 0x28, 0x2C to 0x35)
/// and the backslash key (0x2B) give the character printed on the key, the
/// lower one unshifted and the upper one with shift; escape (0x01), backspace
/// (0x0E), tab (0x0F), enter (0x1C) and space (0x39) give their control
/// character either way; every other code, the modifiers and the break codes
/// among them, gives none.
pub proof fn lemma_us_qwerty_layout(scancode: u8)
    ensures
        0x02 <= scancode <= 0x0D ==> spec_decode(scancode, false) == Some(
            seq!['1', '2', '3', '4', '5', '6', '7', '8', '9', '0', '-', '='][scancode - 0x02],
        ) && spec_decode(scancode, true) == Some(
            seq!['!', '@', '#', '$', '%', '^', '&', '*', '(', ')', '_', '+'][scancode - 0x02],
        ),
        0x10 <= scancode <= 0x1B ==> spec_decode(scancode, false) == Some(
            seq!['q', 'w', 'e', 'r', 't', 'y', 'u', 'i', 'o', 'p', '[', ']'][scancode - 0x10],
        ) && spec_decode(scancode, true) == Some(
            seq!['Q', 'W', 'E', 'R', 'T', 'Y', 'U', 'I', 'O', 'P', '{', '}'][scancode - 0x10],
        ),
        0x1E <= scancode <= 0x28 ==> spec_decode(scancode, false) == Some(
            seq!['a', 's', 'd', 'f', 'g', 'h', 'j', 'k', 'l', ';', '\''][scancode - 0x1E],
        ) && spec_decode(scancode, true) == Some(
            seq!['A', 'S', 'D', 'F', 'G', 'H', 'J', 'K', 'L', ':', '"'][scancode - 0x1E],
        ),
        0x2C <= scancode <= 0x35 ==> spec_decode(scancode, false) == Some(
            seq!['z', 'x', 'c', 'v', 'b', 'n', 'm', ',', '.', '/'][scancode - 0x2C],
        ) && spec_decode(scancode, true) == Some(
            seq!['Z', 'X', 'C', 'V', 'B', 'N', 'M', '<', '>', '?'][scancode - 0x2C],
        ),
        scancode == 0x2B ==> spec_decode(scancode, false) == Some('\\') && spec_decode(scancode, true) == Some('|'),
        scancode == 0x01 ==> spec_decode(scancode, false) == Some('\x1b') && spec_decode(scancode, true) == Some('\x1b'),
        scancode == 0x0E ==> spec_decode(scancode, false) == Some('\x08') && spec_decode(scancode, true) == Some('\x08'),
        scancode == 0x0F ==> spec_decode(scancode, false) == Some('\t') && spec_decode(scancode, true) == Some('\t'),
        scancode == 0x1C ==> spec_decode(scancode, false) == Some('\n') && spec_decode(scancode, true) == Some('\n'),
        scancode == 0x39 ==> spec_decode(scancode, false) == Some(' ') && spec_decode(scancode, true) == Some(' '),
        !(0x01 <= scancode <= 0x1C || 0x1E <= scancode <= 0x28 || 0x2B <= scancode <= 0x35 || scancode
            == 0x39) ==> spec_decode(scancode, false) is None && spec_decode(scancode, true) is None,
{
}

/// Distinct keys give distinct characters: in either shift state, two
/// different make codes that both produce a character produce different ones.
pub proof fn lemma_keys_distinct(a: u8, b: u8, shifted: bool)
    requires
        a != b,
        spec_decode(a, shifted) is Some,
        spec_decode(b, shifted) is Some,
    ensures
        spec_decode(a, shifted) != spec_decode(b, shifted),
{
}

/// Shift tracking: the make codes of the left and right shift keys (0x2A,
/// 0x36) hold shift and their break codes (0xAA, 0xB6) release it; no other
/// code changes the shift state, and no break code (bit 7 set) buffers a
/// keystroke.
pub proof fn lemma_shift_tracking(shift: bool, s: Seq<char>, scancode: u8)
    ensures
        scancode == 0x2A || scancode == 0x36 ==> spec_handle(shift, s, scancode) == (true, s),
        scancode == 0xAA || scancode == 0xB6 ==> spec_handle(shift, s, scancode) == (false, s),
        scancode >= 0x80 && scancode != 0xAA && scancode != 0xB6 ==> spec_handle(shift, s, scancode) == (
            shift,
            s,
        ),
        scancode != 0x2A && scancode != 0x36 && scancode != 0xAA && scancode != 0xB6 ==> spec_handle(
            shift,
            s,
            scancode,
        ).0 == shift,
{
    assert(scancode >= 0x80 <==> scancode & 0x80 != 0) by (bit_vector);
}

/// Backspace takes back the key typed just before it: after any key that is
/// neither backspace nor newline, a backspace gives the line as it was.
/// Newline leaves the line as it is.
pub proof fn lemma_backspace_undoes(line: Seq<char>, c: char)
    ensures
        c != '\x08' && c != '\n' ==> edit(edit(line, c), '\x08') == line,
        edit(line, '\n') == line,
        edit(line, '\x08').len() == if line.len() > 0 { line.len() - 1 } else { 0 },
{
    if c != '\x08' && c != '\n' {
        assert(line.push(c).drop_last() =~= line);
    }
}

/// Shift turns a letter key into its upper-case letter.
pub proof fn lemma_shift_uppercases(scancode: u8)
    ensures
        ({
            let d = spec_decode(scancode, false);
            d is Some && 'a' <= d->0 <= 'z' ==> spec_decode(scancode, true) == Some(
                ((d->0 as u32) - 32) as char,
            )
        }),
{
}

/// Keys other than letters, digits and punctuation ignore shift: escape,
/// backspace, tab, enter and space produce the same character either way.
pub proof fn lemma_control_keys_ignore_shift(scancode: u8)
    ensures
        ({
            let d = spec_decode(scancode, false);
            d is Some && (d->0 == '\x1b' || d->0 == '\x08' || d->0 == '\t' || d->0 == '\n' || d->0
                == ' ') ==> spec_decode(scancode, true) == d
        }),
{
}

/// Buffered keystrokes come out in the order they went in: after a scancode
/// that produces `c` is handled with room in the buffer, the next read
/// returns the oldest keystroke before it, or `c` when there was none.
pub proof fn lemma_keys_in_order(shift: bool, s: Seq<char>, scancode: u8)
    requires
        s.len() + 1 < BUF_SIZE,
        scancode & 0x80 == 0,
        scancode != LEFT_SHIFT_MAKE && scancode != RIGHT_SHIFT_MAKE,
        spec_decode(scancode, shift) is Some,
    ensures
        spec_handle(shift, s, scancode).1 == s.push(spec_decode(scancode, shift)->0),
        spec_handle(shift, s, scancode).1[0] == if s.len() == 0 {
            spec_decode(scancode, shift)->0
        } else {
            s[0]
        },
{
    assert(scancode != LEFT_SHIFT_BREAK && scancode != RIGHT_SHIFT_BREAK) by (bit_vector)
        requires scancode & 0x80 == 0, LEFT_SHIFT_BREAK == 0xAAu8, RIGHT_SHIFT_BREAK == 0xB6u8;
}

} // verus!
